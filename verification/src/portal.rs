//! Global shortcut registration through the desktop portal: how failures are
//! classified, which of them are retried, and the desktop entry that names
//! the application to the portal.
use vstd::prelude::*;
use crate::bridge::{duration_from_parts, duration_of};
use crate::text::string_from_chars;

verus! {

/// The shortcut's identifier in the portal session.
pub const VOICE_SHORTCUT_ID: &'static str = "toggle-voice-input";

/// Wait before the single retry of a transient portal failure.
pub const PORTAL_RETRY_DELAY_MILLIS: u64 = 750;

/// Why registering the global shortcut failed.
#[derive(Clone, Debug, PartialEq, Eq)]
pub enum PortalShortcutError {
    Cancelled,
    Unavailable(String),
    Transient(String),
    Failed(String),
}

/// What the portal library reported, as far as classification needs it.
#[derive(Clone, Copy, Debug, PartialEq, Eq, Structural)]
pub enum PortalFailure {
    /// The request's response said the user cancelled.
    ResponseCancelled,
    /// The portal itself reported a cancellation.
    PortalCancelled,
    /// The request's response carried an unspecified failure.
    ResponseOther,
    /// No portal implementation answered.
    PortalNotFound,
    /// Anything else.
    Other,
}

/// The error a failure becomes; `text` is the library's own description.
pub open spec fn classified(kind: PortalFailure, text: Seq<char>) -> (Seq<char>, int) {
    match kind {
        PortalFailure::ResponseCancelled | PortalFailure::PortalCancelled => (Seq::empty(), 0),
        PortalFailure::ResponseOther => (text, 2),
        PortalFailure::PortalNotFound => (text, 1),
        PortalFailure::Other => (text, 3),
    }
}

/// The variant of an error as a number (cancelled, unavailable, transient,
/// failed) and the text it carries.
pub open spec fn error_parts(error: PortalShortcutError) -> (Seq<char>, int) {
    match error {
        PortalShortcutError::Cancelled => (Seq::empty(), 0),
        PortalShortcutError::Unavailable(t) => (t@, 1),
        PortalShortcutError::Transient(t) => (t@, 2),
        PortalShortcutError::Failed(t) => (t@, 3),
    }
}

/// Cancellations are final, a missing portal is reported as unavailable, an
/// unspecified response failure is transient, and the rest are failures.
pub fn classify_error(kind: PortalFailure, text: &str) -> (error: PortalShortcutError)
    ensures
        error_parts(error) == classified(kind, text@),
{
    match kind {
        PortalFailure::ResponseCancelled | PortalFailure::PortalCancelled => PortalShortcutError::Cancelled,
        PortalFailure::ResponseOther => PortalShortcutError::Transient(String::from_str(text)),
        PortalFailure::PortalNotFound => PortalShortcutError::Unavailable(String::from_str(text)),
        PortalFailure::Other => PortalShortcutError::Failed(String::from_str(text)),
    }
}

pub open spec fn error_message(error: PortalShortcutError) -> Seq<char> {
    match error {
        PortalShortcutError::Cancelled => "global shortcut authorization was cancelled"@,
        PortalShortcutError::Unavailable(t) => "global shortcuts portal unavailable: "@ + t@,
        PortalShortcutError::Transient(t) => "global shortcuts portal failed: "@ + t@,
        PortalShortcutError::Failed(t) => "global shortcuts portal failed: "@ + t@,
    }
}

impl PortalShortcutError {
    /// The text shown to the user.
    pub fn message(&self) -> (m: String)
        ensures
            m@ == error_message(*self),
    {
        match self {
            PortalShortcutError::Cancelled => String::from_str("global shortcut authorization was cancelled"),
            PortalShortcutError::Unavailable(text) => {
                let mut m = String::from_str("global shortcuts portal unavailable: ");
                m.append(text.as_str());
                m
            },
            PortalShortcutError::Transient(text) | PortalShortcutError::Failed(text) => {
                let mut m = String::from_str("global shortcuts portal failed: ");
                m.append(text.as_str());
                m
            },
        }
    }

    /// Whether this is the transient kind of failure.
    pub fn is_transient(&self) -> (r: bool)
        ensures
            r == (*self is Transient),
    {
        match self {
            PortalShortcutError::Transient(_) => true,
            _ => false,
        }
    }
}

/// Only the first transient failure is retried, after a short wait.
pub open spec fn retried(error: PortalShortcutError, retries: usize) -> bool {
    retries == 0 && error is Transient
}

/// The wait in milliseconds before retrying after `error`, when it is retried.
pub fn retry_delay_millis(error: &PortalShortcutError, retries: usize) -> (delay: Option<u64>)
    ensures
        delay == (if retried(*error, retries) { Some(PORTAL_RETRY_DELAY_MILLIS) } else { None::<u64> }),
{
    if retries == 0 && error.is_transient() {
        Some(PORTAL_RETRY_DELAY_MILLIS)
    } else {
        None
    }
}

/// The wait before retrying after `error`, when it is retried.
pub fn retry_delay(error: &PortalShortcutError, retries: usize) -> (delay: Option<core::time::Duration>)
    ensures
        delay == (if retried(*error, retries) { Some(duration_of(0, 750_000_000)) } else { None }),
{
    match retry_delay_millis(error, retries) {
        Some(millis) => Some(duration_from_parts(millis / 1000, ((millis % 1000) * 1_000_000) as u32)),
        None => None,
    }
}

/// How one character of a path is written in a desktop entry's `Exec` key.
pub open spec fn exec_escaped_char(c: char) -> Seq<char> {
    if c == '"' || c == '\\' || c == '$' || c == '`' {
        seq!['\\', c]
    } else if c == '%' {
        seq!['%', '%']
    } else {
        seq![c]
    }
}

pub open spec fn exec_escaped(s: Seq<char>) -> Seq<char>
    decreases s.len(),
{
    if s.len() == 0 {
        Seq::empty()
    } else {
        exec_escaped(s.drop_last()) + exec_escaped_char(s.last())
    }
}

/// A path quoted for a desktop entry's `Exec` key.
pub open spec fn exec_arg(path: Seq<char>) -> Seq<char> {
    seq!['"'] + exec_escaped(path) + seq!['"']
}

/// Quotes `path` for the `Exec` key: double quotes around it, a backslash
/// before `"`, `\`, `$` and `` ` ``, and `%` doubled.
pub fn desktop_exec_arg(path: &str) -> (r: String)
    ensures
        r@ == exec_arg(path@),
{
    let len = path.unicode_len();
    let mut escaped: Vec<char> = Vec::new();
    escaped.push('"');
    let mut i: usize = 0;
    while i < len
        invariant
            len == path@.len(),
            i <= len,
            escaped@ == seq!['"'] + exec_escaped(path@.take(i as int)),
        decreases len - i,
    {
        let c = path.get_char(i);
        proof {
            assert(path@.take(i as int + 1).drop_last() =~= path@.take(i as int));
        }
        let ghost before = escaped@;
        if c == '"' || c == '\\' || c == '$' || c == '`' {
            escaped.push('\\');
            escaped.push(c);
        } else if c == '%' {
            escaped.push('%');
            escaped.push('%');
        } else {
            escaped.push(c);
        }
        assert(escaped@ =~= before + exec_escaped_char(c));
        i = i + 1;
    }
    assert(path@.take(len as int) =~= path@);
    escaped.push('"');
    string_from_chars(escaped.as_slice())
}

pub open spec fn desktop_entry_head() -> Seq<char> {
    "[Desktop Entry]\nType=Application\nVersion=1.0\nName=Doubao Voice Client\nComment=Doubao voice input overlay\nExec="@
}

pub open spec fn desktop_entry_tail() -> Seq<char> {
    "Terminal=false\nNoDisplay=true\nCategories=Utility;\nStartupNotify=false\n"@
}

pub open spec fn icon_line(icon: Option<Seq<char>>) -> Seq<char> {
    match icon {
        Some(path) => "Icon="@ + path + "\n"@,
        None => Seq::empty(),
    }
}

/// The desktop entry that lets the portal identify the application.
pub open spec fn desktop_entry(executable: Seq<char>, icon: Option<Seq<char>>) -> Seq<char> {
    desktop_entry_head() + exec_arg(executable) + "\n"@ + icon_line(icon) + desktop_entry_tail()
}

/// The desktop entry for `executable`, with an `Icon` line when an icon
/// path is given.
pub fn desktop_entry_contents(executable: &str, icon: Option<&str>) -> (r: String)
    ensures
        r@ == desktop_entry(executable@, match icon { Some(p) => Some(p@), None => None }),
{
    let mut entry = String::from_str(
        "[Desktop Entry]\nType=Application\nVersion=1.0\nName=Doubao Voice Client\nComment=Doubao voice input overlay\nExec=",
    );
    let arg = desktop_exec_arg(executable);
    entry.append(arg.as_str());
    entry.append("\n");
    match icon {
        Some(path) => {
            entry.append("Icon=");
            entry.append(path);
            entry.append("\n");
        },
        None => {},
    }
    entry.append("Terminal=false\nNoDisplay=true\nCategories=Utility;\nStartupNotify=false\n");
    entry
}

/// Only a first transient failure is retried: never once a retry was made,
/// never a cancellation, an unavailable portal or another failure. Every
/// failure but a cancellation keeps the library's own description, and only
/// an unspecified response failure counts as transient.
pub proof fn lemma_only_a_first_transient_failure_is_retried(
    error: PortalShortcutError,
    retries: usize,
    kind: PortalFailure,
    text: Seq<char>,
)
    ensures
        retried(error, retries) ==> retries == 0,
        !(error is Transient) ==> !retried(error, retries),
        error is Transient ==> retried(error, 0),
        (classified(kind, text).1 == 0) == (kind == PortalFailure::ResponseCancelled || kind == PortalFailure::PortalCancelled),
        classified(kind, text).1 != 0 ==> classified(kind, text).0 == text,
        (classified(kind, text).1 == 2) == (kind == PortalFailure::ResponseOther),
{
}

} // verus!
