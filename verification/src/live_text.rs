//! Planning of live-text replacement: how many Backspace presses erase the
//! obsolete tail of the text already typed, and which text is typed next.

use vstd::prelude::*;
use unicode_segmentation::UnicodeSegmentation;
use crate::text::{decimal, decimal_string, str_equal};
use crate::wide::{encode_utf16, utf16_of};

verus! {

/// The extended grapheme clusters of `text`, as `UnicodeSegmentation::graphemes(true)`
/// splits it.
pub uninterp spec fn grapheme_clusters(text: Seq<char>) -> Seq<Seq<char>>;

/// `UnicodeSegmentation::graphemes(text, true)`, each cluster copied out. The
/// clusters are non-empty and, in order, make up the whole text.
#[verifier::external_body]
pub(crate) fn graphemes_of(text: &str) -> (clusters: Vec<String>)
    ensures
        clusters@.map_values(|g: String| g@) == grapheme_clusters(text@),
        clusters@.map_values(|g: String| g@).flatten() == text@,
        forall|i: int| 0 <= i < clusters@.len() ==> (#[trigger] clusters@[i])@.len() > 0,
{
    text.graphemes(true).map(str::to_owned).collect()
}

/// Code units that `char::encode_utf16` produces for `c`.
pub open spec fn utf16_units(c: char) -> nat {
    if (c as u32) >= 0x10000 { 2 } else { 1 }
}

/// Length of the UTF-16 encoding of `s`.
pub open spec fn utf16_len(s: Seq<char>) -> nat
    decreases s.len(),
{
    if s.len() == 0 { 0 } else { utf16_len(s.drop_last()) + utf16_units(s.last()) }
}

/// The number of leading clusters, from index `k` on, on which `a` and `b` agree.
pub open spec fn common_from(a: Seq<Seq<char>>, b: Seq<Seq<char>>, k: int) -> int
    decreases a.len() - k,
{
    if 0 <= k < a.len() && k < b.len() && a[k] == b[k] {
        common_from(a, b, k + 1)
    } else {
        k
    }
}

/// The characters of each cluster.
pub open spec fn cluster_views(clusters: Seq<String>) -> Seq<Seq<char>> {
    clusters.map_values(|g: String| g@)
}

/// Length, in characters, of the leading clusters on which `a` and `b` agree.
pub open spec fn kept_prefix_len(a: Seq<Seq<char>>, b: Seq<Seq<char>>) -> int {
    a.take(common_from(a, b, 0)).flatten().len() as int
}

/// Whether every cluster is exactly one UTF-16 unit long.
pub open spec fn single_unit_clusters(clusters: Seq<Seq<char>>) -> bool {
    forall|i: int| 0 <= i < clusters.len() ==> utf16_len(#[trigger] clusters[i]) == 1
}

/// Length, in characters, of the longest common prefix of whole clusters.
pub open spec fn common_prefix_len(current: Seq<char>, next: Seq<char>) -> int {
    kept_prefix_len(grapheme_clusters(current), grapheme_clusters(next))
}

/// What the live-text plan is for replacing `current` by `next`: the number of
/// Backspace presses and the text to type, or `None` when the obsolete tail
/// holds a cluster that is not exactly one UTF-16 unit (a control may then
/// disagree on what one Backspace erases).
pub open spec fn replacement_plan(current: Seq<char>, next: Seq<char>) -> Option<(nat, Seq<char>)> {
    let prefix = common_prefix_len(current, next);
    let obsolete = current.skip(prefix);
    if single_unit_clusters(grapheme_clusters(obsolete)) {
        Some((utf16_len(obsolete), next.skip(prefix)))
    } else {
        None
    }
}

pub open spec fn atomic_erase_message() -> Seq<char> {
    "the changed live-text suffix contains Unicode that this Windows control may not erase atomically"@
}

/// Backspace presses and the text to type after them.
#[derive(Clone, Copy, Debug, PartialEq, Eq)]
pub struct TextReplacement<'a> {
    pub erase_keypresses: usize,
    pub insert: &'a str,
}

pub(crate) proof fn lemma_flatten_take_prefix(g: Seq<Seq<char>>, k: int)
    requires
        0 <= k <= g.len(),
    ensures
        g.take(k).flatten().len() <= g.flatten().len(),
        g.flatten().take(g.take(k).flatten().len() as int) == g.take(k).flatten(),
    decreases g.len(),
{
    if k == g.len() {
        assert(g.take(k) == g);
    } else {
        let d = g.drop_last();
        lemma_flatten_take_prefix(d, k);
        assert(d.take(k) == g.take(k));
        g.lemma_flatten_and_flatten_alt_are_equivalent();
        d.lemma_flatten_and_flatten_alt_are_equivalent();
        assert(g.flatten_alt() == d.flatten_alt() + g.last());
        assert(g.flatten() == d.flatten() + g.last());
        let p = g.take(k).flatten();
        assert(g.flatten().take(p.len() as int) =~= d.flatten().take(p.len() as int));
    }
}

pub(crate) proof fn lemma_flatten_take_step(g: Seq<Seq<char>>, k: int)
    requires
        0 <= k < g.len(),
    ensures
        g.take(k + 1).flatten() == g.take(k).flatten() + g[k],
{
    let t = g.take(k + 1);
    t.lemma_flatten_and_flatten_alt_are_equivalent();
    g.take(k).lemma_flatten_and_flatten_alt_are_equivalent();
    assert(t.drop_last() =~= g.take(k));
}

proof fn lemma_common_from_bounds(a: Seq<Seq<char>>, b: Seq<Seq<char>>, k: int)
    requires
        0 <= k <= a.len(),
        k <= b.len(),
        forall|i: int| 0 <= i < k ==> a[i] == b[i],
    ensures
        k <= common_from(a, b, k) <= a.len(),
        common_from(a, b, k) <= b.len(),
        forall|i: int| 0 <= i < common_from(a, b, k) ==> a[i] == b[i],
    decreases a.len() - k,
{
    if 0 <= k < a.len() && k < b.len() && a[k] == b[k] {
        lemma_common_from_bounds(a, b, k + 1);
    }
}

proof fn lemma_piece_within(g: Seq<Seq<char>>, j: int)
    requires
        0 <= j < g.len(),
    ensures
        g[j].len() <= g.flatten().len(),
{
    g.lemma_flatten_and_flatten_alt_are_equivalent();
    g.lemma_flatten_length_ge_single_element_length(j);
}

/// Length of the UTF-16 encoding of the characters of `s`.
fn utf16_count(s: &str) -> (n: usize)
    requires
        s@.len() <= isize::MAX,
    ensures
        n == utf16_len(s@),
{
    let len = s.unicode_len();
    let mut n: usize = 0;
    let mut i: usize = 0;
    while i < len
        invariant
            len == s@.len(),
            i <= len,
            n == utf16_len(s@.take(i as int)),
            n <= 2 * i,
            len <= isize::MAX,
        decreases len - i,
    {
        let c = s.get_char(i);
        assert(s@.take(i + 1).drop_last() =~= s@.take(i as int));
        if (c as u32) >= 0x10000 {
            n = n + 2;
        } else {
            n = n + 1;
        }
        i = i + 1;
    }
    assert(s@.take(len as int) == s@);
    n
}

/// The number of characters in the leading clusters on which two cluster
/// lists agree.
pub fn common_cluster_prefix(current_clusters: &Vec<String>, next_clusters: &Vec<String>) -> (n: usize)
    requires
        cluster_views(current_clusters@).flatten().len() <= usize::MAX,
    ensures
        n == kept_prefix_len(cluster_views(current_clusters@), cluster_views(next_clusters@)),
{
    let ghost a = cluster_views(current_clusters@);
    let ghost b = cluster_views(next_clusters@);
    let mut k: usize = 0;
    let mut prefix: usize = 0;
    proof {
        assert(a.take(0).flatten() =~= Seq::<char>::empty());
        lemma_common_from_bounds(a, b, 0);
    }
    while k < current_clusters.len() && k < next_clusters.len()
        && current_clusters[k] == next_clusters[k]
        invariant
            a == cluster_views(current_clusters@),
            b == cluster_views(next_clusters@),
            a.flatten().len() <= usize::MAX,
            k <= current_clusters.len(),
            k <= next_clusters.len(),
            forall|i: int| 0 <= i < k ==> a[i] == b[i],
            common_from(a, b, 0) == common_from(a, b, k as int),
            prefix == a.take(k as int).flatten().len(),
        decreases current_clusters.len() - k,
    {
        proof {
            lemma_flatten_take_step(a, k as int);
            lemma_flatten_take_prefix(a, k + 1);
        }
        assert(current_clusters@[k as int]@ == a[k as int]);
        let n = current_clusters[k].as_str().unicode_len();
        prefix = prefix + n;
        k = k + 1;
    }
    proof {
        lemma_common_from_bounds(a, b, k as int);
        assert(common_from(a, b, k as int) == k);
    }
    prefix
}

/// Whether every cluster of a list is a single UTF-16 unit, so that one
/// Backspace erases exactly one of them.
pub fn erases_atomically(clusters: &Vec<String>) -> (r: bool)
    requires
        cluster_views(clusters@).flatten().len() <= isize::MAX,
    ensures
        r == single_unit_clusters(cluster_views(clusters@)),
{
    let ghost o = cluster_views(clusters@);
    let mut j: usize = 0;
    while j < clusters.len()
        invariant
            o == cluster_views(clusters@),
            j <= clusters.len(),
            forall|i: int| 0 <= i < j ==> utf16_len(#[trigger] o[i]) == 1,
            o.flatten().len() <= isize::MAX,
        decreases clusters.len() - j,
    {
        assert(clusters@[j as int]@ == o[j as int]);
        proof {
            lemma_piece_within(o, j as int);
        }
        if utf16_count(clusters[j].as_str()) != 1 {
            assert(utf16_len(o[j as int]) != 1);
            return false;
        }
        j = j + 1;
    }
    true
}

/// Plans the keystrokes that turn the text already typed, `current`, into
/// `next`: the common prefix of whole grapheme clusters stays, the rest of
/// `current` is erased with one Backspace per UTF-16 unit, and the rest of
/// `next` is typed. Refused, before any key is sent, when the erased tail holds a
/// cluster that is not a single UTF-16 unit.
pub fn plan_replacement<'a>(current: &str, next: &'a str) -> (r: Result<TextReplacement<'a>, String>)
    requires
        current@.len() <= isize::MAX,
    ensures
        match r {
            Ok(plan) => replacement_plan(current@, next@)
                == Some((plan.erase_keypresses as nat, plan.insert@)),
            Err(message) => replacement_plan(current@, next@) is None
                && message@ == atomic_erase_message(),
        },
{
    let current_len = current.unicode_len();
    let next_len = next.unicode_len();
    let current_clusters = graphemes_of(current);
    let next_clusters = graphemes_of(next);
    let prefix = common_cluster_prefix(&current_clusters, &next_clusters);
    proof {
        let a = grapheme_clusters(current@);
        let b = grapheme_clusters(next@);
        let k = common_from(a, b, 0);
        lemma_common_from_bounds(a, b, 0);
        lemma_flatten_take_prefix(a, k);
        // The kept clusters are the same in both texts, so `next` starts with them too.
        lemma_flatten_take_prefix(b, k);
        assert(a.take(k) =~= b.take(k));
    }
    let obsolete = current.substring_char(prefix, current_len);
    assert(obsolete@ =~= current@.skip(prefix as int));
    let obsolete_clusters = graphemes_of(obsolete);
    if !erases_atomically(&obsolete_clusters) {
        return Err(String::from_str(
            "the changed live-text suffix contains Unicode that this Windows control may not erase atomically",
        ));
    }
    let erase = utf16_count(obsolete);
    let insert = next.substring_char(prefix, next_len);
    assert(insert@ =~= next@.skip(prefix as int));
    Ok(TextReplacement { erase_keypresses: erase, insert })
}

} // verus!

verus! {

/// Where live text goes on Windows: the window that owns the clipboard text and
/// the foreground window that receives keystrokes (0 when there was none).
#[derive(Clone, Copy, Debug)]
pub struct PasteTarget {
    clipboard_owner: isize,
    input_target: isize,
}

impl core::default::Default for PasteTarget {
    fn default() -> (t: Self)
        ensures
            t.clipboard_owner() == 0,
            t.input_target() == 0,
    {
        PasteTarget { clipboard_owner: 0, input_target: 0 }
    }
}

impl PasteTarget {
    pub closed spec fn clipboard_owner(self) -> isize {
        self.clipboard_owner
    }

    pub closed spec fn input_target(self) -> isize {
        self.input_target
    }

    /// A target from the clipboard owner's handle and the handle of the window
    /// that was in the foreground when the session started.
    pub fn new(clipboard_owner: isize, input_target: isize) -> (t: Self)
        ensures
            t.clipboard_owner() == clipboard_owner,
            t.input_target() == input_target,
    {
        PasteTarget { clipboard_owner, input_target }
    }

    pub fn clipboard_owner_handle(&self) -> (h: isize)
        ensures
            h == self.clipboard_owner(),
    {
        self.clipboard_owner
    }

    pub fn input_target_handle(&self) -> (h: isize)
        ensures
            h == self.input_target(),
    {
        self.input_target
    }
}

/// What one live-text update does next.
#[derive(Debug, PartialEq, Eq)]
pub enum LiveTextStep<'a> {
    /// The text on screen already matches; nothing is sent.
    Unchanged,
    /// Send these keystrokes, then report the outcome with `record_sent`.
    Send(TextReplacement<'a>),
}

pub open spec fn no_foreground_message() -> Seq<char> {
    "no foreground application was available for live text"@
}

pub open spec fn lost_focus_message() -> Seq<char> {
    "the application receiving voice input lost focus; live text was paused"@
}

pub open spec fn modifier_held_message() -> Seq<char> {
    "a keyboard modifier is held; live text was paused"@
}

pub open spec fn desynchronized_message() -> Seq<char> {
    "live text stopped after Windows accepted only part of an earlier update"@
}

/// The decision for one update to `text`, given the window in the foreground
/// now and whether a modifier key is held: an error, no keystrokes (`None`), or
/// the replacement plan.
pub open spec fn live_update_decision(
    input_target: isize,
    current: Seq<char>,
    desynchronized: bool,
    text: Seq<char>,
    foreground: isize,
    modifier_held: bool,
) -> Result<Option<(nat, Seq<char>)>, Seq<char>> {
    if input_target == 0 {
        Err(no_foreground_message())
    } else if foreground != input_target {
        Err(lost_focus_message())
    } else if modifier_held {
        Err(modifier_held_message())
    } else if desynchronized {
        Err(desynchronized_message())
    } else if current == text {
        Ok(None)
    } else {
        match replacement_plan(current, text) {
            None => Err(atomic_erase_message()),
            Some(plan) => Ok(Some(plan)),
        }
    }
}

/// Live text typed into the Windows foreground application, one snapshot at a
/// time: the text already typed, and whether an earlier update was only partly
/// accepted (after which live text stops).
pub struct RealtimeTextOutput {
    target: PasteTarget,
    current_text: String,
    desynchronized: bool,
}

impl RealtimeTextOutput {
    #[verifier::type_invariant]
    closed spec fn typed_text_fits(self) -> bool {
        self.current_text@.len() <= isize::MAX
    }

    pub closed spec fn target(self) -> PasteTarget {
        self.target
    }

    /// The text typed so far.
    pub closed spec fn typed(self) -> Seq<char> {
        self.current_text@
    }

    pub closed spec fn desynchronized(self) -> bool {
        self.desynchronized
    }

    pub fn new(target: PasteTarget) -> (out: Self)
        ensures
            out.target() == target,
            out.typed() == Seq::<char>::empty(),
            !out.desynchronized(),
    {
        RealtimeTextOutput { target, current_text: String::new(), desynchronized: false }
    }

    pub fn paste_target(&self) -> (t: PasteTarget)
        ensures
            t == self.target(),
    {
        self.target
    }

    /// Decides what updating the typed text to `text` does, given the window
    /// in the foreground now and whether a modifier key is held.
    pub fn plan_update<'a>(&self, text: &'a str, foreground: isize, modifier_held: bool) -> (r: Result<LiveTextStep<'a>, String>)
        ensures
            match r {
                Err(message) => live_update_decision(self.target().input_target(), self.typed(),
                    self.desynchronized(), text@, foreground, modifier_held) == Err::<Option<(nat, Seq<char>)>, _>(message@),
                Ok(LiveTextStep::Unchanged) => live_update_decision(self.target().input_target(), self.typed(),
                    self.desynchronized(), text@, foreground, modifier_held) == Ok::<_, Seq<char>>(None::<(nat, Seq<char>)>),
                Ok(LiveTextStep::Send(plan)) => live_update_decision(self.target().input_target(), self.typed(),
                    self.desynchronized(), text@, foreground, modifier_held)
                    == Ok::<_, Seq<char>>(Some((plan.erase_keypresses as nat, plan.insert@))),
            },
    {
        proof {
            use_type_invariant(self);
        }
        if self.target.input_target == 0 {
            return Err(String::from_str("no foreground application was available for live text"));
        }
        if foreground != self.target.input_target {
            return Err(String::from_str("the application receiving voice input lost focus; live text was paused"));
        }
        if modifier_held {
            return Err(String::from_str("a keyboard modifier is held; live text was paused"));
        }
        if self.desynchronized {
            return Err(String::from_str("live text stopped after Windows accepted only part of an earlier update"));
        }
        if str_equal(self.current_text.as_str(), text) {
            return Ok(LiveTextStep::Unchanged);
        }
        match plan_replacement(self.current_text.as_str(), text) {
            Ok(plan) => Ok(LiveTextStep::Send(plan)),
            Err(message) => Err(message),
        }
    }

    /// Records the outcome of sending the keystrokes for `text`: on success the
    /// typed text becomes `text`; on failure live text stops for good and the
    /// error is passed on.
    pub fn record_sent(&mut self, text: &str, sent: Result<(), String>) -> (r: Result<(), String>)
        requires
            text@.len() <= isize::MAX,
        ensures
            r == sent,
            final(self).target() == old(self).target(),
            sent is Ok ==> final(self).typed() == text@ && final(self).desynchronized() == old(self).desynchronized(),
            sent is Err ==> final(self).typed() == old(self).typed() && final(self).desynchronized(),
    {
        proof {
            use_type_invariant(&*self);
        }
        if sent.is_ok() {
            self.current_text = String::from_str(text);
        } else {
            self.desynchronized = true;
        }
        sent
    }
}

/// Once Windows has accepted only part of an update, no later update sends
/// anything: every decision is an error.
pub proof fn lemma_desynchronized_output_stays_silent(
    input_target: isize,
    current: Seq<char>,
    text: Seq<char>,
    foreground: isize,
    modifier_held: bool,
)
    ensures
        live_update_decision(input_target, current, true, text, foreground, modifier_held) is Err,
{
}

/// Re-sending the text already typed sends nothing.
pub proof fn lemma_same_snapshot_sends_nothing(input_target: isize, current: Seq<char>, foreground: isize)
    requires
        input_target != 0,
        foreground == input_target,
    ensures
        live_update_decision(input_target, current, false, current, foreground, false) == Ok::<_, Seq<char>>(None::<(nat, Seq<char>)>),
{
}


proof fn lemma_common_prefix_of_extension(a: Seq<Seq<char>>, extra: Seq<Seq<char>>, k: int)
    requires
        0 <= k <= a.len(),
    ensures
        common_from(a, a + extra, k) == a.len(),
    decreases a.len() - k,
{
    if k < a.len() {
        assert((a + extra)[k] == a[k]);
        lemma_common_prefix_of_extension(a, extra, k + 1);
    }
}

/// A snapshot that only adds grapheme clusters to the typed text keeps all of
/// it: nothing is obsolete, and exactly the added clusters are typed.
pub proof fn lemma_growing_snapshot_only_appends(current: Seq<char>, next: Seq<char>, extra: Seq<Seq<char>>)
    requires
        grapheme_clusters(next) == grapheme_clusters(current) + extra,
        grapheme_clusters(current).flatten() == current,
        grapheme_clusters(next).flatten() == next,
    ensures
        common_prefix_len(current, next) == current.len(),
        current.skip(common_prefix_len(current, next)).len() == 0,
        next.skip(common_prefix_len(current, next)) == extra.flatten(),
{
    let a = grapheme_clusters(current);
    lemma_common_prefix_of_extension(a, extra, 0);
    assert(a.take(a.len() as int) =~= a);
    vstd::seq_lib::lemma_flatten_concat(a, extra);
    assert(next.skip(current.len() as int) =~= extra.flatten());
}

/// The error `finish` reports when live text failed: the final text went to the
/// clipboard instead, or that failed too.
pub open spec fn finish_error_text(update_error: Seq<char>, clipboard: Result<(), Seq<char>>) -> Seq<char> {
    match clipboard {
        Ok(()) => update_error + "; the final text is on the clipboard"@,
        Err(clipboard_error) => update_error + "; could not copy the final text either: "@ + clipboard_error,
    }
}

/// Composes the error of a failed final update with the outcome of the
/// clipboard fallback.
pub fn finish_error(update_error: &str, clipboard: Result<(), String>) -> (message: String)
    ensures
        message@ == finish_error_text(update_error@, match clipboard {
            Ok(()) => Ok(()),
            Err(e) => Err(e@),
        }),
{
    let mut message = String::from_str(update_error);
    match clipboard {
        Ok(()) => {
            message.append("; the final text is on the clipboard");
        },
        Err(clipboard_error) => {
            message.append("; could not copy the final text either: ");
            message.append(clipboard_error.as_str());
        },
    }
    message
}

/// One keyboard input event for live text: a Backspace press or release, or
/// a press or release that types one UTF-16 code unit.
#[derive(Clone, Copy, Debug, PartialEq, Eq, Structural)]
pub enum KeyEvent {
    BackspaceDown,
    BackspaceUp,
    UnicodeDown(u16),
    UnicodeUp(u16),
}

/// `n` Backspace presses, each a press and a release.
pub open spec fn backspace_events(n: nat) -> Seq<KeyEvent>
    decreases n,
{
    if n == 0 {
        Seq::empty()
    } else {
        backspace_events((n - 1) as nat) + seq![KeyEvent::BackspaceDown, KeyEvent::BackspaceUp]
    }
}

/// A press and a release per code unit, in order.
pub open spec fn unicode_events(units: Seq<u16>) -> Seq<KeyEvent>
    decreases units.len(),
{
    if units.len() == 0 {
        Seq::empty()
    } else {
        unicode_events(units.drop_last()) + seq![KeyEvent::UnicodeDown(units.last()), KeyEvent::UnicodeUp(units.last())]
    }
}

/// The input events of a replacement: the Backspace presses, then the
/// inserted text one UTF-16 unit at a time.
pub open spec fn key_events(erase: nat, insert: Seq<char>) -> Seq<KeyEvent> {
    backspace_events(erase) + unicode_events(utf16_of(insert))
}

/// The input events that type a replacement.
pub fn replacement_events(plan: TextReplacement) -> (events: Vec<KeyEvent>)
    ensures
        events@ == key_events(plan.erase_keypresses as nat, plan.insert@),
{
    let mut events: Vec<KeyEvent> = Vec::new();
    let mut k: usize = 0;
    while k < plan.erase_keypresses
        invariant
            k <= plan.erase_keypresses,
            events@ == backspace_events(k as nat),
        decreases plan.erase_keypresses - k,
    {
        events.push(KeyEvent::BackspaceDown);
        events.push(KeyEvent::BackspaceUp);
        k = k + 1;
        assert(events@ =~= backspace_events(k as nat));
    }
    let units = encode_utf16(plan.insert);
    let ghost erased = events@;
    let mut u: usize = 0;
    while u < units.len()
        invariant
            u <= units@.len(),
            erased == backspace_events(plan.erase_keypresses as nat),
            events@ == erased + unicode_events(units@.take(u as int)),
        decreases units@.len() - u,
    {
        let unit = units[u];
        assert(units@.take(u + 1).drop_last() =~= units@.take(u as int));
        events.push(KeyEvent::UnicodeDown(unit));
        events.push(KeyEvent::UnicodeUp(unit));
        u = u + 1;
        assert(events@ =~= erased + unicode_events(units@.take(u as int)));
    }
    assert(units@.take(units@.len() as int) =~= units@);
    events
}

/// The outcome of handing `total` events to Windows, of which it accepted
/// `sent` (compared as Windows counts, in 32 bits).
pub open spec fn acceptance(sent: u32, total: nat) -> Result<(), Seq<char>> {
    if sent == total as u32 {
        Ok(())
    } else {
        Err("Windows accepted only "@ + decimal(sent as nat) + " of "@ + decimal(total) + " live text input events"@)
    }
}

pub open spec fn outcome(r: Result<(), String>) -> Result<(), Seq<char>> {
    match r {
        Ok(()) => Ok(()),
        Err(e) => Err(e@),
    }
}

/// Reports whether Windows accepted every input event sent.
pub fn input_acceptance(sent: u32, total: usize) -> (r: Result<(), String>)
    ensures
        outcome(r) == acceptance(sent, total as nat),
{
    if sent == total as u32 {
        Ok(())
    } else {
        let mut message = String::from_str("Windows accepted only ");
        message.append(decimal_string(sent as u64).as_str());
        message.append(" of ");
        message.append(decimal_string(total as u64).as_str());
        message.append(" live text input events");
        Err(message)
    }
}

/// The input events an update sends, if it sends any: those of the planned
/// replacement of an allowed update, when there is at least one.
pub open spec fn planned_events(
    input_target: isize,
    current: Seq<char>,
    desynchronized: bool,
    text: Seq<char>,
    foreground: isize,
    modifier_held: bool,
) -> Option<Seq<KeyEvent>> {
    match live_update_decision(input_target, current, desynchronized, text, foreground, modifier_held) {
        Ok(Some((erase, insert))) => if key_events(erase, insert).len() > 0 {
            Some(key_events(erase, insert))
        } else {
            None
        },
        _ => None,
    }
}

/// What `RealtimeTextOutput::update` does: a refused update, or one with
/// nothing to type, sends nothing and leaves the output as it was (a plan
/// without events counts as typed); otherwise the planned events are handed
/// to `send`, which reports how many Windows accepted, and the outcome is
/// recorded and returned. After a partly accepted update the output stays
/// desynchronized.
pub open spec fn update_effect<F: FnOnce(Vec<KeyEvent>) -> u32>(
    before: RealtimeTextOutput,
    after: RealtimeTextOutput,
    text: Seq<char>,
    foreground: isize,
    modifier_held: bool,
    send: F,
    r: Result<(), String>,
) -> bool {
    &&& after.target() == before.target()
    &&& match live_update_decision(before.target().input_target(), before.typed(), before.desynchronized(),
        text, foreground, modifier_held) {
        Err(message) => r is Err && r->Err_0@ == message && after.typed() == before.typed()
            && after.desynchronized() == before.desynchronized(),
        Ok(None) => r is Ok && after.typed() == before.typed() && after.desynchronized() == before.desynchronized(),
        Ok(Some((erase, insert))) => if key_events(erase, insert).len() == 0 {
            r is Ok && after.typed() == text && after.desynchronized() == before.desynchronized()
        } else {
            exists|events: Vec<KeyEvent>, sent: u32| {
                &&& events@ == key_events(erase, insert)
                &&& #[trigger] call_ensures(send, (events,), sent)
                &&& outcome(r) == acceptance(sent, events@.len())
                &&& r is Ok ==> after.typed() == text && after.desynchronized() == before.desynchronized()
                &&& r is Err ==> after.typed() == before.typed() && after.desynchronized()
            }
        },
    }
}

impl RealtimeTextOutput {
    /// Brings the typed text up to `text`, given the window in the foreground
    /// now and whether a modifier key is held. `send` hands the input events
    /// to Windows and returns how many it accepted; it is called only for the
    /// events of an allowed update.
    pub fn update<F: FnOnce(Vec<KeyEvent>) -> u32>(
        &mut self,
        text: &str,
        foreground: isize,
        modifier_held: bool,
        send: F,
    ) -> (r: Result<(), String>)
        requires
            text@.len() <= isize::MAX,
            forall|events: Vec<KeyEvent>| #[trigger] call_requires(send, (events,)) <== planned_events(
                old(self).target().input_target(), old(self).typed(), old(self).desynchronized(),
                text@, foreground, modifier_held) == Some(events@),
        ensures
            update_effect(*old(self), *final(self), text@, foreground, modifier_held, send, r),
    {
        match self.plan_update(text, foreground, modifier_held) {
            Err(message) => Err(message),
            Ok(LiveTextStep::Unchanged) => Ok(()),
            Ok(LiveTextStep::Send(plan)) => {
                let events = replacement_events(plan);
                let total = events.len();
                if total == 0 {
                    self.record_sent(text, Ok(()))
                } else {
                    let sent = send(events);
                    let accepted = input_acceptance(sent, total);
                    self.record_sent(text, accepted)
                }
            },
        }
    }

    /// The final update. When it fails, the final text goes to the clipboard
    /// through `copy` instead, and the error says so: the update's error
    /// followed by "; the final text is on the clipboard", or by the
    /// clipboard's own error when copying failed too. When the update
    /// succeeds, `copy` is not called.
    pub fn finish<F: FnOnce(Vec<KeyEvent>) -> u32, C: FnOnce(String) -> Result<(), String>>(
        &mut self,
        text: &str,
        foreground: isize,
        modifier_held: bool,
        send: F,
        copy: C,
    ) -> (r: Result<(), String>)
        requires
            text@.len() <= isize::MAX,
            forall|events: Vec<KeyEvent>| #[trigger] call_requires(send, (events,)) <== planned_events(
                old(self).target().input_target(), old(self).typed(), old(self).desynchronized(),
                text@, foreground, modifier_held) == Some(events@),
            forall|copied: String| #[trigger] call_requires(copy, (copied,)) <== copied@ == text@
                && update_may_fail(*old(self), text@, foreground, modifier_held, send),
        ensures
            exists|u: Result<(), String>| {
                &&& #[trigger] update_effect(*old(self), *final(self), text@, foreground, modifier_held, send, u)
                &&& finish_effect(u, text@, copy, r)
            },
    {
        let ghost sender = send;
        let ghost before = *self;
        match self.update(text, foreground, modifier_held, send) {
            Ok(()) => {
                assert(finish_effect(Ok(()), text@, copy, Ok(())));
                Ok(())
            },
            Err(error) => {
                let ghost u: Result<(), String> = Err(error);
                assert(update_effect(before, *self, text@, foreground, modifier_held, sender, u));
                assert(update_may_fail(before, text@, foreground, modifier_held, sender));
                let copied = String::from_str(text);
                let outcome_of_copy = copy(copied);
                let message = finish_error(error.as_str(), outcome_of_copy);
                Err(message)
            },
        }
    }
}

/// Whether an update can fail: it is refused, or it sends events of which
/// `send` may report that Windows accepted only some.
pub open spec fn update_may_fail<F: FnOnce(Vec<KeyEvent>) -> u32>(
    before: RealtimeTextOutput,
    text: Seq<char>,
    foreground: isize,
    modifier_held: bool,
    send: F,
) -> bool {
    match live_update_decision(before.target().input_target(), before.typed(), before.desynchronized(),
        text, foreground, modifier_held) {
        Err(_) => true,
        Ok(None) => false,
        Ok(Some((erase, insert))) => exists|events: Vec<KeyEvent>, sent: u32| {
            &&& events@ == key_events(erase, insert)
            &&& events@.len() > 0
            &&& #[trigger] call_ensures(send, (events,), sent)
            &&& acceptance(sent, events@.len()) is Err
        },
    }
}

/// What `finish` returns after the update returned `u`: success as is, and on
/// failure the text handed to `copy` and the update's error with the
/// clipboard's outcome appended.
pub open spec fn finish_effect<C: FnOnce(String) -> Result<(), String>>(
    u: Result<(), String>,
    text: Seq<char>,
    copy: C,
    r: Result<(), String>,
) -> bool {
    match u {
        Ok(()) => r is Ok,
        Err(e) => exists|copied: String, c: Result<(), String>| {
            &&& copied@ == text
            &&& #[trigger] call_ensures(copy, (copied,), c)
            &&& r is Err
            &&& r->Err_0@ == finish_error_text(e@, outcome(c))
        },
    }
}


/// How the input method's answer to a final commit is reported: a failed
/// call names the addon to install, and an undelivered commit means no
/// application had the focus.
pub open spec fn fcitx_commit_result(commit: Result<bool, Seq<char>>) -> Result<(), Seq<char>> {
    match commit {
        Err(error) => Err(
            "could not hand the text to fcitx5; build and install the addon from clients/fcitx5-addon, then restart fcitx5 ("@
                + error + ")"@,
        ),
        Ok(false) => Err("no application held the input focus, so the recognized text was not delivered"@),
        Ok(true) => Ok(()),
    }
}

/// The outcome of committing the final text through fcitx5 on Linux.
pub fn fcitx_delivery(commit: Result<bool, String>) -> (r: Result<(), String>)
    ensures
        match r {
            Ok(()) => fcitx_commit_result(match commit { Ok(b) => Ok(b), Err(e) => Err(e@) }) == Ok::<(), Seq<char>>(()),
            Err(m) => fcitx_commit_result(match commit { Ok(b) => Ok(b), Err(e) => Err(e@) }) == Err::<(), Seq<char>>(m@),
        },
{
    match commit {
        Err(error) => {
            let mut message = String::from_str(
                "could not hand the text to fcitx5; build and install the addon from clients/fcitx5-addon, then restart fcitx5 (",
            );
            message.append(error.as_str());
            message.append(")");
            Err(message)
        },
        Ok(false) => Err(String::from_str("no application held the input focus, so the recognized text was not delivered")),
        Ok(true) => Ok(()),
    }
}

/// The final text delivered through fcitx5 on Linux: when the connection to
/// the input method's bridge could not be made, its error as is, and `commit`
/// is not called; otherwise `commit` hands the text over and its answer is
/// reported as `fcitx_delivery` reports it.
pub fn fcitx_finish<C: FnOnce(String) -> Result<bool, String>>(
    connection: Result<(), String>,
    text: &str,
    commit: C,
) -> (r: Result<(), String>)
    requires
        forall|committed: String| #[trigger] call_requires(commit, (committed,)) <== connection is Ok
            && committed@ == text@,
    ensures
        match connection {
            Err(e) => r == Err::<(), String>(e),
            Ok(()) => exists|committed: String, answer: Result<bool, String>| {
                &&& committed@ == text@
                &&& #[trigger] call_ensures(commit, (committed,), answer)
                &&& outcome(r) == fcitx_commit_result(match answer { Ok(b) => Ok(b), Err(e) => Err(e@) })
            },
        },
{
    match connection {
        Err(e) => Err(e),
        Ok(()) => {
            let answer = commit(String::from_str(text));
            let ghost seen = answer;
            let r = fcitx_delivery(answer);
            assert(outcome(r) == fcitx_commit_result(match seen { Ok(b) => Ok(b), Err(e) => Err(e@) }));
            r
        },
    }
}

proof fn lemma_backspace_events_shape(n: nat)
    ensures
        backspace_events(n).len() == 2 * n,
        forall|i: int| 0 <= i < n ==> #[trigger] backspace_events(n)[2 * i] == KeyEvent::BackspaceDown
            && backspace_events(n)[2 * i + 1] == KeyEvent::BackspaceUp,
    decreases n,
{
    if n > 0 {
        lemma_backspace_events_shape((n - 1) as nat);
        let prev = backspace_events((n - 1) as nat);
        assert forall|i: int| 0 <= i < n implies #[trigger] backspace_events(n)[2 * i] == KeyEvent::BackspaceDown
            && backspace_events(n)[2 * i + 1] == KeyEvent::BackspaceUp by {
            if i < n - 1 {
                assert(prev[2 * i] == KeyEvent::BackspaceDown);
            }
        }
    }
}

proof fn lemma_unicode_events_shape(units: Seq<u16>)
    ensures
        unicode_events(units).len() == 2 * units.len(),
        forall|j: int| 0 <= j < units.len() ==> #[trigger] unicode_events(units)[2 * j] == KeyEvent::UnicodeDown(units[j])
            && unicode_events(units)[2 * j + 1] == KeyEvent::UnicodeUp(units[j]),
    decreases units.len(),
{
    if units.len() > 0 {
        let rest = units.drop_last();
        lemma_unicode_events_shape(rest);
        assert forall|j: int| 0 <= j < units.len() implies #[trigger] unicode_events(units)[2 * j]
            == KeyEvent::UnicodeDown(units[j]) && unicode_events(units)[2 * j + 1] == KeyEvent::UnicodeUp(units[j]) by {
            if j < units.len() - 1 {
                assert(unicode_events(rest)[2 * j] == KeyEvent::UnicodeDown(rest[j]));
                assert(rest[j] == units[j]);
            }
        }
    }
}

/// The keystrokes of a replacement: `erase` Backspace presses first, each a
/// press then a release, then each UTF-16 unit of the inserted text, in
/// order, as a press then a release, and nothing else.
pub proof fn lemma_replacement_keystrokes(erase: nat, insert: Seq<char>)
    ensures
        ({
            let events = key_events(erase, insert);
            let units = utf16_of(insert);
            &&& events.len() == 2 * erase + 2 * units.len()
            &&& forall|i: int| 0 <= i < erase ==> #[trigger] events[2 * i] == KeyEvent::BackspaceDown
                && events[2 * i + 1] == KeyEvent::BackspaceUp
            &&& forall|j: int| 0 <= j < units.len() ==> #[trigger] events[2 * erase + 2 * j] == KeyEvent::UnicodeDown(units[j])
                && events[2 * erase + 2 * j + 1] == KeyEvent::UnicodeUp(units[j])
        }),
{
    lemma_backspace_events_shape(erase);
    lemma_unicode_events_shape(utf16_of(insert));
    let events = key_events(erase, insert);
    let units = utf16_of(insert);
    assert forall|i: int| 0 <= i < erase implies #[trigger] events[2 * i] == KeyEvent::BackspaceDown
        && events[2 * i + 1] == KeyEvent::BackspaceUp by {
        assert(backspace_events(erase)[2 * i] == KeyEvent::BackspaceDown);
    }
    assert forall|j: int| 0 <= j < units.len() implies #[trigger] events[2 * erase + 2 * j]
        == KeyEvent::UnicodeDown(units[j]) && events[2 * erase + 2 * j + 1] == KeyEvent::UnicodeUp(units[j]) by {
        assert(unicode_events(units)[2 * j] == KeyEvent::UnicodeDown(units[j]));
    }
}

/// An update succeeds exactly when Windows accepted every event it was
/// handed; any shortfall is an error.
pub proof fn lemma_acceptance_needs_every_event(sent: u32, total: nat)
    requires
        total <= u32::MAX,
    ensures
        acceptance(sent, total) is Ok <==> sent == total,
{
}

proof fn lemma_utf16_len_concat(a: Seq<char>, b: Seq<char>)
    ensures
        utf16_len(a + b) == utf16_len(a) + utf16_len(b),
    decreases b.len(),
{
    if b.len() == 0 {
        assert(a + b =~= a);
    } else {
        lemma_utf16_len_concat(a, b.drop_last());
        assert((a + b).drop_last() =~= a + b.drop_last());
        assert((a + b).last() == b.last());
    }
}

proof fn lemma_utf16_len_at_least_len(s: Seq<char>)
    ensures
        utf16_len(s) >= s.len(),
    decreases s.len(),
{
    if s.len() > 0 {
        lemma_utf16_len_at_least_len(s.drop_last());
    }
}

/// Clusters that are each one UTF-16 unit are each one character, so their
/// text takes as many units as it has characters.
proof fn lemma_single_unit_clusters_count(o: Seq<Seq<char>>)
    requires
        single_unit_clusters(o),
        forall|i: int| 0 <= i < o.len() ==> (#[trigger] o[i]).len() > 0,
    ensures
        utf16_len(o.flatten()) == o.flatten().len(),
    decreases o.len(),
{
    if o.len() == 0 {
        assert(o.flatten() =~= Seq::<char>::empty());
    } else {
        let d = o.drop_last();
        assert forall|i: int| 0 <= i < d.len() implies utf16_len(#[trigger] d[i]) == 1 by {
            assert(d[i] == o[i]);
        }
        assert forall|i: int| 0 <= i < d.len() implies (#[trigger] d[i]).len() > 0 by {
            assert(d[i] == o[i]);
        }
        lemma_single_unit_clusters_count(d);
        o.lemma_flatten_and_flatten_alt_are_equivalent();
        d.lemma_flatten_and_flatten_alt_are_equivalent();
        assert(o.flatten() == d.flatten() + o.last());
        lemma_utf16_len_concat(d.flatten(), o.last());
        assert(utf16_len(o[o.len() - 1]) == 1);
        lemma_utf16_len_at_least_len(o.last());
    }
}

/// Typing a plan turns what was typed into the new snapshot: erasing
/// `erase` characters from the end of `current` and then typing `insert`
/// gives exactly `next`. (The clusters are those `graphemes_of` reports: they
/// are non-empty and make up their text.)
pub proof fn lemma_plan_turns_current_into_next(current: Seq<char>, next: Seq<char>)
    requires
        replacement_plan(current, next) is Some,
        grapheme_clusters(current).flatten() == current,
        grapheme_clusters(next).flatten() == next,
        grapheme_clusters(current.skip(common_prefix_len(current, next))).flatten()
            == current.skip(common_prefix_len(current, next)),
        forall|i: int| 0 <= i < grapheme_clusters(current.skip(common_prefix_len(current, next))).len()
            ==> (#[trigger] grapheme_clusters(current.skip(common_prefix_len(current, next)))[i]).len() > 0,
    ensures
        ({
            let (erase, insert) = replacement_plan(current, next)->Some_0;
            &&& erase <= current.len()
            &&& current.take(current.len() - erase) + insert == next
        }),
{
    let a = grapheme_clusters(current);
    let b = grapheme_clusters(next);
    let k = common_from(a, b, 0);
    let p = common_prefix_len(current, next);
    lemma_common_from_bounds(a, b, 0);
    lemma_flatten_take_prefix(a, k);
    lemma_flatten_take_prefix(b, k);
    assert(a.take(k) =~= b.take(k));
    assert(current.take(p) == next.take(p));
    let o = current.skip(p);
    lemma_single_unit_clusters_count(grapheme_clusters(o));
    assert(utf16_len(o) == o.len());
    assert(current.take(p) + next.skip(p) =~= next);
}

/// Live text is typed only into the window it started in, while it has the
/// focus and no modifier key is held: without a target window, with another
/// window in front, or with a modifier held, every update is refused before
/// anything is planned; otherwise a changed text follows the replacement
/// plan.
pub proof fn lemma_updates_go_only_to_the_focused_target(
    input_target: isize,
    current: Seq<char>,
    desynchronized: bool,
    text: Seq<char>,
    foreground: isize,
    modifier_held: bool,
)
    ensures
        input_target == 0 ==> live_update_decision(input_target, current, desynchronized, text, foreground, modifier_held) is Err,
        foreground != input_target ==> live_update_decision(input_target, current, desynchronized, text, foreground, modifier_held) is Err,
        modifier_held ==> live_update_decision(input_target, current, desynchronized, text, foreground, modifier_held) is Err,
        input_target != 0 && foreground == input_target && !modifier_held && !desynchronized && current != text ==> match
            replacement_plan(current, text) {
            Some(plan) => live_update_decision(input_target, current, desynchronized, text, foreground, modifier_held)
                == Ok::<_, Seq<char>>(Some(plan)),
            None => live_update_decision(input_target, current, desynchronized, text, foreground, modifier_held) is Err,
        },
{
}

} // verus!
