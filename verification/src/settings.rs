//! The settings window's logic: validating the bridge address and audio port,
//! reporting connection tests, and capturing a voice shortcut from key events.

use vstd::prelude::*;
use crate::linux_shortcut::{parse_shortcut, LinuxShortcut};
use crate::voice_config::ClientSettings;
use crate::text::{
    decimal, digit_char, lemma_trim_unchanged,
    trim, trim_chars,
    chars_of, is_key_name_char, is_key_name_char_exec, lower_seq, lowercase_chars, str_equal,
    string_from_chars,
};

verus! {

pub open spec fn is_digit(c: char) -> bool {
    '0' <= c && c <= '9'
}

/// The value of a run of decimal digits.
pub open spec fn digits_value(d: Seq<char>) -> int
    decreases d.len(),
{
    if d.len() == 0 { 0 } else { digits_value(d.drop_last()) * 10 + (d.last() as int - '0' as int) }
}

/// The digits of an unsigned number: the text after an optional `+`.
pub open spec fn unsigned_digits(s: Seq<char>) -> Seq<char> {
    if s.len() > 0 && s[0] == '+' { s.skip(1) } else { s }
}

/// `u16::from_str`: an optional `+`, then one or more decimal digits whose
/// value fits in `u16`.
pub open spec fn parse_u16_text(s: Seq<char>) -> Option<u16> {
    let d = unsigned_digits(s);
    if d.len() == 0 || !(forall|i: int| 0 <= i < d.len() ==> is_digit(#[trigger] d[i])) {
        None
    } else if digits_value(d) > u16::MAX {
        None
    } else {
        Some(digits_value(d) as u16)
    }
}

proof fn lemma_digits_value_nonnegative(d: Seq<char>)
    requires
        forall|i: int| 0 <= i < d.len() ==> is_digit(#[trigger] d[i]),
    ensures
        0 <= digits_value(d),
    decreases d.len(),
{
    if d.len() > 0 {
        assert(is_digit(d[d.len() - 1]));
        lemma_digits_value_nonnegative(d.drop_last());
    }
}

proof fn lemma_digits_value_grows(d: Seq<char>, k: int)
    requires
        0 <= k <= d.len(),
        forall|i: int| 0 <= i < d.len() ==> is_digit(#[trigger] d[i]),
    ensures
        0 <= digits_value(d.take(k)) <= digits_value(d),
    decreases d.len(),
{
    if k == d.len() {
        assert(d.take(k) =~= d);
        lemma_digits_value_nonnegative(d);
    } else {
        let e = d.drop_last();
        lemma_digits_value_grows(e, k);
        assert(e.take(k) =~= d.take(k));
        assert(is_digit(d[d.len() - 1]));
        lemma_digits_value_nonnegative(e);
    }
}

/// Parses a decimal `u16` as `str::parse::<u16>` does.
pub fn parse_u16(text: &Vec<char>) -> (r: Option<u16>)
    ensures
        r == parse_u16_text(text@),
{
    let start: usize = if text.len() > 0 && text[0] == '+' { 1 } else { 0 };
    let ghost d = unsigned_digits(text@);
    assert(d =~= text@.skip(start as int));
    if start >= text.len() {
        return None;
    }
    let mut value: u32 = 0;
    let mut i: usize = start;
    while i < text.len()
        invariant
            start <= i <= text.len(),
            d == text@.skip(start as int),
            d == unsigned_digits(text@),
            forall|j: int| 0 <= j < i - start ==> is_digit(#[trigger] d[j]),
            value as int == digits_value(d.take(i - start)),
            value <= u16::MAX,
        decreases text.len() - i,
    {
        let c = text[i];
        assert(d[i - start] == c);
        if !('0' <= c && c <= '9') {
            assert(!is_digit(d[i - start]));
            assert(i - start < d.len());
            return None;
        }
        let digit = (c as u32) - ('0' as u32);
        assert(d.take(i + 1 - start).drop_last() =~= d.take(i - start));
        assert(d.take(i + 1 - start).last() == c);
        value = value * 10 + digit;
        i = i + 1;
        if value > 65535 {
            proof {
                // Every digit so far is valid; the rest decide only between two errors.
                if forall|j: int| 0 <= j < d.len() ==> is_digit(#[trigger] d[j]) {
                    lemma_digits_value_grows(d, i - start);
                }
            }
            return None;
        }
    }
    assert(d.take(text.len() - start) =~= d);
    Some(value as u16)
}

pub open spec fn audio_port_message() -> Seq<char> {
    "音频端口必须是 1–65535"@
}

/// The audio port field: a decimal port from 1 to 65535.
pub fn parse_audio_port(value: &str) -> (r: Result<u16, &'static str>)
    ensures
        match r {
            Ok(port) => parse_u16_text(value@) == Some(port) && port != 0,
            Err(message) => message@ == audio_port_message()
                && (parse_u16_text(value@) is None || parse_u16_text(value@) == Some(0u16)),
        },
{
    let chars = chars_of(value);
    match parse_u16(&chars) {
        Some(port) => {
            if port != 0 {
                Ok(port)
            } else {
                Err("音频端口必须是 1–65535")
            }
        },
        None => Err("音频端口必须是 1–65535"),
    }
}

/// The status line after a connection test.
pub open spec fn connection_status_text(server: Seq<char>, result: Result<(), Seq<char>>) -> Seq<char> {
    match result {
        Ok(()) => "连接成功："@ + server,
        Err(error) => "连接失败："@ + error,
    }
}

pub fn connection_status(server: &str, result: Result<(), String>) -> (status: String)
    ensures
        status@ == connection_status_text(server@, match result {
            Ok(()) => Ok(()),
            Err(e) => Err(e@),
        }),
{
    match result {
        Ok(()) => {
            let mut s = String::from_str("连接成功：");
            s.append(server);
            s
        },
        Err(error) => {
            let mut s = String::from_str("连接失败：");
            s.append(error.as_str());
            s
        },
    }
}

/// Only the latest connection test may publish its result: each test takes a
/// new generation, and closing or editing invalidates the one in flight.
pub struct ConnectionTestTracker {
    generation: u64,
}

impl core::default::Default for ConnectionTestTracker {
    fn default() -> (t: Self)
        ensures
            t.generation() == 0,
    {
        ConnectionTestTracker { generation: 0 }
    }
}

pub open spec fn bump(g: u64) -> u64 {
    if g == u64::MAX { 0 } else { (g + 1) as u64 }
}

impl ConnectionTestTracker {
    pub closed spec fn generation(self) -> u64 {
        self.generation
    }

    /// Starts a test and returns its generation.
    pub fn begin(&mut self) -> (g: u64)
        ensures
            final(self).generation() == bump(old(self).generation()),
            g == final(self).generation(),
    {
        self.generation = self.generation.wrapping_add(1);
        self.generation
    }

    /// Invalidates the test in flight.
    pub fn invalidate(&mut self)
        ensures
            final(self).generation() == bump(old(self).generation()),
    {
        self.generation = self.generation.wrapping_add(1);
    }

    pub fn is_current(&self, generation: u64) -> (r: bool)
        ensures
            r == (generation == self.generation()),
    {
        self.generation == generation
    }
}

/// A newer test, or an invalidation, retires the generation handed to the
/// test before it: the generation after a bump is never the one before.
pub proof fn lemma_only_latest_test_publishes(g: u64)
    ensures
        bump(g) != g,
        bump(bump(g)) != bump(g),
{
}

pub open spec fn invalid_server_message(server: Seq<char>) -> Seq<char> {
    "invalid DOUBAO_BRIDGE_SERVER: "@ + server
}

/// Index of the last `c` in `s`, if any.
pub open spec fn last_index_of(s: Seq<char>, c: char) -> Option<int>
    decreases s.len(),
{
    if s.len() == 0 {
        None
    } else if s.last() == c {
        Some(s.len() - 1)
    } else {
        last_index_of(s.drop_last(), c)
    }
}

pub open spec fn is_bracket(c: char) -> bool {
    c == '[' || c == ']'
}

/// `str::trim_matches(['[', ']'])`: `s` without its leading and trailing brackets.
pub open spec fn trim_brackets(s: Seq<char>) -> Seq<char>
    decreases s.len(),
{
    if s.len() > 0 && is_bracket(s[0]) {
        trim_brackets(s.drop_first())
    } else if s.len() > 0 && is_bracket(s.last()) {
        trim_brackets(s.drop_last())
    } else {
        s
    }
}

/// The bridge address `host:port` split at its last colon; brackets around an
/// IPv6 host are removed.
pub open spec fn server_address(server: Seq<char>) -> Option<(Seq<char>, u16)> {
    match last_index_of(server, ':') {
        None => None,
        Some(i) => {
            let host = server.take(i);
            let port = server.skip(i + 1);
            if host.len() == 0 || port.len() == 0 {
                None
            } else {
                match parse_u16_text(port) {
                    None => None,
                    Some(p) => Some((trim_brackets(host), p)),
                }
            }
        },
    }
}

proof fn lemma_last_index_bounds(s: Seq<char>, c: char)
    ensures
        last_index_of(s, c) matches Some(i) ==> 0 <= i < s.len() && s[i] == c,
    decreases s.len(),
{
    if s.len() > 0 && s.last() != c {
        lemma_last_index_bounds(s.drop_last(), c);
    }
}

fn last_colon(s: &Vec<char>) -> (r: Option<usize>)
    ensures
        match r {
            Some(i) => last_index_of(s@, ':') == Some(i as int) && i < s@.len(),
            None => last_index_of(s@, ':') is None,
        },
{
    let mut i: usize = s.len();
    assert(s@.take(i as int) =~= s@);
    while i > 0
        invariant
            i <= s.len(),
            last_index_of(s@, ':') == last_index_of(s@.take(i as int), ':'),
        decreases i,
    {
        let ghost t = s@.take(i as int);
        assert(t.drop_last() =~= s@.take(i - 1));
        if s[i - 1] == ':' {
            return Some(i - 1);
        }
        i = i - 1;
    }
    None
}

fn copy_range(s: &Vec<char>, from: usize, to: usize) -> (r: Vec<char>)
    requires
        from <= to <= s.len(),
    ensures
        r@ == s@.subrange(from as int, to as int),
{
    let mut r: Vec<char> = Vec::new();
    let mut i = from;
    while i < to
        invariant
            from <= i <= to,
            to <= s.len(),
            r@ == s@.subrange(from as int, i as int),
        decreases to - i,
    {
        r.push(s[i]);
        i = i + 1;
        assert(r@ =~= s@.subrange(from as int, i as int));
    }
    r
}

fn trim_bracket_chars(s: &Vec<char>) -> (r: Vec<char>)
    ensures
        r@ == trim_brackets(s@),
{
    let mut start: usize = 0;
    let mut end: usize = s.len();
    assert(s@.subrange(0, end as int) =~= s@);
    while start < end && (s[start] == '[' || s[start] == ']')
        invariant
            start <= end,
            end == s.len(),
            trim_brackets(s@) == trim_brackets(s@.subrange(start as int, end as int)),
        decreases end - start,
    {
        assert(s@.subrange(start as int, end as int).drop_first() =~= s@.subrange(start + 1, end as int));
        start = start + 1;
    }
    while start < end && (s[end - 1] == '[' || s[end - 1] == ']')
        invariant
            start <= end <= s.len(),
            start == end || !is_bracket(s@[start as int]),
            trim_brackets(s@) == trim_brackets(s@.subrange(start as int, end as int)),
        decreases end - start,
    {
        let ghost t = s@.subrange(start as int, end as int);
        assert(t.drop_last() =~= s@.subrange(start as int, end - 1));
        assert(t[0] == s@[start as int]);
        end = end - 1;
    }
    let ghost t = s@.subrange(start as int, end as int);
    if start < end {
        assert(t[0] == s@[start as int]);
        assert(t.last() == s@[end - 1]);
    }
    copy_range(s, start, end)
}

/// Splits the bridge address into host and port.
pub fn parse_server(server: &str) -> (r: Result<(String, u16), String>)
    ensures
        match r {
            Ok((host, port)) => server_address(server@) == Some((host@, port)),
            Err(message) => server_address(server@) is None && message@ == invalid_server_message(server@),
        },
{
    let chars = chars_of(server);
    let mut message = String::from_str("invalid DOUBAO_BRIDGE_SERVER: ");
    message.append(server);
    let i = match last_colon(&chars) {
        Some(i) => i,
        None => {
            return Err(message);
        },
    };
    if i == 0 || i + 1 == chars.len() {
        return Err(message);
    }
    let host = copy_range(&chars, 0, i);
    let port_text = copy_range(&chars, i + 1, chars.len());
    assert(host@ =~= chars@.take(i as int));
    assert(port_text@ =~= chars@.skip(i + 1));
    match parse_u16(&port_text) {
        None => Err(message),
        Some(port) => {
            let trimmed = trim_bracket_chars(&host);
            Ok((string_from_chars(trimmed.as_slice()), port))
        },
    }
}


/// The Windows settings window's reading of the server field: the same split
/// as `server_address`, with a message for each way it fails.
pub open spec fn shell_server_address(server: Seq<char>) -> Result<(Seq<char>, u16), Seq<char>> {
    match last_index_of(server, ':') {
        None => Err("Enter an address like 100.64.0.1:4387"@),
        Some(i) => {
            if i == 0 || i + 1 == server.len() {
                Err("Enter an address like 100.64.0.1:4387"@)
            } else {
                match parse_u16_text(server.skip(i + 1)) {
                    None => Err("The server port is invalid"@),
                    Some(p) => Ok((trim_brackets(server.take(i)), p)),
                }
            }
        },
    }
}

/// Splits the server field before a connection test, reporting a missing
/// host or port and an invalid port separately.
pub fn parse_shell_server(server: &str) -> (r: Result<(String, u16), String>)
    ensures
        match r {
            Ok((host, port)) => shell_server_address(server@) == Ok::<_, Seq<char>>((host@, port)),
            Err(message) => shell_server_address(server@) == Err::<(Seq<char>, u16), _>(message@),
        },
{
    let chars = chars_of(server);
    let i = match last_colon(&chars) {
        Some(i) => i,
        None => {
            return Err(String::from_str("Enter an address like 100.64.0.1:4387"));
        },
    };
    if i == 0 || i + 1 == chars.len() {
        return Err(String::from_str("Enter an address like 100.64.0.1:4387"));
    }
    let host = copy_range(&chars, 0, i);
    let port_text = copy_range(&chars, i + 1, chars.len());
    assert(host@ =~= chars@.take(i as int));
    assert(port_text@ =~= chars@.skip(i + 1));
    match parse_u16(&port_text) {
        None => Err(String::from_str("The server port is invalid")),
        Some(port) => {
            let trimmed = trim_bracket_chars(&host);
            Ok((string_from_chars(trimmed.as_slice()), port))
        },
    }
}

/// Modifier names the shortcut field ignores as keys.
pub open spec fn is_modifier_key_name(lower: Seq<char>) -> bool {
    lower == "control"@ || lower == "ctrl"@ || lower == "alt"@ || lower == "shift"@
        || lower == "super"@ || lower == "logo"@ || lower == "meta"@
}

/// The key a key event contributes to a shortcut: its name lower-cased,
/// unless it is a modifier or holds anything but ASCII letters, digits and `_`.
pub open spec fn shortcut_key_of(raw: Seq<char>) -> Option<Seq<char>> {
    let lower = lower_seq(raw);
    if is_modifier_key_name(lower) {
        None
    } else if forall|i: int| 0 <= i < lower.len() ==> is_key_name_char(#[trigger] lower[i]) {
        Some(lower)
    } else {
        None
    }
}

pub fn normal_shortcut_key(raw: &str) -> (r: Option<String>)
    ensures
        match r {
            Some(k) => shortcut_key_of(raw@) == Some(k@),
            None => shortcut_key_of(raw@) is None,
        },
{
    let chars = chars_of(raw);
    let lower = lowercase_chars(&chars);
    let key = string_from_chars(lower.as_slice());
    assert(chars@ == raw@);
    if str_equal(key.as_str(), "control") || str_equal(key.as_str(), "ctrl") || str_equal(key.as_str(), "alt")
        || str_equal(key.as_str(), "shift") || str_equal(key.as_str(), "super") || str_equal(key.as_str(), "logo")
        || str_equal(key.as_str(), "meta") {
        return None;
    }
    let mut i: usize = 0;
    while i < lower.len()
        invariant
            lower@ == lower_seq(raw@),
            key@ == lower@,
            !is_modifier_key_name(lower@),
            i <= lower.len(),
            forall|j: int| 0 <= j < i ==> is_key_name_char(#[trigger] lower@[j]),
        decreases lower.len() - i,
    {
        if !is_key_name_char_exec(lower[i]) {
            return None;
        }
        i = i + 1;
    }
    Some(key)
}


/// The modifier keys a shortcut capture reads from a key event.
#[derive(Clone, Copy, Debug, PartialEq, Eq, Structural)]
pub struct CaptureModifiers {
    pub control: bool,
    pub alt: bool,
    pub shift: bool,
    pub platform: bool,
}

pub open spec fn no_capture_modifiers() -> CaptureModifiers {
    CaptureModifiers { control: false, alt: false, shift: false, platform: false }
}

impl core::default::Default for CaptureModifiers {
    fn default() -> (m: Self)
        ensures
            m == no_capture_modifiers(),
    {
        CaptureModifiers { control: false, alt: false, shift: false, platform: false }
    }
}

/// Joins pieces with `+` between them.
pub open spec fn join_plus(parts: Seq<Seq<char>>) -> Seq<char>
    decreases parts.len(),
{
    if parts.len() == 0 {
        Seq::empty()
    } else if parts.len() == 1 {
        parts[0]
    } else {
        join_plus(parts.drop_last()) + seq!['+'] + parts.last()
    }
}

/// The pieces of a captured shortcut: held modifiers as CTRL, ALT, SHIFT, LOGO,
/// then the pressed key.
pub open spec fn capture_parts(m: CaptureModifiers, key: Option<Seq<char>>) -> Seq<Seq<char>> {
    (if m.control { seq![seq!['C', 'T', 'R', 'L']] } else { Seq::empty() })
    + (if m.alt { seq![seq!['A', 'L', 'T']] } else { Seq::empty() })
    + (if m.shift { seq![seq!['S', 'H', 'I', 'F', 'T']] } else { Seq::empty() })
    + (if m.platform { seq![seq!['L', 'O', 'G', 'O']] } else { Seq::empty() })
    + (match key {
        Some(k) => seq![k],
        None => Seq::empty(),
    })
}

/// The shortcut as it is being captured, such as `CTRL+ALT+v`.
pub open spec fn live_value_of(m: CaptureModifiers, key: Option<Seq<char>>) -> Seq<char> {
    join_plus(capture_parts(m, key))
}

/// The state of the shortcut field, as plain values.
pub struct CaptureState {
    pub committed: Seq<char>,
    pub modifiers: CaptureModifiers,
    pub pressed: Option<Seq<char>>,
    pub capturing: bool,
    pub session_has_key: bool,
}

/// A key press while capturing: a non-repeating press of a key that can be
/// part of a shortcut records the key and the modifiers held with it.
pub open spec fn after_capture(s: CaptureState, raw: Seq<char>, m: CaptureModifiers, is_held: bool, focused: bool) -> (bool, CaptureState) {
    if !focused || !s.capturing || is_held {
        (false, s)
    } else {
        match shortcut_key_of(raw) {
            None => (false, s),
            Some(key) => (true, CaptureState {
                committed: live_value_of(m, Some(key)),
                modifiers: m,
                pressed: Some(key),
                session_has_key: true,
                ..s
            }),
        }
    }
}

/// A key release while capturing: releasing the recorded key completes the chord.
pub open spec fn after_release(s: CaptureState, raw: Seq<char>, focused: bool) -> (bool, CaptureState) {
    if !focused || !s.capturing {
        (false, s)
    } else {
        match shortcut_key_of(raw) {
            Some(key) => if s.pressed == Some(key) {
                (true, CaptureState { capturing: false, ..s })
            } else {
                (false, s)
            },
            None => (false, s),
        }
    }
}

/// A modifier change while capturing: once a key was recorded, releasing any
/// held modifier completes the chord; otherwise the modifiers are tracked, and
/// the committed value follows them once a key was recorded.
pub open spec fn after_modifiers_changed(s: CaptureState, m: CaptureModifiers, focused: bool) -> (bool, CaptureState) {
    if !focused || !s.capturing {
        (false, s)
    } else {
        let released = (s.modifiers.control && !m.control) || (s.modifiers.alt && !m.alt)
            || (s.modifiers.shift && !m.shift) || (s.modifiers.platform && !m.platform);
        if s.session_has_key && released {
            (true, CaptureState { capturing: false, ..s })
        } else if s.session_has_key {
            (true, CaptureState { modifiers: m, committed: live_value_of(m, s.pressed), ..s })
        } else {
            (true, CaptureState { modifiers: m, ..s })
        }
    }
}

/// Captures a voice shortcut from key events in the settings window.
pub struct ShortcutCapture {
    committed: String,
    modifiers: CaptureModifiers,
    pressed_key: Option<String>,
    capturing: bool,
    session_has_key: bool,
}

pub open spec fn opt_chars(s: Option<String>) -> Option<Seq<char>> {
    match s {
        Some(t) => Some(t@),
        None => None,
    }
}

fn push_word(target: &mut Vec<char>, word: &Vec<char>)
    ensures
        final(target)@ == old(target)@ + word@,
{
    let mut i: usize = 0;
    while i < word.len()
        invariant
            i <= word.len(),
            target@ == old(target)@ + word@.subrange(0, i as int),
        decreases word.len() - i,
    {
        target.push(word[i]);
        i = i + 1;
        assert(target@ =~= old(target)@ + word@.subrange(0, i as int));
    }
    assert(word@.subrange(0, word.len() as int) == word@);
}

fn live_value_text(m: CaptureModifiers, key: &Option<String>) -> (r: String)
    ensures
        r@ == live_value_of(m, opt_chars(*key)),
{
    let mut parts: Vec<Vec<char>> = Vec::new();
    if m.control {
        parts.push(chars_of("CTRL"));
    }
    if m.alt {
        parts.push(chars_of("ALT"));
    }
    if m.shift {
        parts.push(chars_of("SHIFT"));
    }
    if m.platform {
        parts.push(chars_of("LOGO"));
    }
    match key {
        Some(k) => parts.push(chars_of(k.as_str())),
        None => {},
    }
    proof {
        reveal_strlit("CTRL");
        reveal_strlit("ALT");
        reveal_strlit("SHIFT");
        reveal_strlit("LOGO");
        assert("CTRL"@ =~= seq!['C', 'T', 'R', 'L']);
        assert("ALT"@ =~= seq!['A', 'L', 'T']);
        assert("SHIFT"@ =~= seq!['S', 'H', 'I', 'F', 'T']);
        assert("LOGO"@ =~= seq!['L', 'O', 'G', 'O']);
        assert(parts@.map_values(|p: Vec<char>| p@) =~= capture_parts(m, opt_chars(*key)));
    }
    let ghost pieces = parts@.map_values(|p: Vec<char>| p@);
    let mut out: Vec<char> = Vec::new();
    let mut i: usize = 0;
    assert(pieces.take(0) =~= Seq::<Seq<char>>::empty());
    while i < parts.len()
        invariant
            i <= parts.len(),
            pieces == parts@.map_values(|p: Vec<char>| p@),
            out@ == join_plus(pieces.take(i as int)),
        decreases parts.len() - i,
    {
        assert(pieces.take(i + 1).drop_last() =~= pieces.take(i as int));
        if i > 0 {
            out.push('+');
        } else {
            assert(out@ =~= Seq::<char>::empty());
        }
        push_word(&mut out, &parts[i]);
        i = i + 1;
        assert(out@ =~= join_plus(pieces.take(i as int)));
    }
    assert(pieces.take(parts.len() as int) =~= pieces);
    string_from_chars(out.as_slice())
}

impl ShortcutCapture {
    pub closed spec fn state(self) -> CaptureState {
        CaptureState {
            committed: self.committed@,
            modifiers: self.modifiers,
            pressed: opt_chars(self.pressed_key),
            capturing: self.capturing,
            session_has_key: self.session_has_key,
        }
    }

    /// A field showing the saved shortcut `value`, not capturing.
    pub fn new(value: String) -> (c: Self)
        ensures
            c.state() == (CaptureState {
                committed: value@,
                modifiers: no_capture_modifiers(),
                pressed: None,
                capturing: false,
                session_has_key: false,
            }),
    {
        ShortcutCapture {
            committed: value,
            modifiers: CaptureModifiers::default(),
            pressed_key: None,
            capturing: false,
            session_has_key: false,
        }
    }

    /// Clicking the field starts a new capture.
    pub fn focus(&mut self)
        ensures
            final(self).state() == (CaptureState {
                modifiers: no_capture_modifiers(),
                pressed: None,
                capturing: true,
                session_has_key: false,
                ..old(self).state()
            }),
    {
        self.modifiers = CaptureModifiers::default();
        self.pressed_key = None;
        self.capturing = true;
        self.session_has_key = false;
    }

    /// A key press; returns whether the field must be redrawn.
    pub fn capture(&mut self, raw_key: &str, modifiers: CaptureModifiers, is_held: bool, focused: bool) -> (redraw: bool)
        ensures
            (redraw, final(self).state()) == after_capture(old(self).state(), raw_key@, modifiers, is_held, focused),
    {
        if !focused || !self.capturing || is_held {
            return false;
        }
        let key = match normal_shortcut_key(raw_key) {
            Some(k) => k,
            None => {
                return false;
            },
        };
        self.modifiers = modifiers;
        self.pressed_key = Some(key);
        self.committed = live_value_text(self.modifiers, &self.pressed_key);
        self.session_has_key = true;
        true
    }

    /// A key release; returns whether the field must be redrawn.
    pub fn release(&mut self, raw_key: &str, focused: bool) -> (redraw: bool)
        ensures
            (redraw, final(self).state()) == after_release(old(self).state(), raw_key@, focused),
    {
        if !focused || !self.capturing {
            return false;
        }
        let key = match normal_shortcut_key(raw_key) {
            Some(k) => k,
            None => {
                return false;
            },
        };
        let same = match &self.pressed_key {
            Some(pressed) => str_equal(pressed.as_str(), key.as_str()),
            None => false,
        };
        if same {
            self.capturing = false;
            true
        } else {
            false
        }
    }

    /// A change of the held modifiers; returns whether the field must be redrawn.
    pub fn modifiers_changed(&mut self, modifiers: CaptureModifiers, focused: bool) -> (redraw: bool)
        ensures
            (redraw, final(self).state()) == after_modifiers_changed(old(self).state(), modifiers, focused),
    {
        if !focused || !self.capturing {
            return false;
        }
        let previous = self.modifiers;
        let released = (previous.control && !modifiers.control) || (previous.alt && !modifiers.alt)
            || (previous.shift && !modifiers.shift) || (previous.platform && !modifiers.platform);
        if self.session_has_key && released {
            self.capturing = false;
            return true;
        }
        self.modifiers = modifiers;
        if self.session_has_key {
            self.committed = live_value_text(self.modifiers, &self.pressed_key);
        }
        true
    }

    /// The shortcut as captured so far.
    pub fn live_value(&self) -> (r: String)
        ensures
            r@ == live_value_of(self.state().modifiers, self.state().pressed),
    {
        live_value_text(self.modifiers, &self.pressed_key)
    }

    /// The value that will be saved.
    pub fn committed(&self) -> (r: &str)
        ensures
            r@ == self.state().committed,
    {
        self.committed.as_str()
    }

    /// What the field shows: a prompt while capturing with nothing held yet,
    /// the live value while capturing, the committed value otherwise.
    pub fn display_text(&self) -> (r: String)
        ensures
            r@ == (if self.state().capturing && live_value_of(self.state().modifiers, self.state().pressed).len() == 0 {
                "请按住并输入快捷键…"@
            } else if self.state().capturing {
                live_value_of(self.state().modifiers, self.state().pressed)
            } else {
                self.state().committed
            }),
    {
        if self.capturing {
            let live = self.live_value();
            if live.as_str().unicode_len() == 0 {
                String::from_str("请按住并输入快捷键…")
            } else {
                live
            }
        } else {
            String::from_str(self.committed.as_str())
        }
    }
}

} // verus!


verus! {

pub open spec fn empty_server_message() -> Seq<char> {
    "服务器地址不能为空"@
}

pub open spec fn invalid_shortcut_message() -> Seq<char> {
    "快捷键格式无效，例如 CTRL+ALT+v"@
}

/// The settings window's fields, checked in order: a server, a port from 1
/// to 65535, and a shortcut in the portal's format, each without surrounding
/// white space.
pub open spec fn settings_form(server: Seq<char>, port: Seq<char>, shortcut: Seq<char>) -> Result<(Seq<char>, u16, Seq<char>), Seq<char>> {
    let server = trim(server);
    let port = trim(port);
    let shortcut = trim(shortcut);
    if server.len() == 0 {
        Err(empty_server_message())
    } else if parse_u16_text(port) is None || parse_u16_text(port) == Some(0u16) {
        Err(audio_port_message())
    } else if parse_shortcut(shortcut) is Err {
        Err(invalid_shortcut_message())
    } else {
        Ok((server, parse_u16_text(port)->0, shortcut))
    }
}

/// Checks the settings window's fields; `Ok` holds the trimmed server, the
/// port and the trimmed shortcut, `Err` the status line to show.
pub fn validate_settings_form(server: &str, port: &str, shortcut: &str) -> (r: Result<(String, u16, String), String>)
    ensures
        match r {
            Ok((s, p, k)) => settings_form(server@, port@, shortcut@) == Ok::<_, Seq<char>>((s@, p, k@)),
            Err(message) => settings_form(server@, port@, shortcut@) == Err::<(Seq<char>, u16, Seq<char>), _>(message@),
        },
{
    let server_text = string_from_chars(trim_chars(&chars_of(server)).as_slice());
    let port_text = string_from_chars(trim_chars(&chars_of(port)).as_slice());
    let shortcut_text = string_from_chars(trim_chars(&chars_of(shortcut)).as_slice());
    if server_text.unicode_len() == 0 {
        return Err(String::from_str("服务器地址不能为空"));
    }
    let audio_port = match parse_audio_port(port_text.as_str()) {
        Ok(p) => p,
        Err(message) => {
            return Err(String::from_str(message));
        },
    };
    match LinuxShortcut::parse(shortcut_text.as_str()) {
        Ok(_) => {},
        Err(_) => {
            return Err(String::from_str("快捷键格式无效，例如 CTRL+ALT+v"));
        },
    }
    Ok((server_text, audio_port, shortcut_text))
}

/// The stored settings after a successful save from the settings window.
pub fn saved_settings(settings: ClientSettings, server: String, audio_port: u16, shortcut: String) -> (s: ClientSettings)
    ensures
        s.server == server,
        s.audio_port == audio_port,
        s.voice_shortcut == shortcut,
        s.setup_completed,
        s.token == settings.token,
        s.input_device_id == settings.input_device_id,
        s.start_with_windows == settings.start_with_windows,
{
    ClientSettings { server, audio_port, voice_shortcut: shortcut, setup_completed: true, ..settings }
}

/// The status line after writing the settings file.
pub fn save_status(result: Result<(), String>) -> (status: String)
    ensures
        status@ == (match result {
            Ok(()) => "已保存。新的快捷键将在重启客户端后生效。"@,
            Err(e) => "保存失败："@ + e@,
        }),
{
    match result {
        Ok(()) => String::from_str("已保存。新的快捷键将在重启客户端后生效。"),
        Err(error) => {
            let mut status = String::from_str("保存失败：");
            status.append(error.as_str());
            status
        },
    }
}

proof fn lemma_digits_value_of_decimal(n: nat)
    ensures
        digits_value(decimal(n)) == n,
        decimal(n).len() > 0,
        forall|i: int| 0 <= i < decimal(n).len() ==> is_digit(#[trigger] decimal(n)[i]),
    decreases n,
{
    assert(digit_char(n % 10) as int == 48 + n % 10);
    assert('0' as int == 48);
    if n < 10 {
        assert(decimal(n).drop_last() =~= Seq::<char>::empty());
        assert(decimal(n).last() == digit_char(n));
        assert(n % 10 == n);
        assert(digits_value(decimal(n)) == digits_value(Seq::<char>::empty()) * 10 + (digit_char(n) as int - '0' as int));
    }
    if n >= 10 {
        lemma_digits_value_of_decimal(n / 10);
        let d = decimal(n);
        assert(d.drop_last() =~= decimal(n / 10));
        assert(d.last() == digit_char(n % 10));
        assert(digits_value(d) == digits_value(decimal(n / 10)) * 10 + (n % 10));
        assert(n == (n / 10) * 10 + n % 10);
        assert forall|i: int| 0 <= i < d.len() implies is_digit(#[trigger] d[i]) by {
            if i < d.len() - 1 {
                assert(d[i] == decimal(n / 10)[i]);
            }
        }
    }
}

/// Port numbers round-trip: the decimal numeral of any `u16`, with or
/// without a leading `+`, parses back to that number.
pub proof fn lemma_port_numerals_round_trip(n: u16)
    ensures
        parse_u16_text(decimal(n as nat)) == Some(n),
        parse_u16_text(seq!['+'] + decimal(n as nat)) == Some(n),
{
    lemma_digits_value_of_decimal(n as nat);
    let d = decimal(n as nat);
    assert(d[0] != '+');
    assert((seq!['+'] + d).skip(1) =~= d);
}

proof fn lemma_last_index_past_other_chars(s: Seq<char>, t: Seq<char>, c: char)
    requires
        forall|i: int| 0 <= i < t.len() ==> #[trigger] t[i] != c,
    ensures
        last_index_of(s + t, c) == last_index_of(s, c),
    decreases t.len(),
{
    if t.len() == 0 {
        assert(s + t =~= s);
    } else {
        let d = t.drop_last();
        assert forall|i: int| 0 <= i < d.len() implies #[trigger] d[i] != c by {
            assert(d[i] == t[i]);
        }
        lemma_last_index_past_other_chars(s, d, c);
        assert((s + t).drop_last() =~= s + d);
        assert((s + t).last() == t[t.len() - 1]);
    }
}

/// A bridge address is split at its last colon: any non-empty host (an IPv6
/// host may hold colons of its own, and loses surrounding brackets) followed
/// by a colon and a port number gives that host and that port.
pub proof fn lemma_server_address_splits_host_and_port(host: Seq<char>, port: u16)
    requires
        host.len() > 0,
    ensures
        server_address(host + seq![':'] + decimal(port as nat)) == Some((trim_brackets(host), port)),
{
    let d = decimal(port as nat);
    lemma_digits_value_of_decimal(port as nat);
    lemma_port_numerals_round_trip(port);
    let s = host + seq![':'] + d;
    assert forall|i: int| 0 <= i < d.len() implies #[trigger] d[i] != ':' by {
        assert(is_digit(d[i]));
    }
    lemma_last_index_past_other_chars(host + seq![':'], d, ':');
    assert((host + seq![':']).last() == ':');
    assert(last_index_of(host + seq![':'], ':') == Some(host.len() as int));
    assert(s.take(host.len() as int) =~= host);
    assert(s.skip(host.len() as int + 1) =~= d);
}

/// A press of a shortcut key records it, and releasing that same key then
/// completes the capture with it; a key that cannot be part of a shortcut
/// (a modifier name, or anything but ASCII letters, digits and `_`) records
/// nothing; nothing is captured while the field is unfocused or not
/// capturing, or from an auto-repeated press.
pub proof fn lemma_press_then_release_completes_a_chord(
    s: CaptureState,
    raw: Seq<char>,
    m: CaptureModifiers,
    is_held: bool,
    focused: bool,
)
    ensures
        s.capturing && focused && !is_held && shortcut_key_of(raw) is Some ==> {
            let (handled, pressed) = after_capture(s, raw, m, is_held, focused);
            let (done, released) = after_release(pressed, raw, focused);
            &&& handled && done
            &&& pressed.pressed == shortcut_key_of(raw)
            &&& pressed.committed == live_value_of(m, shortcut_key_of(raw))
            &&& !released.capturing
            &&& released.committed == pressed.committed
        },
        shortcut_key_of(raw) is None ==> after_capture(s, raw, m, is_held, focused) == (false, s),
        !focused || !s.capturing || is_held ==> after_capture(s, raw, m, is_held, focused) == (false, s),
        is_modifier_key_name(lower_seq(raw)) ==> shortcut_key_of(raw) is None,
{
}

/// A form with a server, a port number from 1 to 65535 and a valid shortcut
/// is accepted as it is, trimmed; port 0 is refused; a blank server is
/// refused first.
pub proof fn lemma_complete_forms_are_accepted(server: Seq<char>, port: u16, shortcut: Seq<char>)
    requires
        trim(server).len() > 0,
        parse_shortcut(trim(shortcut)) is Ok,
    ensures
        port > 0 ==> settings_form(server, decimal(port as nat), shortcut)
            == Ok::<_, Seq<char>>((trim(server), port, trim(shortcut))),
        settings_form(server, decimal(0), shortcut) == Err::<(Seq<char>, u16, Seq<char>), _>(audio_port_message()),
{
    lemma_port_numerals_round_trip(port);
    lemma_port_numerals_round_trip(0);
    lemma_digits_value_of_decimal(port as nat);
    lemma_digits_value_of_decimal(0);
    let d = decimal(port as nat);
    assert(is_digit(d[0]) && is_digit(d[d.len() - 1]));
    lemma_trim_unchanged(d);
    let z = decimal(0);
    assert(is_digit(z[0]));
    lemma_trim_unchanged(z);
}

} // verus!
