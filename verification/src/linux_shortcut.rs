//! Parsing of the XDG-style voice shortcut (`CTRL+ALT+v`): modifiers, a key
//! name, and the canonical trigger text handed to the desktop.

use vstd::prelude::*;
use crate::text::{
    ascii_lower, ascii_lower_char, ascii_upper_char, chars_of, debug_string, debug_text,
    is_key_name_char, is_key_name_char_exec, lemma_split_on_join, lemma_split_on_nonempty, lemma_split_on_single, lemma_trim_ignores_padding, lemma_trim_unchanged,
    is_white_space, split_chars, split_on, string_from_chars,
    trim, trim_chars, upper_seq,
};

verus! {

/// The environment variable that overrides the configured voice shortcut.
pub const VOICE_SHORTCUT_ENV: &'static str = "DOUBAO_VOICE_SHORTCUT";

#[derive(Clone, Copy, Debug, PartialEq, Eq, Structural)]
pub struct ShortcutModifiers {
    pub control: bool,
    pub alt: bool,
    pub shift: bool,
    pub num: bool,
    pub logo: bool,
}

pub open spec fn no_modifiers() -> ShortcutModifiers {
    ShortcutModifiers { control: false, alt: false, shift: false, num: false, logo: false }
}

impl core::default::Default for ShortcutModifiers {
    fn default() -> (m: Self)
        ensures
            m == no_modifiers(),
    {
        ShortcutModifiers { control: false, alt: false, shift: false, num: false, logo: false }
    }
}

/// Which modifier an upper-cased name denotes: CTRL, ALT, SHIFT, NUM, LOGO.
pub open spec fn modifier_slot(upper: Seq<char>) -> Option<int> {
    if upper == seq!['C', 'T', 'R', 'L'] {
        Some(0)
    } else if upper == seq!['A', 'L', 'T'] {
        Some(1)
    } else if upper == seq!['S', 'H', 'I', 'F', 'T'] {
        Some(2)
    } else if upper == seq!['N', 'U', 'M'] {
        Some(3)
    } else if upper == seq!['L', 'O', 'G', 'O'] {
        Some(4)
    } else {
        None
    }
}

pub open spec fn modifier_held(m: ShortcutModifiers, slot: int) -> bool {
    if slot == 0 {
        m.control
    } else if slot == 1 {
        m.alt
    } else if slot == 2 {
        m.shift
    } else if slot == 3 {
        m.num
    } else {
        m.logo
    }
}

pub open spec fn with_modifier(m: ShortcutModifiers, slot: int) -> ShortcutModifiers {
    if slot == 0 {
        ShortcutModifiers { control: true, ..m }
    } else if slot == 1 {
        ShortcutModifiers { alt: true, ..m }
    } else if slot == 2 {
        ShortcutModifiers { shift: true, ..m }
    } else if slot == 3 {
        ShortcutModifiers { num: true, ..m }
    } else {
        ShortcutModifiers { logo: true, ..m }
    }
}

pub open spec fn invalid_prefix() -> Seq<char> {
    "invalid "@ + VOICE_SHORTCUT_ENV@ + ": "@
}

pub open spec fn key_required_message() -> Seq<char> {
    invalid_prefix() + "a key is required"@
}

pub open spec fn key_characters_message() -> Seq<char> {
    invalid_prefix() + "key names may only contain letters, digits, and _"@
}

pub open spec fn unknown_modifier_message(part: Seq<char>) -> Seq<char> {
    invalid_prefix() + "unknown modifier "@ + debug_text(part)
}

pub open spec fn duplicate_modifier_message(part: Seq<char>) -> Seq<char> {
    invalid_prefix() + "duplicate modifier "@ + debug_text(part)
}

/// Folds the modifier names, left to right, into a set of modifiers; the first
/// unknown or repeated name is the error.
pub open spec fn collect_modifiers(parts: Seq<Seq<char>>, held: ShortcutModifiers) -> Result<ShortcutModifiers, Seq<char>>
    decreases parts.len(),
{
    if parts.len() == 0 {
        Ok(held)
    } else {
        match modifier_slot(upper_seq(parts[0])) {
            None => Err(unknown_modifier_message(parts[0])),
            Some(slot) => if modifier_held(held, slot) {
                Err(duplicate_modifier_message(parts[0]))
            } else {
                collect_modifiers(parts.drop_first(), with_modifier(held, slot))
            },
        }
    }
}

/// A one-character key name is lower-cased; longer names keep their case.
pub open spec fn normalized_key(key: Seq<char>) -> Seq<char> {
    if key.len() == 1 { seq![ascii_lower(key[0])] } else { key }
}

/// The canonical trigger: held modifiers in the order CTRL, ALT, SHIFT, NUM,
/// LOGO, each followed by `+`, then the key name.
pub open spec fn trigger_text(m: ShortcutModifiers, key: Seq<char>) -> Seq<char> {
    (if m.control { seq!['C', 'T', 'R', 'L', '+'] } else { Seq::empty() })
    + (if m.alt { seq!['A', 'L', 'T', '+'] } else { Seq::empty() })
    + (if m.shift { seq!['S', 'H', 'I', 'F', 'T', '+'] } else { Seq::empty() })
    + (if m.num { seq!['N', 'U', 'M', '+'] } else { Seq::empty() })
    + (if m.logo { seq!['L', 'O', 'G', 'O', '+'] } else { Seq::empty() })
    + key
}

/// What `LinuxShortcut::parse` accepts: `(trigger, key name, modifiers)`, or the
/// error message.
pub open spec fn parse_shortcut(value: Seq<char>) -> Result<(Seq<char>, Seq<char>, ShortcutModifiers), Seq<char>> {
    let parts = split_on(trim(value), '+');
    let raw_key = parts.last();
    if raw_key.len() == 0 {
        Err(key_required_message())
    } else {
        let key = normalized_key(raw_key);
        if !(forall|i: int| 0 <= i < key.len() ==> is_key_name_char(#[trigger] key[i])) {
            Err(key_characters_message())
        } else {
            match collect_modifiers(parts.drop_last(), no_modifiers()) {
                Err(message) => Err(message),
                Ok(m) => Ok((trigger_text(m, key), key, m)),
            }
        }
    }
}

#[derive(Clone, Debug, PartialEq, Eq)]
pub struct LinuxShortcut {
    trigger: String,
    key_name: String,
    modifiers: ShortcutModifiers,
}

impl View for LinuxShortcut {
    type V = (Seq<char>, Seq<char>, ShortcutModifiers);

    closed spec fn view(&self) -> (Seq<char>, Seq<char>, ShortcutModifiers) {
        (self.trigger@, self.key_name@, self.modifiers)
    }
}

fn prefixed_message(detail: &str) -> (r: String)
    ensures
        r@ == invalid_prefix() + detail@,
{
    let mut message = String::from_str("invalid ");
    message.append(VOICE_SHORTCUT_ENV);
    message.append(": ");
    message.append(detail);
    message
}

fn modifier_message(kind: &str, part: &Vec<char>) -> (r: String)
    ensures
        r@ == invalid_prefix() + kind@ + debug_text(part@),
{
    let mut message = prefixed_message(kind);
    let text = string_from_chars(part.as_slice());
    let quoted = debug_string(text.as_str());
    message.append(quoted.as_str());
    message
}

fn slot_of(part: &Vec<char>) -> (slot: Option<u8>)
    ensures
        match slot {
            Some(s) => modifier_slot(upper_seq(part@)) == Some(s as int),
            None => modifier_slot(upper_seq(part@)) is None,
        },
{
    let mut upper: Vec<char> = Vec::new();
    let mut i: usize = 0;
    while i < part.len()
        invariant
            i <= part.len(),
            upper@ == upper_seq(part@.subrange(0, i as int)),
        decreases part.len() - i,
    {
        upper.push(ascii_upper_char(part[i]));
        i = i + 1;
        assert(upper_seq(part@.subrange(0, i as int)) =~= upper_seq(part@.subrange(0, i - 1)).push(ascii_upper_char_spec_of(part@[i - 1])));
    }
    assert(part@.subrange(0, part.len() as int) == part@);
    let n = upper.len();
    if n == 4 && upper[0] == 'C' && upper[1] == 'T' && upper[2] == 'R' && upper[3] == 'L' {
        assert(upper@ =~= seq!['C', 'T', 'R', 'L']);
        Some(0)
    } else if n == 3 && upper[0] == 'A' && upper[1] == 'L' && upper[2] == 'T' {
        assert(upper@ =~= seq!['A', 'L', 'T']);
        Some(1)
    } else if n == 5 && upper[0] == 'S' && upper[1] == 'H' && upper[2] == 'I' && upper[3] == 'F' && upper[4] == 'T' {
        assert(upper@ =~= seq!['S', 'H', 'I', 'F', 'T']);
        Some(2)
    } else if n == 3 && upper[0] == 'N' && upper[1] == 'U' && upper[2] == 'M' {
        assert(upper@ =~= seq!['N', 'U', 'M']);
        Some(3)
    } else if n == 4 && upper[0] == 'L' && upper[1] == 'O' && upper[2] == 'G' && upper[3] == 'O' {
        assert(upper@ =~= seq!['L', 'O', 'G', 'O']);
        Some(4)
    } else {
        proof {
            if upper@ == seq!['C', 'T', 'R', 'L'] { assert(upper@[0] == 'C'); }
            if upper@ == seq!['A', 'L', 'T'] { assert(upper@[0] == 'A'); }
            if upper@ == seq!['S', 'H', 'I', 'F', 'T'] { assert(upper@[0] == 'S'); }
            if upper@ == seq!['N', 'U', 'M'] { assert(upper@[0] == 'N'); }
            if upper@ == seq!['L', 'O', 'G', 'O'] { assert(upper@[0] == 'L'); }
        }
        None
    }
}

pub open spec fn ascii_upper_char_spec_of(c: char) -> char {
    crate::text::ascii_upper(c)
}

fn push_all(target: &mut Vec<char>, items: &Vec<char>)
    ensures
        final(target)@ == old(target)@ + items@,
{
    let mut i: usize = 0;
    while i < items.len()
        invariant
            i <= items.len(),
            target@ == old(target)@ + items@.subrange(0, i as int),
        decreases items.len() - i,
    {
        target.push(items[i]);
        i = i + 1;
        assert(target@ =~= old(target)@ + items@.subrange(0, i as int));
    }
    assert(items@.subrange(0, items.len() as int) == items@);
}

/// Lower-cases a one-character key and checks the key's characters.
fn checked_key(raw: &Vec<char>) -> (r: Result<Vec<char>, String>)
    requires
        raw@.len() > 0,
    ensures
        match r {
            Ok(key) => key@ == normalized_key(raw@)
                && forall|i: int| 0 <= i < key@.len() ==> is_key_name_char(#[trigger] key@[i]),
            Err(message) => message@ == key_characters_message()
                && !(forall|i: int| 0 <= i < normalized_key(raw@).len() ==> is_key_name_char(#[trigger] normalized_key(raw@)[i])),
        },
{
    let ghost raw_view = raw@;
    let ghost nk = normalized_key(raw_view);
    let key: Vec<char> = if raw.len() == 1 {
        let mut k: Vec<char> = Vec::new();
        k.push(ascii_lower_char(raw[0]));
        assert(k@ =~= seq![ascii_lower(raw@[0])]);
        k
    } else {
        let mut k: Vec<char> = Vec::new();
        push_all(&mut k, raw);
        assert(k@ =~= raw@);
        k
    };
    assert(key@ == nk);
    let mut j: usize = 0;
    while j < key.len()
        invariant
            key@ == nk,
            nk == normalized_key(raw_view),
            raw_view == raw@,
            j <= key.len(),
            forall|m: int| 0 <= m < j ==> is_key_name_char(#[trigger] key@[m]),
        decreases key.len() - j,
    {
        if !is_key_name_char_exec(key[j]) {
            assert(!is_key_name_char(nk[j as int]));
            let message = prefixed_message("key names may only contain letters, digits, and _");
            assert(message@ == key_characters_message());
            assert(!(forall|i: int| 0 <= i < nk.len() ==> is_key_name_char(#[trigger] nk[i])));
            assert(nk == normalized_key(raw@));
            assert(!(forall|i: int| 0 <= i < normalized_key(raw@).len() ==> is_key_name_char(#[trigger] normalized_key(raw@)[i])));
            return Err(message);
        }
        j = j + 1;
    }
    Ok(key)
}

/// Folds the modifier names into a set of modifiers, as `collect_modifiers`.
fn modifiers_of(parts: &Vec<Vec<char>>) -> (r: Result<ShortcutModifiers, String>)
    ensures
        match r {
            Ok(m) => collect_modifiers(parts@.map_values(|p: Vec<char>| p@), no_modifiers()) == Ok::<_, Seq<char>>(m),
            Err(message) => collect_modifiers(parts@.map_values(|p: Vec<char>| p@), no_modifiers())
                == Err::<ShortcutModifiers, _>(message@),
        },
{
    let ghost names = parts@.map_values(|p: Vec<char>| p@);
    let mut held = ShortcutModifiers::default();
    let mut k: usize = 0;
    assert(names.subrange(0, parts.len() as int) == names);
    while k < parts.len()
        invariant
            k <= parts.len(),
            names == parts@.map_values(|p: Vec<char>| p@),
            collect_modifiers(names, no_modifiers())
                == collect_modifiers(names.subrange(k as int, parts.len() as int), held),
        decreases parts.len() - k,
    {
        let part = &parts[k];
        let ghost rest = names.subrange(k as int, parts.len() as int);
        assert(rest[0] == part@);
        assert(rest.drop_first() =~= names.subrange(k + 1, parts.len() as int));
        match slot_of(part) {
            None => {
                return Err(modifier_message("unknown modifier ", part));
            },
            Some(slot) => {
                let already = if slot == 0 {
                    held.control
                } else if slot == 1 {
                    held.alt
                } else if slot == 2 {
                    held.shift
                } else if slot == 3 {
                    held.num
                } else {
                    held.logo
                };
                if already {
                    return Err(modifier_message("duplicate modifier ", part));
                }
                if slot == 0 {
                    held.control = true;
                } else if slot == 1 {
                    held.alt = true;
                } else if slot == 2 {
                    held.shift = true;
                } else if slot == 3 {
                    held.num = true;
                } else {
                    held.logo = true;
                }
            },
        }
        k = k + 1;
    }
    assert(names.subrange(parts.len() as int, parts.len() as int).len() == 0);
    Ok(held)
}

/// The text each modifier contributes to the trigger, separator included.
pub open spec fn modifier_word(slot: int) -> Seq<char> {
    if slot == 0 {
        seq!['C', 'T', 'R', 'L', '+']
    } else if slot == 1 {
        seq!['A', 'L', 'T', '+']
    } else if slot == 2 {
        seq!['S', 'H', 'I', 'F', 'T', '+']
    } else if slot == 3 {
        seq!['N', 'U', 'M', '+']
    } else {
        seq!['L', 'O', 'G', 'O', '+']
    }
}

fn push_modifier_word(target: &mut Vec<char>, slot: u8, held: bool)
    ensures
        final(target)@ == old(target)@ + (if held { modifier_word(slot as int) } else { Seq::empty() }),
{
    if !held {
        assert(old(target)@ + Seq::<char>::empty() =~= old(target)@);
        return;
    }
    if slot == 0 {
        target.push('C'); target.push('T'); target.push('R'); target.push('L');
    } else if slot == 1 {
        target.push('A'); target.push('L'); target.push('T');
    } else if slot == 2 {
        target.push('S'); target.push('H'); target.push('I'); target.push('F'); target.push('T');
    } else if slot == 3 {
        target.push('N'); target.push('U'); target.push('M');
    } else {
        target.push('L'); target.push('O'); target.push('G'); target.push('O');
    }
    target.push('+');
    assert(target@ =~= old(target)@ + modifier_word(slot as int));
}

/// Builds the canonical trigger text.
fn trigger_of(held: ShortcutModifiers, key: &Vec<char>) -> (r: Vec<char>)
    ensures
        r@ == trigger_text(held, key@),
{
    let mut trigger: Vec<char> = Vec::new();
    push_modifier_word(&mut trigger, 0, held.control);
    push_modifier_word(&mut trigger, 1, held.alt);
    push_modifier_word(&mut trigger, 2, held.shift);
    push_modifier_word(&mut trigger, 3, held.num);
    push_modifier_word(&mut trigger, 4, held.logo);
    push_all(&mut trigger, key);
    assert(trigger@ =~= trigger_text(held, key@));
    trigger
}

impl LinuxShortcut {
    /// Parses an XDG shortcut such as `ALT+CTRL+V`. Modifier names are
    /// case-insensitive and may appear in any order, once each; the key name
    /// may only hold ASCII letters, digits and `_`, and is lower-cased when it
    /// is one character long.
    pub fn parse(value: &str) -> (r: Result<Self, String>)
        ensures
            match r {
                Ok(shortcut) => parse_shortcut(value@) == Ok::<_, Seq<char>>(shortcut@),
                Err(message) => parse_shortcut(value@) == Err::<(Seq<char>, Seq<char>, ShortcutModifiers), _>(message@),
            },
    {
        let all = chars_of(value);
        let trimmed = trim_chars(&all);
        let (done, current) = split_chars(&trimmed, '+');
        let ghost parts = split_on(trimmed@, '+');
        proof {
            assert(parts.last() == current@);
            assert(parts.drop_last() =~= done@.map_values(|p: Vec<char>| p@));
        }
        if current.len() == 0 {
            return Err(prefixed_message("a key is required"));
        }
        let key = match checked_key(&current) {
            Ok(key) => key,
            Err(message) => {
                return Err(message);
            },
        };
        let held = match modifiers_of(&done) {
            Ok(held) => held,
            Err(message) => {
                return Err(message);
            },
        };
        let trigger = trigger_of(held, &key);
        Ok(LinuxShortcut {
            trigger: string_from_chars(trigger.as_slice()),
            key_name: string_from_chars(key.as_slice()),
            modifiers: held,
        })
    }

    /// The canonical trigger, such as `CTRL+ALT+v`.
    pub fn trigger(&self) -> (r: &str)
        ensures
            r@ == self@.0,
    {
        self.trigger.as_str()
    }

    /// The XKB key name.
    pub fn key_name(&self) -> (r: &str)
        ensures
            r@ == self@.1,
    {
        self.key_name.as_str()
    }

    /// The modifiers that must be held.
    pub fn modifiers(&self) -> (r: ShortcutModifiers)
        ensures
            r == self@.2,
    {
        self.modifiers
    }
}

} // verus!


verus! {

/// The names of the held modifiers, in the canonical order.
pub open spec fn modifier_names(m: ShortcutModifiers) -> Seq<Seq<char>> {
    (if m.control { seq![seq!['C', 'T', 'R', 'L']] } else { Seq::empty() })
    + (if m.alt { seq![seq!['A', 'L', 'T']] } else { Seq::empty() })
    + (if m.shift { seq![seq!['S', 'H', 'I', 'F', 'T']] } else { Seq::empty() })
    + (if m.num { seq![seq!['N', 'U', 'M']] } else { Seq::empty() })
    + (if m.logo { seq![seq!['L', 'O', 'G', 'O']] } else { Seq::empty() })
}

/// Names followed by `+`, then the key.
pub open spec fn joined(names: Seq<Seq<char>>, key: Seq<char>) -> Seq<char>
    decreases names.len(),
{
    if names.len() == 0 { key } else { names[0] + seq!['+'] + joined(names.drop_first(), key) }
}

pub open spec fn plain_word(w: Seq<char>) -> bool {
    forall|i: int| 0 <= i < w.len() ==> #[trigger] w[i] != '+' && !is_white_space(w[i])
}

proof fn lemma_joined_split(names: Seq<Seq<char>>, key: Seq<char>)
    requires
        forall|j: int| 0 <= j < names.len() ==> plain_word(#[trigger] names[j]),
        plain_word(key),
    ensures
        split_on(joined(names, key), '+') == names.push(key),
        plain_word_or_plus(joined(names, key)),
    decreases names.len(),
{
    if names.len() == 0 {
        lemma_split_on_single(key, '+');
        assert(names.push(key) =~= seq![key]);
    } else {
        let rest = names.drop_first();
        assert forall|j: int| 0 <= j < rest.len() implies plain_word(#[trigger] rest[j]) by {
            assert(rest[j] == names[j + 1]);
        }
        lemma_joined_split(rest, key);
        assert(plain_word(names[0]));
        lemma_split_on_single(names[0], '+');
        lemma_split_on_join(names[0], '+', joined(rest, key));
        assert(seq![names[0]] + rest.push(key) =~= names.push(key));
        let t = joined(names, key);
        assert forall|i: int| 0 <= i < t.len() implies !is_white_space(#[trigger] t[i]) by {
            if i < names[0].len() {
                assert(t[i] == names[0][i]);
            } else if i > names[0].len() {
                assert(t[i] == joined(rest, key)[i - names[0].len() - 1]);
            }
        }
    }
}

/// No character is white space.
pub open spec fn plain_word_or_plus(w: Seq<char>) -> bool {
    forall|i: int| 0 <= i < w.len() ==> !is_white_space(#[trigger] w[i])
}

proof fn lemma_joined_opt(flag: bool, name: Seq<char>, rest: Seq<Seq<char>>, key: Seq<char>)
    ensures
        joined((if flag { seq![name] } else { Seq::empty() }) + rest, key)
            == (if flag { name + seq!['+'] } else { Seq::empty() }) + joined(rest, key),
{
    if flag {
        let all = seq![name] + rest;
        assert(all[0] == name);
        assert(all.drop_first() =~= rest);
    } else {
        assert(Seq::<Seq<char>>::empty() + rest =~= rest);
        assert(Seq::<char>::empty() + joined(rest, key) =~= joined(rest, key));
    }
}

/// The canonical trigger is the modifier names and the key joined by `+`.
#[verifier::rlimit(50)]
proof fn lemma_trigger_is_joined(m: ShortcutModifiers, key: Seq<char>)
    ensures
        trigger_text(m, key) == joined(modifier_names(m), key),
{
    let ctrl = seq!['C', 'T', 'R', 'L'];
    let alt = seq!['A', 'L', 'T'];
    let shift = seq!['S', 'H', 'I', 'F', 'T'];
    let num = seq!['N', 'U', 'M'];
    let logo = seq!['L', 'O', 'G', 'O'];
    assert(ctrl + seq!['+'] =~= seq!['C', 'T', 'R', 'L', '+']);
    assert(alt + seq!['+'] =~= seq!['A', 'L', 'T', '+']);
    assert(shift + seq!['+'] =~= seq!['S', 'H', 'I', 'F', 'T', '+']);
    assert(num + seq!['+'] =~= seq!['N', 'U', 'M', '+']);
    assert(logo + seq!['+'] =~= seq!['L', 'O', 'G', 'O', '+']);
    let o_c = if m.control { seq![ctrl] } else { Seq::empty() };
    let o_a = if m.alt { seq![alt] } else { Seq::empty() };
    let o_s = if m.shift { seq![shift] } else { Seq::empty() };
    let o_n = if m.num { seq![num] } else { Seq::empty() };
    let o_l = if m.logo { seq![logo] } else { Seq::empty() };
    let p_c = if m.control { seq!['C', 'T', 'R', 'L', '+'] } else { Seq::<char>::empty() };
    let p_a = if m.alt { seq!['A', 'L', 'T', '+'] } else { Seq::<char>::empty() };
    let p_s = if m.shift { seq!['S', 'H', 'I', 'F', 'T', '+'] } else { Seq::<char>::empty() };
    let p_n = if m.num { seq!['N', 'U', 'M', '+'] } else { Seq::<char>::empty() };
    let p_l = if m.logo { seq!['L', 'O', 'G', 'O', '+'] } else { Seq::<char>::empty() };
    let r4 = o_l + Seq::<Seq<char>>::empty();
    let r3 = o_n + r4;
    let r2 = o_s + r3;
    let r1 = o_a + r2;
    let r0 = o_c + r1;
    assert(joined(r4, key) == p_l + key) by {
        lemma_joined_opt(m.logo, logo, Seq::empty(), key);
    }
    assert(joined(r3, key) == p_n + (p_l + key)) by {
        lemma_joined_opt(m.num, num, r4, key);
    }
    assert(joined(r2, key) == p_s + (p_n + (p_l + key))) by {
        lemma_joined_opt(m.shift, shift, r3, key);
    }
    assert(joined(r1, key) == p_a + (p_s + (p_n + (p_l + key)))) by {
        lemma_joined_opt(m.alt, alt, r2, key);
    }
    assert(joined(r0, key) == p_c + (p_a + (p_s + (p_n + (p_l + key))))) by {
        lemma_joined_opt(m.control, ctrl, r1, key);
    }
    assert(modifier_names(m) =~= r0);
    assert(trigger_text(m, key) == p_c + p_a + p_s + p_n + p_l + key);
    assert(p_c + p_a + p_s + p_n + p_l + key =~= p_c + (p_a + (p_s + (p_n + (p_l + key)))));
}

proof fn lemma_collect_opt(flag: bool, name: Seq<char>, slot: int, rest: Seq<Seq<char>>, held: ShortcutModifiers)
    requires
        flag ==> modifier_slot(upper_seq(name)) == Some(slot) && !modifier_held(held, slot),
    ensures
        collect_modifiers((if flag { seq![name] } else { Seq::empty() }) + rest, held)
            == collect_modifiers(rest, if flag { with_modifier(held, slot) } else { held }),
{
    if flag {
        let all = seq![name] + rest;
        assert(all[0] == name);
        assert(all.drop_first() =~= rest);
    } else {
        assert(Seq::<Seq<char>>::empty() + rest =~= rest);
    }
}

/// Collecting the canonical names gives back the modifiers they came from.
proof fn lemma_collect_names(m: ShortcutModifiers)
    ensures
        collect_modifiers(modifier_names(m), no_modifiers()) == Ok::<ShortcutModifiers, Seq<char>>(m),
{
    let ctrl = seq!['C', 'T', 'R', 'L'];
    let alt = seq!['A', 'L', 'T'];
    let shift = seq!['S', 'H', 'I', 'F', 'T'];
    let num = seq!['N', 'U', 'M'];
    let logo = seq!['L', 'O', 'G', 'O'];
    assert(upper_seq(ctrl) =~= ctrl);
    assert(upper_seq(alt) =~= alt);
    assert(upper_seq(shift) =~= shift);
    assert(upper_seq(num) =~= num);
    assert(upper_seq(logo) =~= logo);
    let o_c = if m.control { seq![ctrl] } else { Seq::empty() };
    let o_a = if m.alt { seq![alt] } else { Seq::empty() };
    let o_s = if m.shift { seq![shift] } else { Seq::empty() };
    let o_n = if m.num { seq![num] } else { Seq::empty() };
    let o_l = if m.logo { seq![logo] } else { Seq::empty() };
    let r4 = o_l + Seq::<Seq<char>>::empty();
    let r3 = o_n + r4;
    let r2 = o_s + r3;
    let r1 = o_a + r2;
    let r0 = o_c + r1;
    assert(modifier_names(m) =~= r0);
    let h0 = no_modifiers();
    let h1 = if m.control { with_modifier(h0, 0) } else { h0 };
    let h2 = if m.alt { with_modifier(h1, 1) } else { h1 };
    let h3 = if m.shift { with_modifier(h2, 2) } else { h2 };
    let h4 = if m.num { with_modifier(h3, 3) } else { h3 };
    let h5 = if m.logo { with_modifier(h4, 4) } else { h4 };
    lemma_collect_opt(m.control, ctrl, 0, r1, h0);
    lemma_collect_opt(m.alt, alt, 1, r2, h1);
    lemma_collect_opt(m.shift, shift, 2, r3, h2);
    lemma_collect_opt(m.num, num, 3, r4, h3);
    lemma_collect_opt(m.logo, logo, 4, Seq::empty(), h4);
    assert(h5 == m);
}

/// White space around a shortcut does not change what it parses to: the
/// same shortcut, or the same error.
pub proof fn lemma_surrounding_white_space_is_ignored(before: Seq<char>, value: Seq<char>, after: Seq<char>)
    requires
        forall|i: int| 0 <= i < before.len() ==> is_white_space(#[trigger] before[i]),
        forall|i: int| 0 <= i < after.len() ==> is_white_space(#[trigger] after[i]),
    ensures
        parse_shortcut(before + value + after) == parse_shortcut(value),
{
    lemma_trim_ignores_padding(before, value, after);
}

/// Parsing is a normal form: the trigger of a parsed shortcut parses back
/// to the same shortcut (same trigger, key name and modifiers).
#[verifier::rlimit(40)]
pub proof fn lemma_canonical_trigger_round_trips(value: Seq<char>)
    requires
        parse_shortcut(value) is Ok,
    ensures
        parse_shortcut(parse_shortcut(value)->Ok_0.0) == parse_shortcut(value),
{
    let parts = split_on(trim(value), '+');
    let raw_key = parts.last();
    let key = normalized_key(raw_key);
    let m = collect_modifiers(parts.drop_last(), no_modifiers())->Ok_0;
    let t = trigger_text(m, key);
    assert(parse_shortcut(value)->Ok_0 == (t, key, m));
    assert(key.len() > 0);
    assert(plain_word(key)) by {
        assert forall|i: int| 0 <= i < key.len() implies #[trigger] key[i] != '+' && !is_white_space(key[i]) by {
            assert(is_key_name_char(key[i]));
        }
    }
    let names = modifier_names(m);
    assert forall|j: int| 0 <= j < names.len() implies plain_word(#[trigger] names[j]) by {
        assert(names[j] == seq!['C', 'T', 'R', 'L'] || names[j] == seq!['A', 'L', 'T']
            || names[j] == seq!['S', 'H', 'I', 'F', 'T'] || names[j] == seq!['N', 'U', 'M']
            || names[j] == seq!['L', 'O', 'G', 'O']);
    }
    lemma_trigger_is_joined(m, key);
    lemma_joined_split(names, key);
    assert(t.len() > 0) by {
        lemma_split_on_nonempty(t, '+');
        if t.len() == 0 {
            assert(split_on(t, '+') =~= seq![Seq::<char>::empty()]);
            assert(names.push(key).last() == key);
        }
    }
    lemma_trim_unchanged(t);
    let parts2 = split_on(trim(t), '+');
    assert(parts2 == names.push(key));
    assert(parts2.last() == key);
    assert(parts2.drop_last() =~= names);
    assert(normalized_key(key) == key) by {
        if raw_key.len() == 1 {
            assert(normalized_key(key) =~= key);
        }
    }
    lemma_collect_names(m);
}

/// The pieces of modifier names and a key joined by `+`, once trimmed.
proof fn lemma_parts_of_joined(mods: Seq<Seq<char>>, key: Seq<char>)
    requires
        forall|j: int| 0 <= j < mods.len() ==> plain_word(#[trigger] mods[j]),
        plain_word(key),
    ensures
        split_on(trim(joined(mods, key)), '+') == mods.push(key),
{
    lemma_joined_split(mods, key);
    let t = joined(mods, key);
    if t.len() > 0 {
        lemma_trim_unchanged(t);
    } else {
        assert(trim(t) =~= t);
    }
}

/// The modifier a name denotes, whatever its ASCII case.
pub open spec fn name_slot(name: Seq<char>) -> Option<int> {
    modifier_slot(upper_seq(name))
}

/// Every name is a known modifier, no two name the same one, and none is
/// already held.
pub open spec fn names_valid(parts: Seq<Seq<char>>, held: ShortcutModifiers) -> bool {
    &&& forall|i: int| 0 <= i < parts.len() ==> (#[trigger] name_slot(parts[i])) is Some
    &&& forall|i: int, j: int| 0 <= i < parts.len() && 0 <= j < parts.len() && i != j
        ==> #[trigger] name_slot(parts[i]) != #[trigger] name_slot(parts[j])
    &&& forall|i: int| 0 <= i < parts.len() ==> !modifier_held(held, (#[trigger] name_slot(parts[i]))->Some_0)
}

/// `m` holds exactly what `held` holds and what the names denote.
pub open spec fn names_held(parts: Seq<Seq<char>>, held: ShortcutModifiers, m: ShortcutModifiers) -> bool {
    forall|s: int| 0 <= s < 5 ==> (#[trigger] modifier_held(m, s) <==> (modifier_held(held, s)
        || exists|i: int| 0 <= i < parts.len() && #[trigger] name_slot(parts[i]) == Some(s)))
}

proof fn lemma_slot_range(name: Seq<char>)
    ensures
        name_slot(name) matches Some(s) ==> 0 <= s < 5,
{
}

proof fn lemma_modifiers_equal(a: ShortcutModifiers, b: ShortcutModifiers)
    requires
        forall|s: int| 0 <= s < 5 ==> #[trigger] modifier_held(a, s) == modifier_held(b, s),
    ensures
        a == b,
{
    assert(modifier_held(a, 0) == modifier_held(b, 0));
    assert(modifier_held(a, 1) == modifier_held(b, 1));
    assert(modifier_held(a, 2) == modifier_held(b, 2));
    assert(modifier_held(a, 3) == modifier_held(b, 3));
    assert(modifier_held(a, 4) == modifier_held(b, 4));
}

/// Collecting modifier names succeeds exactly when they are valid, and then
/// holds what they denote.
proof fn lemma_collect_characterized(parts: Seq<Seq<char>>, held: ShortcutModifiers)
    ensures
        collect_modifiers(parts, held) is Ok <==> names_valid(parts, held),
        collect_modifiers(parts, held) matches Ok(m) ==> names_held(parts, held, m),
    decreases parts.len(),
{
    if parts.len() == 0 {
        assert(names_valid(parts, held));
        assert forall|s: int| 0 <= s < 5 implies (#[trigger] modifier_held(held, s) <==> (modifier_held(held, s)
            || exists|i: int| 0 <= i < parts.len() && #[trigger] name_slot(parts[i]) == Some(s))) by {}
    } else {
        let rest = parts.drop_first();
        assert forall|i: int| 0 <= i < rest.len() implies #[trigger] rest[i] == parts[i + 1] by {}
        match name_slot(parts[0]) {
            None => {
                assert(!names_valid(parts, held));
            },
            Some(s0) => {
                lemma_slot_range(parts[0]);
                if modifier_held(held, s0) {
                    assert(!names_valid(parts, held));
                } else {
                    let h = with_modifier(held, s0);
                    lemma_collect_characterized(rest, h);
                    assert(collect_modifiers(parts, held) == collect_modifiers(rest, h));
                    if names_valid(parts, held) {
                        assert forall|i: int| 0 <= i < rest.len() implies (#[trigger] name_slot(rest[i])) is Some by {
                            assert(name_slot(parts[i + 1]) is Some);
                        }
                        assert forall|i: int, j: int| 0 <= i < rest.len() && 0 <= j < rest.len() && i != j
                            implies #[trigger] name_slot(rest[i]) != #[trigger] name_slot(rest[j]) by {
                            assert(name_slot(parts[i + 1]) != name_slot(parts[j + 1]));
                        }
                        assert forall|i: int| 0 <= i < rest.len()
                            implies !modifier_held(h, (#[trigger] name_slot(rest[i]))->Some_0) by {
                            assert(name_slot(parts[i + 1]) != name_slot(parts[0]));
                            assert(!modifier_held(held, name_slot(parts[i + 1])->Some_0));
                            lemma_slot_range(parts[i + 1]);
                        }
                        assert(names_valid(rest, h));
                    }
                    if names_valid(rest, h) {
                        assert forall|i: int| 0 <= i < parts.len() implies (#[trigger] name_slot(parts[i])) is Some by {
                            if i > 0 {
                                assert(name_slot(rest[i - 1]) is Some);
                            }
                        }
                        assert forall|i: int, j: int| 0 <= i < parts.len() && 0 <= j < parts.len() && i != j
                            implies #[trigger] name_slot(parts[i]) != #[trigger] name_slot(parts[j]) by {
                            if i > 0 && j > 0 {
                                assert(name_slot(rest[i - 1]) != name_slot(rest[j - 1]));
                            } else if i > 0 {
                                assert(!modifier_held(h, name_slot(rest[i - 1])->Some_0));
                            } else {
                                assert(!modifier_held(h, name_slot(rest[j - 1])->Some_0));
                            }
                        }
                        assert forall|i: int| 0 <= i < parts.len()
                            implies !modifier_held(held, (#[trigger] name_slot(parts[i]))->Some_0) by {
                            if i > 0 {
                                assert(!modifier_held(h, name_slot(rest[i - 1])->Some_0));
                                lemma_slot_range(rest[i - 1]);
                            }
                        }
                        let m = collect_modifiers(rest, h)->Ok_0;
                        assert forall|s: int| 0 <= s < 5 implies (#[trigger] modifier_held(m, s) <==> (
                            modifier_held(held, s) || exists|i: int|
                                0 <= i < parts.len() && #[trigger] name_slot(parts[i]) == Some(s))) by {
                            if exists|i: int| 0 <= i < parts.len() && #[trigger] name_slot(parts[i]) == Some(s) {
                                let i = choose|i: int| 0 <= i < parts.len() && #[trigger] name_slot(parts[i]) == Some(s);
                                if i > 0 {
                                    assert(name_slot(rest[i - 1]) == Some(s));
                                }
                            }
                            if exists|i: int| 0 <= i < rest.len() && #[trigger] name_slot(rest[i]) == Some(s) {
                                let i = choose|i: int| 0 <= i < rest.len() && #[trigger] name_slot(rest[i]) == Some(s);
                                assert(name_slot(parts[i + 1]) == Some(s));
                            }
                            assert(name_slot(parts[0]) == Some(s0));
                        }
                    }
                }
            },
        }
    }
}

/// The order and the ASCII case in which modifiers are written do not
/// matter: modifier names that are a reordering of a shortcut's names
/// (`perm`, with inverse `inv`), each possibly in other ASCII case, give the
/// same shortcut.
pub proof fn lemma_modifier_order_and_case_are_ignored(
    mods: Seq<Seq<char>>,
    other: Seq<Seq<char>>,
    key: Seq<char>,
    perm: Seq<int>,
    inv: Seq<int>,
)
    requires
        forall|j: int| 0 <= j < mods.len() ==> plain_word(#[trigger] mods[j]),
        forall|j: int| 0 <= j < other.len() ==> plain_word(#[trigger] other[j]),
        plain_word(key),
        other.len() == mods.len(),
        perm.len() == mods.len(),
        inv.len() == mods.len(),
        forall|i: int| 0 <= i < mods.len() ==> 0 <= #[trigger] perm[i] < mods.len() && inv[perm[i]] == i,
        forall|k: int| 0 <= k < mods.len() ==> 0 <= #[trigger] inv[k] < mods.len() && perm[inv[k]] == k,
        forall|i: int| 0 <= i < mods.len() ==> upper_seq(#[trigger] other[i]) == upper_seq(mods[perm[i]]),
        parse_shortcut(joined(mods, key)) is Ok,
    ensures
        parse_shortcut(joined(other, key)) == parse_shortcut(joined(mods, key)),
{
    lemma_parts_of_joined(mods, key);
    lemma_parts_of_joined(other, key);
    assert(mods.push(key).drop_last() =~= mods);
    assert(other.push(key).drop_last() =~= other);
    let none = no_modifiers();
    lemma_collect_characterized(mods, none);
    lemma_collect_characterized(other, none);
    assert forall|i: int| 0 <= i < other.len() implies #[trigger] name_slot(other[i]) == name_slot(mods[perm[i]]) by {
        assert(upper_seq(other[i]) == upper_seq(mods[perm[i]]));
    }
    assert forall|i: int| 0 <= i < other.len() implies (#[trigger] name_slot(other[i])) is Some by {
        assert(name_slot(mods[perm[i]]) is Some);
    }
    assert forall|i: int, j: int| 0 <= i < other.len() && 0 <= j < other.len() && i != j
        implies #[trigger] name_slot(other[i]) != #[trigger] name_slot(other[j]) by {
        assert(perm[i] != perm[j]);
        assert(name_slot(mods[perm[i]]) != name_slot(mods[perm[j]]));
    }
    assert(names_valid(other, none));
    let m = collect_modifiers(mods, none)->Ok_0;
    let m2 = collect_modifiers(other, none)->Ok_0;
    assert forall|s: int| 0 <= s < 5 implies #[trigger] modifier_held(m2, s) == modifier_held(m, s) by {
        if exists|i: int| 0 <= i < other.len() && #[trigger] name_slot(other[i]) == Some(s) {
            let i = choose|i: int| 0 <= i < other.len() && #[trigger] name_slot(other[i]) == Some(s);
            assert(name_slot(mods[perm[i]]) == Some(s));
        }
        if exists|k: int| 0 <= k < mods.len() && #[trigger] name_slot(mods[k]) == Some(s) {
            let k = choose|k: int| 0 <= k < mods.len() && #[trigger] name_slot(mods[k]) == Some(s);
            assert(name_slot(other[inv[k]]) == name_slot(mods[k]));
        }
    }
    lemma_modifiers_equal(m2, m);
}

} // verus!
