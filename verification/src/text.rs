//! Character-level helpers shared by the parsers: whitespace trimming,
//! ASCII case mapping, splitting on a separator, and the std conversions
//! between strings and character vectors.

use vstd::prelude::*;

verus! {

/// `char::is_whitespace`: the Unicode `White_Space` property.
pub open spec fn is_white_space(c: char) -> bool {
    ||| ('\t' <= c && c <= '\r')
    ||| c == ' '
    ||| c == '\u{85}'
    ||| c == '\u{a0}'
    ||| c == '\u{1680}'
    ||| ('\u{2000}' <= c && c <= '\u{200a}')
    ||| c == '\u{2028}'
    ||| c == '\u{2029}'
    ||| c == '\u{202f}'
    ||| c == '\u{205f}'
    ||| c == '\u{3000}'
}

pub fn is_white_space_char(c: char) -> (r: bool)
    ensures
        r == is_white_space(c),
{
    ('\t' <= c && c <= '\r') || c == ' ' || c == '\u{85}' || c == '\u{a0}' || c == '\u{1680}'
        || ('\u{2000}' <= c && c <= '\u{200a}') || c == '\u{2028}' || c == '\u{2029}'
        || c == '\u{202f}' || c == '\u{205f}' || c == '\u{3000}'
}

/// Number of leading white-space characters of `s`.
pub open spec fn leading_white_space(s: Seq<char>) -> nat
    decreases s.len(),
{
    if s.len() > 0 && is_white_space(s[0]) {
        1 + leading_white_space(s.drop_first())
    } else {
        0
    }
}

/// Number of trailing white-space characters of `s`.
pub open spec fn trailing_white_space(s: Seq<char>) -> nat
    decreases s.len(),
{
    if s.len() > 0 && is_white_space(s.last()) {
        1 + trailing_white_space(s.drop_last())
    } else {
        0
    }
}

/// `str::trim`: `s` without its leading and trailing white space.
pub open spec fn trim(s: Seq<char>) -> Seq<char> {
    let front = leading_white_space(s) as int;
    let rest = s.subrange(front, s.len() as int);
    rest.subrange(0, rest.len() - trailing_white_space(rest) as int)
}

pub open spec fn is_ascii_upper(c: char) -> bool {
    'A' <= c && c <= 'Z'
}

pub open spec fn is_ascii_lower(c: char) -> bool {
    'a' <= c && c <= 'z'
}

/// `char::to_ascii_lowercase`.
pub open spec fn ascii_lower(c: char) -> char {
    if is_ascii_upper(c) { ((c as u32) + 32) as char } else { c }
}

/// `char::to_ascii_uppercase`.
pub open spec fn ascii_upper(c: char) -> char {
    if is_ascii_lower(c) { ((c as u32) - 32) as char } else { c }
}

pub open spec fn lower_seq(s: Seq<char>) -> Seq<char> {
    s.map_values(|c: char| ascii_lower(c))
}

pub open spec fn upper_seq(s: Seq<char>) -> Seq<char> {
    s.map_values(|c: char| ascii_upper(c))
}

pub fn ascii_lower_char(c: char) -> (r: char)
    ensures
        r == ascii_lower(c),
{
    if 'A' <= c && c <= 'Z' {
        let b: u8 = c as u8;
        assert(b as u32 == c as u32);
        ((b + 32) as char)
    } else {
        c
    }
}

pub fn ascii_upper_char(c: char) -> (r: char)
    ensures
        r == ascii_upper(c),
{
    if 'a' <= c && c <= 'z' {
        let b: u8 = c as u8;
        assert(b as u32 == c as u32);
        ((b - 32) as char)
    } else {
        c
    }
}

/// ASCII letter, digit or underscore.
pub open spec fn is_key_name_char(c: char) -> bool {
    ||| ('a' <= c && c <= 'z')
    ||| ('A' <= c && c <= 'Z')
    ||| ('0' <= c && c <= '9')
    ||| c == '_'
}

pub fn is_key_name_char_exec(c: char) -> (r: bool)
    ensures
        r == is_key_name_char(c),
{
    ('a' <= c && c <= 'z') || ('A' <= c && c <= 'Z') || ('0' <= c && c <= '9') || c == '_'
}

/// `str::split(sep)` as a sequence of pieces, defined one character at a time.
pub open spec fn split_on(s: Seq<char>, sep: char) -> Seq<Seq<char>>
    decreases s.len(),
{
    if s.len() == 0 {
        seq![Seq::<char>::empty()]
    } else {
        let pieces = split_on(s.drop_last(), sep);
        if s.last() == sep {
            pieces.push(Seq::<char>::empty())
        } else {
            pieces.update(pieces.len() - 1, pieces.last().push(s.last()))
        }
    }
}

pub proof fn lemma_split_on_nonempty(s: Seq<char>, sep: char)
    ensures
        split_on(s, sep).len() > 0,
    decreases s.len(),
{
    if s.len() > 0 {
        lemma_split_on_nonempty(s.drop_last(), sep);
    }
}


/// Splitting text joined at a separator gives the pieces of both sides.
pub proof fn lemma_split_on_join(a: Seq<char>, sep: char, b: Seq<char>)
    ensures
        split_on(a + seq![sep] + b, sep) == split_on(a, sep) + split_on(b, sep),
    decreases b.len(),
{
    if b.len() == 0 {
        assert(a + seq![sep] + b =~= a.push(sep));
        assert((a + seq![sep] + b).drop_last() =~= a);
        assert(split_on(b, sep) =~= seq![Seq::<char>::empty()]);
        assert(split_on(a, sep).push(Seq::<char>::empty()) =~= split_on(a, sep) + split_on(b, sep));
    } else {
        let b1 = b.drop_last();
        let c = b.last();
        lemma_split_on_join(a, sep, b1);
        lemma_split_on_nonempty(b1, sep);
        let whole = a + seq![sep] + b;
        assert(whole.drop_last() =~= a + seq![sep] + b1);
        assert(whole.last() == c);
        let x = split_on(a, sep);
        let y = split_on(b1, sep);
        if c == sep {
            assert((x + y).push(Seq::<char>::empty()) =~= x + y.push(Seq::<char>::empty()));
        } else {
            assert((x + y).update((x + y).len() - 1, (x + y).last().push(c))
                =~= x + y.update(y.len() - 1, y.last().push(c)));
        }
    }
}

/// Text without the separator is a single piece.
pub proof fn lemma_split_on_single(w: Seq<char>, sep: char)
    requires
        forall|i: int| 0 <= i < w.len() ==> w[i] != sep,
    ensures
        split_on(w, sep) == seq![w],
    decreases w.len(),
{
    if w.len() == 0 {
        assert(w =~= Seq::<char>::empty());
    } else {
        lemma_split_on_single(w.drop_last(), sep);
        assert(w[w.len() - 1] != sep);
        assert(w.drop_last().push(w.last()) =~= w);
        assert(seq![w.drop_last()].update(0, w.drop_last().push(w.last())) =~= seq![w]);
    }
}

/// Trimming text that neither starts nor ends with white space changes nothing.
pub proof fn lemma_trim_unchanged(s: Seq<char>)
    requires
        s.len() > 0,
        !is_white_space(s[0]),
        !is_white_space(s.last()),
    ensures
        trim(s) == s,
{
    assert(leading_white_space(s) == 0);
    assert(s.subrange(0, s.len() as int) =~= s);
    assert(trailing_white_space(s) == 0);
    assert(s.subrange(0, s.len() as int) =~= s);
}

/// Leading white space of a concatenation: that of `s`, and when `s` is all
/// white space, that of `t` after it.
pub proof fn lemma_leading_white_space_concat(s: Seq<char>, t: Seq<char>)
    ensures
        leading_white_space(s) <= s.len(),
        leading_white_space(s + t) == if leading_white_space(s) == s.len() {
            s.len() + leading_white_space(t)
        } else {
            leading_white_space(s)
        },
    decreases s.len(),
{
    if s.len() == 0 {
        assert(s + t =~= t);
    } else {
        lemma_leading_white_space_concat(s.drop_first(), t);
        assert((s + t).drop_first() =~= s.drop_first() + t);
        assert((s + t)[0] == s[0]);
    }
}

/// Trailing white space of a concatenation: that of `t`, and when `t` is all
/// white space, that of `s` before it.
pub proof fn lemma_trailing_white_space_concat(s: Seq<char>, t: Seq<char>)
    ensures
        trailing_white_space(t) <= t.len(),
        trailing_white_space(s + t) == if trailing_white_space(t) == t.len() {
            t.len() + trailing_white_space(s)
        } else {
            trailing_white_space(t)
        },
    decreases t.len(),
{
    if t.len() == 0 {
        assert(s + t =~= s);
    } else {
        lemma_trailing_white_space_concat(s, t.drop_last());
        assert((s + t).drop_last() =~= s + t.drop_last());
        assert((s + t).last() == t.last());
    }
}

/// A run of white space is all leading and all trailing white space.
pub proof fn lemma_white_space_run(w: Seq<char>)
    requires
        forall|i: int| 0 <= i < w.len() ==> is_white_space(#[trigger] w[i]),
    ensures
        leading_white_space(w) == w.len(),
        trailing_white_space(w) == w.len(),
    decreases w.len(),
{
    if w.len() > 0 {
        let d = w.drop_first();
        assert forall|i: int| 0 <= i < d.len() implies is_white_space(#[trigger] d[i]) by {
            assert(d[i] == w[i + 1]);
        }
        lemma_white_space_run(d);
        let l = w.drop_last();
        assert forall|i: int| 0 <= i < l.len() implies is_white_space(#[trigger] l[i]) by {
            assert(l[i] == w[i]);
        }
        lemma_white_space_run(l);
    }
}

/// Trimming ignores white space added around a text.
pub proof fn lemma_trim_ignores_padding(before: Seq<char>, s: Seq<char>, after: Seq<char>)
    requires
        forall|i: int| 0 <= i < before.len() ==> is_white_space(#[trigger] before[i]),
        forall|i: int| 0 <= i < after.len() ==> is_white_space(#[trigger] after[i]),
    ensures
        trim(before + s + after) == trim(s),
{
    let x = before + s + after;
    assert(x =~= before + (s + after));
    lemma_white_space_run(before);
    lemma_white_space_run(after);
    lemma_leading_white_space_concat(before, s + after);
    lemma_leading_white_space_concat(s, after);
    let lead = leading_white_space(s) as int;
    if lead == s.len() {
        assert(leading_white_space(x) == x.len());
        assert(trim(x) =~= Seq::<char>::empty());
        assert(trim(s) =~= Seq::<char>::empty());
    } else {
        assert(leading_white_space(x) == before.len() + lead);
        let r = s.subrange(lead, s.len() as int);
        let rest = x.subrange(before.len() + lead, x.len() as int);
        assert(rest =~= r + after);
        lemma_trailing_white_space_concat(r, after);
        lemma_trailing_white_space_concat(Seq::<char>::empty(), r);
        assert(trailing_white_space(rest) == after.len() + trailing_white_space(r));
        assert(trim(x) == rest.subrange(0, r.len() - trailing_white_space(r) as int));
        assert(trim(x) =~= r.subrange(0, r.len() - trailing_white_space(r) as int));
    }
}

/// Splits `s` at each `sep`: the pieces before the last separator, and the last piece.
pub fn split_chars(trimmed: &Vec<char>, sep: char) -> (r: (Vec<Vec<char>>, Vec<char>))
    ensures
        r.0@.map_values(|p: Vec<char>| p@).push(r.1@) == split_on(trimmed@, sep),
{
    let ghost t = trimmed@;
    let mut done: Vec<Vec<char>> = Vec::new();
    let mut current: Vec<char> = Vec::new();
    let mut i: usize = 0;
    while i < trimmed.len()
        invariant
            t == trimmed@,
            i <= trimmed.len(),
            done@.map_values(|p: Vec<char>| p@).push(current@) == split_on(t.subrange(0, i as int), sep),
        decreases trimmed.len() - i,
    {
        let c = trimmed[i];
        let ghost before = done@.map_values(|p: Vec<char>| p@).push(current@);
        assert(t.subrange(0, i + 1).drop_last() =~= t.subrange(0, i as int));
        assert(t.subrange(0, i + 1).last() == c);
        if c == sep {
            let piece = current;
            done.push(piece);
            current = Vec::new();
            assert(done@.map_values(|p: Vec<char>| p@).push(current@) =~= before.push(Seq::<char>::empty()));
        } else {
            current.push(c);
            assert(done@.map_values(|p: Vec<char>| p@).push(current@) =~= before.update(before.len() - 1, before.last().push(c)));
        }
        i = i + 1;
    }
    assert(t.subrange(0, trimmed.len() as int) == t);
    (done, current)
}


/// The decimal digit character for `d` (below ten).
pub open spec fn digit_char(d: nat) -> char {
    ((48 + d) as u8) as char
}

/// The decimal numeral of `n`, as `{}` prints an unsigned integer.
pub open spec fn decimal(n: nat) -> Seq<char>
    decreases n,
{
    if n < 10 {
        seq![digit_char(n)]
    } else {
        decimal(n / 10).push(digit_char(n % 10))
    }
}

fn push_decimal(n: u64, out: &mut Vec<char>)
    ensures
        final(out)@ == old(out)@ + decimal(n as nat),
    decreases n,
{
    if n >= 10 {
        push_decimal(n / 10, out);
    }
    let d: u8 = (n % 10) as u8;
    let c = (48u8 + d) as char;
    out.push(c);
    proof {
        if n >= 10 {
            assert(decimal(n as nat) == decimal((n / 10) as nat).push(digit_char((n % 10) as nat)));
        }
    }
    assert(out@ =~= old(out)@ + decimal(n as nat)) by {
        if n < 10 {
            assert(decimal(n as nat) =~= seq![digit_char(n as nat)]);
        }
    }
}

/// `n` written in decimal.
pub fn decimal_string(n: u64) -> (s: String)
    ensures
        s@ == decimal(n as nat),
{
    let mut digits: Vec<char> = Vec::new();
    push_decimal(n, &mut digits);
    assert(digits@ =~= decimal(n as nat));
    string_from_chars(digits.as_slice())
}

/// The characters of `s`, in order.
pub fn chars_of(s: &str) -> (v: Vec<char>)
    ensures
        v@ == s@,
{
    let n = s.unicode_len();
    let mut v: Vec<char> = Vec::new();
    let mut i: usize = 0;
    while i < n
        invariant
            n == s@.len(),
            i <= n,
            v@ == s@.subrange(0, i as int),
        decreases n - i,
    {
        let c = s.get_char(i);
        v.push(c);
        i = i + 1;
        assert(v@ == s@.subrange(0, i as int));
    }
    assert(s@.subrange(0, n as int) == s@);
    v
}

/// `String::from_iter` over characters.
#[verifier::external_body]
pub(crate) fn string_from_chars(chars: &[char]) -> (s: String)
    ensures
        s@ == chars@,
{
    chars.iter().collect()
}

/// The text that `{:?}` prints for a string slice (quoted, with escapes).
pub uninterp spec fn debug_text(s: Seq<char>) -> Seq<char>;

/// `<str as Debug>::fmt`, through `format!("{:?}")`.
#[verifier::external_body]
pub(crate) fn debug_string(s: &str) -> (r: String)
    ensures
        r@ == debug_text(s@),
{
    format!("{s:?}")
}

/// Whether two strings hold the same characters.
pub(crate) fn str_equal(a: &str, b: &str) -> (r: bool)
    ensures
        r == (a@ == b@),
{
    let n = a.unicode_len();
    if n != b.unicode_len() {
        return false;
    }
    let mut i: usize = 0;
    while i < n
        invariant
            n == a@.len(),
            n == b@.len(),
            i <= n,
            forall|j: int| 0 <= j < i ==> a@[j] == b@[j],
        decreases n - i,
    {
        if a.get_char(i) != b.get_char(i) {
            return false;
        }
        i = i + 1;
    }
    assert(a@ =~= b@);
    true
}

/// Whether the characters of `v` are exactly `word`.
pub fn chars_equal(v: &Vec<char>, word: &Vec<char>) -> (r: bool)
    ensures
        r == (v@ == word@),
{
    if v.len() != word.len() {
        return false;
    }
    let mut i: usize = 0;
    while i < v.len()
        invariant
            v.len() == word.len(),
            i <= v.len(),
            forall|j: int| 0 <= j < i ==> v@[j] == word@[j],
        decreases v.len() - i,
    {
        if v[i] != word[i] {
            return false;
        }
        i = i + 1;
    }
    assert(v@ =~= word@);
    true
}

/// Lower-cases the ASCII letters of a character sequence.
pub fn lowercase_chars(s: &Vec<char>) -> (r: Vec<char>)
    ensures
        r@ == lower_seq(s@),
{
    let mut r: Vec<char> = Vec::new();
    let mut i: usize = 0;
    while i < s.len()
        invariant
            i <= s.len(),
            r@ == lower_seq(s@.subrange(0, i as int)),
        decreases s.len() - i,
    {
        r.push(ascii_lower_char(s[i]));
        i = i + 1;
        assert(lower_seq(s@.subrange(0, i as int)) =~= lower_seq(s@.subrange(0, i - 1)).push(ascii_lower(s@[i - 1])));
    }
    assert(s@.subrange(0, s.len() as int) == s@);
    r
}

/// Trims leading and trailing white space from a character sequence.
pub fn trim_chars(s: &Vec<char>) -> (r: Vec<char>)
    ensures
        r@ == trim(s@),
{
    let n = s.len();
    let mut start: usize = 0;
    assert(s@.subrange(0, n as int) == s@);
    while start < n && is_white_space_char(s[start])
        invariant
            n == s@.len(),
            start <= n,
            leading_white_space(s@) == start + leading_white_space(s@.subrange(start as int, n as int)),
        decreases n - start,
    {
        let ghost rest = s@.subrange(start as int, n as int);
        assert(rest.drop_first() == s@.subrange(start + 1, n as int));
        start = start + 1;
    }
    proof {
        if start < n {
            assert(s@.subrange(start as int, n as int)[0] == s@[start as int]);
        }
        assert(leading_white_space(s@.subrange(start as int, n as int)) == 0);
    }
    let ghost rest = s@.subrange(start as int, n as int);
    let mut end: usize = n;
    while end > start && is_white_space_char(s[end - 1])
        invariant
            n == s@.len(),
            start <= end <= n,
            rest == s@.subrange(start as int, n as int),
            trailing_white_space(rest) == (n - end) + trailing_white_space(s@.subrange(start as int, end as int)),
        decreases end - start,
    {
        let ghost part = s@.subrange(start as int, end as int);
        assert(part.drop_last() == s@.subrange(start as int, end - 1));
        assert(part.last() == s@[end - 1]);
        end = end - 1;
    }
    proof {
        let part = s@.subrange(start as int, end as int);
        if end > start {
            assert(part.last() == s@[end - 1]);
        }
        assert(trailing_white_space(part) == 0);
    }
    let mut r: Vec<char> = Vec::new();
    let mut i: usize = start;
    while i < end
        invariant
            n == s@.len(),
            start <= i <= end <= n,
            r@ == s@.subrange(start as int, i as int),
        decreases end - i,
    {
        r.push(s[i]);
        i = i + 1;
        assert(r@ == s@.subrange(start as int, i as int));
    }
    assert(rest.subrange(0, rest.len() - trailing_white_space(rest) as int) == s@.subrange(start as int, end as int));
    r
}

} // verus!
