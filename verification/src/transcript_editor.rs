//! The transcript window's text field: byte-offset selection over UTF-8
//! text, cursor movement by whole grapheme clusters, and the UTF-16 ranges
//! the platform's input method speaks in.
use vstd::prelude::*;
use crate::live_text::{
    grapheme_clusters, graphemes_of, lemma_flatten_take_prefix, lemma_flatten_take_step, utf16_len, utf16_units,
};
use crate::text::{chars_of, string_from_chars};

verus! {

/// Bytes in the UTF-8 encoding of `c`.
pub open spec fn utf8_width(c: char) -> nat {
    let v = c as u32;
    if v < 0x80 { 1 } else if v < 0x800 { 2 } else if v < 0x10000 { 3 } else { 4 }
}

/// Bytes in the UTF-8 encoding of `s`.
pub open spec fn utf8_len(s: Seq<char>) -> nat
    decreases s.len(),
{
    if s.len() == 0 { 0 } else { utf8_len(s.drop_last()) + utf8_width(s.last()) }
}

/// The first character index, from `k` on, at which at least `b` bytes
/// precede, or the length when none does.
pub open spec fn byte_index_from(s: Seq<char>, b: int, k: int) -> int
    decreases s.len() - k,
{
    if k >= s.len() || utf8_len(s.take(k)) >= b { k } else { byte_index_from(s, b, k + 1) }
}

/// The character index of byte offset `b` (the next one when `b` falls inside
/// a character).
pub open spec fn char_index(s: Seq<char>, b: int) -> int {
    byte_index_from(s, b, 0)
}

/// Whether byte offset `b` lies between two characters (or at either end).
pub open spec fn is_boundary(s: Seq<char>, b: int) -> bool {
    utf8_len(s.take(char_index(s, b))) == b
}

/// The first character index, from `k` on, at which at least `u` UTF-16 units
/// precede, or the length when none does.
pub open spec fn utf16_index_from(s: Seq<char>, u: int, k: int) -> int
    decreases s.len() - k,
{
    if k >= s.len() || utf16_len(s.take(k)) >= u { k } else { utf16_index_from(s, u, k + 1) }
}

/// The byte offset of UTF-16 offset `u`: whole characters are counted until
/// `u` units are reached.
pub open spec fn from_utf16(s: Seq<char>, u: int) -> nat {
    utf8_len(s.take(utf16_index_from(s, u, 0)))
}

/// The UTF-16 offset of byte offset `b`, counted the same way.
pub open spec fn to_utf16(s: Seq<char>, b: int) -> nat {
    utf16_len(s.take(char_index(s, b)))
}

pub proof fn lemma_utf8_step(s: Seq<char>, k: int)
    requires
        0 <= k < s.len(),
    ensures
        utf8_len(s.take(k + 1)) == utf8_len(s.take(k)) + utf8_width(s[k]),
        utf16_len(s.take(k + 1)) == utf16_len(s.take(k)) + utf16_units(s[k]),
{
    assert(s.take(k + 1).drop_last() =~= s.take(k));
}

/// Byte offsets of character indices grow strictly.
pub proof fn lemma_utf8_strictly_grows(s: Seq<char>, i: int, j: int)
    requires
        0 <= i < j <= s.len(),
    ensures
        utf8_len(s.take(i)) < utf8_len(s.take(j)),
        utf16_len(s.take(i)) <= utf16_len(s.take(j)),
    decreases j - i,
{
    lemma_utf8_step(s, j - 1);
    if i < j - 1 {
        lemma_utf8_strictly_grows(s, i, j - 1);
    }
}

pub proof fn lemma_utf16_within_utf8(s: Seq<char>)
    ensures
        utf16_len(s) <= utf8_len(s),
    decreases s.len(),
{
    if s.len() > 0 {
        lemma_utf16_within_utf8(s.drop_last());
    }
}

pub proof fn lemma_utf8_concat(a: Seq<char>, b: Seq<char>)
    ensures
        utf8_len(a + b) == utf8_len(a) + utf8_len(b),
    decreases b.len(),
{
    if b.len() > 0 {
        assert((a + b).drop_last() =~= a + b.drop_last());
        lemma_utf8_concat(a, b.drop_last());
    } else {
        assert(a + b =~= a);
    }
}

/// Scanning from `k` finds index `m` when `b` is the byte offset of `m`.
pub proof fn lemma_byte_index_of_boundary(s: Seq<char>, m: int, k: int)
    requires
        0 <= k <= m <= s.len(),
    ensures
        byte_index_from(s, utf8_len(s.take(m)) as int, k) == m,
    decreases m - k,
{
    if k < m {
        lemma_utf8_strictly_grows(s, k, m);
        lemma_byte_index_of_boundary(s, m, k + 1);
    }
}

/// The byte offset of every character index is a boundary.
pub proof fn lemma_boundary_of_index(s: Seq<char>, m: int)
    requires
        0 <= m <= s.len(),
    ensures
        is_boundary(s, utf8_len(s.take(m)) as int),
        char_index(s, utf8_len(s.take(m)) as int) == m,
{
    lemma_byte_index_of_boundary(s, m, 0);
}

pub proof fn lemma_byte_index_bounds(s: Seq<char>, b: int, k: int)
    requires
        0 <= k <= s.len(),
    ensures
        k <= byte_index_from(s, b, k) <= s.len(),
    decreases s.len() - k,
{
    if !(k >= s.len() || utf8_len(s.take(k)) >= b) {
        lemma_byte_index_bounds(s, b, k + 1);
    }
}

pub proof fn lemma_utf16_index_bounds(s: Seq<char>, u: int, k: int)
    requires
        0 <= k <= s.len(),
    ensures
        k <= utf16_index_from(s, u, k) <= s.len(),
    decreases s.len() - k,
{
    if !(k >= s.len() || utf16_len(s.take(k)) >= u) {
        lemma_utf16_index_bounds(s, u, k + 1);
    }
}

/// A larger UTF-16 offset never maps to an earlier character.
pub proof fn lemma_utf16_index_monotone(s: Seq<char>, u1: int, u2: int, k: int)
    requires
        u1 <= u2,
        0 <= k <= s.len(),
    ensures
        utf16_index_from(s, u1, k) <= utf16_index_from(s, u2, k),
    decreases s.len() - k,
{
    if k >= s.len() || utf16_len(s.take(k)) >= u1 {
        lemma_utf16_index_bounds(s, u2, k);
    } else {
        lemma_utf16_index_monotone(s, u1, u2, k + 1);
    }
}

/// The byte offset of a UTF-16 offset is a boundary within the text, and the
/// conversion keeps order.
pub proof fn lemma_from_utf16(s: Seq<char>, u1: int, u2: int)
    requires
        u1 <= u2,
    ensures
        is_boundary(s, from_utf16(s, u1) as int),
        from_utf16(s, u1) <= from_utf16(s, u2) <= utf8_len(s),
{
    lemma_utf16_index_bounds(s, u1, 0);
    lemma_utf16_index_bounds(s, u2, 0);
    lemma_utf16_index_monotone(s, u1, u2, 0);
    let k1 = utf16_index_from(s, u1, 0);
    let k2 = utf16_index_from(s, u2, 0);
    lemma_boundary_of_index(s, k1);
    if k1 < k2 {
        lemma_utf8_strictly_grows(s, k1, k2);
    }
    if k2 < s.len() {
        lemma_utf8_strictly_grows(s, k2, s.len() as int);
    }
    assert(s.take(s.len() as int) =~= s);
}


/// Byte offsets at which the grapheme clusters of `s` start.
pub open spec fn cluster_starts(s: Seq<char>) -> Seq<nat> {
    let g = grapheme_clusters(s);
    Seq::new(g.len(), |j: int| utf8_len(g.take(j).flatten()))
}

/// The last of `starts[j..]` below `offset`, or `best` when there is none.
pub open spec fn last_start_below(starts: Seq<nat>, offset: int, j: int, best: nat) -> nat
    decreases starts.len() - j,
{
    if j < 0 || j >= starts.len() {
        best
    } else if starts[j] < offset {
        last_start_below(starts, offset, j + 1, starts[j])
    } else {
        last_start_below(starts, offset, j + 1, best)
    }
}

/// The first of `starts[j..]` above `offset`, or `end` when there is none.
pub open spec fn first_start_above(starts: Seq<nat>, offset: int, j: int, end: nat) -> nat
    decreases starts.len() - j,
{
    if j < 0 || j >= starts.len() {
        end
    } else if starts[j] > offset {
        starts[j]
    } else {
        first_start_above(starts, offset, j + 1, end)
    }
}

/// The start of the last grapheme cluster that begins before `offset`, or 0.
pub open spec fn previous_boundary_of(s: Seq<char>, offset: int) -> nat {
    last_start_below(cluster_starts(s), offset, 0, 0)
}

/// The start of the first grapheme cluster that begins after `offset`, or the
/// end of the text.
pub open spec fn next_boundary_of(s: Seq<char>, offset: int) -> nat {
    first_start_above(cluster_starts(s), offset, 0, utf8_len(s))
}

/// The clusters before `j` are the text's first characters.
proof fn lemma_cluster_prefix(s: Seq<char>, j: int)
    requires
        grapheme_clusters(s).flatten() == s,
        0 <= j <= grapheme_clusters(s).len(),
    ensures
        grapheme_clusters(s).take(j).flatten().len() <= s.len(),
        grapheme_clusters(s).take(j).flatten() == s.take(grapheme_clusters(s).take(j).flatten().len() as int),
{
    lemma_flatten_take_prefix(grapheme_clusters(s), j);
}

proof fn lemma_last_start_below_is_start(starts: Seq<nat>, offset: int, j: int, best: nat, s: Seq<char>)
    requires
        0 <= j,
        is_boundary(s, best as int) && best <= utf8_len(s),
        forall|i: int| 0 <= i < starts.len() ==> is_boundary(s, #[trigger] starts[i] as int) && starts[i] <= utf8_len(s),
    ensures
        is_boundary(s, last_start_below(starts, offset, j, best) as int),
        last_start_below(starts, offset, j, best) <= utf8_len(s),
    decreases starts.len() - j,
{
    if j < starts.len() {
        if starts[j] < offset {
            lemma_last_start_below_is_start(starts, offset, j + 1, starts[j], s);
        } else {
            lemma_last_start_below_is_start(starts, offset, j + 1, best, s);
        }
    }
}

proof fn lemma_first_start_above_is_start(starts: Seq<nat>, offset: int, j: int, s: Seq<char>)
    requires
        0 <= j,
        forall|i: int| 0 <= i < starts.len() ==> is_boundary(s, #[trigger] starts[i] as int) && starts[i] <= utf8_len(s),
    ensures
        is_boundary(s, first_start_above(starts, offset, j, utf8_len(s)) as int),
        first_start_above(starts, offset, j, utf8_len(s)) <= utf8_len(s),
    decreases starts.len() - j,
{
    if j < starts.len() {
        if !(starts[j] > offset) {
            lemma_first_start_above_is_start(starts, offset, j + 1, s);
        }
    } else {
        assert(s.take(s.len() as int) =~= s);
        lemma_boundary_of_index(s, s.len() as int);
    }
}

/// Every cluster start is a boundary within the text.
proof fn lemma_cluster_starts_are_boundaries(s: Seq<char>)
    requires
        grapheme_clusters(s).flatten() == s,
    ensures
        forall|i: int| 0 <= i < cluster_starts(s).len() ==> is_boundary(s, #[trigger] cluster_starts(s)[i] as int)
            && cluster_starts(s)[i] <= utf8_len(s),
{
    let g = grapheme_clusters(s);
    assert forall|i: int| 0 <= i < cluster_starts(s).len() implies is_boundary(s, #[trigger] cluster_starts(s)[i] as int)
        && cluster_starts(s)[i] <= utf8_len(s) by {
        lemma_cluster_prefix(s, i);
        let m = g.take(i).flatten().len() as int;
        lemma_boundary_of_index(s, m);
        if m < s.len() {
            lemma_utf8_strictly_grows(s, m, s.len() as int);
        }
        assert(s.take(s.len() as int) =~= s);
    }
}

fn width8(c: char) -> (n: usize)
    ensures
        n == utf8_width(c),
{
    let v = c as u32;
    if v < 0x80 { 1 } else if v < 0x800 { 2 } else if v < 0x10000 { 3 } else { 4 }
}

fn width16(c: char) -> (n: usize)
    ensures
        n == utf16_units(c),
{
    if (c as u32) >= 0x10000 { 2 } else { 1 }
}

/// UTF-8 length of the characters of `chars`.
fn utf8_count(chars: &Vec<char>) -> (n: usize)
    requires
        utf8_len(chars@) <= isize::MAX,
    ensures
        n == utf8_len(chars@),
{
    let mut n: usize = 0;
    let mut k: usize = 0;
    while k < chars.len()
        invariant
            k <= chars@.len(),
            n == utf8_len(chars@.take(k as int)),
            utf8_len(chars@) <= isize::MAX,
        decreases chars@.len() - k,
    {
        proof {
            lemma_utf8_step(chars@, k as int);
            if k + 1 < chars@.len() {
                lemma_utf8_strictly_grows(chars@, k + 1, chars@.len() as int);
            }
            assert(chars@.take(chars@.len() as int) =~= chars@);
        }
        n = n + width8(chars[k]);
        k = k + 1;
    }
    assert(chars@.take(chars@.len() as int) =~= chars@);
    n
}

/// The character index of byte offset `b`, with the byte offset it stands at.
fn index_of_byte(chars: &Vec<char>, b: usize) -> (r: (usize, usize))
    requires
        utf8_len(chars@) <= isize::MAX,
    ensures
        r.0 == char_index(chars@, b as int),
        r.1 == utf8_len(chars@.take(r.0 as int)),
        r.0 <= chars@.len(),
{
    let ghost s = chars@;
    let mut k: usize = 0;
    let mut acc: usize = 0;
    while k < chars.len() && acc < b
        invariant
            s == chars@,
            k <= s.len(),
            acc == utf8_len(s.take(k as int)),
            byte_index_from(s, b as int, 0) == byte_index_from(s, b as int, k as int),
            utf8_len(s) <= isize::MAX,
        decreases s.len() - k,
    {
        proof {
            lemma_utf8_step(s, k as int);
            if k + 1 < s.len() {
                lemma_utf8_strictly_grows(s, k + 1, s.len() as int);
            }
            assert(s.take(s.len() as int) =~= s);
        }
        acc = acc + width8(chars[k]);
        k = k + 1;
    }
    (k, acc)
}

/// The character index of UTF-16 offset `u`, with the byte offset it stands at.
fn index_of_utf16(chars: &Vec<char>, u: usize) -> (r: (usize, usize))
    requires
        utf8_len(chars@) <= isize::MAX,
    ensures
        r.0 == utf16_index_from(chars@, u as int, 0),
        r.1 == utf8_len(chars@.take(r.0 as int)),
        r.0 <= chars@.len(),
{
    let ghost s = chars@;
    let mut k: usize = 0;
    let mut acc16: usize = 0;
    let mut acc8: usize = 0;
    while k < chars.len() && acc16 < u
        invariant
            s == chars@,
            k <= s.len(),
            acc8 == utf8_len(s.take(k as int)),
            acc16 == utf16_len(s.take(k as int)),
            utf16_index_from(s, u as int, 0) == utf16_index_from(s, u as int, k as int),
            utf8_len(s) <= isize::MAX,
        decreases s.len() - k,
    {
        proof {
            lemma_utf8_step(s, k as int);
            lemma_utf16_within_utf8(s.take(k + 1));
            if k + 1 < s.len() {
                lemma_utf8_strictly_grows(s, k + 1, s.len() as int);
            }
            assert(s.take(s.len() as int) =~= s);
        }
        acc8 = acc8 + width8(chars[k]);
        acc16 = acc16 + width16(chars[k]);
        k = k + 1;
    }
    (k, acc8)
}

/// The UTF-16 length of the first `k` characters.
fn utf16_prefix(chars: &Vec<char>, k: usize) -> (n: usize)
    requires
        utf8_len(chars@) <= isize::MAX,
        k <= chars@.len(),
    ensures
        n == utf16_len(chars@.take(k as int)),
{
    let ghost s = chars@;
    let mut n: usize = 0;
    let mut i: usize = 0;
    while i < k
        invariant
            s == chars@,
            i <= k <= s.len(),
            n == utf16_len(s.take(i as int)),
            utf8_len(s) <= isize::MAX,
        decreases k - i,
    {
        proof {
            lemma_utf8_step(s, i as int);
            lemma_utf16_within_utf8(s.take(i + 1));
            if i + 1 < s.len() {
                lemma_utf8_strictly_grows(s, i + 1, s.len() as int);
            }
            assert(s.take(s.len() as int) =~= s);
        }
        n = n + width16(chars[i]);
        i = i + 1;
    }
    n
}


proof fn lemma_prefix_within(s: Seq<char>, m: int)
    requires
        0 <= m <= s.len(),
    ensures
        utf8_len(s.take(m)) <= utf8_len(s),
{
    if m < s.len() {
        lemma_utf8_strictly_grows(s, m, s.len() as int);
    }
    assert(s.take(s.len() as int) =~= s);
}

/// One more cluster: its start, and the start of the one after it.
proof fn lemma_next_cluster_start(s: Seq<char>, j: int)
    requires
        grapheme_clusters(s).flatten() == s,
        0 <= j < grapheme_clusters(s).len(),
    ensures
        utf8_len(grapheme_clusters(s).take(j + 1).flatten())
            == utf8_len(grapheme_clusters(s).take(j).flatten()) + utf8_len(grapheme_clusters(s)[j]),
        utf8_len(grapheme_clusters(s).take(j + 1).flatten()) <= utf8_len(s),
{
    let g = grapheme_clusters(s);
    lemma_flatten_take_step(g, j);
    lemma_utf8_concat(g.take(j).flatten(), g[j]);
    lemma_cluster_prefix(s, j + 1);
    lemma_prefix_within(s, g.take(j + 1).flatten().len() as int);
}

/// The start of the last grapheme cluster before `offset` (0 if none).
fn previous_cluster_start(content: &str, offset: usize) -> (b: usize)
    requires
        utf8_len(content@) <= isize::MAX,
    ensures
        b == previous_boundary_of(content@, offset as int),
        is_boundary(content@, b as int),
        b <= utf8_len(content@),
{
    let clusters = graphemes_of(content);
    let ghost g = grapheme_clusters(content@);
    let ghost starts = cluster_starts(content@);
    proof {
        lemma_cluster_starts_are_boundaries(content@);
        lemma_boundary_of_index(content@, 0);
    }
    let mut pos: usize = 0;
    let mut best: usize = 0;
    let mut j: usize = 0;
    while j < clusters.len()
        invariant
            clusters@.map_values(|c: String| c@) == g,
            g == grapheme_clusters(content@),
            g.flatten() == content@,
            starts == cluster_starts(content@),
            utf8_len(content@) <= isize::MAX,
            j <= g.len(),
            pos == utf8_len(g.take(j as int).flatten()),
            last_start_below(starts, offset as int, 0, 0) == last_start_below(starts, offset as int, j as int, best as nat),
            is_boundary(content@, best as int),
            best <= utf8_len(content@),
            forall|i: int| 0 <= i < starts.len() ==> is_boundary(content@, #[trigger] starts[i] as int)
                && starts[i] <= utf8_len(content@),
        decreases g.len() - j,
    {
        assert(starts[j as int] == pos);
        if pos < offset {
            best = pos;
        }
        let piece = chars_of(clusters[j].as_str());
        assert(piece@ == g[j as int]);
        proof {
            lemma_next_cluster_start(content@, j as int);
        }
        pos = pos + utf8_count(&piece);
        j = j + 1;
    }
    proof {
        lemma_last_start_below_is_start(starts, offset as int, j as int, best as nat, content@);
    }
    best
}

/// The start of the first grapheme cluster after `offset` (the end if none).
fn next_cluster_start(content: &str, offset: usize) -> (b: usize)
    requires
        utf8_len(content@) <= isize::MAX,
    ensures
        b == next_boundary_of(content@, offset as int),
        is_boundary(content@, b as int),
        b <= utf8_len(content@),
{
    let clusters = graphemes_of(content);
    let ghost g = grapheme_clusters(content@);
    let ghost starts = cluster_starts(content@);
    proof {
        lemma_cluster_starts_are_boundaries(content@);
        lemma_first_start_above_is_start(starts, offset as int, 0, content@);
    }
    let mut pos: usize = 0;
    let mut j: usize = 0;
    while j < clusters.len()
        invariant
            clusters@.map_values(|c: String| c@) == g,
            g == grapheme_clusters(content@),
            g.flatten() == content@,
            starts == cluster_starts(content@),
            utf8_len(content@) <= isize::MAX,
            j <= g.len(),
            pos == utf8_len(g.take(j as int).flatten()),
            first_start_above(starts, offset as int, 0, utf8_len(content@))
                == first_start_above(starts, offset as int, j as int, utf8_len(content@)),
            forall|i: int| 0 <= i < starts.len() ==> is_boundary(content@, #[trigger] starts[i] as int)
                && starts[i] <= utf8_len(content@),
        decreases g.len() - j,
    {
        assert(starts[j as int] == pos);
        if pos > offset {
            return pos;
        }
        let piece = chars_of(clusters[j].as_str());
        assert(piece@ == g[j as int]);
        proof {
            lemma_next_cluster_start(content@, j as int);
        }
        pos = pos + utf8_count(&piece);
        j = j + 1;
    }
    assert(g.take(g.len() as int) =~= g);
    pos
}


/// `s` with the bytes from `start` to `end` replaced by `text`.
pub open spec fn spliced(s: Seq<char>, start: int, end: int, text: Seq<char>) -> Seq<char> {
    s.take(char_index(s, start)) + text + s.skip(char_index(s, end))
}

/// A byte range that starts no later than it ends, within the text, on
/// character boundaries.
pub open spec fn valid_range(s: Seq<char>, r: (usize, usize)) -> bool {
    &&& r.0 <= r.1 <= utf8_len(s)
    &&& is_boundary(s, r.0 as int)
    &&& is_boundary(s, r.1 as int)
}

/// Where the cursor is: the end of the selection that moves.
pub open spec fn cursor_of(selection: (usize, usize), reversed: bool) -> usize {
    if reversed { selection.0 } else { selection.1 }
}

/// Extending the selection to `offset` moves its moving end; when that end
/// crosses the other, the two swap and the direction flips.
pub open spec fn selected_to(selection: (usize, usize), reversed: bool, offset: usize) -> ((usize, usize), bool) {
    let moved = if reversed { (offset, selection.1) } else { (selection.0, offset) };
    if moved.1 < moved.0 { ((moved.1, moved.0), !reversed) } else { (moved, reversed) }
}

proof fn lemma_splice_lengths(s: Seq<char>, start: int, end: int, text: Seq<char>)
    requires
        0 <= start <= end <= utf8_len(s),
        is_boundary(s, start),
        is_boundary(s, end),
    ensures
        utf8_len(spliced(s, start, end, text)) == start + utf8_len(text) + (utf8_len(s) - end),
        is_boundary(spliced(s, start, end, text), start + utf8_len(text)),
        is_boundary(spliced(s, start, end, text), start),
        0 <= char_index(s, start) <= char_index(s, end) <= s.len(),
{
    let i = char_index(s, start);
    let j = char_index(s, end);
    lemma_byte_index_bounds(s, start, 0);
    lemma_byte_index_bounds(s, end, 0);
    if j < i {
        lemma_utf8_strictly_grows(s, j, i);
    }
    let t = spliced(s, start, end, text);
    lemma_utf8_concat(s.take(i) + text, s.skip(j));
    lemma_utf8_concat(s.take(i), text);
    lemma_utf8_concat(s.take(j), s.skip(j));
    assert(s.take(j) + s.skip(j) =~= s);
    let m = (s.take(i) + text).len() as int;
    assert(t.take(m) =~= s.take(i) + text);
    lemma_boundary_of_index(t, m);
    assert(t.take(i) =~= s.take(i));
    lemma_boundary_of_index(t, i);
}

/// The start and the end of a text are boundaries.
proof fn lemma_ends_are_boundaries(s: Seq<char>)
    ensures
        is_boundary(s, 0),
        is_boundary(s, utf8_len(s) as int),
{
    assert(s.take(0) =~= Seq::<char>::empty());
    lemma_boundary_of_index(s, 0);
    assert(s.take(s.len() as int) =~= s);
    lemma_boundary_of_index(s, s.len() as int);
}

fn splice(chars: &Vec<char>, i: usize, j: usize, text: &Vec<char>) -> (r: Vec<char>)
    requires
        i <= j <= chars@.len(),
    ensures
        r@ == chars@.take(i as int) + text@ + chars@.skip(j as int),
{
    let mut r: Vec<char> = Vec::new();
    let mut k: usize = 0;
    while k < i
        invariant
            k <= i <= chars@.len(),
            r@ == chars@.take(k as int),
        decreases i - k,
    {
        r.push(chars[k]);
        k = k + 1;
        assert(r@ =~= chars@.take(k as int));
    }
    let mut t: usize = 0;
    while t < text.len()
        invariant
            i <= chars@.len(),
            t <= text@.len(),
            r@ == chars@.take(i as int) + text@.take(t as int),
        decreases text@.len() - t,
    {
        r.push(text[t]);
        t = t + 1;
        assert(r@ =~= chars@.take(i as int) + text@.take(t as int));
    }
    assert(text@.take(text@.len() as int) =~= text@);
    let mut k: usize = j;
    while k < chars.len()
        invariant
            i <= j <= k <= chars@.len(),
            r@ == chars@.take(i as int) + text@ + chars@.subrange(j as int, k as int),
        decreases chars@.len() - k,
    {
        r.push(chars[k]);
        k = k + 1;
        assert(r@ =~= chars@.take(i as int) + text@ + chars@.subrange(j as int, k as int));
    }
    assert(chars@.subrange(j as int, chars@.len() as int) =~= chars@.skip(j as int));
    r
}

/// The transcript's editable text with its selection and the range an input
/// method is composing (marked), all as byte offsets into the UTF-8 text.
pub struct TranscriptEditor {
    content: String,
    selected: (usize, usize),
    reversed: bool,
    marked: Option<(usize, usize)>,
    follow_voice_end: bool,
}

impl TranscriptEditor {
    #[verifier::type_invariant]
    closed spec fn well_formed(self) -> bool {
        &&& utf8_len(self.content@) <= isize::MAX
        &&& valid_range(self.content@, self.selected)
        &&& (self.marked matches Some(m) ==> valid_range(self.content@, m))
    }

    pub closed spec fn text(self) -> Seq<char> {
        self.content@
    }

    pub closed spec fn selection(self) -> (usize, usize) {
        self.selected
    }

    pub closed spec fn is_reversed(self) -> bool {
        self.reversed
    }

    pub closed spec fn marked_bytes(self) -> Option<(usize, usize)> {
        self.marked
    }

    pub closed spec fn follows_voice_end(self) -> bool {
        self.follow_voice_end
    }

    /// The byte range an edit without an explicit range replaces: the marked
    /// text if there is any, else the selection.
    pub closed spec fn default_range(self) -> (usize, usize) {
        match self.marked {
            Some(m) => m,
            None => self.selected,
        }
    }

    /// The byte range an edit replaces.
    pub open spec fn target_range(self, range_utf16: Option<(usize, usize)>) -> (usize, usize) {
        match range_utf16 {
            Some(r) => (from_utf16(self.text(), r.0 as int) as usize, from_utf16(self.text(), r.1 as int) as usize),
            None => self.default_range(),
        }
    }

    /// An editor holding `content`, with the cursor at its end.
    pub fn new(content: &str) -> (e: Self)
        requires
            utf8_len(content@) <= isize::MAX,
        ensures
            e.text() == content@,
            e.selection() == (utf8_len(content@) as usize, utf8_len(content@) as usize),
            !e.is_reversed(),
            e.marked_bytes() is None,
            e.follows_voice_end(),
    {
        let chars = chars_of(content);
        let end = utf8_count(&chars);
        proof {
            assert(content@.take(content@.len() as int) =~= content@);
            lemma_boundary_of_index(content@, content@.len() as int);
        }
        TranscriptEditor {
            content: String::from_str(content),
            selected: (end, end),
            reversed: false,
            marked: None,
            follow_voice_end: true,
        }
    }

    pub fn content(&self) -> (r: &str)
        ensures
            r@ == self.text(),
    {
        self.content.as_str()
    }

    /// The selected byte range.
    pub fn selected_range(&self) -> (r: (usize, usize))
        ensures
            r == self.selection(),
            valid_range(self.text(), r),
    {
        proof {
            use_type_invariant(self);
        }
        self.selected
    }

    /// Whether the selection was made backwards (the cursor at its start).
    pub fn selection_reversed(&self) -> (r: bool)
        ensures
            r == self.is_reversed(),
    {
        self.reversed
    }

    /// The byte range being composed by the input method.
    pub fn marked_range(&self) -> (r: Option<(usize, usize)>)
        ensures
            r == self.marked_bytes(),
            r matches Some(m) ==> valid_range(self.text(), m),
    {
        proof {
            use_type_invariant(self);
        }
        self.marked
    }

    /// Whether new voice text should scroll into view.
    pub fn follows_voice(&self) -> (r: bool)
        ensures
            r == self.follows_voice_end(),
    {
        self.follow_voice_end
    }

    /// The user scrolled by hand: stop following the voice text's end.
    pub fn scrolled(&mut self)
        ensures
            !final(self).follows_voice_end(),
            final(self).text() == old(self).text(),
            final(self).selection() == old(self).selection(),
            final(self).is_reversed() == old(self).is_reversed(),
            final(self).marked_bytes() == old(self).marked_bytes(),
    {
        proof {
            use_type_invariant(&*self);
        }
        self.follow_voice_end = false;
    }

    /// Replaces the whole text with recognized voice text: the cursor goes
    /// to its end, composition ends, and the view follows the end again.
    pub fn set_voice_text(&mut self, text: &str)
        requires
            utf8_len(text@) <= isize::MAX,
        ensures
            final(self).text() == text@,
            final(self).selection() == (utf8_len(text@) as usize, utf8_len(text@) as usize),
            !final(self).is_reversed(),
            final(self).marked_bytes() is None,
            final(self).follows_voice_end(),
    {
        *self = TranscriptEditor::new(text);
    }

    /// The cursor's byte offset.
    pub fn cursor_offset(&self) -> (c: usize)
        ensures
            c == cursor_of(self.selection(), self.is_reversed()),
    {
        if self.reversed { self.selected.0 } else { self.selected.1 }
    }

    /// Collapses the selection at `offset`.
    pub fn move_to(&mut self, offset: usize)
        requires
            offset <= utf8_len(old(self).text()),
            is_boundary(old(self).text(), offset as int),
        ensures
            final(self).text() == old(self).text(),
            final(self).selection() == (offset, offset),
            !final(self).is_reversed(),
            final(self).marked_bytes() == old(self).marked_bytes(),
            final(self).follows_voice_end() == old(self).follows_voice_end(),
    {
        proof {
            use_type_invariant(&*self);
        }
        *self = TranscriptEditor {
            content: self.content.clone(),
            selected: (offset, offset),
            reversed: false,
            marked: self.marked,
            follow_voice_end: self.follow_voice_end,
        };
    }

    /// Moves the cursor end of the selection to `offset`.
    pub fn select_to(&mut self, offset: usize)
        requires
            offset <= utf8_len(old(self).text()),
            is_boundary(old(self).text(), offset as int),
        ensures
            final(self).text() == old(self).text(),
            (final(self).selection(), final(self).is_reversed())
                == selected_to(old(self).selection(), old(self).is_reversed(), offset),
            final(self).marked_bytes() == old(self).marked_bytes(),
            final(self).follows_voice_end() == old(self).follows_voice_end(),
    {
        proof {
            use_type_invariant(&*self);
        }
        let moved = if self.reversed { (offset, self.selected.1) } else { (self.selected.0, offset) };
        let (selected, reversed) = if moved.1 < moved.0 {
            ((moved.1, moved.0), !self.reversed)
        } else {
            (moved, self.reversed)
        };
        *self = TranscriptEditor {
            content: self.content.clone(),
            selected,
            reversed,
            marked: self.marked,
            follow_voice_end: self.follow_voice_end,
        };
    }

    /// The start of the grapheme cluster before `offset` (0 at the start).
    pub fn previous_boundary(&self, offset: usize) -> (b: usize)
        ensures
            b == previous_boundary_of(self.text(), offset as int),
            b <= utf8_len(self.text()),
            is_boundary(self.text(), b as int),
    {
        proof {
            use_type_invariant(self);
        }
        previous_cluster_start(self.content.as_str(), offset)
    }

    /// The start of the grapheme cluster after `offset` (the end at the end).
    pub fn next_boundary(&self, offset: usize) -> (b: usize)
        ensures
            b == next_boundary_of(self.text(), offset as int),
            b <= utf8_len(self.text()),
            is_boundary(self.text(), b as int),
    {
        proof {
            use_type_invariant(self);
        }
        next_cluster_start(self.content.as_str(), offset)
    }
}


fn copy_chars(chars: &Vec<char>, i: usize, j: usize) -> (r: Vec<char>)
    requires
        i <= j <= chars@.len(),
    ensures
        r@ == chars@.subrange(i as int, j as int),
{
    let mut r: Vec<char> = Vec::new();
    let mut k: usize = i;
    while k < j
        invariant
            i <= k <= j <= chars@.len(),
            r@ == chars@.subrange(i as int, k as int),
        decreases j - k,
    {
        r.push(chars[k]);
        k = k + 1;
        assert(r@ =~= chars@.subrange(i as int, k as int));
    }
    r
}

/// The selection after Backspace or Delete widens an empty selection to
/// `boundary`; a non-empty selection is deleted as it is.
pub open spec fn deletion_selection(selection: (usize, usize), reversed: bool, boundary: usize) -> ((usize, usize), bool) {
    if selection.0 == selection.1 { selected_to(selection, reversed, boundary) } else { (selection, reversed) }
}

impl TranscriptEditor {
    /// Replaces the bytes of `range` with `text`; the cursor follows the
    /// inserted text and composition ends.
    pub fn replace_range(&mut self, range: (usize, usize), text: &str)
        requires
            valid_range(old(self).text(), range),
            utf8_len(spliced(old(self).text(), range.0 as int, range.1 as int, text@)) <= isize::MAX,
        ensures
            final(self).text() == spliced(old(self).text(), range.0 as int, range.1 as int, text@),
            final(self).selection() == ((range.0 + utf8_len(text@)) as usize, (range.0 + utf8_len(text@)) as usize),
            !final(self).is_reversed(),
            final(self).marked_bytes() is None,
            final(self).follows_voice_end() == old(self).follows_voice_end(),
    {
        proof {
            use_type_invariant(&*self);
        }
        let ghost s = self.content@;
        proof {
            lemma_splice_lengths(s, range.0 as int, range.1 as int, text@);
        }
        let chars = chars_of(self.content.as_str());
        let (i, _) = index_of_byte(&chars, range.0);
        let (j, _) = index_of_byte(&chars, range.1);
        let inserted = chars_of(text);
        let joined = splice(&chars, i, j, &inserted);
        let cursor = range.0 + utf8_count(&inserted);
        *self = TranscriptEditor {
            content: string_from_chars(joined.as_slice()),
            selected: (cursor, cursor),
            reversed: false,
            marked: None,
            follow_voice_end: self.follow_voice_end,
        };
    }

    /// The byte offset of UTF-16 offset `offset`.
    pub fn offset_from_utf16(&self, offset: usize) -> (b: usize)
        ensures
            b == from_utf16(self.text(), offset as int),
    {
        proof {
            use_type_invariant(self);
        }
        let chars = chars_of(self.content.as_str());
        let (_, bytes) = index_of_utf16(&chars, offset);
        bytes
    }

    /// The UTF-16 offset of byte offset `offset`.
    pub fn offset_to_utf16(&self, offset: usize) -> (u: usize)
        ensures
            u == to_utf16(self.text(), offset as int),
    {
        proof {
            use_type_invariant(self);
        }
        let chars = chars_of(self.content.as_str());
        let (k, _) = index_of_byte(&chars, offset);
        utf16_prefix(&chars, k)
    }

    fn byte_range(&self, range_utf16: (usize, usize)) -> (r: (usize, usize))
        requires
            range_utf16.0 <= range_utf16.1,
        ensures
            r == (from_utf16(self.text(), range_utf16.0 as int) as usize, from_utf16(self.text(), range_utf16.1 as int) as usize),
            r.0 == from_utf16(self.text(), range_utf16.0 as int),
            r.1 == from_utf16(self.text(), range_utf16.1 as int),
            valid_range(self.text(), r),
    {
        proof {
            use_type_invariant(self);
            lemma_from_utf16(self.text(), range_utf16.0 as int, range_utf16.1 as int);
            lemma_from_utf16(self.text(), range_utf16.1 as int, range_utf16.1 as int);
        }
        (self.offset_from_utf16(range_utf16.0), self.offset_from_utf16(range_utf16.1))
    }

    /// The text in a UTF-16 range, with the UTF-16 range it actually covers
    /// (its ends moved out to whole characters).
    pub fn text_for_range(&self, range_utf16: (usize, usize)) -> (r: (String, (usize, usize)))
        requires
            range_utf16.0 <= range_utf16.1,
        ensures
            ({
                let b0 = from_utf16(self.text(), range_utf16.0 as int) as int;
                let b1 = from_utf16(self.text(), range_utf16.1 as int) as int;
                &&& r.0@ == self.text().subrange(char_index(self.text(), b0), char_index(self.text(), b1))
                &&& ({
                    let (u0, u1) = r.1;
                    u0 == to_utf16(self.text(), b0) && u1 == to_utf16(self.text(), b1)
                })
            }),
    {
        proof {
            use_type_invariant(self);
        }
        let range = self.byte_range(range_utf16);
        let chars = chars_of(self.content.as_str());
        let (i, _) = index_of_byte(&chars, range.0);
        let (j, _) = index_of_byte(&chars, range.1);
        proof {
            lemma_splice_lengths(self.text(), range.0 as int, range.1 as int, Seq::empty());
        }
        let piece = copy_chars(&chars, i, j);
        let actual = (self.offset_to_utf16(range.0), self.offset_to_utf16(range.1));
        (string_from_chars(piece.as_slice()), actual)
    }

    /// The selection in UTF-16 offsets, and whether it was made backwards.
    pub fn selected_text_range(&self) -> (r: ((usize, usize), bool))
        ensures
            ({
                let ((u0, u1), reversed) = r;
                &&& u0 == to_utf16(self.text(), self.selection().0 as int)
                &&& u1 == to_utf16(self.text(), self.selection().1 as int)
                &&& reversed == self.is_reversed()
            }),
    {
        ((self.offset_to_utf16(self.selected.0), self.offset_to_utf16(self.selected.1)), self.reversed)
    }

    /// The composed range in UTF-16 offsets.
    pub fn marked_text_range(&self) -> (r: Option<(usize, usize)>)
        ensures
            match self.marked_bytes() {
                Some(m) => match r {
                    Some((u0, u1)) => u0 == to_utf16(self.text(), m.0 as int) && u1 == to_utf16(self.text(), m.1 as int),
                    None => false,
                },
                None => r is None,
            },
    {
        match self.marked {
            Some(m) => Some((self.offset_to_utf16(m.0), self.offset_to_utf16(m.1))),
            None => None,
        }
    }

    /// Ends composition, keeping the text.
    pub fn unmark_text(&mut self)
        ensures
            final(self).text() == old(self).text(),
            final(self).selection() == old(self).selection(),
            final(self).is_reversed() == old(self).is_reversed(),
            final(self).marked_bytes() is None,
            final(self).follows_voice_end() == old(self).follows_voice_end(),
    {
        proof {
            use_type_invariant(&*self);
        }
        self.marked = None;
    }

    /// Replaces a UTF-16 range, else the composed text, else the selection,
    /// with `text`.
    pub fn replace_text_in_range(&mut self, range_utf16: Option<(usize, usize)>, text: &str)
        requires
            range_utf16 matches Some(r) ==> r.0 <= r.1,
            utf8_len(spliced(old(self).text(), old(self).target_range(range_utf16).0 as int,
                old(self).target_range(range_utf16).1 as int, text@)) <= isize::MAX,
        ensures
            ({
                let range = old(self).target_range(range_utf16);
                &&& final(self).text() == spliced(old(self).text(), range.0 as int, range.1 as int, text@)
                &&& final(self).selection() == ((range.0 + utf8_len(text@)) as usize, (range.0 + utf8_len(text@)) as usize)
                &&& !final(self).is_reversed()
                &&& final(self).marked_bytes() is None
                &&& final(self).follows_voice_end() == old(self).follows_voice_end()
            }),
    {
        proof {
            use_type_invariant(&*self);
        }
        let range = match range_utf16 {
            Some(r) => self.byte_range(r),
            None => match self.marked {
                Some(m) => m,
                None => self.selected,
            },
        };
        self.replace_range(range, text);
    }

    /// Replaces like `replace_text_in_range` and marks the inserted text as
    /// being composed; a selection given in UTF-16 offsets (counted over the
    /// whole new text) is placed from the start of the replaced range.
    pub fn replace_and_mark_text_in_range(
        &mut self,
        range_utf16: Option<(usize, usize)>,
        text: &str,
        new_selected_utf16: Option<(usize, usize)>,
    )
        requires
            range_utf16 matches Some(r) ==> r.0 <= r.1,
            ({
                let range = old(self).target_range(range_utf16);
                let after = spliced(old(self).text(), range.0 as int, range.1 as int, text@);
                &&& utf8_len(after) <= isize::MAX
                &&& (new_selected_utf16 matches Some(sel) ==> valid_range(after,
                    ((range.0 + from_utf16(after, sel.0 as int)) as usize, (range.0 + from_utf16(after, sel.1 as int)) as usize))
                    && range.0 + from_utf16(after, sel.1 as int) <= usize::MAX
                    && range.0 + from_utf16(after, sel.0 as int) <= usize::MAX)
            }),
        ensures
            ({
                let range = old(self).target_range(range_utf16);
                let after = spliced(old(self).text(), range.0 as int, range.1 as int, text@);
                let cursor = (range.0 + utf8_len(text@)) as usize;
                &&& final(self).text() == after
                &&& final(self).marked_bytes() == (if text@.len() > 0 { Some((range.0, cursor)) } else { None })
                &&& final(self).selection() == (match new_selected_utf16 {
                    Some(sel) => ((range.0 + from_utf16(after, sel.0 as int)) as usize, (range.0 + from_utf16(after, sel.1 as int)) as usize),
                    None => (cursor, cursor),
                })
                &&& !final(self).is_reversed()
                &&& final(self).follows_voice_end() == old(self).follows_voice_end()
            }),
    {
        proof {
            use_type_invariant(&*self);
        }
        let range = match range_utf16 {
            Some(r) => self.byte_range(r),
            None => match self.marked {
                Some(m) => m,
                None => self.selected,
            },
        };
        let ghost before = self.content@;
        proof {
            lemma_splice_lengths(before, range.0 as int, range.1 as int, text@);
        }
        self.replace_range(range, text);
        let start = range.0;
        let marked = if text.unicode_len() > 0 {
            Some((start, self.selected.1))
        } else {
            None
        };
        let selected = match new_selected_utf16 {
            Some(sel) => (start + self.offset_from_utf16(sel.0), start + self.offset_from_utf16(sel.1)),
            None => self.selected,
        };
        *self = TranscriptEditor {
            content: self.content.clone(),
            selected,
            reversed: false,
            marked,
            follow_voice_end: self.follow_voice_end,
        };
    }
}


impl TranscriptEditor {
    /// Left arrow: collapses a selection at its start, or moves the cursor
    /// back one grapheme cluster.
    pub fn left(&mut self)
        ensures
            final(self).text() == old(self).text(),
            final(self).selection() == (if old(self).selection().0 == old(self).selection().1 {
                let b = previous_boundary_of(old(self).text(), cursor_of(old(self).selection(), old(self).is_reversed()) as int) as usize;
                (b, b)
            } else {
                (old(self).selection().0, old(self).selection().0)
            }),
            !final(self).is_reversed(),
            final(self).marked_bytes() == old(self).marked_bytes(),
            final(self).follows_voice_end() == old(self).follows_voice_end(),
    {
        proof {
            use_type_invariant(&*self);
        }
        if self.selected.0 == self.selected.1 {
            let b = self.previous_boundary(self.cursor_offset());
            self.move_to(b);
        } else {
            let start = self.selected.0;
            self.move_to(start);
        }
    }

    /// Right arrow: collapses a selection at its end, or moves the cursor
    /// forward one grapheme cluster.
    pub fn right(&mut self)
        ensures
            final(self).text() == old(self).text(),
            final(self).selection() == (if old(self).selection().0 == old(self).selection().1 {
                let b = next_boundary_of(old(self).text(), cursor_of(old(self).selection(), old(self).is_reversed()) as int) as usize;
                (b, b)
            } else {
                (old(self).selection().1, old(self).selection().1)
            }),
            !final(self).is_reversed(),
            final(self).marked_bytes() == old(self).marked_bytes(),
            final(self).follows_voice_end() == old(self).follows_voice_end(),
    {
        proof {
            use_type_invariant(&*self);
        }
        if self.selected.0 == self.selected.1 {
            let b = self.next_boundary(self.cursor_offset());
            self.move_to(b);
        } else {
            let end = self.selected.1;
            self.move_to(end);
        }
    }

    /// Shift+Left: extends the selection back one grapheme cluster.
    pub fn select_left(&mut self)
        ensures
            final(self).text() == old(self).text(),
            (final(self).selection(), final(self).is_reversed()) == selected_to(old(self).selection(), old(self).is_reversed(),
                previous_boundary_of(old(self).text(), cursor_of(old(self).selection(), old(self).is_reversed()) as int) as usize),
            final(self).marked_bytes() == old(self).marked_bytes(),
            final(self).follows_voice_end() == old(self).follows_voice_end(),
    {
        let b = self.previous_boundary(self.cursor_offset());
        self.select_to(b);
    }

    /// Shift+Right: extends the selection forward one grapheme cluster.
    pub fn select_right(&mut self)
        ensures
            final(self).text() == old(self).text(),
            (final(self).selection(), final(self).is_reversed()) == selected_to(old(self).selection(), old(self).is_reversed(),
                next_boundary_of(old(self).text(), cursor_of(old(self).selection(), old(self).is_reversed()) as int) as usize),
            final(self).marked_bytes() == old(self).marked_bytes(),
            final(self).follows_voice_end() == old(self).follows_voice_end(),
    {
        let b = self.next_boundary(self.cursor_offset());
        self.select_to(b);
    }

    /// Selects the whole text, the cursor at its end.
    pub fn select_all(&mut self)
        ensures
            final(self).text() == old(self).text(),
            final(self).selection() == (0usize, utf8_len(old(self).text()) as usize),
            !final(self).is_reversed(),
            final(self).marked_bytes() == old(self).marked_bytes(),
            final(self).follows_voice_end() == old(self).follows_voice_end(),
    {
        proof {
            use_type_invariant(&*self);
            lemma_ends_are_boundaries(self.text());
        }
        let len = utf8_count(&chars_of(self.content.as_str()));
        self.move_to(0);
        self.select_to(len);
    }

    /// Home: the cursor to the start.
    pub fn home(&mut self)
        ensures
            final(self).text() == old(self).text(),
            final(self).selection() == (0usize, 0usize),
            !final(self).is_reversed(),
            final(self).marked_bytes() == old(self).marked_bytes(),
            final(self).follows_voice_end() == old(self).follows_voice_end(),
    {
        proof {
            use_type_invariant(&*self);
            lemma_ends_are_boundaries(self.text());
        }
        self.move_to(0);
    }

    /// End: the cursor to the end.
    pub fn end(&mut self)
        ensures
            final(self).text() == old(self).text(),
            final(self).selection() == (utf8_len(old(self).text()) as usize, utf8_len(old(self).text()) as usize),
            !final(self).is_reversed(),
            final(self).marked_bytes() == old(self).marked_bytes(),
            final(self).follows_voice_end() == old(self).follows_voice_end(),
    {
        proof {
            use_type_invariant(&*self);
            lemma_ends_are_boundaries(self.text());
        }
        let len = utf8_count(&chars_of(self.content.as_str()));
        self.move_to(len);
    }

    fn delete_toward(&mut self, boundary: usize)
        requires
            boundary <= utf8_len(old(self).text()),
            is_boundary(old(self).text(), boundary as int),
        ensures
            ({
                let (selection, reversed) = deletion_selection(old(self).selection(), old(self).is_reversed(), boundary);
                let range = match old(self).marked_bytes() {
                    Some(m) => m,
                    None => selection,
                };
                &&& final(self).text() == spliced(old(self).text(), range.0 as int, range.1 as int, Seq::empty())
                &&& final(self).selection() == (range.0, range.0)
                &&& !final(self).is_reversed()
                &&& final(self).marked_bytes() is None
                &&& final(self).follows_voice_end() == old(self).follows_voice_end()
            }),
    {
        proof {
            use_type_invariant(&*self);
        }
        if self.selected.0 == self.selected.1 {
            self.select_to(boundary);
        }
        proof {
            use_type_invariant(&*self);
            let range = self.default_range();
            lemma_splice_lengths(self.text(), range.0 as int, range.1 as int, Seq::empty());
            assert(utf8_len(Seq::<char>::empty()) == 0);
            reveal_strlit("");
        }
        self.replace_text_in_range(None, "");
    }

    /// Backspace: deletes the composed text or the selection, or else the
    /// grapheme cluster before the cursor.
    pub fn backspace(&mut self)
        ensures
            ({
                let boundary = previous_boundary_of(old(self).text(), cursor_of(old(self).selection(), old(self).is_reversed()) as int) as usize;
                let (selection, reversed) = deletion_selection(old(self).selection(), old(self).is_reversed(), boundary);
                let range = match old(self).marked_bytes() {
                    Some(m) => m,
                    None => selection,
                };
                &&& final(self).text() == spliced(old(self).text(), range.0 as int, range.1 as int, Seq::empty())
                &&& final(self).selection() == (range.0, range.0)
                &&& !final(self).is_reversed()
                &&& final(self).marked_bytes() is None
            }),
    {
        let b = self.previous_boundary(self.cursor_offset());
        self.delete_toward(b);
    }

    /// Delete: deletes the composed text or the selection, or else the
    /// grapheme cluster after the cursor.
    pub fn delete(&mut self)
        ensures
            ({
                let boundary = next_boundary_of(old(self).text(), cursor_of(old(self).selection(), old(self).is_reversed()) as int) as usize;
                let (selection, reversed) = deletion_selection(old(self).selection(), old(self).is_reversed(), boundary);
                let range = match old(self).marked_bytes() {
                    Some(m) => m,
                    None => selection,
                };
                &&& final(self).text() == spliced(old(self).text(), range.0 as int, range.1 as int, Seq::empty())
                &&& final(self).selection() == (range.0, range.0)
                &&& !final(self).is_reversed()
                &&& final(self).marked_bytes() is None
            }),
    {
        let b = self.next_boundary(self.cursor_offset());
        self.delete_toward(b);
    }
}


/// Pasted text is kept on one line: each line feed becomes a space.
pub open spec fn single_line(text: Seq<char>) -> Seq<char> {
    text.map_values(|c: char| if c == '\n' { ' ' } else { c })
}

proof fn lemma_single_line_same_width(text: Seq<char>)
    ensures
        utf8_len(single_line(text)) == utf8_len(text),
    decreases text.len(),
{
    if text.len() > 0 {
        lemma_single_line_same_width(text.drop_last());
        assert(single_line(text).drop_last() =~= single_line(text.drop_last()));
    }
}

impl TranscriptEditor {
    /// The selected text, for copying; `None` when nothing is selected.
    pub fn selected_text(&self) -> (r: Option<String>)
        ensures
            match r {
                Some(t) => self.selection().0 != self.selection().1 && t@ == self.text().subrange(
                    char_index(self.text(), self.selection().0 as int), char_index(self.text(), self.selection().1 as int)),
                None => self.selection().0 == self.selection().1,
            },
    {
        proof {
            use_type_invariant(self);
        }
        if self.selected.0 == self.selected.1 {
            return None;
        }
        let chars = chars_of(self.content.as_str());
        let (i, _) = index_of_byte(&chars, self.selected.0);
        let (j, _) = index_of_byte(&chars, self.selected.1);
        proof {
            lemma_splice_lengths(self.text(), self.selected.0 as int, self.selected.1 as int, Seq::empty());
        }
        let piece = copy_chars(&chars, i, j);
        Some(string_from_chars(piece.as_slice()))
    }

    /// Cut: the selected text, which is then deleted (or the composed text,
    /// while there is one); `None`, changing nothing, when nothing is selected.
    pub fn cut(&mut self) -> (r: Option<String>)
        ensures
            match r {
                Some(t) => {
                    let range = old(self).default_range();
                    &&& old(self).selection().0 != old(self).selection().1
                    &&& t@ == old(self).text().subrange(char_index(old(self).text(), old(self).selection().0 as int),
                        char_index(old(self).text(), old(self).selection().1 as int))
                    &&& final(self).text() == spliced(old(self).text(), range.0 as int, range.1 as int, Seq::empty())
                    &&& final(self).selection() == (range.0, range.0)
                    &&& final(self).marked_bytes() is None
                },
                None => old(self).selection().0 == old(self).selection().1 && final(self).text() == old(self).text()
                    && final(self).selection() == old(self).selection() && final(self).marked_bytes() == old(self).marked_bytes(),
            },
    {
        proof {
            use_type_invariant(&*self);
        }
        let copied = self.selected_text();
        if copied.is_some() {
            proof {
                let range = self.default_range();
                lemma_splice_lengths(self.text(), range.0 as int, range.1 as int, Seq::empty());
                reveal_strlit("");
            }
            self.replace_text_in_range(None, "");
        }
        copied
    }

    /// Paste: the clipboard's text, on one line, replaces the composed text
    /// or the selection.
    pub fn paste(&mut self, clipboard: &str)
        requires
            utf8_len(spliced(old(self).text(), old(self).default_range().0 as int,
                old(self).default_range().1 as int, clipboard@)) <= isize::MAX,
        ensures
            ({
                let range = old(self).default_range();
                let text = single_line(clipboard@);
                &&& final(self).text() == spliced(old(self).text(), range.0 as int, range.1 as int, text)
                &&& final(self).selection() == ((range.0 + utf8_len(text)) as usize, (range.0 + utf8_len(text)) as usize)
                &&& !final(self).is_reversed()
                &&& final(self).marked_bytes() is None
            }),
    {
        proof {
            use_type_invariant(&*self);
        }
        let chars = chars_of(clipboard);
        let mut line: Vec<char> = Vec::new();
        let mut k: usize = 0;
        while k < chars.len()
            invariant
                k <= chars@.len(),
                line@ == single_line(chars@.take(k as int)),
            decreases chars@.len() - k,
        {
            let c = chars[k];
            line.push(if c == '\n' { ' ' } else { c });
            k = k + 1;
            assert(line@ =~= single_line(chars@.take(k as int)));
        }
        assert(chars@.take(chars@.len() as int) =~= chars@);
        let text = string_from_chars(line.as_slice());
        proof {
            let range = self.default_range();
            lemma_single_line_same_width(clipboard@);
            lemma_splice_lengths(self.text(), range.0 as int, range.1 as int, clipboard@);
            lemma_splice_lengths(self.text(), range.0 as int, range.1 as int, text@);
        }
        self.replace_text_in_range(None, text.as_str());
    }
}

/// One styled stretch of the displayed text: its byte length and whether it
/// is underlined as the input method's marked (composing) text.
#[derive(Clone, Copy, Debug, PartialEq, Eq, Structural)]
pub struct TextRunSpan {
    pub len: usize,
    pub marked: bool,
}

/// The runs that style `len` bytes of text: one plain run, or with a marked
/// range the plain text before it, the underlined marked text, and the plain
/// text after it, leaving out the empty ones.
pub open spec fn text_runs_of(len: nat, marked: Option<(nat, nat)>) -> Seq<TextRunSpan> {
    match marked {
        None => seq![TextRunSpan { len: len as usize, marked: false }],
        Some((start, end)) => {
            let before = if start > 0 { seq![TextRunSpan { len: start as usize, marked: false }] } else { Seq::empty() };
            let inside = if end > start {
                seq![TextRunSpan { len: (end - start) as usize, marked: true }]
            } else {
                Seq::empty()
            };
            let after = if len > end { seq![TextRunSpan { len: (len - end) as usize, marked: false }] } else { Seq::empty() };
            before + inside + after
        },
    }
}

/// The styled runs for the transcript text of `len` bytes with an optional
/// marked byte range.
pub fn text_runs(len: usize, marked: Option<(usize, usize)>) -> (runs: Vec<TextRunSpan>)
    requires
        marked matches Some((start, end)) ==> start <= end <= len,
    ensures
        runs@ == text_runs_of(len as nat, match marked {
            Some((start, end)) => Some((start as nat, end as nat)),
            None => None,
        }),
{
    let mut runs: Vec<TextRunSpan> = Vec::new();
    match marked {
        None => {
            runs.push(TextRunSpan { len, marked: false });
        },
        Some((start, end)) => {
            if start > 0 {
                runs.push(TextRunSpan { len: start, marked: false });
            }
            if end > start {
                runs.push(TextRunSpan { len: end - start, marked: true });
            }
            if len > end {
                runs.push(TextRunSpan { len: len - end, marked: false });
            }
        },
    }
    assert(runs@ =~= text_runs_of(len as nat, match marked {
        Some((start, end)) => Some((start as nat, end as nat)),
        None => None,
    }));
    runs
}

/// The total length of some runs, and of the underlined ones among them.
pub open spec fn run_lengths(runs: Seq<TextRunSpan>) -> (nat, nat)
    decreases runs.len(),
{
    if runs.len() == 0 {
        (0, 0)
    } else {
        let (all, marked) = run_lengths(runs.drop_last());
        let last = runs.last();
        (all + last.len as nat, if last.marked { marked + last.len as nat } else { marked })
    }
}

/// The runs cover the text exactly: their lengths add up to the text's length,
/// none is empty when a range is marked, and the underlined runs are exactly
/// the marked range.
pub proof fn lemma_text_runs_cover_the_text(len: nat, marked: Option<(nat, nat)>)
    requires
        len <= usize::MAX,
        marked matches Some((start, end)) ==> start <= end <= len,
    ensures
        ({
            let runs = text_runs_of(len, marked);
            &&& marked is Some ==> forall|i: int| 0 <= i < runs.len() ==> (#[trigger] runs[i]).len > 0
            &&& run_lengths(runs).0 == len
            &&& run_lengths(runs).1 == match marked {
                Some((start, end)) => (end - start) as nat,
                None => 0nat,
            }
        }),
{
    let runs = text_runs_of(len, marked);
    reveal_with_fuel(run_lengths, 4);
    match marked {
        None => {
            assert(runs.drop_last() =~= Seq::<TextRunSpan>::empty());
        },
        Some((start, end)) => {
            let b = if start > 0 { seq![TextRunSpan { len: start as usize, marked: false }] } else { Seq::empty() };
            let m = if end > start { seq![TextRunSpan { len: (end - start) as usize, marked: true }] } else { Seq::empty() };
            let a = if len > end { seq![TextRunSpan { len: (len - end) as usize, marked: false }] } else { Seq::empty() };
            assert(runs == b + m + a);
            if runs.len() > 0 {
                assert(runs.drop_last().len() < 3);
                if runs.drop_last().len() > 0 {
                    if runs.drop_last().drop_last().len() > 0 {
                        assert(runs.drop_last().drop_last().drop_last() =~= Seq::<TextRunSpan>::empty());
                    } else {
                        assert(runs.drop_last().drop_last() =~= Seq::<TextRunSpan>::empty());
                    }
                } else {
                    assert(runs.drop_last() =~= Seq::<TextRunSpan>::empty());
                }
            }
        },
    }
}

proof fn lemma_last_start_below_is_below(starts: Seq<nat>, offset: int, j: int, best: nat)
    ensures
        last_start_below(starts, offset, j, best) == best
            || (last_start_below(starts, offset, j, best) < offset
                && starts.contains(last_start_below(starts, offset, j, best))),
    decreases starts.len() - j,
{
    if 0 <= j < starts.len() {
        if starts[j] < offset {
            lemma_last_start_below_is_below(starts, offset, j + 1, starts[j]);
        } else {
            lemma_last_start_below_is_below(starts, offset, j + 1, best);
        }
    }
}

proof fn lemma_first_start_above_is_above(starts: Seq<nat>, offset: int, j: int, end: nat)
    ensures
        first_start_above(starts, offset, j, end) == end
            || (first_start_above(starts, offset, j, end) > offset
                && starts.contains(first_start_above(starts, offset, j, end))),
    decreases starts.len() - j,
{
    if 0 <= j < starts.len() && !(starts[j] > offset) {
        lemma_first_start_above_is_above(starts, offset, j + 1, end);
    }
}

/// Cursor movement goes by whole grapheme clusters and always moves: from
/// any offset past the start, the previous boundary lies before it and is
/// the start of a cluster (or the start of the text); from any offset before
/// the end, the next boundary lies after it and is the start of a cluster
/// (or the end of the text).
pub proof fn lemma_boundaries_move_by_clusters(s: Seq<char>, offset: int)
    ensures
        offset > 0 ==> previous_boundary_of(s, offset) < offset,
        previous_boundary_of(s, offset) == 0 || cluster_starts(s).contains(previous_boundary_of(s, offset)),
        offset < utf8_len(s) ==> next_boundary_of(s, offset) > offset,
        next_boundary_of(s, offset) == utf8_len(s) || cluster_starts(s).contains(next_boundary_of(s, offset)),
{
    lemma_last_start_below_is_below(cluster_starts(s), offset, 0, 0);
    lemma_first_start_above_is_above(cluster_starts(s), offset, 0, utf8_len(s));
}

/// Extending a selection keeps its anchor and moves its other end to the
/// offset: the new selection runs from the smaller to the larger of the two,
/// and the cursor ends up at the offset.
pub proof fn lemma_extending_keeps_the_anchor(selection: (usize, usize), reversed: bool, offset: usize)
    requires
        selection.0 <= selection.1,
    ensures
        ({
            let (range, now_reversed) = selected_to(selection, reversed, offset);
            let anchor = if reversed { selection.1 } else { selection.0 };
            &&& range.0 <= range.1
            &&& (range == (anchor, offset) || range == (offset, anchor))
            &&& cursor_of(range, now_reversed) == offset
        }),
{
}

/// Replacing a byte range changes the text's length by exactly what was
/// inserted and removed, and leaves the cursor positions at the start and
/// after the inserted text on character boundaries.
pub proof fn lemma_replacement_length(s: Seq<char>, start: int, end: int, text: Seq<char>)
    requires
        0 <= start <= end <= utf8_len(s),
        is_boundary(s, start),
        is_boundary(s, end),
    ensures
        utf8_len(spliced(s, start, end, text)) == utf8_len(s) - (end - start) + utf8_len(text),
        is_boundary(spliced(s, start, end, text), start),
        is_boundary(spliced(s, start, end, text), start + utf8_len(text)),
{
    lemma_splice_lengths(s, start, end, text);
}

} // verus!
