//! NUL-terminated UTF-16 text, the form the Windows shell APIs take.
use vstd::prelude::*;
use crate::live_text::utf16_len;

verus! {

/// The UTF-16 code units of one scalar value: one unit in the Basic
/// Multilingual Plane, a surrogate pair above it.
pub open spec fn utf16_of_char(c: char) -> Seq<u16> {
    let v = c as u32;
    if v >= 0x10000 {
        let u = (v - 0x10000) as int;
        seq![(0xD800 + u / 0x400) as u16, (0xDC00 + u % 0x400) as u16]
    } else {
        seq![v as u16]
    }
}

/// The UTF-16 encoding of a string.
pub open spec fn utf16_of(s: Seq<char>) -> Seq<u16>
    decreases s.len(),
{
    if s.len() == 0 {
        Seq::empty()
    } else {
        utf16_of(s.drop_last()) + utf16_of_char(s.last())
    }
}

/// The UTF-16 encoding of a string followed by a terminating NUL.
pub open spec fn wide_of(s: Seq<char>) -> Seq<u16> {
    utf16_of(s).push(0u16)
}

/// `target` with its leading units replaced by `source`, as far as both reach.
pub open spec fn overwrite_prefix(target: Seq<u16>, source: Seq<u16>) -> Seq<u16> {
    Seq::new(target.len(), |i: int| if i < source.len() { source[i] } else { target[i] })
}

fn push_utf16(units: &mut Vec<u16>, c: char)
    ensures
        final(units)@ == old(units)@ + utf16_of_char(c),
{
    let v: u32 = c as u32;
    if v >= 0x10000 {
        let u: u32 = v - 0x10000;
        assert(u <= 0xFFFFF) by {
            assert(v <= 0x10FFFF);
        }
        let high: u16 = (0xD800 + u / 0x400) as u16;
        let low: u16 = (0xDC00 + u % 0x400) as u16;
        units.push(high);
        units.push(low);
    } else {
        units.push(v as u16);
    }
}

/// The string as UTF-16 code units (`str::encode_utf16`).
pub fn encode_utf16(value: &str) -> (units: Vec<u16>)
    ensures
        units@ == utf16_of(value@),
{
    let len = value.unicode_len();
    let mut units: Vec<u16> = Vec::new();
    let mut i: usize = 0;
    while i < len
        invariant
            len == value@.len(),
            i <= len,
            units@ == utf16_of(value@.take(i as int)),
        decreases len - i,
    {
        let c = value.get_char(i);
        proof {
            assert(value@.take(i as int + 1).drop_last() =~= value@.take(i as int));
        }
        push_utf16(&mut units, c);
        i = i + 1;
    }
    assert(value@.take(len as int) =~= value@);
    units
}

/// The string as NUL-terminated UTF-16.
pub fn wide(value: &str) -> (w: Vec<u16>)
    ensures
        w@ == wide_of(value@),
{
    let mut units = encode_utf16(value);
    units.push(0);
    units
}

/// Copies the NUL-terminated UTF-16 form of `value` into the start of
/// `target`, stopping at whichever of the two ends first.
pub fn copy_wide(target: &mut [u16], value: &str)
    ensures
        final(target)@ == overwrite_prefix(old(target)@, wide_of(value@)),
{
    let source = wide(value);
    let n = target.len();
    let m = source.len();
    let mut i: usize = 0;
    while i < n && i < m
        invariant
            source@ == wide_of(value@),
            n == target@.len(),
            m == source@.len(),
            i <= n,
            i <= m,
            target@.len() == old(target)@.len(),
            forall|k: int| 0 <= k < i ==> target@[k] == source@[k],
            forall|k: int| i <= k < target@.len() ==> target@[k] == old(target)@[k],
        decreases target@.len() - i,
    {
        target[i] = source[i];
        i = i + 1;
    }
    assert(i == target@.len() || i == source@.len());
    assert forall|k: int| 0 <= k < target@.len() implies target@[k] == overwrite_prefix(old(target)@, source@)[k] by {
        if k < i {
            assert(k < source@.len());
        }
    }
    assert(target@ =~= overwrite_prefix(old(target)@, source@));
}


/// The encoding has as many units as the live-text planner counts: one per
/// character in the Basic Multilingual Plane, two above it.
pub proof fn lemma_wide_length_matches_utf16_count(s: Seq<char>)
    ensures
        utf16_of(s).len() == utf16_len(s),
        wide_of(s).len() == utf16_len(s) + 1,
    decreases s.len(),
{
    if s.len() > 0 {
        lemma_wide_length_matches_utf16_count(s.drop_last());
    }
}

/// Each character's units decode back to it: a character in the Basic
/// Multilingual Plane is one unit equal to its code, one above it is a high
/// surrogate followed by a low surrogate that together give its code.
pub proof fn lemma_utf16_units_decode_to_the_char(c: char)
    ensures
        (c as u32) < 0x10000 ==> utf16_of_char(c) == seq![(c as u32) as u16] && (c as u32) as u16 == c as u32,
        (c as u32) >= 0x10000 ==> {
            let units = utf16_of_char(c);
            &&& units.len() == 2
            &&& 0xD800 <= units[0] <= 0xDBFF
            &&& 0xDC00 <= units[1] <= 0xDFFF
            &&& 0x10000 + (units[0] - 0xD800) * 0x400 + (units[1] - 0xDC00) == c as u32
        },
{
    let v = c as u32;
    if v >= 0x10000 {
        assert(v <= 0x10FFFF);
        let u = (v - 0x10000) as int;
        assert(0 <= u <= 0xFFFFF);
        assert(u / 0x400 <= 0x3FF);
        assert(u % 0x400 < 0x400);
        assert((u / 0x400) * 0x400 + u % 0x400 == u);
    }
}

} // verus!
