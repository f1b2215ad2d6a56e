//! The X11 side of the voice shortcut: finding the keycode of a key name's
//! keysym in the keyboard mapping, the modifier masks that Alt, Num Lock and
//! Super sit on, and the set of masks to grab so that Caps Lock and Num Lock
//! do not defeat the shortcut.

use vstd::prelude::*;
use crate::linux_shortcut::ShortcutModifiers;

verus! {

/// `ModMask::SHIFT`, `ModMask::LOCK` and `ModMask::CONTROL`.
pub const SHIFT_MASK: u16 = 1;
pub const LOCK_MASK: u16 = 2;
pub const CONTROL_MASK: u16 = 4;

/// The keyboard mapping: the keysyms of each keycode from `min_keycode` on,
/// `keysyms_per_keycode` of them per keycode (the first is the primary
/// group's base level).
pub struct X11Keymap {
    min_keycode: u8,
    keysyms_per_keycode: usize,
    keysyms: Vec<u32>,
}

pub open spec fn keymap_error_message() -> Seq<char> {
    "the X11 keyboard mapping did not contain any keysyms"@
}

pub open spec fn keycode_range_message() -> Seq<char> {
    "the X11 keycode range is too large"@
}

/// The number of keycodes from `min` to `max`, which the mapping request
/// carries as a `u8`.
pub fn keycode_count(min_keycode: u8, max_keycode: u8) -> (r: Result<u8, String>)
    requires
        min_keycode <= max_keycode,
    ensures
        match r {
            Ok(n) => n as int == max_keycode - min_keycode + 1,
            Err(message) => max_keycode - min_keycode + 1 > 255 && message@ == keycode_range_message(),
        },
{
    let count: u16 = max_keycode as u16 - min_keycode as u16 + 1;
    if count > 255 {
        Err(String::from_str("the X11 keycode range is too large"))
    } else {
        Ok(count as u8)
    }
}

/// The keysyms of keycode chunk `i`.
pub open spec fn chunk(keysyms: Seq<u32>, per: nat, i: int) -> Seq<u32> {
    let start = i * per;
    let end = if start + per <= keysyms.len() { start + per } else { keysyms.len() as int };
    keysyms.subrange(start, end)
}

pub open spec fn chunk_count(len: nat, per: nat) -> nat {
    if per == 0 { 0 } else { ((len + per - 1) / per as int) as nat }
}

/// The first chunk index at or after `from` whose keysyms satisfy `p`.
pub open spec fn first_chunk_where(keysyms: Seq<u32>, per: nat, from: int, p: spec_fn(Seq<u32>) -> bool) -> Option<int>
    decreases chunk_count(keysyms.len(), per) - from,
{
    if from < 0 || from >= chunk_count(keysyms.len(), per) {
        None
    } else if p(chunk(keysyms, per, from)) {
        Some(from)
    } else {
        first_chunk_where(keysyms, per, from + 1, p)
    }
}

/// The first chunk, from `from` on, whose first keysym is `target`.
pub open spec fn first_base_match(keysyms: Seq<u32>, per: nat, from: int, target: u32) -> Option<int>
    decreases chunk_count(keysyms.len(), per) - from,
{
    if from < 0 || from >= chunk_count(keysyms.len(), per) {
        None
    } else if chunk(keysyms, per, from).len() > 0 && chunk(keysyms, per, from)[0] == target {
        Some(from)
    } else {
        first_base_match(keysyms, per, from + 1, target)
    }
}

/// The first chunk, from `from` on, that holds `target` at any level.
pub open spec fn first_level_match(keysyms: Seq<u32>, per: nat, from: int, target: u32) -> Option<int>
    decreases chunk_count(keysyms.len(), per) - from,
{
    if from < 0 || from >= chunk_count(keysyms.len(), per) {
        None
    } else if chunk(keysyms, per, from).contains(target) {
        Some(from)
    } else {
        first_level_match(keysyms, per, from + 1, target)
    }
}

/// Whether `keycode`'s full row of keysyms lies in the mapping and holds one of
/// `targets`.
pub open spec fn keycode_holds_any(keysyms: Seq<u32>, per: nat, min: u8, keycode: u8, targets: Seq<u32>) -> bool {
    keycode >= min && {
        let start = (keycode - min) * per;
        &&& start + per <= keysyms.len()
        &&& exists|j: int| start <= j < start + per && targets.contains(#[trigger] keysyms[j])
    }
}

proof fn lemma_small_mapping(len: nat, per: nat)
    requires
        1 <= per <= 255,
        chunk_count(len, per) <= 256,
    ensures
        len <= 65280,
{
    assert(len <= chunk_count(len, per) * per) by (nonlinear_arith)
        requires
            per >= 1,
            chunk_count(len, per) == (len + per - 1) / per as int;
    assert(chunk_count(len, per) * per <= 256 * 255) by (nonlinear_arith)
        requires
            per <= 255,
            chunk_count(len, per) <= 256;
}

proof fn lemma_chunk_count_step(len: nat, per: nat, i: int)
    requires
        per > 0,
        0 <= i,
    ensures
        (i * per < len) == (i < chunk_count(len, per)),
{
    assert((i * per < len) == (i < (len + per - 1) / per as int)) by (nonlinear_arith)
        requires
            per > 0,
            0 <= i;
}

impl X11Keymap {
    pub closed spec fn min_keycode(self) -> u8 {
        self.min_keycode
    }

    pub closed spec fn per_keycode(self) -> nat {
        self.keysyms_per_keycode as nat
    }

    pub closed spec fn keysyms(self) -> Seq<u32> {
        self.keysyms@
    }

    /// At least one keysym per keycode, no more than a `u8` can count, and no
    /// more keycodes than fit above the minimum keycode.
    pub closed spec fn wf(self) -> bool {
        &&& 1 <= self.keysyms_per_keycode <= 255
        &&& chunk_count(self.keysyms@.len(), self.keysyms_per_keycode as nat) + self.min_keycode <= 256
    }

    /// The mapping a `GetKeyboardMapping` reply describes; refused when it has
    /// no keysym per keycode.
    pub fn new(min_keycode: u8, keysyms_per_keycode: u8, keysyms: Vec<u32>) -> (r: Result<Self, String>)
        requires
            keysyms_per_keycode > 0 ==> chunk_count(keysyms@.len(), keysyms_per_keycode as nat) + min_keycode <= 256,
        ensures
            match r {
                Ok(map) => keysyms_per_keycode > 0 && map.wf() && map.min_keycode() == min_keycode
                    && map.per_keycode() == keysyms_per_keycode as nat && map.keysyms() == keysyms@,
                Err(message) => keysyms_per_keycode == 0 && message@ == keymap_error_message(),
            },
    {
        if keysyms_per_keycode == 0 {
            return Err(String::from_str("the X11 keyboard mapping did not contain any keysyms"));
        }
        Ok(X11Keymap { min_keycode, keysyms_per_keycode: keysyms_per_keycode as usize, keysyms })
    }

    /// The first keycode whose primary group's base level is `target`.
    pub fn keycode_for_primary_group_base_keysym(&self, target: u32) -> (r: Option<u8>)
        requires
            self.wf(),
        ensures
            match first_base_match(self.keysyms(), self.per_keycode(), 0, target) {
                Some(i) => r == Some((self.min_keycode() + i) as u8),
                None => r is None,
            },
    {
        let per = self.keysyms_per_keycode;
        let len = self.keysyms.len();
        proof {
            lemma_small_mapping(len as nat, per as nat);
        }
        let mut i: usize = 0;
        let mut start: usize = 0;
        while start < len
            invariant
                self.wf(),
                per == self.per_keycode(),
                len == self.keysyms().len(),
                start == i * per,
                start <= len + per,
                len <= 65280,
                per <= 255,
                first_base_match(self.keysyms(), per as nat, 0, target)
                    == first_base_match(self.keysyms(), per as nat, i as int, target),
            decreases len + per - start,
        {
            proof {
                lemma_chunk_count_step(len as nat, per as nat, i as int);
            }
            let ghost c = chunk(self.keysyms(), per as nat, i as int);
            assert(c[0] == self.keysyms()[start as int]);
            if self.keysyms[start] == target {
                assert(i < chunk_count(len as nat, per as nat));
                return Some(self.min_keycode + i as u8);
            }
            proof {
                lemma_chunk_count_step(len as nat, per as nat, i + 1);
            }
            assert((i + 1) * per == i * per + per) by (nonlinear_arith);
            i = i + 1;
            start = start + per;
        }
        proof {
            lemma_chunk_count_step(len as nat, per as nat, i as int);
        }
        None
    }

    /// Whether `keysyms[from..to)` holds `target`.
    fn range_holds(&self, from: usize, to: usize, target: u32) -> (r: bool)
        requires
            from <= to <= self.keysyms().len(),
        ensures
            r == self.keysyms().subrange(from as int, to as int).contains(target),
    {
        let mut j = from;
        while j < to
            invariant
                from <= j <= to <= self.keysyms().len(),
                forall|k: int| from <= k < j ==> self.keysyms()[k] != target,
            decreases to - j,
        {
            if self.keysyms[j] == target {
                assert(self.keysyms().subrange(from as int, to as int)[j - from] == target);
                return true;
            }
            j = j + 1;
        }
        proof {
            let sub = self.keysyms().subrange(from as int, to as int);
            assert forall|k: int| 0 <= k < sub.len() implies sub[k] != target by {
                assert(sub[k] == self.keysyms()[from + k]);
            }
        }
        false
    }

    /// The first keycode that holds `target` at any level of any group.
    pub fn keycode_for_keysym_at_any_level(&self, target: u32) -> (r: Option<u8>)
        requires
            self.wf(),
        ensures
            match first_level_match(self.keysyms(), self.per_keycode(), 0, target) {
                Some(i) => r == Some((self.min_keycode() + i) as u8),
                None => r is None,
            },
    {
        let per = self.keysyms_per_keycode;
        let len = self.keysyms.len();
        proof {
            lemma_small_mapping(len as nat, per as nat);
        }
        let mut i: usize = 0;
        let mut start: usize = 0;
        while start < len
            invariant
                self.wf(),
                per == self.per_keycode(),
                len == self.keysyms().len(),
                start == i * per,
                start <= len + per,
                len <= 65280,
                per <= 255,
                first_level_match(self.keysyms(), per as nat, 0, target)
                    == first_level_match(self.keysyms(), per as nat, i as int, target),
            decreases len + per - start,
        {
            proof {
                lemma_chunk_count_step(len as nat, per as nat, i as int);
            }
            let end = if start + per <= len { start + per } else { len };
            if self.range_holds(start, end, target) {
                return Some(self.min_keycode + i as u8);
            }
            proof {
                lemma_chunk_count_step(len as nat, per as nat, i + 1);
            }
            assert((i + 1) * per == i * per + per) by (nonlinear_arith);
            i = i + 1;
            start = start + per;
        }
        proof {
            lemma_chunk_count_step(len as nat, per as nat, i as int);
        }
        None
    }

    /// Whether `keycode` holds one of `targets` at any level.
    pub fn keycode_contains_any(&self, keycode: u8, targets: &[u32]) -> (r: bool)
        requires
            self.wf(),
        ensures
            r == keycode_holds_any(self.keysyms(), self.per_keycode(), self.min_keycode(), keycode, targets@),
    {
        if keycode < self.min_keycode {
            return false;
        }
        let offset = (keycode - self.min_keycode) as usize;
        let per = self.keysyms_per_keycode;
        assert(offset * per <= 255 * 255) by (nonlinear_arith)
            requires
                offset <= 255,
                per <= 255;
        let start = offset * per;
        if start + per > self.keysyms.len() {
            return false;
        }
        let end = start + per;
        let mut j = start;
        while j < end
            invariant
                end == start + per,
                start <= j <= start + per <= self.keysyms().len(),
                start == (keycode - self.min_keycode()) * self.per_keycode(),
                per == self.per_keycode(),
                keycode >= self.min_keycode(),
                forall|k: int| start <= k < j ==> !targets@.contains(#[trigger] self.keysyms()[k]),
            decreases start + per - j,
        {
            let keysym = self.keysyms[j];
            let mut t: usize = 0;
            while t < targets.len()
                invariant
                    start <= j < start + per <= self.keysyms().len(),
                    keysym == self.keysyms()[j as int],
                    start == (keycode - self.min_keycode()) * self.per_keycode(),
                    per == self.per_keycode(),
                    keycode >= self.min_keycode(),
                    t <= targets@.len(),
                    forall|m: int| 0 <= m < t ==> targets@[m] != keysym,
                decreases targets@.len() - t,
            {
                if targets[t] == keysym {
                    assert(targets@[t as int] == keysym);
                    assert(targets@.contains(self.keysyms()[j as int]));
                    assert(exists|k: int| start <= k < start + per && targets@.contains(#[trigger] self.keysyms()[k]));
                    return true;
                }
                t = t + 1;
            }
            assert(!targets@.contains(self.keysyms()[j as int]));
            j = j + 1;
        }
        false
    }
}

/// Whether a run of modifier keycodes holds a non-zero keycode with one of `targets`.
fn run_matches(modifier_keycodes: &[u8], from: usize, to: usize, keymap: &X11Keymap, targets: &[u32]) -> (r: bool)
    requires
        from <= to <= modifier_keycodes@.len(),
        keymap.wf(),
    ensures
        r == exists|k: int| from <= k < to && #[trigger] modifier_keycodes@[k] != 0
            && keycode_holds_any(keymap.keysyms(), keymap.per_keycode(), keymap.min_keycode(), modifier_keycodes@[k], targets@),
{
    let mut k = from;
    while k < to
        invariant
            from <= k <= to <= modifier_keycodes@.len(),
            keymap.wf(),
            forall|m: int| from <= m < k ==> !(#[trigger] modifier_keycodes@[m] != 0
                && keycode_holds_any(keymap.keysyms(), keymap.per_keycode(), keymap.min_keycode(), modifier_keycodes@[m], targets@)),
        decreases to - k,
    {
        let code = modifier_keycodes[k];
        if code != 0 && keymap.keycode_contains_any(code, targets) {
            return true;
        }
        k = k + 1;
    }
    false
}

/// The index of the first modifier whose keycodes (one run of `per` keycodes
/// per modifier) hold a non-zero keycode with one of `targets`.
pub open spec fn first_modifier_match(
    modifier_keycodes: Seq<u8>,
    per: nat,
    from: int,
    keymap: Seq<u32>,
    keys_per: nat,
    min: u8,
    targets: Seq<u32>,
) -> Option<int>
    decreases chunk_count(modifier_keycodes.len(), per) - from,
{
    if from < 0 || from >= chunk_count(modifier_keycodes.len(), per) {
        None
    } else if exists|k: int| from * per <= k < from * per + per && k < modifier_keycodes.len()
        && #[trigger] modifier_keycodes[k] != 0
        && keycode_holds_any(keymap, keys_per, min, modifier_keycodes[k], targets) {
        Some(from)
    } else {
        first_modifier_match(modifier_keycodes, per, from + 1, keymap, keys_per, min, targets)
    }
}

pub open spec fn bit(i: nat) -> nat
    decreases i,
{
    if i == 0 { 1 } else { 2 * bit((i - 1) as nat) }
}

/// The mask of the modifier that `targets` are mapped to, from the reply of
/// `GetModifierMapping` (eight runs of keycodes, one per modifier).
pub fn modifier_mask_for_keysyms(modifier_keycodes: &[u8], keymap: &X11Keymap, targets: &[u32]) -> (r: Option<u16>)
    requires
        keymap.wf(),
    ensures
        modifier_keycodes@.len() / 8 == 0 ==> r is None,
        modifier_keycodes@.len() / 8 > 0 ==> match first_modifier_match(modifier_keycodes@, modifier_keycodes@.len() / 8, 0,
            keymap.keysyms(), keymap.per_keycode(), keymap.min_keycode(), targets@) {
            Some(i) => r matches Some(m) && m as nat == bit(i as nat),
            None => r is None,
        },
{
    let len = modifier_keycodes.len();
    let per = len / 8;
    if per == 0 {
        return None;
    }
    let ghost chunks = chunk_count(len as nat, per as nat);
    assert(chunks <= 15) by (nonlinear_arith)
        requires
            per == len / 8,
            per >= 1,
            chunks == (len + per - 1) / per as int;
    let mut index: usize = 0;
    let mut start: usize = 0;
    let mut mask: u16 = 1;
    proof {
        lemma_chunk_count_step(len as nat, per as nat, 0);
    }
    while start < len
        invariant
            per == len / 8,
            per >= 1,
            len == modifier_keycodes@.len(),
            keymap.wf(),
            chunks == chunk_count(len as nat, per as nat),
            chunks <= 15,
            start <= len,
            start < len ==> start == index * per && index < chunks,
            start == len ==> index * per >= len,
            mask as nat == bit(index as nat),
            index <= 15,
            first_modifier_match(modifier_keycodes@, per as nat, 0, keymap.keysyms(), keymap.per_keycode(), keymap.min_keycode(), targets@)
                == first_modifier_match(modifier_keycodes@, per as nat, index as int, keymap.keysyms(), keymap.per_keycode(), keymap.min_keycode(), targets@),
        decreases len - start,
    {
        proof {
            lemma_chunk_count_step(len as nat, per as nat, index as int);
        }
        let end = if per < len - start { start + per } else { len };
        if run_matches(modifier_keycodes, start, end, keymap, targets) {
            return Some(mask);
        }
        proof {
            lemma_chunk_count_step(len as nat, per as nat, index + 1);
        }
        assert((index + 1) * per == index * per + per) by (nonlinear_arith);
        assert(mask as nat * 2 <= 32768) by {
            lemma_bit_bound(index as nat);
        }
        mask = mask * 2;
        index = index + 1;
        if per < len - start {
            start = start + per;
        } else {
            start = len;
        }
    }
    proof {
        lemma_chunk_count_step(len as nat, per as nat, index as int);
    }
    None
}

proof fn lemma_bit_bound(i: nat)
    requires
        i <= 14,
    ensures
        bit(i) <= 16384,
    decreases i,
{
    if i > 0 {
        lemma_bit_bound((i - 1) as nat);
    }
    reveal_with_fuel(bit, 15);
}

} // verus!

verus! {

pub open spec fn no_alt_message() -> Seq<char> {
    "the active X11 keymap does not define an Alt modifier"@
}

pub open spec fn no_num_lock_message() -> Seq<char> {
    "the active X11 keymap does not define a Num Lock modifier"@
}

pub open spec fn no_logo_message() -> Seq<char> {
    "the active X11 keymap does not define a Logo/Super modifier"@
}

/// The mask a shortcut's modifiers require: Control and Shift are fixed bits;
/// Alt, Num Lock and Logo use the masks the keymap gives them, and are an
/// error (checked in that order) when the keymap has none.
pub open spec fn required_mask(m: ShortcutModifiers, alt: Option<u16>, num: Option<u16>, logo: Option<u16>) -> Result<u16, Seq<char>> {
    let base: u16 = (if m.control { CONTROL_MASK } else { 0u16 }) | (if m.shift { SHIFT_MASK } else { 0u16 });
    if m.alt && alt is None {
        Err(no_alt_message())
    } else if m.num && num is None {
        Err(no_num_lock_message())
    } else if m.logo && logo is None {
        Err(no_logo_message())
    } else {
        Ok(base
            | (if m.alt { alt->0 } else { 0u16 })
            | (if m.num { num->0 } else { 0u16 })
            | (if m.logo { logo->0 } else { 0u16 }))
    }
}

pub fn required_modifier_mask(
    modifiers: ShortcutModifiers,
    alt_mask: Option<u16>,
    num_mask: Option<u16>,
    logo_mask: Option<u16>,
) -> (r: Result<u16, String>)
    ensures
        match r {
            Ok(mask) => required_mask(modifiers, alt_mask, num_mask, logo_mask) == Ok::<u16, Seq<char>>(mask),
            Err(message) => required_mask(modifiers, alt_mask, num_mask, logo_mask) == Err::<u16, Seq<char>>(message@),
        },
{
    let mut mask: u16 = if modifiers.control {
        if modifiers.shift { CONTROL_MASK | SHIFT_MASK } else { CONTROL_MASK }
    } else if modifiers.shift {
        SHIFT_MASK
    } else {
        0
    };
    let ghost base = mask;
    assert((4u16 | 0u16) == 4u16 && (0u16 | 1u16) == 1u16 && (0u16 | 0u16) == 0u16) by (bit_vector);
    if modifiers.alt {
        match alt_mask {
            Some(m) => {
                mask = mask | m;
            },
            None => {
                return Err(String::from_str("the active X11 keymap does not define an Alt modifier"));
            },
        }
    }
    let ghost with_alt = mask;
    if modifiers.num {
        match num_mask {
            Some(m) => {
                mask = mask | m;
            },
            None => {
                return Err(String::from_str("the active X11 keymap does not define a Num Lock modifier"));
            },
        }
    }
    let ghost with_num = mask;
    if modifiers.logo {
        match logo_mask {
            Some(m) => {
                mask = mask | m;
            },
            None => {
                return Err(String::from_str("the active X11 keymap does not define a Logo/Super modifier"));
            },
        }
    }
    proof {
        let a: u16 = if modifiers.alt { alt_mask->0 } else { 0u16 };
        let n: u16 = if modifiers.num { num_mask->0 } else { 0u16 };
        let l: u16 = if modifiers.logo { logo_mask->0 } else { 0u16 };
        assert(with_alt == base | a) by (bit_vector)
            requires
                with_alt == base | a || (a == 0u16 && with_alt == base);
        assert(with_num == with_alt | n) by (bit_vector)
            requires
                with_num == with_alt | n || (n == 0u16 && with_num == with_alt);
        assert(mask == with_num | l) by (bit_vector)
            requires
                mask == with_num | l || (l == 0u16 && mask == with_num);
    }
    Ok(mask)
}

/// The masks to grab for a shortcut: with and without Caps Lock, and, when
/// Num Lock is not part of the shortcut but exists, with and without Num Lock
/// too.
pub open spec fn grab_candidates(required: u16, num_lock: Option<u16>) -> Seq<u16> {
    match num_lock {
        None => seq![required, required | LOCK_MASK],
        Some(n) => seq![required, required | LOCK_MASK, required | n, required | n | LOCK_MASK],
    }
}

/// Each mask to grab once, in ascending order.
pub fn grab_masks(required: u16, num_lock: Option<u16>) -> (masks: Vec<u16>)
    ensures
        masks@.to_set() == grab_candidates(required, num_lock).to_set(),
        forall|i: int, j: int| 0 <= i < j < masks@.len() ==> masks@[i] < masks@[j],
{
    let mut candidates: Vec<u16> = Vec::new();
    candidates.push(required);
    candidates.push(required | LOCK_MASK);
    match num_lock {
        Some(n) => {
            candidates.push(required | n);
            candidates.push(required | n | LOCK_MASK);
        },
        None => {},
    }
    assert(candidates@ =~= grab_candidates(required, num_lock));
    let ghost all = candidates@;
    let mut masks: Vec<u16> = Vec::new();
    let mut i: usize = 0;
    while i < candidates.len()
        invariant
            i <= candidates@.len(),
            all == candidates@,
            masks@.to_set() == all.take(i as int).to_set(),
            forall|a: int, b: int| 0 <= a < b < masks@.len() ==> masks@[a] < masks@[b],
        decreases candidates@.len() - i,
    {
        let value = candidates[i];
        let ghost before = masks@;
        insert_sorted(&mut masks, value);
        assert(all.take(i + 1) =~= all.take(i as int).push(value));
        proof {
            all.take(i as int).lemma_push_to_set_commute(value);
        }
        i = i + 1;
    }
    assert(all.take(candidates@.len() as int) =~= all);
    masks
}

/// Inserts `value` into a strictly ascending vector unless it is present.
fn insert_sorted(masks: &mut Vec<u16>, value: u16)
    requires
        forall|a: int, b: int| 0 <= a < b < old(masks)@.len() ==> old(masks)@[a] < old(masks)@[b],
    ensures
        final(masks)@.to_set() == old(masks)@.to_set().insert(value),
        forall|a: int, b: int| 0 <= a < b < final(masks)@.len() ==> final(masks)@[a] < final(masks)@[b],
{
    let mut k: usize = 0;
    while k < masks.len() && masks[k] < value
        invariant
            k <= masks@.len(),
            masks@ == old(masks)@,
            forall|a: int| 0 <= a < k ==> masks@[a] < value,
        decreases masks@.len() - k,
    {
        k = k + 1;
    }
    if k < masks.len() && masks[k] == value {
        assert(old(masks)@.to_set().insert(value) =~= old(masks)@.to_set()) by {
            assert(old(masks)@.contains(value));
        }
        return;
    }
    let ghost before = masks@;
    masks.insert(k, value);
    assert(masks@ =~= before.subrange(0, k as int).push(value) + before.subrange(k as int, before.len() as int));
    assert(masks@.to_set() =~= before.to_set().insert(value)) by {
        assert forall|x: u16| masks@.to_set().contains(x) implies before.to_set().insert(value).contains(x) by {
            let idx = choose|idx: int| 0 <= idx < masks@.len() && masks@[idx] == x;
            if idx < k {
                assert(before[idx] == x);
            } else if idx > k {
                assert(before[idx - 1] == x);
            }
        }
        assert forall|x: u16| before.to_set().insert(value).contains(x) implies masks@.to_set().contains(x) by {
            if x == value {
                assert(masks@[k as int] == value);
            } else {
                let idx = choose|idx: int| 0 <= idx < before.len() && before[idx] == x;
                if idx < k {
                    assert(masks@[idx] == x);
                } else {
                    assert(masks@[idx + 1] == x);
                }
            }
        }
    }
}


pub open spec fn not_on_base_layer_message(key_name: Seq<char>) -> Seq<char> {
    key_name + " is not on the primary X11 keymap group's base layer; use the base key name and add SHIFT if needed"@
}

pub open spec fn not_in_keymap_message(key_name: Seq<char>) -> Seq<char> {
    "the primary X11 keymap group does not contain "@ + key_name
}

/// The keycode to grab for the shortcut's key: the first whose primary group
/// has the keysym at its base level. Otherwise the error says whether the key
/// exists only at another level (so the base key and SHIFT should be used) or
/// not at all.
pub fn shortcut_keycode(keymap: &X11Keymap, keysym: u32, key_name: &str) -> (r: Result<u8, String>)
    requires
        keymap.wf(),
    ensures
        match first_base_match(keymap.keysyms(), keymap.per_keycode(), 0, keysym) {
            Some(i) => r == Ok::<u8, String>((keymap.min_keycode() + i) as u8),
            None => r is Err && r->Err_0@ == (if first_level_match(keymap.keysyms(), keymap.per_keycode(), 0, keysym) is Some {
                not_on_base_layer_message(key_name@)
            } else {
                not_in_keymap_message(key_name@)
            }),
        },
{
    match keymap.keycode_for_primary_group_base_keysym(keysym) {
        Some(keycode) => Ok(keycode),
        None => match keymap.keycode_for_keysym_at_any_level(keysym) {
            Some(_) => {
                let mut message = String::from_str(key_name);
                message.append(
                    " is not on the primary X11 keymap group's base layer; use the base key name and add SHIFT if needed",
                );
                Err(message)
            },
            None => {
                let mut message = String::from_str("the primary X11 keymap group does not contain ");
                message.append(key_name);
                Err(message)
            },
        },
    }
}

/// Num Lock is grabbed both ways unless the shortcut itself requires it.
pub fn num_lock_variants(modifiers: ShortcutModifiers, num_mask: Option<u16>) -> (r: Option<u16>)
    ensures
        r == (if modifiers.num { None } else { num_mask }),
{
    if modifiers.num { None } else { num_mask }
}

/// An X11 event as the shortcut listener sees it.
#[derive(Clone, Copy, Debug, PartialEq, Eq, Structural)]
pub enum HotkeyEvent {
    KeyPress(u8),
    KeyRelease(u8),
    MappingNotify,
    Other,
}

/// What the listener does with an event.
#[derive(Clone, Copy, Debug, PartialEq, Eq, Structural)]
pub enum HotkeyStep {
    /// The shortcut went down: toggle voice input.
    Activate,
    /// Nothing to do.
    Ignore,
    /// The keyboard mapping changed; the grab is stale and listening ends.
    Stop,
}

/// One event for the shortcut on `keycode`: a press activates once until the
/// key is released (auto-repeat does not re-trigger), and a mapping change
/// stops the listener.
pub fn hotkey_step(keycode: u8, down: &mut bool, event: HotkeyEvent) -> (step: HotkeyStep)
    ensures
        match event {
            HotkeyEvent::KeyPress(k) => if k == keycode && !*old(down) {
                step == HotkeyStep::Activate && *final(down)
            } else {
                step == HotkeyStep::Ignore && *final(down) == *old(down)
            },
            HotkeyEvent::KeyRelease(k) => step == HotkeyStep::Ignore
                && *final(down) == (if k == keycode { false } else { *old(down) }),
            HotkeyEvent::MappingNotify => step == HotkeyStep::Stop && *final(down) == *old(down),
            HotkeyEvent::Other => step == HotkeyStep::Ignore && *final(down) == *old(down),
        },
{
    match event {
        HotkeyEvent::KeyPress(k) => {
            if k == keycode && !*down {
                *down = true;
                HotkeyStep::Activate
            } else {
                HotkeyStep::Ignore
            }
        },
        HotkeyEvent::KeyRelease(k) => {
            if k == keycode {
                *down = false;
            }
            HotkeyStep::Ignore
        },
        HotkeyEvent::MappingNotify => HotkeyStep::Stop,
        HotkeyEvent::Other => HotkeyStep::Ignore,
    }
}

/// A shortcut's mask holds the bit of every modifier it names (Control and
/// Shift at their fixed bits, the others at the keymap's masks), and it is
/// refused exactly when it names Alt, Num Lock or Logo and the keymap has no
/// mask for it.
pub proof fn lemma_required_mask_holds_every_named_modifier(
    m: ShortcutModifiers,
    alt: Option<u16>,
    num: Option<u16>,
    logo: Option<u16>,
)
    ensures
        required_mask(m, alt, num, logo) is Err
            <==> ((m.alt && alt is None) || (m.num && num is None) || (m.logo && logo is None)),
        required_mask(m, alt, num, logo) matches Ok(mask) ==> {
            &&& m.control ==> mask & CONTROL_MASK == CONTROL_MASK
            &&& m.shift ==> mask & SHIFT_MASK == SHIFT_MASK
            &&& m.alt ==> mask & alt->0 == alt->0
            &&& m.num ==> mask & num->0 == num->0
            &&& m.logo ==> mask & logo->0 == logo->0
        },
{
    if let Ok(mask) = required_mask(m, alt, num, logo) {
        let c: u16 = if m.control { CONTROL_MASK } else { 0u16 };
        let s: u16 = if m.shift { SHIFT_MASK } else { 0u16 };
        let a: u16 = if m.alt { alt->0 } else { 0u16 };
        let n: u16 = if m.num { num->0 } else { 0u16 };
        let l: u16 = if m.logo { logo->0 } else { 0u16 };
        assert(mask == (c | s) | a | n | l);
        assert(((c | s) | a | n | l) & c == c) by (bit_vector);
        assert(((c | s) | a | n | l) & s == s) by (bit_vector);
        assert(((c | s) | a | n | l) & a == a) by (bit_vector);
        assert(((c | s) | a | n | l) & n == n) by (bit_vector);
        assert(((c | s) | a | n | l) & l == l) by (bit_vector);
    }
}

/// Every mask grabbed holds the shortcut's required bits, and the grab
/// covers the shortcut with and without Caps Lock, and with and without Num
/// Lock where the keymap has it.
pub proof fn lemma_grabs_cover_lock_states(required: u16, num_lock: Option<u16>)
    ensures
        forall|i: int| 0 <= i < grab_candidates(required, num_lock).len()
            ==> #[trigger] grab_candidates(required, num_lock)[i] & required == required,
        grab_candidates(required, num_lock).contains(required),
        grab_candidates(required, num_lock).contains(required | LOCK_MASK),
        num_lock matches Some(n) ==> grab_candidates(required, num_lock).contains(required | n)
            && grab_candidates(required, num_lock).contains(required | n | LOCK_MASK),
{
    let g = grab_candidates(required, num_lock);
    let lock = LOCK_MASK;
    assert(required & required == required) by (bit_vector);
    assert((required | lock) & required == required) by (bit_vector);
    assert(g[0] == required);
    assert(g[1] == required | LOCK_MASK);
    if let Some(n) = num_lock {
        assert((required | n) & required == required) by (bit_vector);
        assert((required | n | lock) & required == required) by (bit_vector);
        assert(g[2] == required | n);
        assert(g[3] == required | n | LOCK_MASK);
    }
}

/// Whether keycode row `j` (of `per` keysyms) has `target` at its base level.
pub open spec fn base_is(keysyms: Seq<u32>, per: nat, j: int, target: u32) -> bool {
    0 <= j * per < keysyms.len() && keysyms[j * per] == target
}

/// The keycode found for a key is the first whose base keysym is the key:
/// its row starts with the key, no earlier row does, and when none is found
/// no row of the mapping starts with the key.
pub proof fn lemma_base_match_is_the_first_row_starting_with_the_key(
    keysyms: Seq<u32>,
    per: nat,
    from: int,
    target: u32,
)
    requires
        per > 0,
        0 <= from,
    ensures
        match first_base_match(keysyms, per, from, target) {
            Some(i) => from <= i && base_is(keysyms, per, i, target)
                && forall|j: int| from <= j < i ==> !(#[trigger] base_is(keysyms, per, j, target)),
            None => forall|j: int| from <= j ==> !(#[trigger] base_is(keysyms, per, j, target)),
        },
    decreases chunk_count(keysyms.len(), per) - from,
{
    let count = chunk_count(keysyms.len(), per);
    let c = chunk(keysyms, per, from);
    assert(from * per >= 0) by (nonlinear_arith)
        requires
            from >= 0;
    if from >= count {
        assert forall|j: int| from <= j implies !(#[trigger] base_is(keysyms, per, j, target)) by {
            assert(j * per >= count * per) by (nonlinear_arith)
                requires
                    j >= count,
                    per > 0;
            assert(count * per >= keysyms.len()) by (nonlinear_arith)
                requires
                    per > 0,
                    count == (keysyms.len() + per - 1) / per as int;
        }
    } else {
        assert(from * per < keysyms.len()) by (nonlinear_arith)
            requires
                per > 0,
                0 <= from < count,
                count == (keysyms.len() + per - 1) / per as int;
        assert(c.len() > 0);
        assert(c[0] == keysyms[from * per]);
        if c.len() > 0 && c[0] == target {
        } else {
            lemma_base_match_is_the_first_row_starting_with_the_key(keysyms, per, from + 1, target);
            assert(!base_is(keysyms, per, from, target));
        }
    }
}

} // verus!
