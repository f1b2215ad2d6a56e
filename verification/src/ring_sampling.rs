//! Sampling the desktop around the capsule: where the probes sit, how a
//! probe's colour turns into luminance, and how the ring votes for a palette.

use vstd::prelude::*;

verus! {

/// The palette rule used by the ring sampler: without a valid probe the palette
/// on screen stays; a mostly dark ring wins outright; otherwise the average
/// luminance is compared with 150 on a first look, 168 to stay dark, and 132
/// to turn dark.
pub open spec fn ring_palette_rule(
    average_luminance: u32,
    dark_samples: u32,
    valid_samples: u32,
    previous: Option<bool>,
) -> bool {
    if valid_samples == 0 {
        match previous {
            Some(p) => p,
            None => false,
        }
    } else if dark_samples * 2 >= valid_samples {
        true
    } else {
        let threshold: int = match previous {
            None => 150,
            Some(true) => 168,
            Some(false) => 132,
        };
        average_luminance < threshold
    }
}

pub fn decide_dark_background(
    average_luminance: u32,
    dark_samples: u32,
    valid_samples: u32,
    previous: Option<bool>,
) -> (dark: bool)
    requires
        dark_samples * 2 <= u32::MAX,
    ensures
        dark == ring_palette_rule(average_luminance, dark_samples, valid_samples, previous),
{
    if valid_samples == 0 {
        return match previous {
            Some(p) => p,
            None => false,
        };
    }
    if dark_samples * 2 >= valid_samples {
        return true;
    }
    let threshold: u32 = match previous {
        None => 150,
        Some(true) => 168,
        Some(false) => 132,
    };
    average_luminance < threshold
}

/// The ring keeps a palette on screen through borderline backgrounds: a first
/// look that calls a ring light leaves a dark capsule dark, and one that calls
/// it dark does not by itself turn a light capsule dark unless the luminance
/// is below the stricter threshold.
pub proof fn lemma_ring_hysteresis(average_luminance: u32, dark_samples: u32, valid_samples: u32)
    ensures
        ring_palette_rule(average_luminance, dark_samples, valid_samples, Some(false))
            ==> ring_palette_rule(average_luminance, dark_samples, valid_samples, None),
        ring_palette_rule(average_luminance, dark_samples, valid_samples, None)
            ==> ring_palette_rule(average_luminance, dark_samples, valid_samples, Some(true)),
{
}

/// The luminance of a `COLORREF` (0x00BBGGRR), weighted 54:183:19 out of 256.
pub open spec fn luminance_of(color: u32) -> nat {
    let red = color as nat % 256;
    let green = (color as nat / 256) % 256;
    let blue = (color as nat / 65536) % 256;
    (red * 54 + green * 183 + blue * 19) / 256
}

/// `GetPixel`'s `CLR_INVALID`: the probe fell off the desktop.
pub open spec fn is_invalid_color(color: u32) -> bool {
    color == u32::MAX
}

/// Luminance sum, dark count (luminance below 148) and valid count of the
/// probes, skipping invalid ones.
pub open spec fn ring_totals(colors: Seq<u32>) -> (nat, nat, nat)
    decreases colors.len(),
{
    if colors.len() == 0 {
        (0, 0, 0)
    } else {
        let (sum, dark, valid) = ring_totals(colors.drop_last());
        let c = colors.last();
        if is_invalid_color(c) {
            (sum, dark, valid)
        } else {
            let l = luminance_of(c);
            (sum + l, dark + if l < 148 { 1nat } else { 0nat }, valid + 1)
        }
    }
}

proof fn lemma_ring_totals_bounded(colors: Seq<u32>)
    ensures
        ring_totals(colors).0 <= 255 * colors.len(),
        ring_totals(colors).1 <= ring_totals(colors).2,
        ring_totals(colors).2 <= colors.len(),
    decreases colors.len(),
{
    if colors.len() > 0 {
        lemma_ring_totals_bounded(colors.drop_last());
        let c = colors.last();
        let red = c as nat % 256;
        let green = (c as nat / 256) % 256;
        let blue = (c as nat / 65536) % 256;
        assert((red * 54 + green * 183 + blue * 19) / 256 <= 255) by (nonlinear_arith)
            requires
                red < 256,
                green < 256,
                blue < 256;
    }
}

/// Whether a probe landed on the desktop.
pub open spec fn is_valid_probe(color: u32) -> bool {
    color != u32::MAX
}

/// Probes that fell off the desktop count for nothing: the totals are those of
/// the valid probes alone, the valid count is their number, and an invalid
/// probe added anywhere leaves the totals unchanged.
pub proof fn lemma_invalid_probes_count_for_nothing(colors: Seq<u32>)
    ensures
        ring_totals(colors) == ring_totals(colors.filter(|c: u32| is_valid_probe(c))),
        ring_totals(colors).2 == colors.filter(|c: u32| is_valid_probe(c)).len(),
        ring_totals(colors.push(u32::MAX)) == ring_totals(colors),
    decreases colors.len(),
{
    let p = |c: u32| is_valid_probe(c);
    reveal(Seq::filter);
    assert(colors.push(u32::MAX).drop_last() =~= colors);
    if colors.len() == 0 {
        assert(colors.filter(p) =~= colors);
    } else {
        let rest = colors.drop_last();
        lemma_invalid_probes_count_for_nothing(rest);
        let f = rest.filter(p);
        if p(colors.last()) {
            assert(colors.filter(p) == f.push(colors.last()));
            assert(f.push(colors.last()).drop_last() =~= f);
        } else {
            assert(colors.filter(p) == f);
        }
        lemma_valid_probes_all_count(f);
    }
}

/// Among probes that are all valid, every one is counted.
proof fn lemma_valid_probes_all_count(colors: Seq<u32>)
    requires
        forall|i: int| 0 <= i < colors.len() ==> is_valid_probe(#[trigger] colors[i]),
    ensures
        ring_totals(colors).2 == colors.len(),
    decreases colors.len(),
{
    if colors.len() > 0 {
        let rest = colors.drop_last();
        assert forall|i: int| 0 <= i < rest.len() implies is_valid_probe(#[trigger] rest[i]) by {
            assert(rest[i] == colors[i]);
        }
        lemma_valid_probes_all_count(rest);
    }
}

fn probe_luminance(color: u32) -> (l: u32)
    ensures
        l as nat == luminance_of(color),
        l <= 255,
{
    let red = color & 0xff;
    let green = (color >> 8) & 0xff;
    let blue = (color >> 16) & 0xff;
    assert(red == color % 256 && green == (color / 256) % 256 && blue == (color / 65536) % 256) by (bit_vector)
        requires
            red == color & 0xff,
            green == (color >> 8) & 0xff,
            blue == (color >> 16) & 0xff;
    assert(red * 54 + green * 183 + blue * 19 < 65536) by (nonlinear_arith)
        requires
            red < 256,
            green < 256,
            blue < 256;
    (red * 54 + green * 183 + blue * 19) / 256
}

/// Summarizes probe colours as (average luminance, dark probes, valid probes),
/// or `None` when no probe was valid.
pub fn summarize_ring(colors: &[u32]) -> (r: Option<(u32, u32, u32)>)
    requires
        colors@.len() * 255 <= u32::MAX,
    ensures
        ring_totals(colors@).2 == 0 ==> r is None,
        ring_totals(colors@).2 > 0 ==> r == Some((
            (ring_totals(colors@).0 / ring_totals(colors@).2) as u32,
            ring_totals(colors@).1 as u32,
            ring_totals(colors@).2 as u32,
        )),
{
    let mut sum: u32 = 0;
    let mut dark: u32 = 0;
    let mut valid: u32 = 0;
    let mut i: usize = 0;
    while i < colors.len()
        invariant
            i <= colors@.len(),
            colors@.len() * 255 <= u32::MAX,
            (sum as nat, dark as nat, valid as nat) == ring_totals(colors@.take(i as int)),
        decreases colors@.len() - i,
    {
        proof {
            lemma_ring_totals_bounded(colors@.take(i + 1));
            assert(colors@.take(i + 1).drop_last() =~= colors@.take(i as int));
        }
        let color = colors[i];
        if color != u32::MAX {
            let l = probe_luminance(color);
            sum = sum + l;
            if l < 148 {
                dark = dark + 1;
            }
            valid = valid + 1;
        }
        i = i + 1;
    }
    assert(colors@.take(colors@.len() as int) == colors@);
    if valid == 0 {
        None
    } else {
        Some((sum / valid, dark, valid))
    }
}

/// `i32` division by a positive divisor, rounding toward zero.
pub open spec fn div_toward_zero(a: int, b: int) -> int {
    if a >= 0 { a / b } else { -((-a) / b) }
}

/// The fourteen probe points around a capsule `(left, top, right, bottom)`:
/// five along the top and bottom edges (top then bottom at each step), then two
/// down each side (left then right), all a margin of a third of the height (at
/// least one) plus six pixels outside the capsule.
pub open spec fn probe_points(left: int, top: int, right: int, bottom: int) -> Seq<(int, int)> {
    let width = right - left;
    let height = bottom - top;
    let margin = (if height > 3 { height } else { 3 }) / 3 + 6;
    let x = |step: int| left + div_toward_zero(width * step, 6);
    let y = |step: int| top + div_toward_zero(height * step, 3);
    seq![
        (x(1), top - margin), (x(1), bottom + margin),
        (x(2), top - margin), (x(2), bottom + margin),
        (x(3), top - margin), (x(3), bottom + margin),
        (x(4), top - margin), (x(4), bottom + margin),
        (x(5), top - margin), (x(5), bottom + margin),
        (left - margin, y(1)), (right + margin, y(1)),
        (left - margin, y(2)), (right + margin, y(2)),
    ]
}

pub open spec fn fits_i32(v: int) -> bool {
    i32::MIN <= v <= i32::MAX
}

/// Every intermediate of the probe arithmetic fits in `i32`.
pub open spec fn probe_arithmetic_fits(left: int, top: int, right: int, bottom: int) -> bool {
    let width = right - left;
    let height = bottom - top;
    let margin = (if height > 3 { height } else { 3 }) / 3 + 6;
    &&& fits_i32(width) && fits_i32(height)
    &&& fits_i32(width * 5) && fits_i32(height * 2)
    &&& forall|step: int| 1 <= step <= 5 ==> fits_i32(left + div_toward_zero(#[trigger] (width * step), 6))
    &&& forall|step: int| 1 <= step <= 2 ==> fits_i32(top + div_toward_zero(#[trigger] (height * step), 3))
    &&& fits_i32(top - margin) && fits_i32(bottom + margin)
    &&& fits_i32(left - margin) && fits_i32(right + margin)
}

fn div_i32_toward_zero(a: i32, b: i32) -> (q: i32)
    requires
        b > 0,
    ensures
        q as int == div_toward_zero(a as int, b as int),
{
    if a >= 0 {
        a / b
    } else {
        let n: i64 = -(a as i64);
        let q: i64 = n / (b as i64);
        assert(q <= n);
        (-q) as i32
    }
}

/// Places the probes around a capsule rectangle.
pub fn background_probes(left: i32, top: i32, right: i32, bottom: i32) -> (probes: Vec<(i32, i32)>)
    requires
        probe_arithmetic_fits(left as int, top as int, right as int, bottom as int),
    ensures
        probes@.len() == 14,
        forall|i: int| 0 <= i < 14 ==> (probes@[i].0 as int, probes@[i].1 as int)
            == #[trigger] probe_points(left as int, top as int, right as int, bottom as int)[i],
{
    let width = right - left;
    let height = bottom - top;
    let margin = (if height > 3 { height } else { 3 }) / 3 + 6;
    let ghost pts = probe_points(left as int, top as int, right as int, bottom as int);
    let mut probes: Vec<(i32, i32)> = Vec::with_capacity(14);
    let mut step: i32 = 1;
    while step <= 5
        invariant
            1 <= step <= 6,
            width as int == right - left,
            height as int == bottom - top,
            margin as int == (if height > 3 { height as int } else { 3 }) / 3 + 6,
            probe_arithmetic_fits(left as int, top as int, right as int, bottom as int),
            pts == probe_points(left as int, top as int, right as int, bottom as int),
            probes@.len() == 2 * (step - 1),
            forall|i: int| 0 <= i < probes@.len() ==> (probes@[i].0 as int, probes@[i].1 as int) == #[trigger] pts[i],
        decreases 6 - step,
    {
        assert(fits_i32(left as int + div_toward_zero(#[trigger] (width as int * step as int), 6)));
        assert(width as int * step as int <= width as int * 5 || width < 0) by (nonlinear_arith)
            requires
                1 <= step <= 5;
        assert(width as int * step as int >= width as int * 5 || width >= 0) by (nonlinear_arith)
            requires
                1 <= step <= 5;
        let x = left + div_i32_toward_zero(width * step, 6);
        probes.push((x, top - margin));
        probes.push((x, bottom + margin));
        step = step + 1;
    }
    let mut side: i32 = 1;
    while side <= 2
        invariant
            1 <= side <= 3,
            width as int == right - left,
            height as int == bottom - top,
            margin as int == (if height > 3 { height as int } else { 3 }) / 3 + 6,
            probe_arithmetic_fits(left as int, top as int, right as int, bottom as int),
            pts == probe_points(left as int, top as int, right as int, bottom as int),
            probes@.len() == 10 + 2 * (side - 1),
            forall|i: int| 0 <= i < probes@.len() ==> (probes@[i].0 as int, probes@[i].1 as int) == #[trigger] pts[i],
        decreases 3 - side,
    {
        assert(fits_i32(top as int + div_toward_zero(#[trigger] (height as int * side as int), 3)));
        assert(height as int * side as int <= height as int * 2 || height < 0) by (nonlinear_arith)
            requires
                1 <= side <= 2;
        assert(height as int * side as int >= height as int * 2 || height >= 0) by (nonlinear_arith)
            requires
                1 <= side <= 2;
        let y = top + div_i32_toward_zero(height * side, 3);
        probes.push((left - margin, y));
        probes.push((right + margin, y));
        side = side + 1;
    }
    probes
}

/// Darker readings never make the ring vote lighter: with the rest fixed, a
/// lower average luminance or more dark probes never turn a dark vote light.
/// A ring with at least half of its valid probes dark votes dark on any look;
/// without a valid probe the palette on screen stays (light on a first look).
pub proof fn lemma_darker_rings_vote_dark(
    lighter: u32,
    darker: u32,
    fewer_dark: u32,
    more_dark: u32,
    valid_samples: u32,
    previous: Option<bool>,
)
    ensures
        darker <= lighter && fewer_dark <= more_dark
            && ring_palette_rule(lighter, fewer_dark, valid_samples, previous)
            ==> ring_palette_rule(darker, more_dark, valid_samples, previous),
        valid_samples > 0 && more_dark * 2 >= valid_samples
            ==> ring_palette_rule(lighter, more_dark, valid_samples, previous),
        valid_samples == 0 ==> ring_palette_rule(lighter, more_dark, 0, previous) == (previous == Some(true)),
        valid_samples > 0 && fewer_dark * 2 < valid_samples && lighter >= 168
            ==> !ring_palette_rule(lighter, fewer_dark, valid_samples, previous),
{
}

} // verus!
