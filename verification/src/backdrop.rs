//! Where the live backdrop's thumbnails sample the window behind the
//! overlay: one sample straight behind it and a few offset ones, each inset
//! from the backdrop's edges, with the first drawn opaque and the others
//! faint.

use vstd::prelude::*;

verus! {

/// A window's rectangle in screen coordinates.
#[derive(Clone, Copy, Debug, PartialEq, Eq, Structural)]
pub struct WindowRect {
    pub left: i32,
    pub top: i32,
    pub right: i32,
    pub bottom: i32,
}

/// Where one thumbnail draws: its destination size in the backdrop, the
/// rectangle of the source window it shows, and its opacity.
#[derive(Clone, Copy, Debug, PartialEq, Eq, Structural)]
pub struct ThumbnailPlacement {
    pub destination_width: i64,
    pub destination_height: i64,
    pub source_left: i64,
    pub source_top: i64,
    pub source_right: i64,
    pub source_bottom: i64,
    pub opacity: u8,
}

/// The samples: offset from the inset rectangle, and the opacity on a light
/// background.
pub fn backdrop_samples() -> (samples: Vec<(i32, i32, u8)>)
    ensures
        samples@ == seq![(0i32, 0i32, 255u8), (-2i32, 0i32, 18u8), (2i32, 0i32, 18u8), (0i32, -1i32, 14u8), (0i32, 1i32, 14u8)],
{
    vec![(0, 0, 255), (-2, 0, 18), (2, 0, 18), (0, -1, 14), (0, 1, 14)]
}

/// Integer division rounding toward zero, as Rust's `/` does.
pub open spec fn div_toward_zero(a: int, b: int) -> int {
    if a >= 0 { a / b } else { -((-a) / b) }
}

pub open spec fn max_int(a: int, b: int) -> int {
    if a >= b { a } else { b }
}

/// The backdrop lies within the source window.
pub open spec fn backdrop_inside(source: WindowRect, backdrop: WindowRect) -> bool {
    &&& backdrop.left >= source.left
    &&& backdrop.top >= source.top
    &&& backdrop.right <= source.right
    &&& backdrop.bottom <= source.bottom
}

/// The inset rectangle, relative to the source window: left, top, width,
/// height. The inset is a 24th of the width (at least 3) and an 8th of the
/// height (at least 1) on each side.
pub open spec fn inset_rect(source: WindowRect, backdrop: WindowRect) -> (int, int, int, int) {
    let width = backdrop.right - backdrop.left;
    let height = backdrop.bottom - backdrop.top;
    let inset_x = max_int(div_toward_zero(width, 24), 3);
    let inset_y = max_int(div_toward_zero(height, 8), 1);
    (backdrop.left - source.left + inset_x, backdrop.top - source.top + inset_y, width - inset_x * 2, height - inset_y * 2)
}

/// Whether a sample, shifted by its offset, stays within the source window.
pub open spec fn sample_fits(source: WindowRect, backdrop: WindowRect, sample: (i32, i32, u8)) -> bool {
    let (left, top, width, height) = inset_rect(source, backdrop);
    let l = left + sample.0;
    let t = top + sample.1;
    &&& l >= 0
    &&& t >= 0
    &&& l + width <= source.right - source.left
    &&& t + height <= source.bottom - source.top
}

/// The placement of sample `index`: opaque for the first, faint (52) on a
/// dark background, else the sample's own opacity.
pub open spec fn sample_placement(
    source: WindowRect,
    backdrop: WindowRect,
    sample: (i32, i32, u8),
    index: int,
    dark: bool,
) -> ThumbnailPlacement {
    let (left, top, width, height) = inset_rect(source, backdrop);
    ThumbnailPlacement {
        destination_width: (backdrop.right - backdrop.left) as i64,
        destination_height: (backdrop.bottom - backdrop.top) as i64,
        source_left: (left + sample.0) as i64,
        source_top: (top + sample.1) as i64,
        source_right: (left + sample.0 + width) as i64,
        source_bottom: (top + sample.1 + height) as i64,
        opacity: if index == 0 { 255u8 } else if dark { 52u8 } else { sample.2 },
    }
}

fn div_toward_zero_exec(a: i64, b: i64) -> (q: i64)
    requires
        b > 0,
        -0x1_0000_0000_0000 <= a <= 0x1_0000_0000_0000,
    ensures
        q == div_toward_zero(a as int, b as int),
{
    if a >= 0 { a / b } else { -((-a) / b) }
}

/// The placements of the thumbnails, in sample order, until the first sample
/// that would leave the source window; and whether every sample fits. Nothing
/// is placed when the backdrop itself leaves the source window.
pub fn backdrop_placements(
    source: WindowRect,
    backdrop: WindowRect,
    samples: &Vec<(i32, i32, u8)>,
    dark: bool,
) -> (r: (Vec<ThumbnailPlacement>, bool))
    ensures
        !backdrop_inside(source, backdrop) ==> r.0@.len() == 0 && !r.1,
        backdrop_inside(source, backdrop) ==> {
            &&& r.0@.len() <= samples@.len()
            &&& forall|i: int| 0 <= i < r.0@.len() ==> sample_fits(source, backdrop, #[trigger] samples@[i])
                && r.0@[i] == sample_placement(source, backdrop, samples@[i], i, dark)
            &&& r.0@.len() < samples@.len() ==> !sample_fits(source, backdrop, samples@[r.0@.len() as int])
            &&& r.1 == (r.0@.len() == samples@.len())
        },
{
    let mut placements: Vec<ThumbnailPlacement> = Vec::new();
    if backdrop.left < source.left || backdrop.top < source.top || backdrop.right > source.right
        || backdrop.bottom > source.bottom {
        return (placements, false);
    }
    let width: i64 = backdrop.right as i64 - backdrop.left as i64;
    let height: i64 = backdrop.bottom as i64 - backdrop.top as i64;
    let qx = div_toward_zero_exec(width, 24);
    let inset_x: i64 = if qx >= 3 { qx } else { 3 };
    let qy = div_toward_zero_exec(height, 8);
    let inset_y: i64 = if qy >= 1 { qy } else { 1 };
    let left: i64 = backdrop.left as i64 - source.left as i64 + inset_x;
    let top: i64 = backdrop.top as i64 - source.top as i64 + inset_y;
    let inner_width: i64 = width - inset_x * 2;
    let inner_height: i64 = height - inset_y * 2;
    let window_width: i64 = source.right as i64 - source.left as i64;
    let window_height: i64 = source.bottom as i64 - source.top as i64;
    assert(inset_rect(source, backdrop) == (left as int, top as int, inner_width as int, inner_height as int));
    let mut index: usize = 0;
    while index < samples.len()
        invariant
            backdrop_inside(source, backdrop),
            inset_rect(source, backdrop) == (left as int, top as int, inner_width as int, inner_height as int),
            width == backdrop.right - backdrop.left,
            height == backdrop.bottom - backdrop.top,
            window_width == source.right - source.left,
            window_height == source.bottom - source.top,
            0 <= left <= 0x4_0000_0000,
            0 <= top <= 0x4_0000_0000,
            -0x4_0000_0000 <= inner_width <= 0x4_0000_0000,
            -0x4_0000_0000 <= inner_height <= 0x4_0000_0000,
            index <= samples.len(),
            placements@.len() == index,
            forall|i: int| 0 <= i < index ==> sample_fits(source, backdrop, #[trigger] samples@[i])
                && placements@[i] == sample_placement(source, backdrop, samples@[i], i, dark),
        decreases samples.len() - index,
    {
        let (offset_x, offset_y, light_opacity) = samples[index];
        let sample_left: i64 = left + offset_x as i64;
        let sample_top: i64 = top + offset_y as i64;
        if sample_left < 0 || sample_top < 0 || sample_left + inner_width > window_width
            || sample_top + inner_height > window_height {
            return (placements, false);
        }
        let opacity: u8 = if index == 0 {
            255
        } else if dark {
            52
        } else {
            light_opacity
        };
        placements.push(ThumbnailPlacement {
            destination_width: width,
            destination_height: height,
            source_left: sample_left,
            source_top: sample_top,
            source_right: sample_left + inner_width,
            source_bottom: sample_top + inner_height,
            opacity,
        });
        index = index + 1;
    }
    (placements, true)
}

/// Each thumbnail fills the whole backdrop, and samples the window behind it
/// from a rectangle inset from the backdrop's own edges (shifted by the
/// sample's offset): a sample without offset shows only what lies behind the
/// backdrop. The first sample is opaque; the others are faint on a dark
/// background (52) and use their own opacity on a light one.
pub proof fn lemma_thumbnails_sample_behind_the_backdrop(
    source: WindowRect,
    backdrop: WindowRect,
    sample: (i32, i32, u8),
    index: int,
    dark: bool,
)
    requires
        backdrop.right - backdrop.left >= 6,
        backdrop.bottom - backdrop.top >= 2,
    ensures
        ({
            let p = sample_placement(source, backdrop, sample, index, dark);
            &&& p.destination_width == backdrop.right - backdrop.left
            &&& p.destination_height == backdrop.bottom - backdrop.top
            &&& p.source_left - sample.0 >= backdrop.left - source.left + 3
            &&& p.source_top - sample.1 >= backdrop.top - source.top + 1
            &&& p.source_right - sample.0 <= backdrop.right - source.left - 3
            &&& p.source_bottom - sample.1 <= backdrop.bottom - source.top - 1
            &&& p.source_left <= p.source_right
            &&& p.source_top <= p.source_bottom
            &&& index == 0 ==> p.opacity == 255
            &&& index != 0 && dark ==> p.opacity == 52
            &&& index != 0 && !dark ==> p.opacity == sample.2
        }),
{
    let width = backdrop.right - backdrop.left;
    let height = backdrop.bottom - backdrop.top;
    assert(div_toward_zero(width, 24) * 2 <= width);
    assert(div_toward_zero(height, 8) * 2 <= height);
}

} // verus!
