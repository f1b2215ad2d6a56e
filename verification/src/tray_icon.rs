//! The Windows tray icon: the Voice T template's alpha channel, painted in
//! the brand's core blue, as ARGB pixels.
use vstd::prelude::*;

verus! {

/// Width and height of the tray icon in pixels.
pub const VOICE_T_TRAY_ICON_SIZE: u32 = 24;

/// The PNG colour type code of 8-bit-per-sample red, green, blue, alpha.
pub const PNG_COLOR_RGBA: u8 = 6;

/// The brand's core blue, one channel at a time (red, green, blue).
pub open spec fn core_blue(channel: int) -> u8 {
    if channel == 0 { 24u8 } else if channel == 1 { 121u8 } else { 255u8 }
}

/// The first frame that a PNG file decodes to: width, height, the PNG
/// colour type code, the bit depth, and the frame's bytes.
pub uninterp spec fn png_first_frame(bytes: Seq<u8>) -> Option<(u32, u32, u8, u8, Seq<u8>)>;

/// A decoded PNG frame.
pub struct PngFrame {
    pub width: u32,
    pub height: u32,
    pub color_type: u8,
    pub bit_depth: u8,
    pub pixels: Vec<u8>,
}

/// Decodes the first frame of a PNG file with the `png` crate
/// (`Decoder::read_info`, `Reader::output_buffer_size`, `Reader::next_frame`),
/// keeping the frame's `OutputInfo::buffer_size` bytes. Claimed: the result
/// depends on the file's bytes alone; `None` is any decoding error; an 8-bit
/// RGBA frame holds four bytes per pixel (`buffer_size` is the row length,
/// `width * 4` for that format, times the height).
#[verifier::external_body]
fn decode_first_frame(bytes: &[u8]) -> (r: Option<PngFrame>)
    ensures
        match r {
            Some(f) => png_first_frame(bytes@) == Some((f.width, f.height, f.color_type, f.bit_depth, f.pixels@))
                && (f.color_type == PNG_COLOR_RGBA && f.bit_depth == 8 ==> f.pixels@.len() == f.width * f.height * 4),
            None => png_first_frame(bytes@) is None,
        },
{
    let mut reader = png::Decoder::new(std::io::Cursor::new(bytes)).read_info().ok()?;
    let mut pixels = vec![0u8; reader.output_buffer_size()?];
    let info = reader.next_frame(&mut pixels).ok()?;
    pixels.truncate(info.buffer_size());
    Some(PngFrame {
        width: info.width,
        height: info.height,
        color_type: info.color_type as u8,
        bit_depth: info.bit_depth as u8,
        pixels,
    })
}

/// Each RGBA pixel becomes (alpha, core blue); bytes after the last whole
/// pixel are dropped.
pub open spec fn argb_of(rgba: Seq<u8>) -> Seq<u8> {
    Seq::new(
        (rgba.len() / 4 * 4) as nat,
        |i: int| if i % 4 == 0 { rgba[i + 3] } else { core_blue(i % 4 - 1) },
    )
}

/// The tray icon a template file gives: its first frame must be a 24×24,
/// 8-bit RGBA image.
pub open spec fn tray_icon_of(template: Seq<u8>) -> Option<Seq<u8>> {
    match png_first_frame(template) {
        Some(frame) => {
            if frame.0 == VOICE_T_TRAY_ICON_SIZE && frame.1 == VOICE_T_TRAY_ICON_SIZE
                && frame.2 == PNG_COLOR_RGBA && frame.3 == 8 {
                Some(argb_of(frame.4))
            } else {
                None
            }
        },
        None => None,
    }
}

/// The ARGB pixels for RGBA pixels: alpha kept, colour replaced by core blue.
pub fn argb_from_rgba(rgba: &[u8]) -> (argb: Vec<u8>)
    ensures
        argb@ == argb_of(rgba@),
{
    let n: usize = rgba.len();
    let whole: usize = n / 4;
    let mut argb: Vec<u8> = Vec::new();
    let mut p: usize = 0;
    while p < whole
        invariant
            n == rgba@.len(),
            whole == n / 4,
            p <= whole,
            argb@.len() == 4 * p,
            forall|i: int| 0 <= i < argb@.len() ==> argb@[i] == argb_of(rgba@)[i],
        decreases whole - p,
    {
        assert(4 * p + 3 < rgba@.len()) by (nonlinear_arith)
            requires
                p < whole,
                whole == n / 4,
                n == rgba@.len();
        argb.push(rgba[4 * p + 3]);
        argb.push(24);
        argb.push(121);
        argb.push(255);
        p = p + 1;
    }
    assert(argb@ =~= argb_of(rgba@));
    argb
}

/// The tray icon from the Voice T template file, or `None` when the file is
/// not a 24×24 8-bit RGBA PNG.
pub fn voice_t_tray_icon_argb(template: &[u8]) -> (icon: Option<Vec<u8>>)
    ensures
        match icon {
            Some(pixels) => tray_icon_of(template@) == Some(pixels@)
                && pixels@.len() == VOICE_T_TRAY_ICON_SIZE * VOICE_T_TRAY_ICON_SIZE * 4,
            None => tray_icon_of(template@) is None,
        },
{
    let frame = match decode_first_frame(template) {
        Some(frame) => frame,
        None => {
            return None;
        },
    };
    if frame.width != VOICE_T_TRAY_ICON_SIZE || frame.height != VOICE_T_TRAY_ICON_SIZE
        || frame.color_type != PNG_COLOR_RGBA || frame.bit_depth != 8 {
        return None;
    }
    Some(argb_from_rgba(frame.pixels.as_slice()))
}

/// The icon keeps the template's shape and paints it in the brand's blue:
/// pixel by pixel, the ARGB alpha is the RGBA alpha and the colour is core
/// blue (24, 121, 255), whatever colour the template had; a trailing partial
/// pixel is dropped.
pub proof fn lemma_icon_keeps_alpha_and_paints_core_blue(rgba: Seq<u8>, p: int)
    requires
        0 <= p < rgba.len() / 4,
    ensures
        argb_of(rgba).len() == rgba.len() / 4 * 4,
        argb_of(rgba)[4 * p] == rgba[4 * p + 3],
        argb_of(rgba)[4 * p + 1] == 24,
        argb_of(rgba)[4 * p + 2] == 121,
        argb_of(rgba)[4 * p + 3] == 255,
{
    assert(4 * p + 3 < rgba.len() / 4 * 4) by (nonlinear_arith)
        requires
            0 <= p < rgba.len() / 4;
    assert((4 * p) % 4 == 0 && (4 * p + 1) % 4 == 1 && (4 * p + 2) % 4 == 2 && (4 * p + 3) % 4 == 3) by (nonlinear_arith)
        requires
            0 <= p;
}

} // verus!
