//! The tray menu's labels for each phase of a voice session, and the shape of
//! the tray icon's microphone glyph.

use vstd::prelude::*;

verus! {

#[derive(Clone, Copy, Debug, PartialEq, Eq, Structural)]
pub enum TrayPhase {
    Idle,
    Activating,
    Listening,
    Finishing,
}

/// The status line, the toggle item's label, and whether the toggle is enabled.
pub struct TrayLabels {
    pub status: &'static str,
    pub toggle: &'static str,
    pub can_toggle: bool,
}

pub open spec fn status_label(phase: TrayPhase) -> Seq<char> {
    match phase {
        TrayPhase::Idle => "状态：待机"@,
        TrayPhase::Activating => "状态：正在激活"@,
        TrayPhase::Listening => "状态：正在录音"@,
        TrayPhase::Finishing => "状态：正在处理识别结果"@,
    }
}

pub open spec fn toggle_label(phase: TrayPhase) -> Seq<char> {
    match phase {
        TrayPhase::Idle => "开始语音输入"@,
        TrayPhase::Activating => "取消语音输入"@,
        TrayPhase::Listening => "结束语音输入"@,
        TrayPhase::Finishing => "正在处理…"@,
    }
}

/// Labels for `phase`: a session can be started from idle, cancelled while
/// activating and finished while listening; while the result is being
/// processed the toggle is disabled.
pub fn tray_labels(phase: TrayPhase) -> (labels: TrayLabels)
    ensures
        labels.status@ == status_label(phase),
        labels.toggle@ == toggle_label(phase),
        labels.can_toggle == (phase != TrayPhase::Finishing),
{
    match phase {
        TrayPhase::Idle => TrayLabels { status: "状态：待机", toggle: "开始语音输入", can_toggle: true },
        TrayPhase::Activating => TrayLabels {
            status: "状态：正在激活",
            toggle: "取消语音输入",
            can_toggle: true,
        },
        TrayPhase::Listening => TrayLabels {
            status: "状态：正在录音",
            toggle: "结束语音输入",
            can_toggle: true,
        },
        TrayPhase::Finishing => TrayLabels {
            status: "状态：正在处理识别结果",
            toggle: "正在处理…",
            can_toggle: false,
        },
    }
}

/// Whether pixel `(x, y)` of a `size`-pixel icon belongs to the white
/// microphone glyph: the head, its base, the stem and the foot, each a box in
/// 32nds of the icon's size.
pub open spec fn glyph_covers(size: u32, x: u32, y: u32) -> bool {
    let s = size as int;
    let head = x >= s * 11 / 32 && x <= s * 20 / 32 && y >= s * 6 / 32 && y <= s * 20 / 32;
    let base = x >= s * 9 / 32 && x <= s * 22 / 32 && y >= s * 18 / 32 && y <= s * 21 / 32;
    let stem = x >= s * 15 / 32 && x <= s * 17 / 32 && y >= s * 20 / 32 && y <= s * 25 / 32;
    let foot = x >= s * 11 / 32 && x <= s * 21 / 32 && y >= s * 24 / 32 && y <= s * 26 / 32;
    head || base || stem || foot
}

/// The microphone glyph test, for icon sizes whose pixel buffer length
/// `size * size * 4` fits in `u32`.
pub fn microphone_glyph_covers(size: u32, x: u32, y: u32) -> (covered: bool)
    requires
        size < 32768,
    ensures
        covered == glyph_covers(size, x, y),
{
    let head = (x >= size * 11 / 32 && x <= size * 20 / 32) && (y >= size * 6 / 32 && y <= size * 20 / 32);
    let base = (x >= size * 9 / 32 && x <= size * 22 / 32) && (y >= size * 18 / 32 && y <= size * 21 / 32);
    let stem = (x >= size * 15 / 32 && x <= size * 17 / 32) && (y >= size * 20 / 32 && y <= size * 25 / 32);
    let foot = (x >= size * 11 / 32 && x <= size * 21 / 32) && (y >= size * 24 / 32 && y <= size * 26 / 32);
    head || base || stem || foot
}

/// The microphone glyph lies inside the icon, in its middle: every covered
/// pixel is within the box from 9/32 to 22/32 of the width and 6/32 to 26/32
/// of the height, so a border of the icon stays clear.
pub proof fn lemma_glyph_stays_inside_the_icon(size: u32, x: u32, y: u32)
    requires
        size > 0,
        glyph_covers(size, x, y),
    ensures
        x >= size as int * 9 / 32,
        x <= size as int * 22 / 32,
        y >= size as int * 6 / 32,
        y <= size as int * 26 / 32,
        x < size,
        y < size,
{
    let s = size as int;
    assert(s * 9 / 32 <= s * 11 / 32 && s * 9 / 32 <= s * 15 / 32) by (nonlinear_arith)
        requires
            s > 0;
    assert(s * 20 / 32 <= s * 22 / 32 && s * 17 / 32 <= s * 22 / 32 && s * 21 / 32 <= s * 22 / 32) by (nonlinear_arith)
        requires
            s > 0;
    assert(s * 6 / 32 <= s * 18 / 32 && s * 6 / 32 <= s * 20 / 32 && s * 6 / 32 <= s * 24 / 32) by (nonlinear_arith)
        requires
            s > 0;
    assert(s * 20 / 32 <= s * 26 / 32 && s * 21 / 32 <= s * 26 / 32 && s * 25 / 32 <= s * 26 / 32) by (nonlinear_arith)
        requires
            s > 0;
    assert(s * 26 / 32 < s && s * 22 / 32 < s) by (nonlinear_arith)
        requires
            s > 0;
}

} // verus!
