//! The voice overlay's session state: its phases, what the voice shortcut
//! does in each, how bridge phases map onto them, the transcript shown beside
//! the capsule, and the transcript window's placement.

use vstd::prelude::*;
use crate::text::{chars_equal, chars_of, str_equal, string_from_chars, trim, trim_chars};
use crate::tray::TrayPhase;

verus! {

#[derive(Clone, Copy, Debug, PartialEq, Eq, Structural)]
pub enum OverlayPhase {
    Hidden,
    Activating,
    Listening,
    Optimizing,
}

pub open spec fn phase_code_of(phase: OverlayPhase) -> u8 {
    match phase {
        OverlayPhase::Hidden => 0,
        OverlayPhase::Activating => 1,
        OverlayPhase::Listening => 2,
        OverlayPhase::Optimizing => 3,
    }
}

/// The number under which a phase is stored in the shared atomic.
pub fn phase_code(phase: OverlayPhase) -> (code: u8)
    ensures
        code == phase_code_of(phase),
{
    match phase {
        OverlayPhase::Hidden => 0,
        OverlayPhase::Activating => 1,
        OverlayPhase::Listening => 2,
        OverlayPhase::Optimizing => 3,
    }
}

pub open spec fn phase_of_code(code: u8) -> OverlayPhase {
    if code == 1 {
        OverlayPhase::Activating
    } else if code == 2 {
        OverlayPhase::Listening
    } else if code == 3 {
        OverlayPhase::Optimizing
    } else {
        OverlayPhase::Hidden
    }
}

/// The phase stored under `code`; unknown codes read as hidden.
pub fn phase_from_code(code: u8) -> (phase: OverlayPhase)
    ensures
        phase == phase_of_code(code),
{
    match code {
        1 => OverlayPhase::Activating,
        2 => OverlayPhase::Listening,
        3 => OverlayPhase::Optimizing,
        _ => OverlayPhase::Hidden,
    }
}

/// Storing a phase and reading it back gives the same phase.
pub proof fn lemma_phase_code_round_trip(phase: OverlayPhase)
    ensures
        phase_of_code(phase_code_of(phase)) == phase,
{
}

#[derive(Clone, Copy, Debug, PartialEq, Eq, Structural)]
pub enum VoiceHotkeyAction {
    Begin,
    Finish,
    Ignore,
}

pub open spec fn hotkey_action(phase: OverlayPhase) -> VoiceHotkeyAction {
    match phase {
        OverlayPhase::Hidden => VoiceHotkeyAction::Begin,
        OverlayPhase::Activating | OverlayPhase::Listening => VoiceHotkeyAction::Finish,
        OverlayPhase::Optimizing => VoiceHotkeyAction::Ignore,
    }
}

/// The voice shortcut starts a session only from the hidden state, finishes
/// one that is activating or recording, and is ignored while the result is
/// being optimized.
pub fn voice_hotkey_action(phase: OverlayPhase) -> (action: VoiceHotkeyAction)
    ensures
        action == hotkey_action(phase),
{
    match phase {
        OverlayPhase::Hidden => VoiceHotkeyAction::Begin,
        OverlayPhase::Activating | OverlayPhase::Listening => VoiceHotkeyAction::Finish,
        OverlayPhase::Optimizing => VoiceHotkeyAction::Ignore,
    }
}

/// What finishing input does in each phase.
#[derive(Clone, Copy, Debug, PartialEq, Eq, Structural)]
pub enum FinishAction {
    /// Nothing is on screen.
    Nothing,
    /// The result is already being optimized: hide the overlay.
    Hide,
    /// Stop recording and show the optimizing capsule.
    Finish,
}

pub fn finish_input_action(phase: OverlayPhase) -> (action: FinishAction)
    ensures
        phase == OverlayPhase::Hidden ==> action == FinishAction::Nothing,
        phase == OverlayPhase::Optimizing ==> action == FinishAction::Hide,
        (phase == OverlayPhase::Activating || phase == OverlayPhase::Listening) ==> action == FinishAction::Finish,
{
    match phase {
        OverlayPhase::Hidden => FinishAction::Nothing,
        OverlayPhase::Optimizing => FinishAction::Hide,
        OverlayPhase::Activating | OverlayPhase::Listening => FinishAction::Finish,
    }
}

/// The tray's view of the overlay phase.
pub fn tray_phase(phase: OverlayPhase) -> (t: TrayPhase)
    ensures
        phase == OverlayPhase::Hidden ==> t == TrayPhase::Idle,
        phase == OverlayPhase::Activating ==> t == TrayPhase::Activating,
        phase == OverlayPhase::Listening ==> t == TrayPhase::Listening,
        phase == OverlayPhase::Optimizing ==> t == TrayPhase::Finishing,
{
    match phase {
        OverlayPhase::Hidden => TrayPhase::Idle,
        OverlayPhase::Activating => TrayPhase::Activating,
        OverlayPhase::Listening => TrayPhase::Listening,
        OverlayPhase::Optimizing => TrayPhase::Finishing,
    }
}

/// The overlay phase a bridge status phase maps to, if any.
pub open spec fn bridge_phase_overlay(phase: Seq<char>) -> Option<OverlayPhase> {
    if phase == "arming"@ || phase == "voice_retry"@ || phase == "ui_ready"@ || phase == "asr_warmup"@ {
        Some(OverlayPhase::Activating)
    } else if phase == "recording"@ {
        Some(OverlayPhase::Listening)
    } else if phase == "optimizing"@ {
        Some(OverlayPhase::Optimizing)
    } else {
        None
    }
}

/// Arming, retrying, UI readiness and ASR warm-up all show the activating
/// capsule; recording shows the listening one; optimizing the final one.
pub fn overlay_phase_for_bridge_phase(phase: &str) -> (r: Option<OverlayPhase>)
    ensures
        r == bridge_phase_overlay(phase@),
{
    if str_equal(phase, "arming") || str_equal(phase, "voice_retry") || str_equal(phase, "ui_ready")
        || str_equal(phase, "asr_warmup") {
        Some(OverlayPhase::Activating)
    } else if str_equal(phase, "recording") {
        Some(OverlayPhase::Listening)
    } else if str_equal(phase, "optimizing") {
        Some(OverlayPhase::Optimizing)
    } else {
        None
    }
}

/// `str::strip_prefix`: the rest of `s` after `prefix`, if `s` starts with it.
pub open spec fn strip_prefix(s: Seq<char>, prefix: Seq<char>) -> Option<Seq<char>> {
    if prefix.len() <= s.len() && s.take(prefix.len() as int) == prefix {
        Some(s.skip(prefix.len() as int))
    } else {
        None
    }
}

pub(crate) fn strip_prefix_chars(s: &Vec<char>, prefix: &str) -> (r: Option<Vec<char>>)
    ensures
        match r {
            Some(rest) => strip_prefix(s@, prefix@) == Some(rest@),
            None => strip_prefix(s@, prefix@) is None,
        },
{
    let p = chars_of(prefix);
    if p.len() > s.len() {
        return None;
    }
    let mut i: usize = 0;
    while i < p.len()
        invariant
            p@ == prefix@,
            p.len() <= s.len(),
            i <= p.len(),
            forall|j: int| 0 <= j < i ==> s@[j] == p@[j],
        decreases p.len() - i,
    {
        if s[i] != p[i] {
            assert(s@.take(p.len() as int)[i as int] != p@[i as int]);
            return None;
        }
        i = i + 1;
    }
    assert(s@.take(p.len() as int) =~= p@);
    let mut rest: Vec<char> = Vec::new();
    let mut k: usize = p.len();
    while k < s.len()
        invariant
            p.len() <= k <= s.len(),
            rest@ == s@.subrange(p.len() as int, k as int),
        decreases s.len() - k,
    {
        rest.push(s[k]);
        k = k + 1;
        assert(rest@ =~= s@.subrange(p.len() as int, k as int));
    }
    assert(rest@ =~= s@.skip(p.len() as int));
    Some(rest)
}

/// The phase named by a `[bridge_phase] <name>` log line.
pub fn overlay_phase_from_bridge_line(line: &str) -> (r: Option<OverlayPhase>)
    ensures
        r == (match strip_prefix(line@, "[bridge_phase] "@) {
            Some(rest) => bridge_phase_overlay(trim(rest)),
            None => None,
        }),
{
    let chars = chars_of(line);
    match strip_prefix_chars(&chars, "[bridge_phase] ") {
        None => None,
        Some(rest) => {
            let name = trim_chars(&rest);
            let text = string_from_chars(name.as_slice());
            overlay_phase_for_bridge_phase(text.as_str())
        },
    }
}

/// Whether a log line reports recognized speech: `[partial]` followed by
/// something other than white space.
pub fn is_partial_speech_line(line: &str) -> (r: bool)
    ensures
        r == (match strip_prefix(line@, "[partial]"@) {
            Some(rest) => trim(rest).len() > 0,
            None => false,
        }),
{
    let chars = chars_of(line);
    match strip_prefix_chars(&chars, "[partial]") {
        None => false,
        Some(rest) => trim_chars(&rest).len() > 0,
    }
}

/// Whether recognized text counts as speech: it is not blank.
pub fn is_speech_text(text: &str) -> (r: bool)
    ensures
        r == (trim(text@).len() > 0),
{
    let chars = chars_of(text);
    trim_chars(&chars).len() > 0
}

/// The transcript of the current session: the latest partial hypothesis,
/// the last committed segment and the final text.
#[derive(Clone, Debug, PartialEq, Eq)]
pub struct VoiceTranscript {
    partial: String,
    committed: String,
    final_text: String,
}

impl View for VoiceTranscript {
    type V = (Seq<char>, Seq<char>, Seq<char>);

    closed spec fn view(&self) -> (Seq<char>, Seq<char>, Seq<char>) {
        (self.partial@, self.committed@, self.final_text@)
    }
}

/// The text to show: the final text once there is one, else the partial
/// hypothesis, else the committed text.
pub open spec fn visible_of(t: (Seq<char>, Seq<char>, Seq<char>)) -> Seq<char> {
    if t.2.len() > 0 {
        t.2
    } else if t.0.len() > 0 {
        t.0
    } else {
        t.1
    }
}

impl core::default::Default for VoiceTranscript {
    fn default() -> (t: Self)
        ensures
            t@ == (Seq::<char>::empty(), Seq::<char>::empty(), Seq::<char>::empty()),
    {
        VoiceTranscript { partial: String::new(), committed: String::new(), final_text: String::new() }
    }
}

impl VoiceTranscript {
    /// Forgets everything of the previous session.
    pub fn begin_session(&mut self)
        ensures
            final(self)@ == (Seq::<char>::empty(), Seq::<char>::empty(), Seq::<char>::empty()),
    {
        self.partial = String::new();
        self.committed = String::new();
        self.final_text = String::new();
    }

    /// A new partial hypothesis replaces the previous one.
    pub fn partial(&mut self, text: String)
        ensures
            final(self)@ == (text@, old(self)@.1, old(self)@.2),
    {
        self.partial = text;
    }

    /// A committed segment replaces the last one and clears the hypothesis.
    pub fn committed(&mut self, text: String)
        ensures
            final(self)@ == (Seq::<char>::empty(), text@, old(self)@.2),
    {
        self.committed = text;
        self.partial = String::new();
    }

    /// The final text; clears the hypothesis.
    pub fn final_text(&mut self, text: String)
        ensures
            final(self)@ == (Seq::<char>::empty(), old(self)@.1, text@),
    {
        self.final_text = text;
        self.partial = String::new();
    }

    pub fn visible_text(&self) -> (r: &str)
        ensures
            r@ == visible_of(self@),
    {
        if self.final_text.as_str().unicode_len() > 0 {
            self.final_text.as_str()
        } else if self.partial.as_str().unicode_len() > 0 {
            self.partial.as_str()
        } else {
            self.committed.as_str()
        }
    }
}

/// What is shown, over the transcript's parts: the final text once there is
/// one; before that a non-empty partial hypothesis, whatever was committed;
/// only without either, the committed segment. So after a committed segment
/// and a new hypothesis, the hypothesis is what shows.
pub proof fn lemma_visible_text_prefers_final_then_partial(partial: Seq<char>, committed: Seq<char>, final_text: Seq<char>)
    ensures
        final_text.len() > 0 ==> visible_of((partial, committed, final_text)) == final_text,
        final_text.len() == 0 && partial.len() > 0 ==> visible_of((partial, committed, final_text)) == partial,
        final_text.len() == 0 && partial.len() == 0 ==> visible_of((partial, committed, final_text)) == committed,
        visible_of((partial, committed, final_text)) == final_text
            || visible_of((partial, committed, final_text)) == partial
            || visible_of((partial, committed, final_text)) == committed,
{
}

/// Once a final text is known, later hypotheses do not replace it on screen.
pub proof fn lemma_final_text_wins(t: (Seq<char>, Seq<char>, Seq<char>), partial: Seq<char>)
    requires
        t.2.len() > 0,
    ensures
        visible_of((partial, t.1, t.2)) == t.2,
{
}

pub open spec fn presentation_label(phase: OverlayPhase, text: Seq<char>) -> Seq<char> {
    if text.len() == 0 {
        match phase {
            OverlayPhase::Activating => "正在连接"@,
            OverlayPhase::Listening => "正在聆听"@,
            OverlayPhase::Optimizing => "正在整理"@,
            OverlayPhase::Hidden => "语音输入"@,
        }
    } else if phase == OverlayPhase::Optimizing {
        "识别结果"@
    } else {
        "实时转写"@
    }
}

pub open spec fn presentation_text(text: Seq<char>) -> Seq<char> {
    if text.len() == 0 { "识别到的文字会显示在这里"@ } else { text }
}

/// The transcript window's label and body: a hint while nothing was
/// recognized, the live text while recording, the result once optimizing.
pub fn transcript_presentation<'a>(phase: OverlayPhase, text: &'a str) -> (r: (&'static str, &'a str))
    ensures
        r.0@ == presentation_label(phase, text@),
        r.1@ == presentation_text(text@),
{
    if text.unicode_len() == 0 {
        let label = match phase {
            OverlayPhase::Activating => "正在连接",
            OverlayPhase::Listening => "正在聆听",
            OverlayPhase::Optimizing => "正在整理",
            OverlayPhase::Hidden => "语音输入",
        };
        (label, "识别到的文字会显示在这里")
    } else {
        let label = if phase == OverlayPhase::Optimizing { "识别结果" } else { "实时转写" };
        (label, text)
    }
}

/// The transcript window stays up during a session and after a result.
pub fn transcript_window_should_be_visible(phase: OverlayPhase, session_completed: bool) -> (r: bool)
    ensures
        r == (phase != OverlayPhase::Hidden || session_completed),
{
    phase != OverlayPhase::Hidden || session_completed
}

/// The EWMH states requested for the transcript window.
pub fn transcript_window_state_atoms() -> (atoms: [&'static str; 1])
    ensures
        atoms[0]@ == "_NET_WM_STATE_ABOVE"@,
{
    ["_NET_WM_STATE_ABOVE"]
}

/// Manual edits survive until the recognized text itself changes.
pub fn should_apply_voice_snapshot(last_applied: &str, next: &str) -> (r: bool)
    ensures
        r == (last_applied@ != next@),
{
    !str_equal(last_applied, next)
}

/// Hidden transcript windows are parked off screen as a 1x1 window instead
/// of being unmapped.
pub fn transcript_window_geometry(visible: bool, saved: (i32, i32, u32, u32)) -> (r: (i32, i32, u32, u32))
    ensures
        r == (if visible { saved } else { (-100i32, -100i32, 1u32, 1u32) }),
{
    if visible { saved } else { (-100, -100, 1, 1) }
}

pub const TRANSCRIPT_WINDOW_WIDTH: u32 = 560;
pub const TRANSCRIPT_WINDOW_HEIGHT: u32 = 240;
pub const TRANSCRIPT_OVERLAY_GAP: i32 = 14;

/// `i32` division by two, rounding toward zero as Rust's `/` does.
pub open spec fn half_toward_zero(v: int) -> int {
    if v >= 0 { v / 2 } else { -((-v) / 2) }
}

/// Where the transcript window goes: centred over the overlay, its bottom
/// edge the gap above the overlay's top.
pub open spec fn transcript_above(overlay: (i32, i32, u32, u32)) -> (int, int) {
    let width_delta = (overlay.2 as i32) as int - TRANSCRIPT_WINDOW_WIDTH as int;
    (overlay.0 as int + half_toward_zero(width_delta),
     overlay.1 as int - TRANSCRIPT_WINDOW_HEIGHT as int - TRANSCRIPT_OVERLAY_GAP as int)
}

pub fn transcript_geometry_above_overlay(overlay: (i32, i32, u32, u32)) -> (r: (i32, i32, u32, u32))
    requires
        (overlay.2 as i32) as int - TRANSCRIPT_WINDOW_WIDTH as int >= i32::MIN,
        i32::MIN <= transcript_above(overlay).0 <= i32::MAX,
        i32::MIN <= transcript_above(overlay).1,
    ensures
        r.0 as int == transcript_above(overlay).0,
        r.1 as int == transcript_above(overlay).1,
        r.2 == TRANSCRIPT_WINDOW_WIDTH,
        r.3 == TRANSCRIPT_WINDOW_HEIGHT,
{
    let (overlay_x, overlay_y, overlay_width, _) = overlay;
    let delta: i32 = overlay_width as i32 - TRANSCRIPT_WINDOW_WIDTH as i32;
    let half: i32 = if delta >= 0 { delta / 2 } else { -((-(delta as i64)) / 2) as i32 };
    let x = overlay_x + half;
    let y = overlay_y - TRANSCRIPT_WINDOW_HEIGHT as i32 - TRANSCRIPT_OVERLAY_GAP;
    (x, y, TRANSCRIPT_WINDOW_WIDTH, TRANSCRIPT_WINDOW_HEIGHT)
}

/// Moves a window's requested origin by the window manager's frame extents
/// (left, right, top, bottom), so that the client area lands where intended.
pub fn transcript_geometry_for_frame(
    geometry: (i32, i32, u32, u32),
    frame_extents: (u32, u32, u32, u32),
) -> (r: (i32, i32, u32, u32))
    requires
        i32::MIN <= geometry.0 as int - (frame_extents.0 as i32) as int <= i32::MAX,
        i32::MIN <= geometry.1 as int - (frame_extents.2 as i32) as int <= i32::MAX,
    ensures
        r.0 as int == geometry.0 as int - (frame_extents.0 as i32) as int,
        r.1 as int == geometry.1 as int - (frame_extents.2 as i32) as int,
        r.2 == geometry.2,
        r.3 == geometry.3,
{
    (geometry.0 - frame_extents.0 as i32, geometry.1 - frame_extents.2 as i32, geometry.2, geometry.3)
}

/// The `_NET_WM_STATE` action: 1 adds the state, 0 removes it.
pub fn net_wm_state_action(enabled: bool) -> (action: u32)
    ensures
        action == (if enabled { 1u32 } else { 0u32 }),
{
    if enabled { 1 } else { 0 }
}

/// The transcript window is created lazily, once, on the first activation.
pub fn should_create_transcript_window(requested: bool, created: bool) -> (r: bool)
    ensures
        r == (requested && !created),
{
    requested && !created
}

/// Closing the transcript window forgets it entirely, so that the next
/// activation creates it again.
pub fn transcript_state_after_user_close(requested: bool, created: bool) -> (r: (bool, bool))
    ensures
        r == (false, false),
{
    (false, false)
}

/// Whether the level meter shows anything: a non-zero level, updated within
/// the last 300 ms, while recognized speech is recent.
pub fn voice_activity_is_live(level: u32, updated_at: u64, speech_until: u64, now: u64) -> (live: bool)
    ensures
        live == !(level == 0 || now > speech_until || (if now >= updated_at { now - updated_at } else { 0 }) > 300),
{
    let age = if now >= updated_at { now - updated_at } else { 0 };
    !(level == 0 || now > speech_until || age > 300)
}


/// When the optimizing capsule's display time is over, the overlay hides only
/// if no newer session started meanwhile and it still shows optimizing.
pub fn optimizing_timeout_hides(started_generation: u64, current_generation: u64, phase: OverlayPhase) -> (r: bool)
    ensures
        r == (started_generation == current_generation && phase == OverlayPhase::Optimizing),
{
    started_generation == current_generation && match phase {
        OverlayPhase::Optimizing => true,
        _ => false,
    }
}

/// The voice shortcut begins a session exactly when nothing is on screen,
/// finishes exactly a session that is connecting or recording, and so never
/// begins a second session while one is live.
pub proof fn lemma_shortcut_begins_only_from_hidden(phase: OverlayPhase)
    ensures
        (hotkey_action(phase) == VoiceHotkeyAction::Begin) == (phase == OverlayPhase::Hidden),
        (hotkey_action(phase) == VoiceHotkeyAction::Finish)
            == (phase == OverlayPhase::Activating || phase == OverlayPhase::Listening),
{
}

/// Only recording shows the listening capsule and only optimizing the final
/// one; the four preparation phases show the connecting capsule; every other
/// bridge phase leaves the overlay as it is.
pub proof fn lemma_bridge_phases_map_to_overlay_phases(phase: Seq<char>)
    ensures
        (bridge_phase_overlay(phase) == Some(OverlayPhase::Listening)) == (phase == "recording"@),
        (bridge_phase_overlay(phase) == Some(OverlayPhase::Optimizing)) == (phase == "optimizing"@),
        (bridge_phase_overlay(phase) == Some(OverlayPhase::Activating)) == (phase == "arming"@
            || phase == "voice_retry"@ || phase == "ui_ready"@ || phase == "asr_warmup"@),
        bridge_phase_overlay(phase) != Some(OverlayPhase::Hidden),
{
    reveal_strlit("recording");
    reveal_strlit("optimizing");
    reveal_strlit("arming");
    reveal_strlit("voice_retry");
    reveal_strlit("ui_ready");
    reveal_strlit("asr_warmup");
    assert("recording"@.len() == 9);
    assert("optimizing"@.len() == 10);
    assert("arming"@.len() == 6);
    assert("voice_retry"@.len() == 11);
    assert("ui_ready"@.len() == 8);
    assert("asr_warmup"@.len() == 10);
    assert("optimizing"@[0] != "asr_warmup"@[0]);
}

/// The transcript window shows what was recognized as soon as there is
/// something: the text itself as its body, labelled as the result only once
/// the session is optimizing and as live transcription before; the hint body
/// appears only while nothing was recognized.
pub proof fn lemma_recognized_text_is_shown(phase: OverlayPhase, text: Seq<char>)
    ensures
        text.len() > 0 ==> presentation_text(text) == text,
        text.len() > 0 ==> (presentation_label(phase, text) == "识别结果"@) == (phase == OverlayPhase::Optimizing),
        text.len() > 0 && phase != OverlayPhase::Optimizing ==> presentation_label(phase, text) == "实时转写"@,
        text.len() == 0 ==> presentation_text(text) == "识别到的文字会显示在这里"@,
{
    reveal_strlit("识别结果");
    reveal_strlit("实时转写");
    assert("识别结果"@[0] != "实时转写"@[0]);
}

/// The transcript window sits centred over the overlay (to within the half
/// pixel that rounding loses) with its bottom edge the gap above the
/// overlay's top.
pub proof fn lemma_transcript_sits_centred_above_the_overlay(overlay: (i32, i32, u32, u32))
    requires
        overlay.2 <= i32::MAX,
    ensures
        ({
            let (x, y) = transcript_above(overlay);
            let gap = 2 * (x - overlay.0) + TRANSCRIPT_WINDOW_WIDTH - overlay.2;
            &&& -1 <= gap <= 1
            &&& y + TRANSCRIPT_WINDOW_HEIGHT + TRANSCRIPT_OVERLAY_GAP == overlay.1
        }),
{
    assert((overlay.2 as i32) as int == overlay.2 as int);
}

/// Stripping a prefix undoes prepending it: a text that starts with the
/// prefix gives back exactly what follows it, and whatever is given back,
/// prefixed again, is the text.
pub proof fn lemma_strip_prefix_undoes_prepending(prefix: Seq<char>, rest: Seq<char>, s: Seq<char>)
    ensures
        strip_prefix(prefix + rest, prefix) == Some(rest),
        strip_prefix(s, prefix) matches Some(r) ==> prefix + r == s,
{
    assert((prefix + rest).take(prefix.len() as int) =~= prefix);
    assert((prefix + rest).skip(prefix.len() as int) =~= rest);
    if let Some(r) = strip_prefix(s, prefix) {
        assert(prefix + r =~= s);
    }
}

/// A `[bridge_phase]` log line names the overlay phase of its bridge phase,
/// whatever white space surrounds the name.
pub proof fn lemma_bridge_phase_lines_name_their_phase(name: Seq<char>, before: Seq<char>, after: Seq<char>)
    requires
        forall|i: int| 0 <= i < before.len() ==> crate::text::is_white_space(#[trigger] before[i]),
        forall|i: int| 0 <= i < after.len() ==> crate::text::is_white_space(#[trigger] after[i]),
    ensures
        (match strip_prefix("[bridge_phase] "@ + (before + name + after), "[bridge_phase] "@) {
            Some(rest) => bridge_phase_overlay(trim(rest)),
            None => None,
        }) == bridge_phase_overlay(trim(name)),
{
    lemma_strip_prefix_undoes_prepending("[bridge_phase] "@, before + name + after, Seq::empty());
    crate::text::lemma_trim_ignores_padding(before, name, after);
}

} // verus!
