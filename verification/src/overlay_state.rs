//! The overlay's reaction to voice session events: the phase it shows, the
//! transcript it keeps, and the recent-speech window that gates the level
//! meter.
use vstd::prelude::*;
use crate::overlay::{
    bridge_phase_overlay, is_speech_text, overlay_phase_for_bridge_phase, visible_of, OverlayPhase, VoiceTranscript,
};
use crate::text::trim;

verus! {

/// How long recognized speech keeps the level meter live, in milliseconds.
pub const SPEECH_ACTIVITY_HOLD_MS: u64 = 500;

/// A voice session event, as far as the overlay's state depends on it (the
/// audio level, a floating-point reading, is applied with `set_level`).
#[derive(Clone, Debug, PartialEq, Eq)]
pub enum VoiceUiEvent {
    Phase(String),
    Partial(String),
    Committed(String),
    Final(String),
    Error(String),
    Finished,
}

/// What the event loop does after an event.
#[derive(Clone, Debug, PartialEq, Eq)]
pub enum VoiceUiOutcome {
    Continue,
    Error(String),
    Finished,
}

/// The level meter's inputs: the last level in thousandths, when it was
/// measured, and until when recognized speech keeps the meter live.
#[derive(Clone, Copy, Debug, PartialEq, Eq, Structural)]
pub struct VoiceActivity {
    pub level: u32,
    pub updated_at: u64,
    pub speech_until: u64,
}

/// The overlay's voice state.
pub struct OverlayVoiceState {
    phase: OverlayPhase,
    activity: VoiceActivity,
    transcript: VoiceTranscript,
    keeps_transcript: bool,
}

/// The activity after clearing it at `now`.
pub open spec fn cleared(now: u64) -> VoiceActivity {
    VoiceActivity { level: 0, updated_at: now, speech_until: 0 }
}

/// The end of the recent-speech window opened at `now`.
pub open spec fn speech_window_end(now: u64) -> u64 {
    if now + SPEECH_ACTIVITY_HOLD_MS > u64::MAX { u64::MAX } else { (now + SPEECH_ACTIVITY_HOLD_MS) as u64 }
}

impl OverlayVoiceState {
    pub closed spec fn phase_spec(self) -> OverlayPhase {
        self.phase
    }

    pub closed spec fn activity_spec(self) -> VoiceActivity {
        self.activity
    }

    pub closed spec fn transcript_spec(self) -> (Seq<char>, Seq<char>, Seq<char>) {
        self.transcript@
    }

    pub closed spec fn keeps(self) -> bool {
        self.keeps_transcript
    }

    /// A hidden overlay with no activity; `keeps_transcript` is whether the
    /// platform shows a transcript window (Linux) or not (Windows).
    pub fn new(keeps_transcript: bool) -> (s: Self)
        ensures
            s.phase_spec() == OverlayPhase::Hidden,
            s.activity_spec() == (VoiceActivity { level: 0, updated_at: 0, speech_until: 0 }),
            s.transcript_spec() == (Seq::<char>::empty(), Seq::<char>::empty(), Seq::<char>::empty()),
            s.keeps() == keeps_transcript,
    {
        OverlayVoiceState {
            phase: OverlayPhase::Hidden,
            activity: VoiceActivity { level: 0, updated_at: 0, speech_until: 0 },
            transcript: VoiceTranscript::default(),
            keeps_transcript,
        }
    }

    pub fn phase(&self) -> (p: OverlayPhase)
        ensures
            p == self.phase_spec(),
    {
        self.phase
    }

    pub fn activity(&self) -> (a: VoiceActivity)
        ensures
            a == self.activity_spec(),
    {
        self.activity
    }

    /// The transcript text to show.
    pub fn visible_text(&self) -> (t: &str)
        ensures
            t@ == visible_of(self.transcript_spec()),
    {
        self.transcript.visible_text()
    }

    /// Shows `phase`.
    pub fn set_phase(&mut self, phase: OverlayPhase)
        ensures
            final(self).phase_spec() == phase,
            final(self).activity_spec() == old(self).activity_spec(),
            final(self).transcript_spec() == old(self).transcript_spec(),
            final(self).keeps() == old(self).keeps(),
    {
        self.phase = phase;
    }

    /// A new session: the transcript starts empty and the meter is idle.
    pub fn begin_session(&mut self, now: u64)
        ensures
            final(self).phase_spec() == old(self).phase_spec(),
            final(self).activity_spec() == cleared(now),
            final(self).transcript_spec() == (Seq::<char>::empty(), Seq::<char>::empty(), Seq::<char>::empty()),
            final(self).keeps() == old(self).keeps(),
    {
        self.transcript.begin_session();
        self.clear_activity(now);
    }

    /// Silences the meter.
    pub fn clear_activity(&mut self, now: u64)
        ensures
            final(self).activity_spec() == cleared(now),
            final(self).phase_spec() == old(self).phase_spec(),
            final(self).transcript_spec() == old(self).transcript_spec(),
            final(self).keeps() == old(self).keeps(),
    {
        self.activity = VoiceActivity { level: 0, updated_at: now, speech_until: 0 };
    }

    /// Records a measured level, in thousandths of full activity.
    pub fn set_level(&mut self, level: u32, now: u64)
        ensures
            final(self).activity_spec() == (VoiceActivity { level, updated_at: now, ..old(self).activity_spec() }),
            final(self).phase_spec() == old(self).phase_spec(),
            final(self).transcript_spec() == old(self).transcript_spec(),
            final(self).keeps() == old(self).keeps(),
    {
        self.activity = VoiceActivity { level, updated_at: now, speech_until: self.activity.speech_until };
    }

    /// Opens the recent-speech window at `now`.
    pub fn mark_speech(&mut self, now: u64)
        ensures
            final(self).activity_spec() == (VoiceActivity { speech_until: speech_window_end(now), ..old(self).activity_spec() }),
            final(self).phase_spec() == old(self).phase_spec(),
            final(self).transcript_spec() == old(self).transcript_spec(),
            final(self).keeps() == old(self).keeps(),
    {
        let until = now.saturating_add(SPEECH_ACTIVITY_HOLD_MS);
        self.activity = VoiceActivity { speech_until: until, ..self.activity };
    }

    /// Applies a session event at `now`: a known bridge phase is shown (the
    /// meter restarts when listening begins), a partial hypothesis with
    /// speech in it opens the recent-speech window, texts go to the
    /// transcript where one is kept, an error is passed on, and the end of
    /// the session silences the meter.
    pub fn apply_event(&mut self, event: VoiceUiEvent, now: u64) -> (outcome: VoiceUiOutcome)
        ensures
            final(self).keeps() == old(self).keeps(),
            match event {
                VoiceUiEvent::Phase(p) => outcome == VoiceUiOutcome::Continue
                    && final(self).transcript_spec() == old(self).transcript_spec()
                    && match bridge_phase_overlay(p@) {
                        Some(phase) => final(self).phase_spec() == phase
                            && final(self).activity_spec() == (if phase == OverlayPhase::Listening { cleared(now) } else { old(self).activity_spec() }),
                        None => final(self).phase_spec() == old(self).phase_spec()
                            && final(self).activity_spec() == old(self).activity_spec(),
                    },
                VoiceUiEvent::Partial(t) => outcome == VoiceUiOutcome::Continue
                    && final(self).phase_spec() == old(self).phase_spec()
                    && final(self).activity_spec() == (if trim(t@).len() > 0 {
                        VoiceActivity { speech_until: speech_window_end(now), ..old(self).activity_spec() }
                    } else {
                        old(self).activity_spec()
                    })
                    && final(self).transcript_spec() == (if old(self).keeps() {
                        (t@, old(self).transcript_spec().1, old(self).transcript_spec().2)
                    } else {
                        old(self).transcript_spec()
                    }),
                VoiceUiEvent::Committed(t) => outcome == VoiceUiOutcome::Continue
                    && final(self).phase_spec() == old(self).phase_spec()
                    && final(self).activity_spec() == old(self).activity_spec()
                    && final(self).transcript_spec() == (if old(self).keeps() {
                        (Seq::<char>::empty(), t@, old(self).transcript_spec().2)
                    } else {
                        old(self).transcript_spec()
                    }),
                VoiceUiEvent::Final(t) => outcome == VoiceUiOutcome::Continue
                    && final(self).phase_spec() == old(self).phase_spec()
                    && final(self).activity_spec() == old(self).activity_spec()
                    && final(self).transcript_spec() == (if old(self).keeps() {
                        (Seq::<char>::empty(), old(self).transcript_spec().1, t@)
                    } else {
                        old(self).transcript_spec()
                    }),
                VoiceUiEvent::Error(e) => outcome == VoiceUiOutcome::Error(e)
                    && final(self).phase_spec() == old(self).phase_spec()
                    && final(self).activity_spec() == old(self).activity_spec()
                    && final(self).transcript_spec() == old(self).transcript_spec(),
                VoiceUiEvent::Finished => outcome == VoiceUiOutcome::Finished
                    && final(self).phase_spec() == old(self).phase_spec()
                    && final(self).activity_spec() == cleared(now)
                    && final(self).transcript_spec() == old(self).transcript_spec(),
            },
    {
        match event {
            VoiceUiEvent::Phase(p) => {
                match overlay_phase_for_bridge_phase(p.as_str()) {
                    Some(phase) => {
                        if phase == OverlayPhase::Listening {
                            self.clear_activity(now);
                        }
                        self.phase = phase;
                    },
                    None => {},
                }
                VoiceUiOutcome::Continue
            },
            VoiceUiEvent::Partial(t) => {
                if is_speech_text(t.as_str()) {
                    self.mark_speech(now);
                }
                if self.keeps_transcript {
                    self.transcript.partial(t);
                }
                VoiceUiOutcome::Continue
            },
            VoiceUiEvent::Committed(t) => {
                if self.keeps_transcript {
                    self.transcript.committed(t);
                }
                VoiceUiOutcome::Continue
            },
            VoiceUiEvent::Final(t) => {
                if self.keeps_transcript {
                    self.transcript.final_text(t);
                }
                VoiceUiOutcome::Continue
            },
            VoiceUiEvent::Error(e) => VoiceUiOutcome::Error(e),
            VoiceUiEvent::Finished => {
                self.clear_activity(now);
                VoiceUiOutcome::Finished
            },
        }
    }

    /// The meter's level at `now`, in thousandths: zero unless the level is
    /// fresh and speech was recognized recently.
    pub fn activity_level(&self, now: u64) -> (level: u32)
        ensures
            level == (if self.activity_spec().level == 0 || now > self.activity_spec().speech_until
                || (if now >= self.activity_spec().updated_at { now - self.activity_spec().updated_at } else { 0 }) > 300 {
                0
            } else {
                self.activity_spec().level
            }),
    {
        let a = self.activity;
        if crate::overlay::voice_activity_is_live(a.level, a.updated_at, a.speech_until, now) {
            a.level
        } else {
            0
        }
    }
}

/// Recognized speech keeps the meter live for the hold time after it, and
/// never ends the window before it opened; clearing the meter leaves it
/// silent until the next speech.
pub proof fn lemma_speech_keeps_the_meter_live_for_the_hold_time(now: u64)
    ensures
        speech_window_end(now) >= now,
        now + SPEECH_ACTIVITY_HOLD_MS <= u64::MAX ==> speech_window_end(now) == now + SPEECH_ACTIVITY_HOLD_MS,
        now + SPEECH_ACTIVITY_HOLD_MS > u64::MAX ==> speech_window_end(now) == u64::MAX,
        cleared(now).level == 0 && cleared(now).speech_until == 0 && cleared(now).updated_at == now,
{
}

} // verus!
