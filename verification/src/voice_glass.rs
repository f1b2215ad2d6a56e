//! The liquid-glass overlay's switch and the phases it shows: whether the
//! user asked for it, what the optical engine is told for each overlay
//! phase, and which of the engine's finish requests end the input.
use vstd::prelude::*;
use crate::overlay::OverlayPhase;

verus! {

/// Whether liquid glass starts enabled: `--no-liquid-glass` wins, else the
/// stored setting or `--liquid-glass` turn it on.
pub fn glass_requested(stored_setting: bool, disable_flag: bool, enable_flag: bool) -> (r: bool)
    ensures
        r == (!disable_flag && (stored_setting || enable_flag)),
{
    if disable_flag {
        false
    } else {
        stored_setting || enable_flag
    }
}

/// The user's choice of liquid glass.
#[derive(Clone, Copy, Debug)]
pub struct VoiceGlass {
    requested: bool,
}

impl VoiceGlass {
    pub closed spec fn requested(self) -> bool {
        self.requested
    }

    pub fn new(requested: bool) -> (g: Self)
        ensures
            g.requested() == requested,
    {
        VoiceGlass { requested }
    }

    /// Whether the user asked for liquid glass.
    pub fn enabled(&self) -> (r: bool)
        ensures
            r == self.requested(),
    {
        self.requested
    }

    /// The switch after `configure(enabled)`.
    pub closed spec fn configured(self, enabled: bool) -> VoiceGlass {
        VoiceGlass { requested: enabled }
    }

    /// The switch after `configure` with each choice of `choices`, in order.
    pub open spec fn configured_all(self, choices: Seq<bool>) -> VoiceGlass
        decreases choices.len(),
    {
        if choices.len() == 0 {
            self
        } else {
            self.configured_all(choices.drop_last()).configured(choices.last())
        }
    }

    /// Records the user's choice and returns the line to log.
    pub fn configure(&mut self, enabled: bool) -> (log: &'static str)
        ensures
            *final(self) == old(self).configured(enabled),
            final(self).requested() == enabled,
            log@ == (if enabled { "user enabled liquid glass; local GPU desktop sampling while visible; overlay excluded from system capture"@ } else { "user disabled liquid glass; renderer relinquishes desktop capture"@ }),
    {
        self.requested = enabled;
        if enabled {
            "user enabled liquid glass; local GPU desktop sampling while visible; overlay excluded from system capture"
        } else {
            "user disabled liquid glass; renderer relinquishes desktop capture"
        }
    }
}

/// Over any sequence of `configure` calls, `enabled()` reports the last
/// choice, or the initial one when there was none.
pub proof fn lemma_last_configure_wins(glass: VoiceGlass, choices: Seq<bool>)
    ensures
        glass.configured_all(choices).requested() == if choices.len() == 0 {
            glass.requested()
        } else {
            choices.last()
        },
{
}

/// The phases the optical engine draws.
#[derive(Clone, Copy, Debug, PartialEq, Eq, Structural)]
pub enum GlassPhase {
    Hidden,
    Activating,
    Listening,
    Optimizing,
}

/// What the engine is told for an overlay phase, and whether the system
/// theme is read again first (for every phase but hidden).
pub fn engine_phase(phase: OverlayPhase) -> (r: (GlassPhase, bool))
    ensures
        r.1 == (phase != OverlayPhase::Hidden),
        r.0 == (match phase {
            OverlayPhase::Hidden => GlassPhase::Hidden,
            OverlayPhase::Activating => GlassPhase::Activating,
            OverlayPhase::Listening => GlassPhase::Listening,
            OverlayPhase::Optimizing => GlassPhase::Optimizing,
        }),
{
    match phase {
        OverlayPhase::Hidden => (GlassPhase::Hidden, false),
        OverlayPhase::Activating => (GlassPhase::Activating, true),
        OverlayPhase::Listening => (GlassPhase::Listening, true),
        OverlayPhase::Optimizing => (GlassPhase::Optimizing, true),
    }
}

/// The engine asks to finish input; only a request for the current overlay
/// generation, while activating or listening, finishes it.
pub fn finish_request_applies(requested_generation: u64, current_generation: u64, phase: OverlayPhase) -> (r: bool)
    ensures
        r == (requested_generation == current_generation
            && (phase == OverlayPhase::Activating || phase == OverlayPhase::Listening)),
{
    requested_generation == current_generation && match phase {
        OverlayPhase::Activating | OverlayPhase::Listening => true,
        _ => false,
    }
}

} // verus!
