use vstd::prelude::*;

verus! {

/// The palette rule for a ring of luminance probes: `valid` probes were read,
/// `dark` of them (clamped to `valid`) read as dark, and `previous` is the
/// palette currently on screen (`None` for a first look).
pub open spec fn dark_background_rule(
    average_luminance: u32,
    dark_samples: u32,
    valid_samples: u32,
    previous: Option<bool>,
) -> bool {
    let dark: int = if dark_samples <= valid_samples { dark_samples as int } else { valid_samples as int };
    let valid: int = valid_samples as int;
    if valid_samples == 0 {
        match previous {
            Some(p) => p,
            None => false,
        }
    } else {
        match previous {
            None => average_luminance < 150 || dark * 2 >= valid,
            Some(false) => average_luminance < 132 || dark * 5 >= valid * 3,
            Some(true) => average_luminance < 168 || dark * 5 > valid * 2,
        }
    }
}

/// Decides whether the glass should wear its dark palette. A first look uses a
/// single threshold; a palette already on screen is held by a hysteresis band
/// (enter dark at 60% dark probes or luminance < 132, stay dark above 40% or
/// luminance < 168). With no valid probe the current palette is kept.
pub fn decide_dark_background(
    average_luminance: u32,
    dark_samples: u32,
    valid_samples: u32,
    previous: Option<bool>,
) -> (dark: bool)
    ensures
        dark == dark_background_rule(average_luminance, dark_samples, valid_samples, previous),
{
    if valid_samples == 0 {
        return match previous {
            Some(p) => p,
            None => false,
        };
    }
    let dark: u64 = if dark_samples <= valid_samples { dark_samples as u64 } else { valid_samples as u64 };
    let valid: u64 = valid_samples as u64;
    match previous {
        None => average_luminance < 150 || dark * 2 >= valid,
        Some(false) => average_luminance < 132 || dark * 5 >= valid * 3,
        Some(true) => average_luminance < 168 || dark * 5 > valid * 2,
    }
}


/// A palette already on screen is harder to leave than a first look would be:
/// whatever a light capsule switches to dark on, a first look calls dark too, and
/// whatever a first look calls dark keeps a dark capsule dark. Without a valid
/// probe the palette on screen is kept.
pub proof fn lemma_hysteresis_band(average_luminance: u32, dark_samples: u32, valid_samples: u32)
    ensures
        dark_background_rule(average_luminance, dark_samples, valid_samples, Some(false))
            ==> dark_background_rule(average_luminance, dark_samples, valid_samples, None),
        dark_background_rule(average_luminance, dark_samples, valid_samples, None)
            ==> dark_background_rule(average_luminance, dark_samples, valid_samples, Some(true)),
        valid_samples == 0 ==> dark_background_rule(average_luminance, dark_samples, valid_samples, Some(true)),
        valid_samples == 0 ==> !dark_background_rule(average_luminance, dark_samples, valid_samples, Some(false)),
{
}

/// Requires two successive samples of a new tint key before publishing it.
/// The pending pair includes the key currently on display, so a new session's
/// immediate update resets it.
pub struct TintSettler {
    pending: Option<(u32, u32)>,
}

impl View for TintSettler {
    type V = Option<(u32, u32)>;

    closed spec fn view(&self) -> Option<(u32, u32)> {
        self.pending
    }
}

/// One observation: the key that is published and the pair left pending.
pub open spec fn settle_step(pending: Option<(u32, u32)>, candidate: u32, current: u32) -> (u32, Option<(u32, u32)>) {
    if candidate == current {
        (current, None)
    } else if pending == Some((candidate, current)) {
        (candidate, None)
    } else {
        (current, Some((candidate, current)))
    }
}

/// The keys published for a run of candidates observed against a fixed current key.
pub open spec fn settle_run(pending: Option<(u32, u32)>, candidates: Seq<u32>, current: u32) -> Seq<u32>
    decreases candidates.len(),
{
    if candidates.len() == 0 {
        Seq::empty()
    } else {
        let (published, next) = settle_step(pending, candidates[0], current);
        seq![published] + settle_run(next, candidates.drop_first(), current)
    }
}

impl core::default::Default for TintSettler {
    fn default() -> (settler: Self)
        ensures
            settler@ == None::<(u32, u32)>,
    {
        TintSettler { pending: None }
    }
}

impl TintSettler {
    /// Observes `candidate` while `current` is on display and returns the key to
    /// display: `candidate` only when the same pair was observed just before.
    pub fn observe(&mut self, candidate: u32, current: u32) -> (published: u32)
        ensures
            (published, final(self)@) == settle_step(old(self)@, candidate, current),
    {
        if candidate == current {
            self.pending = None;
            return current;
        }
        let pair = (candidate, current);
        let matches = match self.pending {
            Some((c, k)) => c == candidate && k == current,
            None => false,
        };
        if matches {
            self.pending = None;
            candidate
        } else {
            self.pending = Some(pair);
            current
        }
    }

    /// Forgets any pending key.
    pub fn reset(&mut self)
        ensures
            final(self)@ == None::<(u32, u32)>,
    {
        self.pending = None;
    }
}

/// Noise that alternates between candidate keys never publishes any of them:
/// when no two successive candidates agree, and the first one was not already
/// pending, every observation keeps the current key.
pub proof fn lemma_alternating_candidates_keep_current(
    pending: Option<(u32, u32)>,
    candidates: Seq<u32>,
    current: u32,
)
    requires
        forall|i: int, j: int| 0 <= i && j == i + 1 && j < candidates.len() ==> #[trigger] candidates[i] != #[trigger] candidates[j],
        candidates.len() > 0 ==> pending != Some((candidates[0], current)),
    ensures
        settle_run(pending, candidates, current).len() == candidates.len(),
        forall|i: int| 0 <= i < candidates.len() ==> settle_run(pending, candidates, current)[i] == current,
    decreases candidates.len(),
{
    if candidates.len() > 0 {
        let (published, next) = settle_step(pending, candidates[0], current);
        let rest = candidates.drop_first();
        assert forall|i: int, j: int| 0 <= i && j == i + 1 && j < rest.len() implies #[trigger] rest[i] != #[trigger] rest[j] by {
            assert(rest[i] == candidates[i + 1]);
            assert(rest[j] == candidates[j + 1]);
        }
        if rest.len() > 0 {
            assert(rest[0] == candidates[1]);
            assert(candidates[0] != candidates[1]);
        }
        lemma_alternating_candidates_keep_current(next, rest, current);
        let tail = settle_run(next, rest, current);
        assert(settle_run(pending, candidates, current) == seq![published] + tail);
    }
}

/// Darker readings never make the capsule lighter: with the rest fixed, a
/// lower average luminance or more dark probes never turn a dark decision
/// light. A ring whose valid probes all read dark is dark on any look, and a
/// bright ring (luminance 168 or more) without a dark probe is light on any
/// look.
pub proof fn lemma_darker_rings_are_never_lighter(
    lighter: u32,
    darker: u32,
    fewer_dark: u32,
    more_dark: u32,
    valid_samples: u32,
    previous: Option<bool>,
)
    ensures
        darker <= lighter && fewer_dark <= more_dark
            && dark_background_rule(lighter, fewer_dark, valid_samples, previous)
            ==> dark_background_rule(darker, more_dark, valid_samples, previous),
        valid_samples > 0 && more_dark >= valid_samples
            ==> dark_background_rule(lighter, more_dark, valid_samples, previous),
        valid_samples > 0 && lighter >= 168 ==> !dark_background_rule(lighter, 0, valid_samples, previous),
{
}

/// A new tint key is published on its second successive observation and
/// not before: whatever was pending, observing a key other than the one on
/// display twice in a row publishes it the second time (the first time when
/// it was already pending from the observation before); and a published key is
/// always either the candidate or the key on display.
pub proof fn lemma_second_observation_publishes(pending: Option<(u32, u32)>, candidate: u32, current: u32)
    ensures
        pending != Some((candidate, current))
            ==> settle_step(settle_step(pending, candidate, current).1, candidate, current).0 == candidate,
        pending != Some((candidate, current)) ==> settle_step(pending, candidate, current).0 == current,
        pending == Some((candidate, current)) ==> settle_step(pending, candidate, current).0 == candidate,
        settle_step(pending, candidate, current).0 == candidate || settle_step(pending, candidate, current).0 == current,
{
}

} // verus!
