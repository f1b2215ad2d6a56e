//! The one-shot compositor probe of the standalone glass preview: which
//! probe the command line asks for, and what one poll of its request event
//! leads to.
use vstd::prelude::*;
use crate::overlay::{strip_prefix, strip_prefix_chars};
use crate::text::{chars_equal, chars_of, lower_seq, lowercase_chars};

verus! {

/// Which compositor path the probe exercises.
#[derive(Clone, Copy, Debug, PartialEq, Eq, Structural)]
pub enum Mode {
    Brush,
    Visual,
}

pub open spec fn mode_named(value: Seq<char>) -> Option<Mode> {
    if value == seq!['b', 'r', 'u', 's', 'h'] {
        Some(Mode::Brush)
    } else if value == seq!['v', 'i', 's', 'u', 'a', 'l'] {
        Some(Mode::Visual)
    } else {
        None
    }
}

pub open spec fn probe_mode_message() -> Seq<char> {
    "--glass-probe must be brush or visual"@
}

/// The mode a `--glass-probe=` value names.
pub fn probe_mode(value: &str) -> (r: Result<Mode, &'static str>)
    ensures
        match r {
            Ok(mode) => mode_named(value@) == Some(mode),
            Err(message) => mode_named(value@) is None && message@ == probe_mode_message(),
        },
{
    let chars = chars_of(value);
    let brush = chars_of("brush");
    let visual = chars_of("visual");
    proof {
        reveal_strlit("brush");
        reveal_strlit("visual");
        assert(brush@ =~= seq!['b', 'r', 'u', 's', 'h']);
        assert(visual@ =~= seq!['v', 'i', 's', 'u', 'a', 'l']);
    }
    if chars_equal(&chars, &brush) {
        Ok(Mode::Brush)
    } else if chars_equal(&chars, &visual) {
        Ok(Mode::Visual)
    } else {
        Err("--glass-probe must be brush or visual")
    }
}

/// The value of a `--glass-probe=<value>` argument.
pub fn probe_argument(arg: &str) -> (r: Option<Vec<char>>)
    ensures
        match r {
            Some(value) => strip_prefix(arg@, "--glass-probe="@) == Some(value@),
            None => strip_prefix(arg@, "--glass-probe="@) is None,
        },
{
    let chars = chars_of(arg);
    strip_prefix_chars(&chars, "--glass-probe=")
}

/// The probe only runs from the standalone preview executable, whose file
/// name is compared without regard to ASCII case.
pub fn is_preview_executable(file_name: &str) -> (r: bool)
    ensures
        r == (lower_seq(file_name@) == lower_seq("GlassPreview.exe"@)),
{
    let name = lowercase_chars(&chars_of(file_name));
    let expected = lowercase_chars(&chars_of("GlassPreview.exe"));
    chars_equal(&name, &expected)
}

/// The result `WaitForSingleObject` gives when the event is signalled.
pub const WAIT_SIGNALLED: u32 = 0;

/// The result `WaitForSingleObject` gives when a zero timeout elapses.
pub const WAIT_TIMED_OUT: u32 = 258;

/// What to do after one poll of the request event.
#[derive(Clone, Copy, Debug, PartialEq, Eq, Structural)]
pub enum ProbeStep {
    /// Nothing was requested yet, or the probe already ran.
    Idle,
    /// Apply the probe once.
    Apply(Mode),
    /// Polling failed: signal failure and report the error.
    Fail,
}

/// A probe that may run at most once.
#[derive(Clone, Copy, Debug)]
pub struct ProbeState {
    pub mode: Mode,
    pub attempted: bool,
}

impl ProbeState {
    pub fn new(mode: Mode) -> (p: Self)
        ensures
            p.mode == mode,
            !p.attempted,
    {
        ProbeState { mode, attempted: false }
    }

    /// Whether the probe can still run.
    pub fn armed(&self) -> (r: bool)
        ensures
            r == !self.attempted,
    {
        !self.attempted
    }

    /// Reacts to one poll of the request event: a signal runs the probe, a
    /// timeout keeps waiting, any other result fails. Running and failing
    /// use the probe up, and a used probe does nothing.
    pub fn poll(&mut self, wait_result: u32) -> (step: ProbeStep)
        ensures
            final(self).mode == old(self).mode,
            old(self).attempted ==> step == ProbeStep::Idle && final(self).attempted,
            !old(self).attempted && wait_result == WAIT_SIGNALLED ==> step == ProbeStep::Apply(old(self).mode)
                && final(self).attempted,
            !old(self).attempted && wait_result == WAIT_TIMED_OUT ==> step == ProbeStep::Idle
                && !final(self).attempted,
            !old(self).attempted && wait_result != WAIT_SIGNALLED && wait_result != WAIT_TIMED_OUT
                ==> step == ProbeStep::Fail && final(self).attempted,
    {
        if self.attempted {
            return ProbeStep::Idle;
        }
        if wait_result == WAIT_SIGNALLED {
            self.attempted = true;
            ProbeStep::Apply(self.mode)
        } else if wait_result == WAIT_TIMED_OUT {
            ProbeStep::Idle
        } else {
            self.attempted = true;
            ProbeStep::Fail
        }
    }
}

} // verus!
