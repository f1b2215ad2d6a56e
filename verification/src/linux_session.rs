//! How the Linux client runs: which display path the overlay takes, how the
//! voice shortcut reaches it, and what happens when a shortcut route fails
//! or a session ends.
use vstd::prelude::*;
use crate::overlay::OverlayPhase;
use crate::text::{chars_equal, chars_of, lower_seq, lowercase_chars};

verus! {

/// The overlay goes through XWayland when both a Wayland and an X display
/// exist, unless the native Wayland overlay was asked for.
pub fn prefers_xwayland_overlay(native_wayland_requested: bool, wayland_display: bool, x_display: bool) -> (r: bool)
    ensures
        r == (!native_wayland_requested && wayland_display && x_display),
{
    !native_wayland_requested && wayland_display && x_display
}

/// Whether `XDG_SESSION_TYPE` names a Wayland session, without regard to
/// ASCII case.
pub fn is_wayland_session(session_type: &str) -> (r: bool)
    ensures
        r == (lower_seq(session_type@) == seq!['w', 'a', 'y', 'l', 'a', 'n', 'd']),
{
    let name = lowercase_chars(&chars_of(session_type));
    let wayland = chars_of("wayland");
    proof {
        reveal_strlit("wayland");
        assert(wayland@ =~= seq!['w', 'a', 'y', 'l', 'a', 'n', 'd']);
    }
    chars_equal(&name, &wayland)
}

/// How voice sessions are started: once at launch, by a grabbed X11 key, or
/// through the desktop's shortcut service; the X11 overlay window, when
/// there is one, is shown and hidden around each session.
#[derive(Clone, Copy, Debug, PartialEq, Eq, Structural)]
pub enum LinuxSessionMode {
    OneShot,
    X11(u32),
    Portal(Option<u32>),
}

impl LinuxSessionMode {
    /// The X11 overlay window to map and unmap, if any.
    pub fn x11_window(self) -> (r: Option<u32>)
        ensures
            r == (match self {
                LinuxSessionMode::X11(w) => Some(w),
                LinuxSessionMode::Portal(w) => w,
                LinuxSessionMode::OneShot => None,
            }),
    {
        match self {
            LinuxSessionMode::X11(window) => Some(window),
            LinuxSessionMode::Portal(window) => window,
            LinuxSessionMode::OneShot => None,
        }
    }
}

/// When no shortcut route works: the tray, else the legacy one-shot session
/// where that is allowed, else exiting without opening the microphone.
#[derive(Clone, Copy, Debug, PartialEq, Eq, Structural)]
pub enum ShortcutFallback {
    Tray,
    OneShotSession,
    Exit,
}

pub fn shortcut_fallback(tray_started: bool, allow_legacy_one_shot: bool) -> (r: ShortcutFallback)
    ensures
        r == (if tray_started {
            ShortcutFallback::Tray
        } else if allow_legacy_one_shot {
            ShortcutFallback::OneShotSession
        } else {
            ShortcutFallback::Exit
        }),
{
    if tray_started {
        ShortcutFallback::Tray
    } else if allow_legacy_one_shot {
        ShortcutFallback::OneShotSession
    } else {
        ShortcutFallback::Exit
    }
}

/// A shortcut listener failed after start-up: with a tray the client keeps
/// running; without one it shows a session in progress as optimizing, stops
/// it and exits. `None` means keep running.
pub fn listener_failure_phase(tray_available: bool, phase: OverlayPhase) -> (r: Option<OverlayPhase>)
    ensures
        tray_available ==> r is None,
        !tray_available ==> r == Some(if phase != OverlayPhase::Hidden { OverlayPhase::Optimizing } else { phase }),
{
    if tray_available {
        None
    } else if phase != OverlayPhase::Hidden {
        Some(OverlayPhase::Optimizing)
    } else {
        Some(phase)
    }
}

/// What ends with a finished session besides the overlay hiding: a one-shot
/// client exits, an X11 overlay window is unmapped.
#[derive(Clone, Copy, Debug, PartialEq, Eq, Structural)]
pub enum SessionEnd {
    Exit,
    HideWindow(u32),
    Nothing,
}

pub fn session_end(mode: LinuxSessionMode) -> (r: SessionEnd)
    ensures
        r == (match mode {
            LinuxSessionMode::OneShot => SessionEnd::Exit,
            LinuxSessionMode::X11(w) => SessionEnd::HideWindow(w),
            LinuxSessionMode::Portal(Some(w)) => SessionEnd::HideWindow(w),
            LinuxSessionMode::Portal(None) => SessionEnd::Nothing,
        }),
{
    match mode {
        LinuxSessionMode::OneShot => SessionEnd::Exit,
        LinuxSessionMode::X11(window) => SessionEnd::HideWindow(window),
        LinuxSessionMode::Portal(Some(window)) => SessionEnd::HideWindow(window),
        LinuxSessionMode::Portal(None) => SessionEnd::Nothing,
    }
}

} // verus!
