use doubao_voice::linux_paste::{
    choose_linux_clipboard_tool, choose_linux_paste_tool, LinuxClipboardTool, LinuxPasteTool,
};
use doubao_voice::linux_shortcut::{LinuxShortcut, ShortcutModifiers};
use doubao_voice::overlay::{overlay_phase_from_bridge_line, OverlayPhase};
use doubao_voice::portal::{classify_error, retry_delay, PortalFailure};
use doubao_voice::tray::{tray_labels, TrayPhase};
use std::time::Duration;

#[test]
fn parses_xdg_modifier_shortcut() {
    let shortcut = LinuxShortcut::parse("ALT+CTRL+V").unwrap();

    assert_eq!(shortcut.trigger(), "CTRL+ALT+v");
    assert_eq!(shortcut.key_name(), "v");
    assert_eq!(
        shortcut.modifiers(),
        ShortcutModifiers { control: true, alt: true, ..ShortcutModifiers::default() }
    );
}

#[test]
fn accepts_key_only_shortcut() {
    let shortcut = LinuxShortcut::parse("F8").unwrap();

    assert_eq!(shortcut.trigger(), "F8");
    assert_eq!(shortcut.key_name(), "F8");
    assert_eq!(shortcut.modifiers(), ShortcutModifiers::default());
}

#[test]
fn rejects_unknown_or_duplicate_modifiers() {
    assert!(LinuxShortcut::parse("META+v").is_err());
    assert!(LinuxShortcut::parse("CTRL+CTRL+v").is_err());
}

#[test]
fn rejects_missing_or_non_xdg_key_names() {
    assert!(LinuxShortcut::parse("").is_err());
    assert!(LinuxShortcut::parse("CTRL+").is_err());
    assert!(LinuxShortcut::parse("CTRL+Page Down").is_err());
}

#[test]
fn linux_tray_tray_labels_follow_voice_lifecycle() {
    let idle = tray_labels(TrayPhase::Idle);
    assert_eq!(idle.toggle, "开始语音输入");
    assert!(idle.can_toggle);

    let activating = tray_labels(TrayPhase::Activating);
    assert_eq!(activating.toggle, "取消语音输入");
    assert!(activating.can_toggle);

    let listening = tray_labels(TrayPhase::Listening);
    assert_eq!(listening.toggle, "结束语音输入");
    assert!(listening.can_toggle);

    let finishing = tray_labels(TrayPhase::Finishing);
    assert!(!finishing.can_toggle);
}

#[test]
fn prefers_session_native_clipboard_then_x11_fallbacks() {
    assert_eq!(
        choose_linux_clipboard_tool(true, |tool: &str| matches!(tool, "wl-copy" | "xclip")),
        Some(LinuxClipboardTool::WlCopy)
    );
    assert_eq!(
        choose_linux_clipboard_tool(false, |tool: &str| matches!(tool, "wl-copy" | "xclip")),
        Some(LinuxClipboardTool::Xclip)
    );
    assert_eq!(
        choose_linux_clipboard_tool(false, |tool: &str| tool == "xsel"),
        Some(LinuxClipboardTool::Xsel)
    );
}

#[test]
fn prefers_wayland_capable_global_input_injector() {
    assert_eq!(
        choose_linux_paste_tool(|tool: &str| matches!(tool, "ydotool" | "xdotool")),
        Some(LinuxPasteTool::Ydotool)
    );
    assert_eq!(choose_linux_paste_tool(|tool: &str| tool == "xdotool"), Some(LinuxPasteTool::Xdotool));
}

#[test]
fn main_bridge_status_distinguishes_activation_from_recording() {
    assert_eq!(overlay_phase_from_bridge_line("[bridge_phase] arming"), Some(OverlayPhase::Activating));
    assert_eq!(
        overlay_phase_from_bridge_line("[bridge_phase] voice_retry"),
        Some(OverlayPhase::Activating)
    );
    assert_eq!(overlay_phase_from_bridge_line("[bridge_phase] recording"), Some(OverlayPhase::Listening));
    assert_eq!(
        overlay_phase_from_bridge_line("[bridge_phase] optimizing"),
        Some(OverlayPhase::Optimizing)
    );
    assert_eq!(overlay_phase_from_bridge_line("[event] {'phase': 'recording'}"), None);
}

#[test]
fn portal_other_is_retried_once() {
    let error = classify_error(PortalFailure::ResponseOther, "Other");

    assert_eq!(retry_delay(&error, 0), Some(Duration::from_millis(750)));
    assert_eq!(retry_delay(&error, 1), None);
}
