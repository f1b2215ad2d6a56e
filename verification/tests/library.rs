use doubao_voice::linux_session::{
    is_wayland_session, listener_failure_phase, prefers_xwayland_overlay, session_end, shortcut_fallback, LinuxSessionMode,
    SessionEnd, ShortcutFallback,
};
use doubao_voice::x11_keymap::{hotkey_step, num_lock_variants, shortcut_keycode, HotkeyEvent, HotkeyStep};
use doubao_voice::overlay_state::{OverlayVoiceState, VoiceUiEvent, VoiceUiOutcome};
use doubao_voice::settings::{save_status, saved_settings, validate_settings_form};
use doubao_voice::voice_config::{selected_device_id, should_paste_result, start_commands, InputDeviceInfo};
use doubao_voice::bridge::{
    decode_bridge_event, encode_s16le, pcm_playback_time, starts_recording, BridgeEvent, SessionNotice,
    SessionText,
};
use doubao_voice::glass_bake::{Completion, LatestBake, RequestOutcome, WorkerStep};
use doubao_voice::glass_probe::{is_preview_executable, probe_argument, probe_mode, Mode, ProbeState, ProbeStep};
use doubao_voice::gnome_shortcuts::{
    is_gnome_desktop, is_toggle_invocation, is_toggle_message, toggle_message, with_client_keybinding,
    CUSTOM_KEYBINDING_PATH,
};
use doubao_voice::live_text::{
    fcitx_delivery, finish_error, input_acceptance, replacement_events, KeyEvent, PasteTarget, RealtimeTextOutput,
    TextReplacement,
};
use doubao_voice::overlay::OverlayPhase;
use doubao_voice::portal::{
    classify_error, desktop_entry_contents, desktop_exec_arg, retry_delay, retry_delay_millis, PortalFailure,
    PortalShortcutError,
};
use doubao_voice::preroll::PrerollAudio;
use doubao_voice::settings::parse_server;
use doubao_voice::transcript_editor::TranscriptEditor;
use doubao_voice::tray_icon::{argb_from_rgba, voice_t_tray_icon_argb, VOICE_T_TRAY_ICON_SIZE};
use doubao_voice::voice_config::{auto_paste_enabled, ClientSettings, NativeVoiceConfig, TargetOs};
use doubao_voice::voice_glass::{engine_phase, finish_request_applies, glass_requested, GlassPhase, VoiceGlass};
use doubao_voice::wide::{copy_wide, wide};
use doubao_voice::x11_keymap::{grab_masks, required_modifier_mask, X11Keymap};
use doubao_voice::linux_shortcut::ShortcutModifiers;

fn run_worker(bake: &mut LatestBake<u32, u32>, value: impl Fn(u32) -> Option<u32>) -> Option<Completion> {
    match bake.next_job() {
        WorkerStep::Bake(generation, key) => Some(bake.complete(generation, key, value(key))),
        _ => None,
    }
}

#[test]
fn coalesces_pending_work_and_discards_stale_results() {
    let mut bake: LatestBake<u32, u32> = LatestBake::new();
    bake.request(1);
    let first = match bake.next_job() {
        WorkerStep::Bake(generation, key) => (generation, key),
        _ => panic!("a job was pending"),
    };
    assert_eq!(first.1, 1);
    bake.request(2);
    bake.request(3);
    assert_eq!(bake.complete(first.0, first.1, Some(1)), Completion::Stale);
    let second = match bake.next_job() {
        WorkerStep::Bake(generation, key) => (generation, key),
        _ => panic!("a job was pending"),
    };
    assert_eq!(second.1, 3);
    assert_eq!(bake.take_ready(1), None);
    assert_eq!(bake.take_ready(3), None);
    assert_eq!(bake.complete(second.0, second.1, Some(3)), Completion::Installed);
    assert_eq!(bake.take_ready(3), Some(3));
}

#[test]
fn an_aba_key_sequence_still_rejects_the_old_generation() {
    let mut bake: LatestBake<u32, u32> = LatestBake::new();
    bake.request(1);
    let first = match bake.next_job() {
        WorkerStep::Bake(generation, key) => (generation, key),
        _ => panic!("a job was pending"),
    };
    bake.request(2);
    bake.request(1);
    assert_eq!(bake.complete(first.0, first.1, Some(1)), Completion::Stale);
    assert_eq!(bake.take_ready(1), None);
    assert_eq!(run_worker(&mut bake, |_| Some(2)), Some(Completion::Installed));
    assert_eq!(bake.take_ready(1), Some(2));
}

#[test]
fn repeated_requests_do_not_rebake_an_unchanged_key() {
    let mut bake: LatestBake<u32, u32> = LatestBake::new();
    bake.request(4);
    assert_eq!(run_worker(&mut bake, Some), Some(Completion::Installed));
    assert_eq!(bake.take_ready(4), Some(4));
    for _ in 0..100 {
        assert!(matches!(bake.request(4), RequestOutcome::Unchanged));
    }
    assert!(matches!(bake.next_job(), WorkerStep::Wait));
}

#[test]
fn a_failed_bake_does_not_poison_the_next_request() {
    let mut bake: LatestBake<u32, u32> = LatestBake::new();
    bake.request(1);
    assert_eq!(run_worker(&mut bake, |_| None), Some(Completion::Failed));
    bake.request(2);
    assert_eq!(run_worker(&mut bake, Some), Some(Completion::Installed));
    assert_eq!(bake.take_ready(2), Some(2));
}

#[test]
fn a_new_request_hands_back_the_superseded_value() {
    let mut bake: LatestBake<u32, u32> = LatestBake::new();
    bake.request(5);
    assert_eq!(run_worker(&mut bake, |key| Some(key * 10)), Some(Completion::Installed));
    assert!(matches!(bake.request(6), RequestOutcome::Queued(Some(50))));
    assert_eq!(bake.shut_down(), None);
    assert!(matches!(bake.next_job(), WorkerStep::Stop));
}

#[test]
fn recognizes_only_the_internal_toggle_invocation() {
    let toggle = vec!["DoubaoVoiceClient".to_string(), "--toggle-running".to_string()];
    let normal = vec!["DoubaoVoiceClient".to_string()];

    assert!(is_toggle_invocation(&toggle));
    assert!(!is_toggle_invocation(&normal));
    let extra = vec!["DoubaoVoiceClient".to_string(), "--toggle-running".to_string(), "x".to_string()];
    assert!(!is_toggle_invocation(&extra));
}

#[test]
fn gnome_is_recognized_among_desktop_names() {
    assert!(is_gnome_desktop("ubuntu:GNOME"));
    assert!(is_gnome_desktop("gnome"));
    assert!(!is_gnome_desktop("KDE"));
    assert!(!is_gnome_desktop("gnome-flashback-x"));
    assert!(!is_gnome_desktop(""));
}

#[test]
fn toggle_datagram_is_the_ascii_word() {
    assert_eq!(toggle_message(), b"toggle".to_vec());
    assert!(is_toggle_message(b"toggle"));
    assert!(!is_toggle_message(b"toggl"));
    assert!(!is_toggle_message(b"toggle!"));
}

#[test]
fn client_keybinding_is_registered_once() {
    let existing = vec!["/custom0/".to_string()];
    let updated = with_client_keybinding(&existing).unwrap();
    assert_eq!(updated, vec!["/custom0/".to_string(), CUSTOM_KEYBINDING_PATH.to_string()]);
    assert_eq!(with_client_keybinding(&updated), None);
}

#[test]
fn portal_failures_are_classified_and_described() {
    assert_eq!(classify_error(PortalFailure::ResponseCancelled, "x"), PortalShortcutError::Cancelled);
    assert_eq!(classify_error(PortalFailure::PortalCancelled, "x"), PortalShortcutError::Cancelled);
    assert_eq!(
        classify_error(PortalFailure::PortalNotFound, "no portal"),
        PortalShortcutError::Unavailable("no portal".to_string())
    );
    assert_eq!(
        classify_error(PortalFailure::Other, "boom"),
        PortalShortcutError::Failed("boom".to_string())
    );
    assert_eq!(PortalShortcutError::Cancelled.message(), "global shortcut authorization was cancelled");
    assert_eq!(
        PortalShortcutError::Unavailable("no portal".to_string()).message(),
        "global shortcuts portal unavailable: no portal"
    );
    assert_eq!(
        PortalShortcutError::Transient("busy".to_string()).message(),
        "global shortcuts portal failed: busy"
    );
}

#[test]
fn only_transient_portal_failures_are_retried() {
    assert_eq!(retry_delay_millis(&PortalShortcutError::Transient("x".to_string()), 0), Some(750));
    assert_eq!(retry_delay_millis(&PortalShortcutError::Failed("x".to_string()), 0), None);
    assert_eq!(retry_delay(&PortalShortcutError::Cancelled, 0), None);
}

#[test]
fn desktop_exec_argument_is_quoted_and_escaped() {
    assert_eq!(desktop_exec_arg("/usr/bin/client"), "\"/usr/bin/client\"");
    assert_eq!(desktop_exec_arg("/opt/a \"b\"/$x`y\\z%"), "\"/opt/a \\\"b\\\"/\\$x\\`y\\\\z%%\"");
}

#[test]
fn desktop_entry_names_the_client_and_optional_icon() {
    let with_icon = desktop_entry_contents("/bin/c", Some("/icons/c.png"));
    assert_eq!(
        with_icon,
        "[Desktop Entry]\nType=Application\nVersion=1.0\nName=Doubao Voice Client\nComment=Doubao voice input overlay\nExec=\"/bin/c\"\nIcon=/icons/c.png\nTerminal=false\nNoDisplay=true\nCategories=Utility;\nStartupNotify=false\n"
    );
    let without = desktop_entry_contents("/bin/c", None);
    assert!(!without.contains("Icon="));
    assert!(without.contains("Exec=\"/bin/c\"\nTerminal=false"));
}

#[test]
fn wide_strings_are_nul_terminated_utf16() {
    assert_eq!(wide("A"), vec![65, 0]);
    assert_eq!(wide("语"), vec![0x8BED, 0]);
    assert_eq!(wide("😀"), vec![0xD83D, 0xDE00, 0]);
    assert_eq!(wide(""), vec![0]);
}

#[test]
fn copy_wide_stops_at_the_shorter_buffer() {
    let mut short = [9u16; 3];
    copy_wide(&mut short, "hello");
    assert_eq!(short, [104, 101, 108]);
    let mut long = [9u16; 5];
    copy_wide(&mut long, "hi");
    assert_eq!(long, [104, 105, 0, 9, 9]);
}

fn encode_png(width: u32, height: u32, rgba: &[u8]) -> Vec<u8> {
    let mut bytes = Vec::new();
    {
        let mut encoder = png::Encoder::new(&mut bytes, width, height);
        encoder.set_color(png::ColorType::Rgba);
        encoder.set_depth(png::BitDepth::Eight);
        let mut writer = encoder.write_header().unwrap();
        writer.write_image_data(rgba).unwrap();
    }
    bytes
}

#[test]
fn tray_template_decodes_to_core_blue_argb() {
    let size = VOICE_T_TRAY_ICON_SIZE as usize;
    let mut rgba = vec![0u8; size * size * 4];
    for pixel in 0..size * size {
        rgba[pixel * 4] = 1;
        rgba[pixel * 4 + 3] = if pixel % 3 == 0 { 255 } else { 0 };
    }
    let pixels = voice_t_tray_icon_argb(&encode_png(24, 24, &rgba)).unwrap();

    assert_eq!(pixels.len(), size * size * 4);
    assert_eq!(&pixels[..4], &[255, 24, 121, 255]);
    assert_eq!(&pixels[4..8], &[0, 24, 121, 255]);
    assert!(pixels.chunks_exact(4).any(|pixel| pixel[0] == 0));
}

#[test]
fn tray_template_of_the_wrong_size_or_format_is_refused() {
    assert_eq!(voice_t_tray_icon_argb(&encode_png(16, 16, &vec![255u8; 16 * 16 * 4])), None);
    assert_eq!(voice_t_tray_icon_argb(b"not a png"), None);
}

#[test]
fn argb_keeps_alpha_and_drops_a_partial_pixel() {
    assert_eq!(argb_from_rgba(&[1, 2, 3, 200, 9, 9]), vec![200, 24, 121, 255]);
}

#[test]
fn voice_configuration_prefers_overrides() {
    let config = NativeVoiceConfig::from_sources(
        ClientSettings::default(),
        Some("mac.local:4387".to_string()),
        Some("6000".to_string()),
        Some("secret".to_string()),
        None,
    )
    .unwrap();
    assert_eq!(config.server, "mac.local:4387");
    assert_eq!(config.audio_port, 6000);
    assert_eq!(config.token.as_deref(), Some("secret"));
    assert_eq!(config.input_device, None);
    assert_eq!(config.paste_target().input_target_handle(), 0);

    let stored = NativeVoiceConfig::from_sources(ClientSettings::default(), None, None, None, None).unwrap();
    assert_eq!(stored.server, "100.116.241.81:4387");
    assert_eq!(stored.audio_port, 5004);
    let targeted = stored.with_paste_target(PasteTarget::new(7, 9));
    assert_eq!(targeted.paste_target().clipboard_owner_handle(), 7);
    assert_eq!(targeted.audio_port, 5004);
}

#[test]
fn voice_configuration_reports_invalid_overrides() {
    let bad_server =
        NativeVoiceConfig::from_sources(ClientSettings::default(), Some("nohost".to_string()), None, None, None);
    assert_eq!(bad_server.err().unwrap(), "invalid DOUBAO_BRIDGE_SERVER: nohost");
    let bad_port = NativeVoiceConfig::from_sources(ClientSettings::default(), None, Some("70000".to_string()), None, None);
    assert_eq!(bad_port.err().unwrap(), "invalid DOUBAO_BRIDGE_AUDIO_PORT: 70000");
    assert!(auto_paste_enabled(TargetOs::Windows));
    assert!(!auto_paste_enabled(TargetOs::Other));
}

#[test]
fn server_address_splits_at_the_last_colon() {
    assert_eq!(parse_server("[::1]:4387").unwrap(), ("::1".to_string(), 4387));
    assert!(parse_server(":4387").is_err());
    assert!(parse_server("host:").is_err());
}

#[test]
fn glass_probe_modes_and_arguments() {
    assert_eq!(probe_mode("brush"), Ok(Mode::Brush));
    assert_eq!(probe_mode("visual"), Ok(Mode::Visual));
    assert_eq!(probe_mode("Brush"), Err("--glass-probe must be brush or visual"));
    assert_eq!(probe_argument("--glass-probe=visual"), Some("visual".chars().collect()));
    assert_eq!(probe_argument("--other"), None);
    assert!(is_preview_executable("glasspreview.EXE"));
    assert!(!is_preview_executable("DoubaoVoiceClient.exe"));
}

#[test]
fn glass_probe_runs_at_most_once() {
    let mut probe = ProbeState::new(Mode::Visual);
    assert!(probe.armed());
    assert_eq!(probe.poll(258), ProbeStep::Idle);
    assert!(probe.armed());
    assert_eq!(probe.poll(0), ProbeStep::Apply(Mode::Visual));
    assert!(!probe.armed());
    assert_eq!(probe.poll(0), ProbeStep::Idle);

    let mut failing = ProbeState::new(Mode::Brush);
    assert_eq!(failing.poll(0xFFFF_FFFF), ProbeStep::Fail);
    assert_eq!(failing.poll(0), ProbeStep::Idle);
}

#[test]
fn liquid_glass_switch_and_phases() {
    assert!(!glass_requested(true, true, true));
    assert!(glass_requested(true, false, false));
    assert!(glass_requested(false, false, true));
    assert!(!glass_requested(false, false, false));

    let mut glass = VoiceGlass::new(false);
    assert!(!glass.enabled());
    assert!(glass.configure(true).starts_with("user enabled liquid glass"));
    assert!(glass.enabled());
    assert!(glass.configure(false).starts_with("user disabled liquid glass"));

    assert_eq!(engine_phase(OverlayPhase::Hidden), (GlassPhase::Hidden, false));
    assert_eq!(engine_phase(OverlayPhase::Listening), (GlassPhase::Listening, true));
    assert!(finish_request_applies(3, 3, OverlayPhase::Listening));
    assert!(!finish_request_applies(2, 3, OverlayPhase::Listening));
    assert!(!finish_request_applies(3, 3, OverlayPhase::Optimizing));
}

#[test]
fn keymap_finds_keycodes_by_base_and_any_level() {
    let keymap = X11Keymap::new(8, 2, vec![0x61, 0x41, 0x62, 0x42]).unwrap();
    assert_eq!(keymap.keycode_for_primary_group_base_keysym(0x62), Some(9));
    assert_eq!(keymap.keycode_for_primary_group_base_keysym(0x42), None);
    assert_eq!(keymap.keycode_for_keysym_at_any_level(0x42), Some(9));
    assert!(keymap.keycode_contains_any(8, &[0x41]));
    assert!(X11Keymap::new(8, 0, vec![]).is_err());
}

#[test]
fn shortcut_modifiers_map_to_grab_masks() {
    let control_alt = ShortcutModifiers { control: true, alt: true, ..ShortcutModifiers::default() };
    assert_eq!(required_modifier_mask(control_alt, Some(8), Some(16), Some(64)), Ok(12));
    assert_eq!(
        required_modifier_mask(control_alt, None, Some(16), Some(64)),
        Err("the active X11 keymap does not define an Alt modifier".to_string())
    );
    assert_eq!(grab_masks(4, None), vec![4, 6]);
    assert_eq!(grab_masks(4, Some(16)), vec![4, 6, 20, 22]);
    assert_eq!(grab_masks(6, Some(16)), vec![6, 22]);
}

#[test]
fn session_text_prefers_the_final_result() {
    let mut session = SessionText::new();
    assert_eq!(
        session.handle(Ok(BridgeEvent::Text("第一句".to_string()))),
        Ok(Some(SessionNotice::Committed("第一句".to_string())))
    );
    assert_eq!(session.result_text(), "第一句");
    session.handle(Ok(BridgeEvent::Final("最终".to_string()))).unwrap();
    assert!(session.has_final());
    assert_eq!(session.result_text(), "最终");
    assert_eq!(session.handle(Ok(BridgeEvent::Other)), Ok(None));
    assert_eq!(
        session.handle(Ok(BridgeEvent::Error { phase: Some("asr".to_string()), message: "down".to_string() })),
        Err("asr: down".to_string())
    );
}

#[test]
fn bridge_errors_and_recording_start() {
    assert!(decode_bridge_event("not json").is_err());
    assert_eq!(
        decode_bridge_event(r#"{"type":"error"}"#).unwrap(),
        BridgeEvent::Error { phase: None, message: "Unknown bridge error".to_string() }
    );
    assert_eq!(decode_bridge_event(r#"{"type":"partial"}"#).unwrap(), BridgeEvent::Partial(String::new()));
    assert!(starts_recording(&Ok(BridgeEvent::Phase("recording".to_string()))));
    assert!(!starts_recording(&Ok(BridgeEvent::Phase("arming".to_string()))));
    assert!(!starts_recording(&Err("closed".to_string())));
}

#[test]
fn pcm_is_little_endian_and_timed_at_48khz() {
    assert_eq!(encode_s16le(&[0, 16_384, -1]), vec![0, 0, 0, 64, 255, 255]);
    assert_eq!(pcm_playback_time(96_000), (1, 0));
    assert_eq!(pcm_playback_time(48_000), (0, 500_000_000));
    assert_eq!(pcm_playback_time(1), (0, 10_417));
}

#[test]
fn preroll_keeps_the_newest_tail_only() {
    let mut audio = PrerollAudio::new(4);
    audio.push(vec![1, 2, 3]);
    audio.push(vec![4, 5, 6]);
    audio.push(vec![7]);
    assert_eq!(audio.start_recording(), vec![vec![4, 5, 6], vec![7]]);
    assert!(audio.start_recording().is_empty());
}

#[test]
fn live_text_updates_type_only_the_difference() {
    let mut output = RealtimeTextOutput::new(PasteTarget::new(1, 42));
    let mut sent: Vec<Vec<KeyEvent>> = Vec::new();
    let result = output.update("你好", 42, false, |events: Vec<KeyEvent>| {
        let n = events.len() as u32;
        sent.push(events);
        n
    });
    assert_eq!(result, Ok(()));
    let result = output.update("你好世", 42, false, |events: Vec<KeyEvent>| {
        let n = events.len() as u32;
        sent.push(events);
        n
    });
    assert_eq!(result, Ok(()));
    let result = output.update("你好吗", 42, false, |events: Vec<KeyEvent>| {
        let n = events.len() as u32;
        sent.push(events);
        n
    });
    assert_eq!(result, Ok(()));
    assert_eq!(
        sent,
        vec![
            vec![
                KeyEvent::UnicodeDown(0x4F60),
                KeyEvent::UnicodeUp(0x4F60),
                KeyEvent::UnicodeDown(0x597D),
                KeyEvent::UnicodeUp(0x597D),
            ],
            vec![KeyEvent::UnicodeDown(0x4E16), KeyEvent::UnicodeUp(0x4E16)],
            vec![
                KeyEvent::BackspaceDown,
                KeyEvent::BackspaceUp,
                KeyEvent::UnicodeDown(0x5417),
                KeyEvent::UnicodeUp(0x5417),
            ],
        ]
    );
    assert_eq!(output.update("你好吗", 42, false, |_: Vec<KeyEvent>| 0), Ok(()));
    assert_eq!(
        output.update("你好", 7, false, |_: Vec<KeyEvent>| 0),
        Err("the application receiving voice input lost focus; live text was paused".to_string())
    );
    assert_eq!(
        output.update("你好", 42, true, |_: Vec<KeyEvent>| 0),
        Err("a keyboard modifier is held; live text was paused".to_string())
    );
}

#[test]
fn replacement_events_erase_then_type_utf16_units() {
    assert_eq!(
        replacement_events(TextReplacement { erase_keypresses: 1, insert: "😀" }),
        vec![
            KeyEvent::BackspaceDown,
            KeyEvent::BackspaceUp,
            KeyEvent::UnicodeDown(0xD83D),
            KeyEvent::UnicodeUp(0xD83D),
            KeyEvent::UnicodeDown(0xDE00),
            KeyEvent::UnicodeUp(0xDE00),
        ]
    );
    assert_eq!(input_acceptance(6, 6), Ok(()));
    assert_eq!(input_acceptance(2, 6), Err("Windows accepted only 2 of 6 live text input events".to_string()));
}

#[test]
fn a_partly_accepted_update_stops_live_text_and_finish_reports_it() {
    let mut output = RealtimeTextOutput::new(PasteTarget::new(1, 42));
    assert_eq!(
        output.update("abc", 42, false, |_: Vec<KeyEvent>| 1),
        Err("Windows accepted only 1 of 6 live text input events".to_string())
    );
    let mut called = false;
    assert_eq!(
        output.update("abcd", 42, false, |_: Vec<KeyEvent>| {
            called = true;
            8
        }),
        Err("live text stopped after Windows accepted only part of an earlier update".to_string())
    );
    assert!(!called);
    let mut copied = String::new();
    let finished = output.finish("abcd", 42, false, |_: Vec<KeyEvent>| 8, |text: String| {
        copied = text;
        Ok(())
    });
    assert_eq!(
        finished,
        Err("live text stopped after Windows accepted only part of an earlier update; the final text is on the clipboard"
            .to_string())
    );
    assert_eq!(copied, "abcd");
    assert_eq!(
        finish_error("no foreground application was available for live text", Err("busy".to_string())),
        "no foreground application was available for live text; could not copy the final text either: busy"
    );
    let mut unfocused = RealtimeTextOutput::new(PasteTarget::new(1, 0));
    let error = unfocused
        .finish("x", 0, false, |_: Vec<KeyEvent>| 2, |_: String| Err("busy".to_string()))
        .unwrap_err();
    assert_eq!(error, "no foreground application was available for live text; could not copy the final text either: busy");
    let mut focused = RealtimeTextOutput::new(PasteTarget::new(1, 5));
    let mut touched = false;
    assert_eq!(
        focused.finish("ok", 5, false, |events: Vec<KeyEvent>| events.len() as u32, |_: String| {
            touched = true;
            Ok(())
        }),
        Ok(())
    );
    assert!(!touched);
}

#[test]
fn fcitx_commit_outcomes_are_reported() {
    assert_eq!(fcitx_delivery(Ok(true)), Ok(()));
    assert_eq!(
        fcitx_delivery(Ok(false)),
        Err("no application held the input focus, so the recognized text was not delivered".to_string())
    );
    assert!(fcitx_delivery(Err("no bus".to_string())).unwrap_err().ends_with("restart fcitx5 (no bus)"));
}

#[test]
fn transcript_input_replaces_the_selected_utf8_text() {
    let mut input = TranscriptEditor::new("你好 world");
    input.move_to(7);
    input.select_to(12);
    input.replace_range(input.selected_range(), "世界");

    assert_eq!(input.content(), "你好 世界");
    assert_eq!(input.selected_range(), (13, 13));
}

#[test]
fn transcript_input_moves_across_whole_graphemes() {
    let input = TranscriptEditor::new("a👨‍👩‍👧b");
    let family_end = "a👨‍👩‍👧".len();

    assert_eq!(input.next_boundary(1), family_end);
    assert_eq!(input.previous_boundary(family_end), 1);
}

#[test]
fn voice_text_replaces_content_and_moves_the_cursor_to_the_end() {
    let mut input = TranscriptEditor::new("manual edit");
    input.set_voice_text("语音结果");

    assert_eq!(input.content(), "语音结果");
    assert_eq!(input.selected_range(), ("语音结果".len(), "语音结果".len()));
}

#[test]
fn editing_keys_move_by_clusters_and_delete_selections() {
    let mut input = TranscriptEditor::new("ab语");
    input.left();
    assert_eq!(input.selected_range(), (2, 2));
    input.select_left();
    assert_eq!(input.selected_range(), (1, 2));
    assert!(input.selection_reversed());
    input.select_right();
    input.select_right();
    assert_eq!(input.selected_range(), (2, 5));
    assert!(!input.selection_reversed());
    input.backspace();
    assert_eq!(input.content(), "ab");
    assert_eq!(input.selected_range(), (2, 2));
    input.home();
    input.delete();
    assert_eq!(input.content(), "b");
    input.select_all();
    assert_eq!(input.selected_range(), (0, 1));
    input.end();
    input.backspace();
    assert_eq!(input.content(), "");
    input.backspace();
    assert_eq!(input.content(), "");
}

#[test]
fn input_method_ranges_are_utf16() {
    let mut input = TranscriptEditor::new("a😀b");
    assert_eq!(input.offset_to_utf16(5), 3);
    assert_eq!(input.offset_from_utf16(3), 5);
    assert_eq!(input.offset_from_utf16(2), 5);
    assert_eq!(input.text_for_range((1, 3)), ("😀".to_string(), (1, 3)));
    assert_eq!(input.selected_text_range(), ((4, 4), false));

    input.replace_and_mark_text_in_range(Some((4, 4)), "ni", None);
    assert_eq!(input.content(), "a😀bni");
    assert_eq!(input.marked_range(), Some((6, 8)));
    assert_eq!(input.marked_text_range(), Some((4, 6)));
    input.replace_text_in_range(None, "你");
    assert_eq!(input.content(), "a😀b你");
    assert_eq!(input.marked_range(), None);
    assert_eq!(input.selected_range(), (9, 9));
    input.unmark_text();
    assert!(input.follows_voice());
    input.scrolled();
    assert!(!input.follows_voice());
}

#[test]
fn copy_cut_and_paste_edit_the_selection() {
    let mut input = TranscriptEditor::new("hello world");
    assert_eq!(input.selected_text(), None);
    assert_eq!(input.cut(), None);
    input.move_to(0);
    input.select_to(5);
    assert_eq!(input.selected_text(), Some("hello".to_string()));
    assert_eq!(input.cut(), Some("hello".to_string()));
    assert_eq!(input.content(), " world");
    assert_eq!(input.selected_range(), (0, 0));
    input.paste("a\nb");
    assert_eq!(input.content(), "a b world");
    assert_eq!(input.selected_range(), (3, 3));
}

#[test]
fn overlay_state_follows_session_events() {
    let mut state = OverlayVoiceState::new(true);
    state.set_level(650, 1_000);
    assert_eq!(state.apply_event(VoiceUiEvent::Phase("arming".to_string()), 1_000), VoiceUiOutcome::Continue);
    assert_eq!(state.phase(), OverlayPhase::Activating);
    assert_eq!(state.activity().level, 650);
    state.apply_event(VoiceUiEvent::Phase("recording".to_string()), 1_010);
    assert_eq!(state.phase(), OverlayPhase::Listening);
    assert_eq!(state.activity().level, 0);
    state.set_level(650, 1_020);
    assert_eq!(state.activity_level(1_030), 0);
    state.apply_event(VoiceUiEvent::Partial("你好".to_string()), 1_040);
    assert_eq!(state.activity().speech_until, 1_540);
    assert_eq!(state.activity_level(1_100), 650);
    assert_eq!(state.activity_level(1_400), 0);
    assert_eq!(state.visible_text(), "你好");
    state.apply_event(VoiceUiEvent::Final("你好世界".to_string()), 1_200);
    assert_eq!(state.visible_text(), "你好世界");
    assert_eq!(
        state.apply_event(VoiceUiEvent::Error("boom".to_string()), 1_300),
        VoiceUiOutcome::Error("boom".to_string())
    );
    assert_eq!(state.apply_event(VoiceUiEvent::Finished, 1_400), VoiceUiOutcome::Finished);
    assert_eq!(state.activity().speech_until, 0);

    let mut windows = OverlayVoiceState::new(false);
    windows.apply_event(VoiceUiEvent::Committed("x".to_string()), 5);
    assert_eq!(windows.visible_text(), "");
    assert!(doubao_voice::overlay::optimizing_timeout_hides(4, 4, OverlayPhase::Optimizing));
    assert!(!doubao_voice::overlay::optimizing_timeout_hides(4, 5, OverlayPhase::Optimizing));
    assert!(!doubao_voice::overlay::optimizing_timeout_hides(4, 4, OverlayPhase::Hidden));
}

#[test]
fn settings_form_is_validated_in_order() {
    assert_eq!(validate_settings_form("  ", "5004", "F8"), Err("服务器地址不能为空".to_string()));
    assert_eq!(validate_settings_form("host:1", "0", "F8"), Err("音频端口必须是 1–65535".to_string()));
    assert_eq!(
        validate_settings_form("host:1", "5004", "CTRL+Page Down"),
        Err("快捷键格式无效，例如 CTRL+ALT+v".to_string())
    );
    let (server, port, shortcut) = validate_settings_form(" host:1 ", " 5004 ", " CTRL+v ").unwrap();
    assert_eq!((server.as_str(), port, shortcut.as_str()), ("host:1", 5004, "CTRL+v"));
    let saved = saved_settings(ClientSettings::default(), server, port, shortcut);
    assert!(saved.setup_completed);
    assert_eq!(saved.voice_shortcut, "CTRL+v");
    assert_eq!(save_status(Ok(())), "已保存。新的快捷键将在重启客户端后生效。");
    assert_eq!(save_status(Err("disk full".to_string())), "保存失败：disk full");
}

#[test]
fn session_commands_paste_and_device_choice() {
    assert_eq!(start_commands(Some("abc")), vec!["token abc".to_string(), "start".to_string()]);
    assert_eq!(start_commands(None), vec!["start".to_string()]);
    assert!(should_paste_result(TargetOs::Windows, "x"));
    assert!(!should_paste_result(TargetOs::Windows, ""));
    assert!(!should_paste_result(TargetOs::Linux, "x"));
    let devices = vec![
        InputDeviceInfo { id: "mic-1".to_string(), name: "USB".to_string() },
        InputDeviceInfo { id: "mic-2".to_string(), name: "Built-in".to_string() },
    ];
    assert_eq!(selected_device_id(&devices, 0), None);
    assert_eq!(selected_device_id(&devices, 2), Some("mic-2".to_string()));
    assert_eq!(selected_device_id(&devices, 3), None);
}

#[test]
fn shortcut_key_lookup_explains_missing_keys() {
    let keymap = X11Keymap::new(8, 2, vec![0x61, 0x41, 0x62, 0x42]).unwrap();
    assert_eq!(shortcut_keycode(&keymap, 0x61, "a"), Ok(8));
    assert_eq!(
        shortcut_keycode(&keymap, 0x41, "A"),
        Err("A is not on the primary X11 keymap group's base layer; use the base key name and add SHIFT if needed".to_string())
    );
    assert_eq!(
        shortcut_keycode(&keymap, 0xff, "F9"),
        Err("the primary X11 keymap group does not contain F9".to_string())
    );
    let num = ShortcutModifiers { num: true, ..ShortcutModifiers::default() };
    assert_eq!(num_lock_variants(num, Some(16)), None);
    assert_eq!(num_lock_variants(ShortcutModifiers::default(), Some(16)), Some(16));
}

#[test]
fn held_shortcut_activates_once_until_released() {
    let mut down = false;
    assert_eq!(hotkey_step(30, &mut down, HotkeyEvent::KeyPress(30)), HotkeyStep::Activate);
    assert_eq!(hotkey_step(30, &mut down, HotkeyEvent::KeyPress(30)), HotkeyStep::Ignore);
    assert_eq!(hotkey_step(30, &mut down, HotkeyEvent::KeyRelease(31)), HotkeyStep::Ignore);
    assert!(down);
    assert_eq!(hotkey_step(30, &mut down, HotkeyEvent::KeyRelease(30)), HotkeyStep::Ignore);
    assert_eq!(hotkey_step(30, &mut down, HotkeyEvent::KeyPress(30)), HotkeyStep::Activate);
    assert_eq!(hotkey_step(30, &mut down, HotkeyEvent::MappingNotify), HotkeyStep::Stop);
}

#[test]
fn linux_session_routes_and_fallbacks() {
    assert!(prefers_xwayland_overlay(false, true, true));
    assert!(!prefers_xwayland_overlay(true, true, true));
    assert!(!prefers_xwayland_overlay(false, true, false));
    assert!(is_wayland_session("Wayland"));
    assert!(!is_wayland_session("x11"));
    assert_eq!(LinuxSessionMode::Portal(Some(7)).x11_window(), Some(7));
    assert_eq!(LinuxSessionMode::OneShot.x11_window(), None);
    assert_eq!(shortcut_fallback(true, true), ShortcutFallback::Tray);
    assert_eq!(shortcut_fallback(false, true), ShortcutFallback::OneShotSession);
    assert_eq!(shortcut_fallback(false, false), ShortcutFallback::Exit);
    assert_eq!(listener_failure_phase(true, OverlayPhase::Listening), None);
    assert_eq!(listener_failure_phase(false, OverlayPhase::Listening), Some(OverlayPhase::Optimizing));
    assert_eq!(listener_failure_phase(false, OverlayPhase::Hidden), Some(OverlayPhase::Hidden));
    assert_eq!(session_end(LinuxSessionMode::OneShot), SessionEnd::Exit);
    assert_eq!(session_end(LinuxSessionMode::X11(3)), SessionEnd::HideWindow(3));
    assert_eq!(session_end(LinuxSessionMode::Portal(None)), SessionEnd::Nothing);
}

#[test]
fn shell_server_field_reports_each_failure() {
    assert_eq!(
        doubao_voice::settings::parse_shell_server("[fd00::1]:4387"),
        Ok(("fd00::1".to_string(), 4387))
    );
    assert_eq!(
        doubao_voice::settings::parse_shell_server("mac.local"),
        Err("Enter an address like 100.64.0.1:4387".to_string())
    );
    assert_eq!(
        doubao_voice::settings::parse_shell_server("mac.local:"),
        Err("Enter an address like 100.64.0.1:4387".to_string())
    );
    assert_eq!(
        doubao_voice::settings::parse_shell_server("mac.local:port"),
        Err("The server port is invalid".to_string())
    );
}
