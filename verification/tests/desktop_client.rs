use doubao_voice::bridge::{decode_bridge_event, pcm_playback_duration, BridgeEvent};
use doubao_voice::glass_background::{decide_dark_background, TintSettler};
use doubao_voice::glass_policy::{check_frames, Backend};
use doubao_voice::live_text::{plan_replacement, TextReplacement};
use doubao_voice::overlay::{
    overlay_phase_from_bridge_line, should_apply_voice_snapshot, should_create_transcript_window,
    transcript_geometry_above_overlay, transcript_geometry_for_frame, transcript_presentation,
    transcript_state_after_user_close, transcript_window_geometry, transcript_window_should_be_visible,
    transcript_window_state_atoms, net_wm_state_action, voice_hotkey_action, is_partial_speech_line,
    OverlayPhase, VoiceHotkeyAction, VoiceTranscript, TRANSCRIPT_WINDOW_HEIGHT, TRANSCRIPT_WINDOW_WIDTH,
};
use doubao_voice::preroll::PrerollAudio;
use doubao_voice::settings::{connection_status, parse_audio_port, ConnectionTestTracker};
use doubao_voice::tray::{tray_labels, TrayPhase};
use doubao_voice::voice_config::{auto_paste_enabled, ClientSettings, TargetOs};
use std::time::Duration;

#[test]
fn decodes_bridge_status_and_text_events() {
    assert_eq!(
        decode_bridge_event(r#"{"type":"status","phase":"recording"}"#).unwrap(),
        BridgeEvent::Phase("recording".to_string())
    );
    assert_eq!(
        decode_bridge_event(r#"{"type":"final","text":"hello"}"#).unwrap(),
        BridgeEvent::Final("hello".to_string())
    );
}

#[test]
fn ignores_unknown_events_without_rejecting_the_protocol_line() {
    assert_eq!(
        decode_bridge_event(r#"{"type":"hello","authRequired":false}"#).unwrap(),
        BridgeEvent::Other
    );
}

#[test]
fn first_look_and_luminance_hysteresis_keep_their_thresholds() {
    assert!(decide_dark_background(140, 2, 14, None));
    assert!(!decide_dark_background(160, 2, 14, None));
    assert!(!decide_dark_background(140, 2, 14, Some(false)));
    assert!(decide_dark_background(160, 2, 14, Some(true)));
    assert!(decide_dark_background(120, 2, 14, Some(false)));
    assert!(!decide_dark_background(175, 2, 14, Some(true)));
}

#[test]
fn one_probe_crossing_148_cannot_bypass_hysteresis() {
    for initial in [false, true] {
        let mut previous = initial;
        for step in 0..100 {
            let probe = if step % 2 == 0 { 147 } else { 148 };
            let mean = (6 * 130 + probe + 7 * 245) / 14;
            let dark = 6 + u32::from(probe < 148);
            previous = decide_dark_background(mean, dark, 14, Some(previous));
            assert_eq!(previous, initial);
        }
    }
}

#[test]
fn a_clear_change_in_dark_fraction_still_switches() {
    assert!(decide_dark_background(180, 9, 14, Some(false)));
    assert!(!decide_dark_background(180, 5, 14, Some(true)));
    assert!(decide_dark_background(188, 7, 14, None));
}

#[test]
fn invalid_probes_preserve_the_previous_state() {
    assert!(decide_dark_background(0, 0, 0, Some(true)));
    assert!(!decide_dark_background(0, 0, 0, Some(false)));
    assert!(!decide_dark_background(0, 0, 0, None));
}

#[test]
fn ratios_do_not_overflow_for_large_counts() {
    assert!(decide_dark_background(200, u32::MAX, u32::MAX, Some(false)));
    assert!(!decide_dark_background(200, 0, u32::MAX, Some(true)));
}

#[test]
fn tint_noise_cannot_publish_alternating_keys() {
    let mut filter = TintSettler::default();
    for i in 0..100 {
        assert_eq!(filter.observe(0x988 + i % 2, 0x888), 0x888);
    }
    filter.reset();
    assert_eq!(filter.observe(0x988, 0x888), 0x888);
    assert_eq!(filter.observe(0x988, 0x888), 0x988);
}

#[test]
fn a_new_session_cannot_inherit_the_old_pending_tint() {
    let mut filter = TintSettler::default();
    assert_eq!(filter.observe(0x988, 0x888), 0x888);
    assert_eq!(filter.observe(0x988, 0x777), 0x777);
    filter.reset();
    assert_eq!(filter.observe(0x988, 0x777), 0x777);
    assert_eq!(filter.observe(0x777, 0x777), 0x777);
    assert_eq!(filter.observe(0x988, 0x777), 0x777);
}

#[test]
fn glass_backend_parsing_is_explicit() {
    assert_eq!(Backend::parse("native").unwrap(), Backend::Native);
    assert_eq!(Backend::parse(" SOLID ").unwrap(), Backend::Solid);
    assert!(Backend::parse("custom").is_err());
}

#[test]
fn glass_fallback_never_selects_clear_transparency() {
    assert_eq!(Backend::Native.resolve(false), Backend::Solid);
    assert_eq!(Backend::Native.resolve(true), Backend::Native);
    assert_eq!(Backend::Solid.resolve(true), Backend::Solid);
}

#[test]
fn glass_rejects_invalid_pixel_buffers() {
    assert!(check_frames(&[vec![0; 3]], 1, 1).is_err());
    assert!(check_frames(&[], 0, 0).is_err());
}

#[test]
fn tray_labels_follow_voice_lifecycle() {
    let idle = tray_labels(TrayPhase::Idle);
    assert_eq!(idle.toggle, "开始语音输入");
    assert!(idle.can_toggle);

    let activating = tray_labels(TrayPhase::Activating);
    assert_eq!(activating.toggle, "取消语音输入");
    assert!(activating.can_toggle);

    let listening = tray_labels(TrayPhase::Listening);
    assert_eq!(listening.toggle, "结束语音输入");
    assert!(listening.can_toggle);

    let finishing = tray_labels(TrayPhase::Finishing);
    assert!(!finishing.can_toggle);
}

#[test]
fn tray_labels_return_to_idle_between_repeated_sessions() {
    let phases = [
        TrayPhase::Activating,
        TrayPhase::Finishing,
        TrayPhase::Idle,
        TrayPhase::Activating,
        TrayPhase::Listening,
        TrayPhase::Finishing,
        TrayPhase::Idle,
    ];
    let toggles: Vec<_> = phases.into_iter().map(|phase| tray_labels(phase).toggle).collect();

    assert_eq!(toggles[2], "开始语音输入");
    assert_eq!(toggles[3], "取消语音输入");
    assert_eq!(toggles[6], "开始语音输入");
}

#[test]
fn linux_voice_result_is_not_automatically_pasted() {
    assert!(!auto_paste_enabled(TargetOs::Linux));
}

#[test]
fn audio_spoken_during_arming_is_forwarded_when_recording_starts() {
    let mut audio = PrerollAudio::new(8);

    assert!(audio.push(vec![1, 2, 3]).is_empty());
    assert!(audio.push(vec![4, 5]).is_empty());
    assert_eq!(audio.start_recording(), vec![vec![1, 2, 3], vec![4, 5]]);
    assert_eq!(audio.push(vec![6, 7]), vec![vec![6, 7]]);
}

#[test]
fn arming_audio_keeps_only_the_configured_preroll_tail() {
    let mut audio = PrerollAudio::new(5);

    audio.push(vec![1, 2, 3]);
    audio.push(vec![4, 5, 6, 7]);

    assert_eq!(audio.start_recording(), vec![vec![3], vec![4, 5, 6, 7]]);
}

#[test]
fn pcm_playback_duration_uses_48khz_mono_s16le_rate() {
    assert_eq!(pcm_playback_duration(96_000), Duration::from_secs(1));
}

#[test]
fn growing_snapshot_only_appends_the_new_suffix() {
    assert_eq!(
        plan_replacement("你好", "你好世界").unwrap(),
        TextReplacement { erase_keypresses: 0, insert: "世界" }
    );
}

#[test]
fn revised_snapshot_replaces_only_the_changed_tail() {
    assert_eq!(
        plan_replacement("今天天气晴", "今天天气很好").unwrap(),
        TextReplacement { erase_keypresses: 1, insert: "很好" }
    );
}

#[test]
fn joined_emoji_revision_is_rejected_before_input() {
    assert!(plan_replacement("家庭👨‍👩‍👧", "家庭🙂").is_err());
}

#[test]
fn combining_sequence_revision_is_rejected_before_input() {
    assert!(plan_replacement("cafe\u{301}", "cafe").is_err());
}

#[test]
fn shorter_snapshot_erases_the_obsolete_suffix() {
    assert_eq!(
        plan_replacement("hello world", "hello").unwrap(),
        TextReplacement { erase_keypresses: 6, insert: "" }
    );
}

#[test]
fn fresh_settings_use_consumer_defaults() {
    let settings = ClientSettings::default();

    assert_eq!(settings.audio_port, 5004);
    assert_eq!(settings.voice_shortcut, "F13");
    assert!(settings.start_with_windows);
    assert!(!settings.setup_completed);
}

#[test]
fn audio_port_zero_is_rejected() {
    assert_eq!(parse_audio_port("0"), Err("音频端口必须是 1–65535"));
    assert_eq!(parse_audio_port("1"), Ok(1));
    assert_eq!(parse_audio_port("65535"), Ok(65_535));
}

#[test]
fn connection_result_is_formatted_after_the_worker_finishes() {
    assert_eq!(connection_status("bridge.local:5003", Ok(())), "连接成功：bridge.local:5003");
    assert_eq!(
        connection_status("bridge.local:5003", Err("timed out".to_string())),
        "连接失败：timed out"
    );
}

#[test]
fn only_the_latest_connection_test_can_publish_its_result() {
    let mut tests = ConnectionTestTracker::default();

    let first = tests.begin();
    let second = tests.begin();
    assert!(!tests.is_current(first));
    assert!(tests.is_current(second));

    tests.invalidate();
    assert!(!tests.is_current(second));
}

#[test]
fn a_first_look_uses_one_threshold() {
    assert!(doubao_voice::ring_sampling::decide_dark_background(140, 2, 14, None));
    assert!(!doubao_voice::ring_sampling::decide_dark_background(160, 2, 14, None));
}

#[test]
fn hysteresis_holds_the_palette_through_a_borderline_background() {
    assert!(!doubao_voice::ring_sampling::decide_dark_background(140, 2, 14, Some(false)));
    assert!(doubao_voice::ring_sampling::decide_dark_background(160, 2, 14, Some(true)));
}

#[test]
fn a_clearly_changed_background_still_switches_the_palette() {
    assert!(doubao_voice::ring_sampling::decide_dark_background(120, 2, 14, Some(false)));
    assert!(!doubao_voice::ring_sampling::decide_dark_background(175, 2, 14, Some(true)));
}

#[test]
fn a_mostly_dark_ring_wins_over_a_bright_average() {
    assert!(doubao_voice::ring_sampling::decide_dark_background(200, 7, 14, Some(false)));
}

#[test]
fn losing_every_probe_keeps_the_current_palette() {
    assert!(doubao_voice::ring_sampling::decide_dark_background(0, 0, 0, Some(true)));
    assert!(!doubao_voice::ring_sampling::decide_dark_background(0, 0, 0, Some(false)));
    assert!(!doubao_voice::ring_sampling::decide_dark_background(0, 0, 0, None));
}

#[test]
fn transcript_tracks_partial_committed_and_final_text() {
    let mut transcript = VoiceTranscript::default();
    transcript.committed("上一段".to_string());
    transcript.begin_session();
    assert_eq!(transcript.visible_text(), "");

    transcript.partial("正在识别".to_string());
    assert_eq!(transcript.visible_text(), "正在识别");

    transcript.committed("已经识别".to_string());
    assert_eq!(transcript.visible_text(), "已经识别");

    transcript.final_text("最终文本".to_string());
    assert_eq!(transcript.visible_text(), "最终文本");
}

#[test]
fn transcript_presentation_explains_empty_and_live_states() {
    assert_eq!(
        transcript_presentation(OverlayPhase::Listening, ""),
        ("正在聆听", "识别到的文字会显示在这里")
    );
    assert_eq!(transcript_presentation(OverlayPhase::Listening, "你好"), ("实时转写", "你好"));
    assert_eq!(
        transcript_presentation(OverlayPhase::Optimizing, "你好世界"),
        ("识别结果", "你好世界")
    );
}

#[test]
fn transcript_window_has_a_fixed_size() {
    assert_eq!((TRANSCRIPT_WINDOW_WIDTH, TRANSCRIPT_WINDOW_HEIGHT), (560, 240));
}

#[test]
fn transcript_window_stays_visible_after_a_result() {
    assert!(!transcript_window_should_be_visible(OverlayPhase::Hidden, false));
    assert!(transcript_window_should_be_visible(OverlayPhase::Hidden, true));
    assert!(transcript_window_should_be_visible(OverlayPhase::Activating, false));
    assert!(transcript_window_should_be_visible(OverlayPhase::Listening, false));
    assert!(transcript_window_should_be_visible(OverlayPhase::Optimizing, false));
}

#[test]
fn closing_transcript_allows_the_next_activation_to_recreate_it() {
    assert_eq!(transcript_state_after_user_close(true, true), (false, false));
    assert!(should_create_transcript_window(true, false));
}

#[test]
fn transcript_window_is_kept_above_the_active_application() {
    assert_eq!(transcript_window_state_atoms(), ["_NET_WM_STATE_ABOVE"]);
}

#[test]
fn transcript_editor_sync_preserves_manual_edits_until_voice_text_changes() {
    assert!(!should_apply_voice_snapshot("语音原文", "语音原文"));
    assert!(should_apply_voice_snapshot("语音原文", "新的识别"));
}

#[test]
fn hidden_transcript_geometry_is_offscreen_without_unmapping() {
    let saved = (680, 420, 560, 240);
    assert_eq!(transcript_window_geometry(false, saved), (-100, -100, 1, 1));
    assert_eq!(transcript_window_geometry(true, saved), saved);
}

#[test]
fn visible_transcript_requests_ewmh_state_add() {
    assert_eq!(net_wm_state_action(true), 1);
    assert_eq!(net_wm_state_action(false), 0);
}

#[test]
fn transcript_window_is_created_lazily_on_first_activation() {
    assert!(!should_create_transcript_window(false, false));
    assert!(should_create_transcript_window(true, false));
    assert!(!should_create_transcript_window(true, true));
}

#[test]
fn transcript_window_is_centered_just_above_the_overlay() {
    assert_eq!(transcript_geometry_above_overlay((898, 1016, 128, 42)), (682, 762, 560, 240));
}

#[test]
fn transcript_position_accounts_for_window_manager_frame() {
    assert_eq!(
        transcript_geometry_for_frame((682, 762, 560, 240), (0, 0, 37, 0)),
        (682, 725, 560, 240)
    );
}

#[test]
fn voice_shortcut_starts_only_from_hidden_state() {
    assert_eq!(voice_hotkey_action(OverlayPhase::Hidden), VoiceHotkeyAction::Begin);
    assert_eq!(voice_hotkey_action(OverlayPhase::Optimizing), VoiceHotkeyAction::Ignore);
}

#[test]
fn voice_shortcut_finishes_activation_or_recording() {
    assert_eq!(voice_hotkey_action(OverlayPhase::Activating), VoiceHotkeyAction::Finish);
    assert_eq!(voice_hotkey_action(OverlayPhase::Listening), VoiceHotkeyAction::Finish);
}

#[test]
fn bridge_status_distinguishes_activation_from_recording() {
    assert_eq!(overlay_phase_from_bridge_line("[bridge_phase] arming"), Some(OverlayPhase::Activating));
    assert_eq!(
        overlay_phase_from_bridge_line("[bridge_phase] voice_retry"),
        Some(OverlayPhase::Activating)
    );
    assert_eq!(overlay_phase_from_bridge_line("[bridge_phase] ui_ready"), Some(OverlayPhase::Activating));
    assert_eq!(
        overlay_phase_from_bridge_line("[bridge_phase] asr_warmup"),
        Some(OverlayPhase::Activating)
    );
    assert_eq!(overlay_phase_from_bridge_line("[bridge_phase] recording"), Some(OverlayPhase::Listening));
    assert_eq!(
        overlay_phase_from_bridge_line("[bridge_phase] optimizing"),
        Some(OverlayPhase::Optimizing)
    );
    assert_eq!(overlay_phase_from_bridge_line("[event] {'phase': 'recording'}"), None);
}

#[test]
fn voice_activity_needs_recognized_speech() {
    assert!(!doubao_voice::overlay::voice_activity_is_live(650, 1_000, 0, 1_100));
    assert!(is_partial_speech_line("[partial] 你好"));
    assert!(!is_partial_speech_line("[partial]   "));
}

#[test]
fn stale_voice_activity_is_not_live() {
    assert!(doubao_voice::overlay::voice_activity_is_live(650, 1_000, 2_000, 1_200));
    assert!(!doubao_voice::overlay::voice_activity_is_live(650, 1_000, 2_000, 1_301));
}
