use doubao_voice::backdrop::{backdrop_placements, backdrop_samples, ThumbnailPlacement, WindowRect};
use doubao_voice::bridge::{bridge_event_from_members, decode_bridge_event, BridgeEvent};
use doubao_voice::glass_bake::{Completion, LatestBake, WorkerStep};
use doubao_voice::linux_shortcut::LinuxShortcut;
use doubao_voice::live_text::{common_cluster_prefix, erases_atomically, fcitx_finish, plan_replacement};
use doubao_voice::preroll::PrerollAudio;
use doubao_voice::session_flow::{FlowAction, FlowEvent, SessionFlow, SessionPhase};
use doubao_voice::transcript_editor::{text_runs, TextRunSpan};
use doubao_voice::voice_config::{microphone_selection, requested_device, selected_device_id, DeviceLabels, InputDeviceInfo};
use doubao_voice::voice_glass::VoiceGlass;

fn owned(items: &[&str]) -> Vec<String> {
    items.iter().map(|item| item.to_string()).collect()
}

#[test]
fn bridge_members_select_the_event() {
    assert_eq!(
        bridge_event_from_members(Some("status".to_string()), Some("recording".to_string()), None, None),
        BridgeEvent::Phase("recording".to_string())
    );
    assert_eq!(
        bridge_event_from_members(Some("final".to_string()), None, Some("你好".to_string()), None),
        BridgeEvent::Final("你好".to_string())
    );
    assert_eq!(
        bridge_event_from_members(Some("partial".to_string()), None, None, None),
        BridgeEvent::Partial(String::new())
    );
    assert_eq!(
        bridge_event_from_members(Some("error".to_string()), None, None, None),
        BridgeEvent::Error { phase: None, message: "Unknown bridge error".to_string() }
    );
    assert_eq!(bridge_event_from_members(None, None, Some("x".to_string()), None), BridgeEvent::Other);
    assert_eq!(bridge_event_from_members(Some("ping".to_string()), None, None, None), BridgeEvent::Other);
}

#[test]
fn decoding_reads_the_members_of_the_line() {
    assert_eq!(
        decode_bridge_event(r#"{"type":"error","phase":"asr","message":"boom"}"#).unwrap(),
        BridgeEvent::Error { phase: Some("asr".to_string()), message: "boom".to_string() }
    );
    assert_eq!(decode_bridge_event(r#"{"type":"text","text":7}"#).unwrap(), BridgeEvent::Text(String::new()));
    assert!(decode_bridge_event("not json").is_err());
}

#[test]
fn cluster_prefix_counts_characters_of_shared_clusters() {
    assert_eq!(common_cluster_prefix(&owned(&["a", "b", "c"]), &owned(&["a", "b", "x"])), 2);
    assert_eq!(common_cluster_prefix(&owned(&["e\u{301}", "b"]), &owned(&["e\u{301}", "c"])), 2);
    assert_eq!(common_cluster_prefix(&owned(&["e\u{301}"]), &owned(&["e"])), 0);
    assert_eq!(common_cluster_prefix(&owned(&[]), &owned(&["a"])), 0);
    assert_eq!(common_cluster_prefix(&owned(&["a", "b"]), &owned(&["a", "b", "c"])), 2);
}

#[test]
fn only_single_unit_clusters_erase_atomically() {
    assert!(erases_atomically(&owned(&["a", "好", "!"])));
    assert!(erases_atomically(&owned(&[])));
    assert!(!erases_atomically(&owned(&["a", "😀"])));
    assert!(!erases_atomically(&owned(&["e\u{301}"])));
}

#[test]
fn plan_uses_the_cluster_prefix() {
    let plan = plan_replacement("hello wrld", "hello world").unwrap();
    assert_eq!(plan.erase_keypresses, 3);
    assert_eq!(plan.insert, "orld");
}

#[test]
fn surrounding_white_space_does_not_change_a_shortcut() {
    let plain = LinuxShortcut::parse("CTRL+ALT+v").unwrap();
    let padded = LinuxShortcut::parse("  CTRL+ALT+v \t").unwrap();
    assert_eq!(padded, plain);
    assert_eq!(LinuxShortcut::parse(" \n").unwrap_err(), LinuxShortcut::parse("").unwrap_err());
}

#[test]
fn modifier_order_and_case_do_not_change_a_shortcut() {
    let canonical = LinuxShortcut::parse("CTRL+ALT+SHIFT+v").unwrap();
    assert_eq!(LinuxShortcut::parse("shift+ctrl+alt+v").unwrap(), canonical);
    assert_eq!(LinuxShortcut::parse("Alt+Shift+Ctrl+V").unwrap(), canonical);
    assert_eq!(canonical.trigger(), "CTRL+ALT+SHIFT+v");
}

#[test]
fn a_ready_bake_is_handed_out_once_and_only_for_the_last_request() {
    let mut bake: LatestBake<u32, u32> = LatestBake::new();
    let _ = bake.request(1);
    let step = bake.next_job();
    assert_eq!(step, WorkerStep::Bake(1, 1));
    assert_eq!(bake.complete(1, 1, Some(10)), Completion::Installed);
    assert_eq!(bake.take_ready(2), None);
    assert_eq!(bake.take_ready(1), Some(10));
    assert_eq!(bake.take_ready(1), None);
    let _ = bake.request(2);
    let _ = bake.request(1);
    assert_eq!(bake.take_ready(1), None);
    assert_eq!(bake.next_job(), WorkerStep::Bake(3, 1));
    assert_eq!(bake.complete(2, 2, Some(20)), Completion::Stale);
    assert_eq!(bake.take_ready(2), None);
    assert_eq!(bake.complete(3, 1, Some(30)), Completion::Installed);
    assert_eq!(bake.take_ready(1), Some(30));
    assert_eq!(bake.take_ready(1), None);
}

#[test]
fn preroll_keeps_the_newest_bytes_of_all_pushes() {
    let mut audio = PrerollAudio::new(5);
    assert!(audio.push(vec![1, 2, 3]).is_empty());
    assert!(audio.push(vec![4, 5]).is_empty());
    assert!(audio.push(vec![6, 7, 8]).is_empty());
    assert!(audio.push(vec![]).is_empty());
    assert!(audio.push(vec![9]).is_empty());
    let held = audio.start_recording();
    assert_eq!(held, vec![vec![5], vec![6, 7, 8], vec![], vec![9]]);
    assert_eq!(held.concat(), vec![5, 6, 7, 8, 9]);
    assert!(audio.start_recording().is_empty());
    assert_eq!(audio.push(vec![10, 11]), vec![vec![10, 11]]);
}

#[test]
fn the_last_configure_wins() {
    let mut glass = VoiceGlass::new(false);
    assert!(!glass.enabled());
    let _ = glass.configure(true);
    let _ = glass.configure(false);
    let _ = glass.configure(true);
    assert!(glass.enabled());
    assert_eq!(glass.configure(false), "user disabled liquid glass; renderer relinquishes desktop capture");
    assert!(!glass.enabled());
}

#[test]
fn a_session_sends_stop_once_then_delivers_once() {
    let mut flow = SessionFlow::new();
    assert_eq!(flow.phase(), SessionPhase::Capturing);
    assert_eq!(flow.step(FlowEvent::FinalArrived), FlowAction::Nothing);
    assert_eq!(flow.step(FlowEvent::StopRequested), FlowAction::SendStop);
    assert_eq!(flow.phase(), SessionPhase::AwaitingFinal);
    assert_eq!(flow.step(FlowEvent::StopRequested), FlowAction::Nothing);
    assert_eq!(flow.step(FlowEvent::Deadline), FlowAction::Deliver);
    assert_eq!(flow.phase(), SessionPhase::Ended);
    assert_eq!(flow.step(FlowEvent::FinalArrived), FlowAction::Nothing);
    assert_eq!(flow.step(FlowEvent::Failed), FlowAction::Nothing);
}

#[test]
fn a_failed_session_still_sends_stop_once() {
    let mut flow = SessionFlow::new();
    assert_eq!(flow.step(FlowEvent::Failed), FlowAction::SendStop);
    assert_eq!(flow.phase(), SessionPhase::Ended);
    assert_eq!(flow.step(FlowEvent::Failed), FlowAction::Nothing);
    let mut waiting = SessionFlow::new();
    assert_eq!(waiting.step(FlowEvent::StopRequested), FlowAction::SendStop);
    assert_eq!(waiting.step(FlowEvent::Failed), FlowAction::Nothing);
    assert_eq!(waiting.phase(), SessionPhase::Ended);
    let mut closed = SessionFlow::new();
    assert_eq!(closed.step(FlowEvent::BridgeClosed), FlowAction::SendStop);
}

fn devices() -> Vec<InputDeviceInfo> {
    vec![
        InputDeviceInfo { id: "mic-1".to_string(), name: "USB".to_string() },
        InputDeviceInfo { id: "mic-2".to_string(), name: "Built-in".to_string() },
    ]
}

#[test]
fn the_saved_microphone_is_selected_and_saved_back() {
    let devices = devices();
    assert_eq!(microphone_selection(Some("mic-2"), &devices), 2);
    assert_eq!(microphone_selection(Some("mic-1"), &devices), 1);
    assert_eq!(microphone_selection(Some("gone"), &devices), 0);
    assert_eq!(microphone_selection(None, &devices), 0);
    let selected = microphone_selection(Some("mic-2"), &devices);
    assert_eq!(selected_device_id(&devices, selected as isize), Some("mic-2".to_string()));
    assert_eq!(selected_device_id(&devices, microphone_selection(Some("gone"), &devices) as isize), None);
}

#[test]
fn backdrop_thumbnails_are_inset_and_offset() {
    let source = WindowRect { left: 0, top: 0, right: 1000, bottom: 800 };
    let backdrop = WindowRect { left: 100, top: 100, right: 340, bottom: 180 };
    let (placements, all) = backdrop_placements(source, backdrop, &backdrop_samples(), false);
    assert!(all);
    assert_eq!(placements.len(), 5);
    assert_eq!(
        placements[0],
        ThumbnailPlacement {
            destination_width: 240,
            destination_height: 80,
            source_left: 110,
            source_top: 110,
            source_right: 330,
            source_bottom: 170,
            opacity: 255,
        }
    );
    assert_eq!(placements[1].source_left, 108);
    assert_eq!(placements[1].opacity, 18);
    assert_eq!(placements[4].source_top, 111);
    assert_eq!(placements[4].opacity, 14);
    let (dark, _) = backdrop_placements(source, backdrop, &backdrop_samples(), true);
    assert_eq!(dark[0].opacity, 255);
    assert_eq!(dark[3].opacity, 52);
}

#[test]
fn backdrop_outside_or_at_the_edge_is_refused() {
    let source = WindowRect { left: 0, top: 0, right: 1000, bottom: 800 };
    let outside = WindowRect { left: -5, top: 100, right: 200, bottom: 180 };
    let (none, all) = backdrop_placements(source, outside, &backdrop_samples(), false);
    assert!(none.is_empty());
    assert!(!all);
    let backdrop = WindowRect { left: 100, top: 100, right: 340, bottom: 180 };
    let samples = vec![(0, 0, 255), (-200, 0, 9), (0, 0, 9)];
    let (partial, all) = backdrop_placements(source, backdrop, &samples, false);
    assert!(!all);
    assert_eq!(partial.len(), 1);
    assert_eq!(partial[0].source_left, 110);
}

#[test]
fn a_line_that_is_not_json_reports_the_parser_message() {
    let error = decode_bridge_event("not json").unwrap_err();
    let expected = serde_json::from_str::<serde_json::Value>("not json").unwrap_err().to_string();
    assert_eq!(error.message(), expected);
    assert!(!error.message().is_empty());
    assert_ne!(error.message(), "not json");
}

#[test]
fn fcitx_finish_reports_the_connection_or_the_commit() {
    let mut called = false;
    let refused = fcitx_finish(Err("could not reach the session bus: down".to_string()), "hi", |_: String| {
        called = true;
        Ok(true)
    });
    assert_eq!(refused, Err("could not reach the session bus: down".to_string()));
    assert!(!called);
    let mut committed = String::new();
    assert_eq!(
        fcitx_finish(Ok(()), "你好", |text: String| {
            committed = text;
            Ok(true)
        }),
        Ok(())
    );
    assert_eq!(committed, "你好");
    assert_eq!(
        fcitx_finish(Ok(()), "x", |_: String| Ok(false)),
        Err("no application held the input focus, so the recognized text was not delivered".to_string())
    );
    assert_eq!(
        fcitx_finish(Ok(()), "x", |_: String| Err("no addon".to_string())),
        Err("could not hand the text to fcitx5; build and install the addon from clients/fcitx5-addon, then restart fcitx5 (no addon)"
            .to_string())
    );
}

#[test]
fn the_requested_microphone_matches_by_id_or_by_name_ignoring_case() {
    let devices = vec![
        DeviceLabels { id: None, name: Some("Built-in Microphone".to_string()) },
        DeviceLabels { id: Some("usb-7".to_string()), name: None },
        DeviceLabels { id: Some("usb-8".to_string()), name: Some("ÉCOUTE".to_string()) },
    ];
    assert_eq!(requested_device("usb-7", &devices), Some(1));
    assert_eq!(requested_device("built-in microphone", &devices), Some(0));
    assert_eq!(requested_device("écoute", &devices), Some(2));
    assert_eq!(requested_device("USB-7", &devices), None);
    assert_eq!(requested_device("missing", &devices), None);
}

#[test]
fn marked_text_gets_its_own_underlined_run() {
    assert_eq!(text_runs(10, None), vec![TextRunSpan { len: 10, marked: false }]);
    assert_eq!(
        text_runs(10, Some((2, 5))),
        vec![
            TextRunSpan { len: 2, marked: false },
            TextRunSpan { len: 3, marked: true },
            TextRunSpan { len: 5, marked: false },
        ]
    );
    assert_eq!(text_runs(5, Some((0, 5))), vec![TextRunSpan { len: 5, marked: true }]);
    assert_eq!(text_runs(5, Some((3, 3))), vec![
        TextRunSpan { len: 3, marked: false },
        TextRunSpan { len: 2, marked: false },
    ]);
}
