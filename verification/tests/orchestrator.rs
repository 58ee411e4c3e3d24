use homer::display::DrawCmd;
use homer::jsonval::JsonNode;
use homer::orchestrator::SNTP_RESET_LIMIT;
use homer::orchestrator::SntpStep;
use homer::orchestrator::SyncStatus;
use homer::orchestrator::button_commands;
use homer::orchestrator::clock_text;
use homer::orchestrator::clock_update;
use homer::orchestrator::config_basename;
use homer::orchestrator::config_or_fallback;
use homer::orchestrator::handle_event;
use homer::orchestrator::init_states;
use homer::orchestrator::sntp_tick;
use homer::store::StateStore;
use homer::util::CmpValue;
use homer::util::HAAction;
use homer::util::HAConnect;
use homer::util::RequestIds;

#[test]
fn clock_line_is_padded_and_zero_filled() {
    assert_eq!(clock_text(9, 5), "        9:05");
    assert_eq!(clock_text(23, 59), "       23:59");
    assert_eq!(clock_text(0, 0), "        0:00");
    assert_eq!(clock_text(10, 10), "       10:10");
}

#[test]
fn clock_redraws_only_on_change() {
    let mut last = String::new();
    let first = clock_update(12, 30, &mut last);
    assert!(first.is_some());
    match first.unwrap() {
        DrawCmd::Text { text, .. } => assert_eq!(text, "       12:30"),
        _ => panic!("expected a text instruction"),
    }
    assert_eq!(clock_update(12, 30, &mut last), None);
    assert!(clock_update(12, 31, &mut last).is_some());
}

#[test]
fn config_name_comes_from_the_hardware_address() {
    assert_eq!(config_basename(0xab, 0x01, 0xff, true), "ab_01_ff");
    assert_eq!(config_basename(0x00, 0x10, 0x2a, true), "00_10_2a");
    assert_eq!(config_basename(0xab, 0x01, 0xff, false), "base");
}

#[test]
fn malformed_configuration_degrades_to_a_diagnostic_line() {
    let r = config_or_fallback(None);
    assert_eq!(r.len(), 1);
    match &r[0] {
        HAConnect::Text { line, text, color } => {
            assert_eq!(*line, 0);
            assert_eq!(text, "Failed to load config!");
            assert_eq!(*color, 0);
        },
        _ => panic!("expected the diagnostic text binding"),
    }
    let given = vec![HAConnect::Text { line: 3, text: "x".to_string(), color: 1 }];
    assert_eq!(config_or_fallback(Some(given.clone())), given);
}

fn config() -> Vec<HAConnect> {
    vec![
        HAConnect::Line {
            line: 1,
            ha_id: "sensor.temp".to_string(),
            text: "Temp: ".to_string(),
            make_int: true,
            color: 5,
        },
        HAConnect::Button {
            button: 1,
            ha_id: "light.desk".to_string(),
            cmp: CmpValue::Int(1),
            text_on: "ON".to_string(),
            text_off: "OFF".to_string(),
            action_on: HAAction::Scene("scene.on".to_string()),
            action_off: HAAction::Scene("scene.off".to_string()),
            color: 7,
        },
    ]
}

#[test]
fn bootstrap_seeds_every_tracked_identity_empty() {
    let states = init_states(&config());
    assert_eq!(states.get("sensor.temp").map(|s| s.as_str()), Some(""));
    assert_eq!(states.get("light.desk").map(|s| s.as_str()), Some(""));
    assert!(states.get("sensor.other").is_none());
}

#[test]
fn button_press_dispatches_the_inactive_action() {
    let cfg = config();
    let mut states = init_states(&cfg);
    let mut ids = RequestIds::new();

    states.apply_delta("light.desk", "1");
    let on_cmds = button_commands(&cfg, &states, 1, &mut ids);
    assert_eq!(on_cmds.len(), 1);
    assert!(on_cmds[0].contains("scene.off"));
    assert!(on_cmds[0].contains("\"id\":1024"));

    states.apply_delta("light.desk", "0");
    let off_cmds = button_commands(&cfg, &states, 1, &mut ids);
    assert_eq!(off_cmds.len(), 1);
    assert!(off_cmds[0].contains("scene.on"));
    assert!(off_cmds[0].contains("\"id\":1025"));
}

#[test]
fn press_without_binding_dispatches_nothing() {
    let cfg = config();
    let states = init_states(&cfg);
    let mut ids = RequestIds::new();
    let cmds = button_commands(&cfg, &states, 2, &mut ids);
    assert!(cmds.is_empty());
}

fn sample_event(entity: &str, state: &str) -> JsonNode {
    JsonNode::Obj(vec![(
        "event".to_string(),
        JsonNode::Obj(vec![(
            "data".to_string(),
            JsonNode::Obj(vec![
                ("entity_id".to_string(), JsonNode::Str(entity.to_string())),
                (
                    "new_state".to_string(),
                    JsonNode::Obj(vec![("state".to_string(), JsonNode::Str(state.to_string()))]),
                ),
            ]),
        )]),
    )])
}

#[test]
fn tracked_event_applies_and_redraws() {
    let cfg = config();
    let mut states = init_states(&cfg);
    let mut cache = StateStore::new();
    let n = sample_event("sensor.temp", "21.6");
    let cmds = handle_event(&cfg, &mut states, &mut cache, &n);
    assert_eq!(states.get("sensor.temp").map(|s| s.as_str()), Some("21.6"));
    assert!(cmds.iter().any(|c| match c {
        DrawCmd::Text { text, .. } => text == "Temp: 22",
        _ => false,
    }));
}

#[test]
fn untracked_event_changes_nothing() {
    let cfg = config();
    let mut states = init_states(&cfg);
    let mut cache = StateStore::new();
    let n = sample_event("sensor.other", "5");
    let cmds = handle_event(&cfg, &mut states, &mut cache, &n);
    assert!(cmds.is_empty());
    assert!(states.get("sensor.other").is_none());
}

#[test]
fn time_sync_watchdog_counts_and_restarts() {
    assert_eq!(sntp_tick(SyncStatus::Completed, 5), (SntpStep::MarkSynced, 5));
    assert_eq!(sntp_tick(SyncStatus::InProgress, 5), (SntpStep::Wait, 5));
    assert_eq!(sntp_tick(SyncStatus::Reset, 99), (SntpStep::Wait, 100));
    assert_eq!(sntp_tick(SyncStatus::Reset, SNTP_RESET_LIMIT), (SntpStep::Restart, 101));
}
