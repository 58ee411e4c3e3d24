use homer::display::DrawCmd;
use homer::render::render_states;
use homer::store::StateStore;
use homer::util::CmpValue;
use homer::util::HAAction;
use homer::util::HAConnect;

#[test]
fn delta_on_untracked_identity_is_a_noop() {
    let mut store = StateStore::new();
    store.insert("sensor.known", "1");
    let changed = store.apply_delta("sensor.unknown", "5");
    assert!(!changed);
    assert!(store.get("sensor.unknown").is_none());
    assert_eq!(store.get("sensor.known").map(|s| s.as_str()), Some("1"));
}

#[test]
fn delta_on_tracked_identity_updates() {
    let mut store = StateStore::new();
    store.insert("sensor.known", "1");
    let changed = store.apply_delta("sensor.known", "5");
    assert!(changed);
    assert_eq!(store.get("sensor.known").map(|s| s.as_str()), Some("5"));
}

fn bindings() -> Vec<HAConnect> {
    vec![
        HAConnect::Text { line: 0, text: "Status".to_string(), color: 3 },
        HAConnect::Line {
            line: 1,
            ha_id: "sensor.temp".to_string(),
            text: "Temp: ".to_string(),
            make_int: true,
            color: 5,
        },
        HAConnect::Button {
            button: 0,
            ha_id: "light.desk".to_string(),
            cmp: CmpValue::Str("on".to_string()),
            text_on: "ON".to_string(),
            text_off: "OFF".to_string(),
            action_on: HAAction::Scene("scene.on".to_string()),
            action_off: HAAction::Scene("scene.off".to_string()),
            color: 7,
        },
    ]
}

fn texts(cmds: &[DrawCmd]) -> Vec<String> {
    cmds.iter()
        .map(|c| match c {
            DrawCmd::Text { text, .. } => text.clone(),
            _ => panic!("expected a text instruction"),
        })
        .collect()
}

#[test]
fn second_pass_with_unchanged_state_draws_nothing() {
    let config = bindings();
    let mut states = StateStore::new();
    states.insert("sensor.temp", "21.6");
    states.insert("light.desk", "on");
    let mut cache = StateStore::new();
    let first = render_states(&config, &states, &mut cache);
    assert_eq!(first.len(), 3);
    let second = render_states(&config, &states, &mut cache);
    assert!(second.is_empty());
}

#[test]
fn mirror_binding_rounds_numeric_values() {
    let config = bindings();
    let mut states = StateStore::new();
    states.insert("sensor.temp", "21.6");
    states.insert("light.desk", "off");
    let mut cache = StateStore::new();
    let cmds = render_states(&config, &states, &mut cache);
    let shown = texts(&cmds);
    assert_eq!(shown, vec!["Status", "Temp: 22", "OFF"]);
    assert!(shown[1].ends_with("22"));
}

#[test]
fn mirror_binding_degrades_on_non_numeric_values() {
    let config = bindings();
    let mut states = StateStore::new();
    states.insert("sensor.temp", "abc");
    states.insert("light.desk", "off");
    let mut cache = StateStore::new();
    let cmds = render_states(&config, &states, &mut cache);
    let shown = texts(&cmds);
    assert_eq!(shown[1], "Temp: ");
}

#[test]
fn untracked_mirror_line_draws_nothing() {
    let config = vec![HAConnect::Line {
        line: 2,
        ha_id: "sensor.gone".to_string(),
        text: "X: ".to_string(),
        make_int: false,
        color: 0,
    }];
    let states = StateStore::new();
    let mut cache = StateStore::new();
    let cmds = render_states(&config, &states, &mut cache);
    assert!(cmds.is_empty());
}

#[test]
fn only_changed_fields_are_redrawn() {
    let config = bindings();
    let mut states = StateStore::new();
    states.insert("sensor.temp", "20");
    states.insert("light.desk", "off");
    let mut cache = StateStore::new();
    let first = render_states(&config, &states, &mut cache);
    assert_eq!(first.len(), 3);
    states.apply_delta("light.desk", "on");
    let second = render_states(&config, &states, &mut cache);
    let shown = texts(&second);
    assert_eq!(shown, vec!["ON"]);
}
