use homer::jsonval::JsonNode;
use homer::jsonval::is_auth_ok_node;
use homer::jsonval::response_state;
use homer::jsonval::traverse;
use homer::store::StateStore;
use homer::util::CmpValue;
use homer::util::HAAction;
use homer::util::HAConnect;
use homer::util::REQUEST_ID_BASE;
use homer::util::RequestIds;
use homer::util::cmp_matches;

#[test]
fn integer_comparison_coerces_by_type() {
    let one = CmpValue::Int(1);
    assert!(cmp_matches(&one, "1"));
    assert!(!cmp_matches(&one, "1.0"));
    assert!(!cmp_matches(&one, "on"));
}

#[test]
fn string_and_float_comparisons() {
    assert!(cmp_matches(&CmpValue::Str("on".to_string()), "on"));
    assert!(!cmp_matches(&CmpValue::Str("on".to_string()), "off"));
    assert!(cmp_matches(&CmpValue::Float("1.0".to_string()), "1"));
    assert!(!cmp_matches(&CmpValue::Float("1.0".to_string()), "1.01"));
}

#[test]
fn request_ids_count_up_from_the_base() {
    let mut ids = RequestIds::new();
    assert_eq!(ids.allocate(), REQUEST_ID_BASE);
    assert_eq!(ids.allocate(), REQUEST_ID_BASE + 1);
    assert_eq!(ids.allocate(), REQUEST_ID_BASE + 2);
}

#[test]
fn scene_action_serializes_exactly() {
    let a = HAAction::Scene("scene.movie".to_string());
    assert_eq!(
        a.as_json(1024),
        "{\"type\":\"call_service\",\"domain\":\"scene\",\"service\":\"turn_on\",\"target\":{\"entity_id\":\"scene.movie\"},\"service_data\":{},\"id\":1024}"
    );
}

#[test]
fn service_action_serializes_exactly() {
    let a = HAAction::Service { ha_id: "light.desk".to_string(), service: "turn_off".to_string() };
    assert_eq!(
        a.as_json(2001),
        "{\"type\":\"call_service\",\"domain\":\"light\",\"service\":\"turn_off\",\"target\":{\"entity_id\":\"light.desk\"},\"service_data\":{},\"id\":2001}"
    );
}

#[test]
fn action_serialization_escapes_strings() {
    let a = HAAction::Scene("a\"b\\c".to_string());
    let s = a.as_json(1);
    assert!(s.contains("\"entity_id\":\"a\\\"b\\\\c\""));
}

#[test]
fn ha_id_names_the_tracked_identity() {
    let t = HAConnect::Text { line: 0, text: "hello".to_string(), color: 0 };
    assert_eq!(t.ha_id(), "hello");
    let l = HAConnect::Line {
        line: 1,
        ha_id: "sensor.temp".to_string(),
        text: "T: ".to_string(),
        make_int: true,
        color: 0,
    };
    assert_eq!(l.ha_id(), "sensor.temp");
}

fn button_binding() -> HAConnect {
    HAConnect::Button {
        button: 1,
        ha_id: "light.desk".to_string(),
        cmp: CmpValue::Str("on".to_string()),
        text_on: "ON".to_string(),
        text_off: "OFF".to_string(),
        action_on: HAAction::Service {
            ha_id: "light.desk".to_string(),
            service: "turn_on".to_string(),
        },
        action_off: HAAction::Service {
            ha_id: "light.desk".to_string(),
            service: "turn_off".to_string(),
        },
        color: 7,
    }
}

#[test]
fn is_on_consults_the_tracked_value() {
    let b = button_binding();
    let mut store = StateStore::new();
    assert!(!b.is_on(&store));
    store.insert("light.desk", "on");
    assert!(b.is_on(&store));
    store.insert("light.desk", "off");
    assert!(!b.is_on(&store));
}

fn wrapped_event(entity: &str, state: &str) -> JsonNode {
    JsonNode::Obj(vec![(
        "event".to_string(),
        JsonNode::Obj(vec![(
            "data".to_string(),
            JsonNode::Obj(vec![
                ("entity_id".to_string(), JsonNode::Str(entity.to_string())),
                (
                    "new_state".to_string(),
                    JsonNode::Obj(vec![("state".to_string(), JsonNode::Str(state.to_string()))]),
                ),
            ]),
        )]),
    )])
}

#[test]
fn traverse_walks_object_paths() {
    let n = wrapped_event("sensor.temp", "21.6");
    assert_eq!(
        traverse(&n, &["event", "data", "entity_id"]),
        Some("sensor.temp".to_string())
    );
    assert_eq!(
        traverse(&n, &["event", "data", "new_state", "state"]),
        Some("21.6".to_string())
    );
    assert_eq!(traverse(&n, &["event", "data", "missing"]), None);
    assert_eq!(traverse(&n, &["event"]), None);
    assert_eq!(traverse(&JsonNode::Null, &["event"]), None);
}

#[test]
fn auth_marker_is_recognised() {
    let ok = JsonNode::Obj(vec![("type".to_string(), JsonNode::Str("auth_ok".to_string()))]);
    assert!(is_auth_ok_node(&ok));
    let other = JsonNode::Obj(vec![("type".to_string(), JsonNode::Str("event".to_string()))]);
    assert!(!is_auth_ok_node(&other));
    assert!(!is_auth_ok_node(&JsonNode::Null));
}

#[test]
fn response_state_reads_the_state_field() {
    let n = JsonNode::Obj(vec![("state".to_string(), JsonNode::Str("21.6".to_string()))]);
    assert_eq!(response_state(&n), "21.6");
    let missing = JsonNode::Obj(vec![("other".to_string(), JsonNode::Str("x".to_string()))]);
    assert_eq!(response_state(&missing), "null");
    assert_eq!(response_state(&JsonNode::Null), "null");
    let num = JsonNode::Obj(vec![("state".to_string(), JsonNode::Num("7".to_string()))]);
    assert_eq!(response_state(&num), "7");
}
