use homer::jsonval::JsonNode;
use homer::session::CONNECT_RETRY_MS;
use homer::session::SessionAction;
use homer::session::SessionInput;
use homer::session::SessionMachine;
use homer::session::SessionState;
use homer::session::SocketCmd;

#[test]
fn open_auth_subscribe_forward() {
    let mut m = SessionMachine::new("secret".to_string());
    assert_eq!(m.current_state(), SessionState::Disconnected);

    assert_eq!(m.step(SessionInput::Tick), Some(SessionAction::OpenSocket));
    assert_eq!(m.current_state(), SessionState::Connecting);

    assert_eq!(
        m.step(SessionInput::OpenOk),
        Some(SessionAction::SendFrame(
            "{\"type\":\"auth\",\"access_token\":\"secret\"}".to_string()
        ))
    );
    assert_eq!(m.current_state(), SessionState::AuthPending);

    assert_eq!(
        m.step(SessionInput::TextFrame(
            "{\"type\":\"auth_ok\",\"ha_version\":\"1.0\"}".to_string()
        )),
        Some(SessionAction::SendFrame("{\"id\":42,\"type\":\"subscribe_events\"}".to_string()))
    );
    assert_eq!(m.current_state(), SessionState::Subscribed);

    let forwarded = m.step(SessionInput::TextFrame("{\"a\":\"x\"}".to_string()));
    let expected = JsonNode::Obj(vec![("a".to_string(), JsonNode::Str("x".to_string()))]);
    assert_eq!(forwarded, Some(SessionAction::Forward(expected)));
    assert_eq!(m.current_state(), SessionState::Subscribed);
}

#[test]
fn numbers_in_forwarded_frames_keep_their_text() {
    let mut m = SessionMachine::new("t".to_string());
    m.step(SessionInput::Tick);
    m.step(SessionInput::OpenOk);
    m.step(SessionInput::TextFrame("{\"type\":\"auth_ok\"}".to_string()));
    let forwarded = m.step(SessionInput::TextFrame("{\"n\":1}".to_string()));
    let expected = JsonNode::Obj(vec![("n".to_string(), JsonNode::Num("1".to_string()))]);
    assert_eq!(forwarded, Some(SessionAction::Forward(expected)));
}

#[test]
fn malformed_frames_are_dropped_silently() {
    let mut m = SessionMachine::new("t".to_string());
    m.step(SessionInput::Tick);
    m.step(SessionInput::OpenOk);
    m.step(SessionInput::TextFrame("{\"type\":\"auth_ok\"}".to_string()));
    assert_eq!(m.step(SessionInput::TextFrame("{oops".to_string())), None);
    assert_eq!(m.current_state(), SessionState::Subscribed);
}

#[test]
fn auth_ok_when_already_subscribed_is_not_forwarded() {
    let mut m = SessionMachine::new("t".to_string());
    m.step(SessionInput::Tick);
    m.step(SessionInput::OpenOk);
    m.step(SessionInput::TextFrame("{\"type\":\"auth_ok\"}".to_string()));
    assert_eq!(m.step(SessionInput::TextFrame("{\"type\":\"auth_ok\"}".to_string())), None);
    assert_eq!(m.current_state(), SessionState::Subscribed);
}

#[test]
fn transport_error_disconnects_and_reconnect_begins() {
    let mut m = SessionMachine::new("t".to_string());
    m.step(SessionInput::Tick);
    m.step(SessionInput::OpenOk);
    m.step(SessionInput::TextFrame("{\"type\":\"auth_ok\"}".to_string()));
    assert_eq!(m.current_state(), SessionState::Subscribed);

    assert_eq!(m.step(SessionInput::TransportError), None);
    assert_eq!(m.current_state(), SessionState::Disconnected);

    assert_eq!(m.step(SessionInput::Tick), Some(SessionAction::OpenSocket));
    assert_eq!(m.current_state(), SessionState::Connecting);

    assert_eq!(m.step(SessionInput::OpenFailed), Some(SessionAction::Backoff));
    assert_eq!(m.current_state(), SessionState::Disconnected);
    assert_eq!(CONNECT_RETRY_MS, 250);
}

#[test]
fn payload_sends_are_dropped_while_disconnected() {
    let mut m = SessionMachine::new("t".to_string());
    assert_eq!(m.command(SocketCmd::SendJson("{}".to_string())), None);
    assert_eq!(m.command(SocketCmd::SendString("x".to_string())), None);

    m.step(SessionInput::Tick);
    m.step(SessionInput::OpenOk);
    m.step(SessionInput::TextFrame("{\"type\":\"auth_ok\"}".to_string()));
    assert_eq!(
        m.command(SocketCmd::SendJson("{}".to_string())),
        Some(SessionAction::SendFrame("{}".to_string()))
    );
}

#[test]
fn reconnect_command_tears_the_session_down() {
    let mut m = SessionMachine::new("t".to_string());
    m.step(SessionInput::Tick);
    m.step(SessionInput::OpenOk);
    assert_eq!(m.command(SocketCmd::Reconnect), None);
    assert_eq!(m.current_state(), SessionState::Disconnected);
}

#[test]
fn send_failure_is_a_transport_error() {
    let mut m = SessionMachine::new("t".to_string());
    m.step(SessionInput::Tick);
    m.step(SessionInput::OpenOk);
    m.send_result(true);
    assert_eq!(m.current_state(), SessionState::AuthPending);
    m.send_result(false);
    assert_eq!(m.current_state(), SessionState::Disconnected);
}
