use rbn_core::rbn_client::{
    conn_step, line_has_prompt, ConnAction, ConnEvent, ConnState, RbnCommand, RbnMessage,
    RBN_HOST, RBN_PORT,
};

#[test]
fn connect_then_disconnect_ends_idle_with_disconnected_event() {
    let (state, out, act) = conn_step(
        ConnState::Idle,
        ConnEvent::Command(RbnCommand::Connect(String::from("K1ABC"))),
    );
    assert!(matches!(state, ConnState::Connecting { .. }));
    assert_eq!(out.len(), 1);
    assert!(matches!(&out[0], RbnMessage::Status(t) if t.contains("Connecting")));
    assert!(matches!(act, ConnAction::OpenSocket));

    let (state, out, act) = conn_step(state, ConnEvent::Command(RbnCommand::Disconnect));
    assert!(matches!(state, ConnState::Idle));
    assert_eq!(out.len(), 2);
    assert!(matches!(&out[0], RbnMessage::Status(t) if t == "Disconnected"));
    assert!(matches!(out[1], RbnMessage::Disconnected));
    assert!(matches!(act, ConnAction::DropSocket));
}

#[test]
fn failed_connection_attempt_returns_to_idle() {
    let (state, _, _) = conn_step(
        ConnState::Idle,
        ConnEvent::Command(RbnCommand::Connect(String::from("K1ABC"))),
    );
    let (state, out, _) = conn_step(state, ConnEvent::OpenFailed(String::from("refused")));
    assert!(matches!(state, ConnState::Idle));
    assert_eq!(out.len(), 1);
    assert!(matches!(&out[0], RbnMessage::Status(t) if t == "Connection failed: refused"));
}

#[test]
fn login_handshake_reaches_streaming_and_spots_flow() {
    let (state, _, _) = conn_step(
        ConnState::Idle,
        ConnEvent::Command(RbnCommand::Connect(String::from("K1ABC"))),
    );
    let (state, out, _) = conn_step(state, ConnEvent::Opened);
    assert!(matches!(state, ConnState::LoggingIn { .. }));
    assert!(matches!(&out[0], RbnMessage::Status(t) if t.contains("login prompt")));

    // banner lines before the prompt change nothing
    let (state, out, act) = conn_step(state, ConnEvent::Line(String::from("Welcome!")));
    assert!(out.is_empty());
    assert!(matches!(act, ConnAction::Stay));

    // the prompt asks for the callsign, case-insensitively
    let (state, out, act) = conn_step(
        state,
        ConnEvent::Line(String::from("PLEASE ENTER YOUR CALL: ")),
    );
    assert!(out.is_empty());
    assert!(matches!(&act, ConnAction::SendCallsign(cs) if cs == "K1ABC"));

    let (state, out, _) = conn_step(state, ConnEvent::WriteOk);
    assert!(matches!(state, ConnState::Streaming));
    assert!(matches!(&out[0], RbnMessage::Status(t) if t == "Logged in as K1ABC"));

    // a spot line becomes a Spot event
    let (state, out, _) = conn_step(
        state,
        ConnEvent::Line(String::from("DX de W1AW-#: 14025.0 K1ABC CW 15 dB 25 WPM")),
    );
    assert_eq!(out.len(), 1);
    match &out[0] {
        RbnMessage::Spot(spot) => {
            assert_eq!(spot.spotter_callsign, "W1AW");
            assert_eq!(spot.frequency_mkhz, 14025000);
        },
        other => panic!("expected a spot event, got {:?}", other),
    }

    // noise lines are silently dropped
    let (state, out, _) = conn_step(state, ConnEvent::Line(String::from("some chatter")));
    assert!(out.is_empty());

    // the stream closing reports and disconnects
    let (state, out, act) = conn_step(state, ConnEvent::Closed);
    assert!(matches!(state, ConnState::Idle));
    assert_eq!(out.len(), 2);
    assert!(matches!(&out[0], RbnMessage::Status(t) if t == "Connection closed"));
    assert!(matches!(out[1], RbnMessage::Disconnected));
    assert!(matches!(act, ConnAction::DropSocket));
}

#[test]
fn handshake_failure_reports_status_but_no_disconnected_event() {
    let state = ConnState::LoggingIn { callsign: String::from("K1ABC"), sent: false };
    let (state, out, act) = conn_step(state, ConnEvent::Closed);
    assert!(matches!(state, ConnState::Idle));
    assert_eq!(out.len(), 1);
    assert!(matches!(&out[0], RbnMessage::Status(t) if t == "Login failed: Connection closed"));
    assert!(matches!(act, ConnAction::DropSocket));
}

#[test]
fn read_error_while_streaming_reports_and_disconnects() {
    let (state, out, act) = conn_step(
        ConnState::Streaming,
        ConnEvent::ReadError(String::from("reset")),
    );
    assert!(matches!(state, ConnState::Idle));
    assert_eq!(out.len(), 2);
    assert!(matches!(&out[0], RbnMessage::Status(t) if t == "Read error: reset"));
    assert!(matches!(out[1], RbnMessage::Disconnected));
    assert!(matches!(act, ConnAction::DropSocket));
}

#[test]
fn prompt_detection_is_case_insensitive_substring() {
    assert!(line_has_prompt("Please enter your call: "));
    assert!(line_has_prompt("xx PLEASE ENTER YOUR CALL xx"));
    assert!(line_has_prompt("please enter your call"));
    assert!(!line_has_prompt("please enter your cal"));
    assert!(!line_has_prompt("enter call"));
    assert!(!line_has_prompt(""));
}

#[test]
fn fixed_endpoint_is_exposed() {
    assert_eq!(RBN_HOST, "rbn.telegraphy.de");
    assert_eq!(RBN_PORT, 7000);
}
