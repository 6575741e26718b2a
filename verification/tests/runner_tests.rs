use teshi::runner::{collect_socket_events, RunnerEvent, SocketEvent};

#[test]
fn socket_events_update_connection_and_carry_runner_events() {
    let mut connected = false;
    let events = collect_socket_events(
        &mut connected,
        vec![
            SocketEvent::Opened,
            SocketEvent::Message(Some(RunnerEvent::Pong)),
            SocketEvent::Message(None),
            SocketEvent::Error,
            SocketEvent::Other,
            SocketEvent::Message(Some(RunnerEvent::TestOutput { line: "x".to_string() })),
        ],
    );
    assert!(connected);
    assert_eq!(events.len(), 2);
    assert!(matches!(events[0], RunnerEvent::Pong));
    match &events[1] {
        RunnerEvent::TestOutput { line } => assert_eq!(line, "x"),
        other => panic!("unexpected {:?}", other),
    }
}

#[test]
fn closing_disconnects() {
    let mut connected = true;
    let events = collect_socket_events(&mut connected, vec![SocketEvent::Closed]);
    assert!(!connected);
    assert!(events.is_empty());
    let events = collect_socket_events(&mut connected, vec![]);
    assert!(!connected);
    assert!(events.is_empty());
}
