use nettfiske::websockets::{StreamAction, WebSockets, RECONNECT_DELAY_MS};

#[test]
fn client_starts_disconnected() {
    assert!(!WebSockets::new().is_connected());
}

#[test]
fn accepted_handshake_connects_and_announces() {
    let mut client = WebSockets::new();
    let action = client.connect(Ok(()));
    assert!(matches!(action, StreamAction::Announce));
    assert!(client.is_connected());
}

#[test]
fn refused_handshake_retries_after_the_delay() {
    let mut client = WebSockets::new();
    match client.connect(Err("timed out".to_string())) {
        StreamAction::Reconnect { error, delay_ms } => {
            assert_eq!(error, "Error during handshake timed out");
            assert_eq!(delay_ms, 5000);
            assert_eq!(delay_ms, RECONNECT_DELAY_MS);
        }
        other => panic!("unexpected action {:?}", other),
    }
    assert!(!client.is_connected());
}

#[test]
fn text_is_delivered_and_other_messages_are_passed_over() {
    let mut client = WebSockets::new();
    client.connect(Ok(()));
    match client.event_loop(Ok(Some("{}".to_string()))) {
        StreamAction::Deliver(text) => assert_eq!(text, "{}"),
        other => panic!("unexpected action {:?}", other),
    }
    assert!(client.is_connected());
    assert!(matches!(client.event_loop(Ok(None)), StreamAction::Receive));
    assert!(client.is_connected());
}

#[test]
fn failed_read_disconnects_and_retries_after_the_delay() {
    let mut client = WebSockets::new();
    client.connect(Ok(()));
    match client.event_loop(Err("connection reset".to_string())) {
        StreamAction::Reconnect { error, delay_ms } => {
            assert_eq!(error, "connection reset");
            assert_eq!(delay_ms, 5000);
        }
        other => panic!("unexpected action {:?}", other),
    }
    assert!(!client.is_connected());
    assert!(matches!(client.connect(Ok(())), StreamAction::Announce));
    assert!(client.is_connected());
}

#[test]
fn disconnected_client_is_told_to_connect() {
    let mut client = WebSockets::new();
    assert!(matches!(client.event_loop(Ok(Some("x".to_string()))), StreamAction::Connect));
    assert!(matches!(client.event_loop(Ok(None)), StreamAction::Connect));
    assert!(matches!(
        client.event_loop(Err("gone".to_string())),
        StreamAction::Reconnect { delay_ms: 5000, .. }
    ));
    assert!(!client.is_connected());
}

#[test]
fn retries_have_no_limit() {
    let mut client = WebSockets::new();
    for _ in 0..1000 {
        assert!(matches!(
            client.connect(Err("refused".to_string())),
            StreamAction::Reconnect { delay_ms: 5000, .. }
        ));
    }
    assert!(matches!(client.connect(Ok(())), StreamAction::Announce));
}
