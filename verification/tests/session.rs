use irc_socket::error::SocketError;
use irc_socket::event::{Event, MessageData, MessageEvent, ReceivedPayload};
use irc_socket::registry::SocketState;
use irc_socket::session::{
    after_step, connect, disconnect, listen, read_step, send, ReadStep, SocketStep,
};

fn connected(id: &str, up: bool) -> ReceivedPayload {
    ReceivedPayload {
        id: id.to_string(),
        event: MessageEvent { message: None, error: None, connected: Some(up) },
    }
}

fn message(id: &str, data: &[u8]) -> ReceivedPayload {
    ReceivedPayload {
        id: id.to_string(),
        event: MessageEvent {
            message: Some(MessageData { data: data.to_vec() }),
            error: None,
            connected: None,
        },
    }
}

fn failure(id: &str, text: &str) -> ReceivedPayload {
    ReceivedPayload {
        id: id.to_string(),
        event: MessageEvent { message: None, error: Some(text.to_string()), connected: None },
    }
}

fn not_found(id: &str) -> SocketError {
    SocketError::NotFound { client_id: id.to_string() }
}

#[test]
fn connect_registers_and_announces() {
    let mut state = SocketState::new();
    let announcement = connect("a".to_string(), 7u32, &mut state);
    assert_eq!(announcement, connected("a", true));
    assert_eq!(state.lookup("a"), Some(&7));
    assert_eq!(state.len(), 1);
}

#[test]
fn connect_on_a_used_id_replaces_the_connection() {
    let mut state = SocketState::new();
    connect("a".to_string(), 7u32, &mut state);
    let announcement = connect("a".to_string(), 8u32, &mut state);
    assert_eq!(announcement, connected("a", true));
    assert_eq!(state.lookup("a"), Some(&8));
    assert_eq!(state.len(), 1);
}

#[test]
fn send_to_a_never_connected_id_is_not_found() {
    let state: SocketState<u32> = SocketState::new();
    assert_eq!(send("a", "PING x", &state), Err(not_found("a")));
    let mut state = SocketState::new();
    connect("b".to_string(), 1u32, &mut state);
    assert_eq!(send("a", "PING x", &state), Err(not_found("a")));
}

#[test]
fn send_frames_the_payload_for_the_connection() {
    let mut state = SocketState::new();
    connect("a".to_string(), 7u32, &mut state);
    connect("b".to_string(), 8u32, &mut state);
    assert_eq!(send("a", "PING x", &state), Ok((&7, b"PING x\r\n".to_vec())));
    assert_eq!(send("b", "PING x\r\n", &state), Ok((&8, b"PING x\r\n".to_vec())));
    assert_eq!(send("b", "", &state), Ok((&8, b"\r\n".to_vec())));
}

#[test]
fn send_with_and_without_terminator_is_byte_identical() {
    let mut state = SocketState::new();
    connect("a".to_string(), 7u32, &mut state);
    assert_eq!(send("a", "PING x", &state), send("a", "PING x\r\n", &state));
}

#[test]
fn disconnect_twice_succeeds_then_finds_nothing() {
    let mut state = SocketState::new();
    connect("a".to_string(), 7u32, &mut state);
    assert_eq!(disconnect("a", &mut state), Ok(7));
    assert_eq!(disconnect("a", &mut state), Err(not_found("a")));
    assert!(state.is_empty());
}

#[test]
fn disconnect_leaves_the_other_connections() {
    let mut state = SocketState::new();
    connect("a".to_string(), 7u32, &mut state);
    connect("b".to_string(), 8u32, &mut state);
    assert_eq!(disconnect("a", &mut state), Ok(7));
    assert_eq!(state.lookup("b"), Some(&8));
    assert_eq!(send("a", "x", &state), Err(not_found("a")));
    assert_eq!(send("b", "x", &state), Ok((&8, b"x\r\n".to_vec())));
}

#[test]
fn disconnect_of_an_unknown_id_is_not_found() {
    let mut state: SocketState<u32> = SocketState::new();
    let failed = disconnect("nobody", &mut state).unwrap_err();
    assert_eq!(failed, not_found("nobody"));
    assert_eq!(failed.message(), "No connection found for client_id: nobody");
}

#[test]
fn listen_has_nothing_to_do() {
    let mut state = SocketState::new();
    assert_eq!(listen(), Ok(()));
    connect("a".to_string(), 7u32, &mut state);
    assert_eq!(listen(), Ok(()));
    assert_eq!(state.lookup("a"), Some(&7));
    assert_eq!(state.len(), 1);
}

#[test]
fn read_of_bytes_publishes_them_and_goes_on() {
    let mut buf = [0u8; 4096];
    buf[..5].copy_from_slice(b"hello");
    let step = read_step("a", &buf, Ok(5));
    assert_eq!(step, ReadStep { events: vec![message("a", b"hello")], closed: false });
}

#[test]
fn read_of_a_full_buffer_publishes_all_of_it() {
    let buf = [0xffu8, 0x00, 0x0d, 0x0a];
    let step = read_step("a", &buf, Ok(4));
    assert_eq!(step, ReadStep { events: vec![message("a", &buf)], closed: false });
    let step = read_step("a", &buf, Ok(1));
    assert_eq!(step, ReadStep { events: vec![message("a", &[0xff])], closed: false });
}

#[test]
fn read_of_nothing_reports_the_disconnection() {
    let buf = [0u8; 16];
    let step = read_step("a", &buf, Ok(0));
    assert_eq!(step, ReadStep { events: vec![connected("a", false)], closed: true });
    let step = read_step("a", &[], Ok(0));
    assert_eq!(step, ReadStep { events: vec![connected("a", false)], closed: true });
}

#[test]
fn failed_read_reports_the_error_then_the_disconnection() {
    let buf = [0u8; 16];
    let step = read_step("a", &buf, Err("connection reset".to_string()));
    assert_eq!(
        step,
        ReadStep {
            events: vec![failure("a", "Read error: connection reset"), connected("a", false)],
            closed: true,
        }
    );
}

#[test]
fn connection_lives_until_the_server_closes() {
    let mut state = SocketState::new();
    let announcement = connect("a".to_string(), 1u32, &mut state);
    assert_eq!(announcement, connected("a", true));

    let mut buf = [0u8; 4096];
    buf[..5].copy_from_slice(b"hello");
    let step = read_step("a", &buf, Ok(5));
    assert_eq!(step.events, vec![message("a", b"hello")]);
    assert!(!step.closed);
    assert!(state.contains("a"));

    let step = read_step("a", &buf, Ok(0));
    assert_eq!(step.events, vec![connected("a", false)]);
    assert!(step.closed);
    assert_eq!(state.remove("a"), Some(1));
    assert!(!state.contains("a"));
    assert_eq!(send("a", "late", &state), Err(not_found("a")));
    assert_eq!(disconnect("a", &mut state), Err(not_found("a")));
}

#[test]
fn every_payload_fills_exactly_one_field() {
    let buf = [1u8, 2, 3];
    let mut payloads = Vec::new();
    payloads.extend(read_step("a", &buf, Ok(0)).events);
    payloads.extend(read_step("a", &buf, Ok(3)).events);
    payloads.extend(read_step("a", &buf, Err("x".to_string())).events);
    let mut state = SocketState::new();
    payloads.push(connect("a".to_string(), 0u8, &mut state));
    assert_eq!(payloads.len(), 5);
    for payload in payloads {
        let filled = payload.event.message.is_some() as u8 + payload.event.error.is_some() as u8
            + payload.event.connected.is_some() as u8;
        assert_eq!(filled, 1);
        assert_eq!(payload.id, "a");
    }
}

#[test]
fn events_are_laid_out_in_their_own_field() {
    assert_eq!(ReceivedPayload::new("a".to_string(), Event::Data(vec![1, 2])), message("a", &[1, 2]));
    assert_eq!(ReceivedPayload::new("a".to_string(), Event::Data(vec![])), message("a", &[]));
    assert_eq!(
        ReceivedPayload::new("a".to_string(), Event::Error("boom".to_string())),
        failure("a", "boom")
    );
    assert_eq!(
        ReceivedPayload::new("a".to_string(), Event::ConnectionStateChanged(true)),
        connected("a", true)
    );
    assert_eq!(
        MessageEvent::from_event(Event::ConnectionStateChanged(false)),
        MessageEvent { message: None, error: None, connected: Some(false) }
    );
}

#[test]
fn each_failure_has_its_text() {
    assert_eq!(not_found("a").message(), "No connection found for client_id: a");
    assert_eq!(
        SocketError::DialFailed {
            host: "chat.example.com".to_string(),
            port: 6697,
            cause: "connection refused".to_string(),
        }
        .message(),
        "Failed to connect to chat.example.com:6697: connection refused"
    );
    assert_eq!(
        SocketError::TlsConnectorFailed { cause: "no trust store".to_string() }.message(),
        "Failed to create TLS connector: no trust store"
    );
    assert_eq!(
        SocketError::TlsHandshakeFailed { cause: "bad certificate".to_string() }.message(),
        "TLS handshake failed: bad certificate"
    );
    assert_eq!(
        SocketError::WriteFailed { cause: "broken pipe".to_string() }.message(),
        "Write error: broken pipe"
    );
    assert_eq!(
        SocketError::FlushFailed { cause: "broken pipe".to_string() }.message(),
        "Flush error: broken pipe"
    );
    assert_eq!(
        SocketError::ReadFailed { cause: "timed out".to_string() }.message(),
        "Read error: timed out"
    );
}

#[test]
fn written_line_is_flushed_and_then_sent() {
    assert_eq!(after_step(SocketStep::Write, Ok(())), Ok(Some(SocketStep::Flush)));
    assert_eq!(after_step(SocketStep::Flush, Ok(())), Ok(None));
}

#[test]
fn failed_write_is_reported_and_nothing_is_flushed() {
    assert_eq!(
        after_step(SocketStep::Write, Err("broken pipe".to_string())),
        Err(SocketError::WriteFailed { cause: "broken pipe".to_string() })
    );
}

#[test]
fn failed_flush_is_reported() {
    assert_eq!(
        after_step(SocketStep::Flush, Err("connection reset".to_string())),
        Err(SocketError::FlushFailed { cause: "connection reset".to_string() })
    );
}

#[test]
fn shutdown_ends_the_command_however_it_went() {
    assert_eq!(after_step(SocketStep::Shutdown, Ok(())), Ok(None));
    assert_eq!(after_step(SocketStep::Shutdown, Err("not connected".to_string())), Ok(None));
}

#[test]
fn loop_reports_the_disconnection_once_and_last() {
    let buf = [7u8; 8];
    let runs: Vec<Vec<Result<usize, String>>> = vec![
        vec![Ok(0)],
        vec![Err("reset".to_string())],
        vec![Ok(3), Ok(8), Ok(1), Ok(0), Ok(5)],
        vec![Ok(1), Err("reset".to_string()), Ok(0)],
        vec![Ok(2), Ok(2)],
    ];
    for reads in runs {
        let ends = reads.iter().any(|r| !matches!(r, Ok(n) if *n > 0));
        let mut published = Vec::new();
        for result in reads {
            let step = read_step("a", &buf, result);
            published.extend(step.events);
            if step.closed {
                break;
            }
        }
        let changes: Vec<usize> = published
            .iter()
            .enumerate()
            .filter(|(_, p)| p.event.connected.is_some())
            .map(|(at, _)| at)
            .collect();
        if ends {
            assert_eq!(changes, vec![published.len() - 1]);
            assert_eq!(published.last(), Some(&connected("a", false)));
        } else {
            assert!(changes.is_empty());
        }
    }
}
