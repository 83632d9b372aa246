use remote_screen::client::{Client, Reply, Task};
use remote_screen::pairing::{
    check_interface, check_wait, connect_request, deadline, disconnect_request, drains,
    handle_event, Event, LineReader, PairingError, Progress, MAX_LINE,
};

fn text(value: &serde_json::Value, key: &str) -> Option<String> {
    value[key].as_str().map(str::to_owned)
}

fn event(line: &[u8]) -> Event {
    let value: serde_json::Value = serde_json::from_slice(line).unwrap();
    Event {
        event: text(&value, "event").unwrap(),
        message: text(&value, "message"),
        interface: text(&value, "interface"),
        reused: value["reused"].as_bool(),
    }
}

// What a service that sends these bytes and then goes away leads to: the request, what is
// shown, the interface and whether a pairing was used again.
fn served(
    bytes: &[u8],
    allow_pairing: bool,
) -> Result<(Vec<u8>, Vec<String>, String, bool), PairingError<String>> {
    let (mut client, mut task) =
        Client::new("aa:bb:cc:dd:ee:ff", 2000, 0, allow_pairing, false, 0)?;
    let mut sent = Vec::new();
    let mut shown = Vec::new();
    let mut left = bytes.iter();
    loop {
        let reply = match task {
            Task::Connect => Reply::Done,
            Task::Send(bytes) => {
                sent = bytes;
                Reply::Done
            }
            Task::Read => match left.next() {
                Some(byte) => Reply::Byte(*byte),
                None => Reply::Closed,
            },
            Task::Parse(line) => Reply::Event(Ok(event(&line))),
            Task::Show(message) => {
                shown.push(message);
                Reply::Done
            }
            Task::Ready { interface, reused } => return Ok((sent, shown, interface, reused)),
        };
        task = client.advance(reply, false, 1)?;
    }
}

fn request(allow_pairing: bool) -> serde_json::Value {
    let line = connect_request("aa:bb:cc:dd:ee:ff", 2, allow_pairing).unwrap();
    assert_eq!(line.iter().filter(|b| **b == b'\n').count(), 1);
    assert!(line.ends_with(b"\n"));
    serde_json::from_slice(&line).unwrap()
}

#[test]
fn recovery_forbids_pairing_in_service_request() {
    let request = request(false);
    assert_eq!(request["operation"], "connect");
    assert_eq!(request["peer"], "aa:bb:cc:dd:ee:ff");
    assert_eq!(request["allow_pairing"], false);
    let error = served(
        b"{\"event\":\"error\",\"message\":\"No persistent group available\"}\n",
        false,
    )
    .unwrap_err();
    assert!(error.text().contains("No persistent group available"));
}

#[test]
fn fragmented_status_ready_and_drop_disconnect() {
    let (sent, shown, interface, reused) = served(b"{\"event\":\"status\",\"message\":\"Pairing\"}\n{\"event\":\"ready\",\"interface\":\"p2p-wlan0-1\",\"reused\":true}\n", true).unwrap();
    let request: serde_json::Value = serde_json::from_slice(&sent).unwrap();
    assert_eq!(request["allow_pairing"], true);
    assert_eq!(request["timeout_secs"], 2);
    assert_eq!(shown, vec!["Pairing".to_owned()]);
    assert_eq!(interface, "p2p-wlan0-1");
    assert!(reused);
}

#[test]
fn eof_error_and_invalid_ready_are_rejected() {
    for (reply, expected) in [
        ("", "disconnected before ready"),
        (
            "{\"event\":\"error\",\"message\":\"Pairing rejected\"}\n",
            "Pairing rejected",
        ),
        (
            "{\"event\":\"ready\",\"interface\":\"wlan0\",\"reused\":false}\n",
            "invalid P2P interface",
        ),
        (
            "{\"event\":\"ready\",\"interface\":\"p2p-1234567890123456\",\"reused\":false}\n",
            "invalid P2P interface",
        ),
    ] {
        let error = served(reply.as_bytes(), true).unwrap_err();
        assert!(error.text().contains(expected), "{error:?}");
    }
}

#[test]
fn timeout_and_cancellation_disconnect_inflight_request() {
    for cancel in [false, true] {
        let (mut client, _) = Client::new("aa:bb:cc:dd:ee:ff", 50, 0, true, false, 0).unwrap();
        client.advance(Reply::Done, false, 0).unwrap();
        assert_eq!(client.advance(Reply::Done, false, 0), Ok(Task::Read));
        assert_eq!(client.advance(Reply::Nothing, false, 49), Ok(Task::Read));
        let error = client.advance(Reply::Nothing, cancel, 50).unwrap_err();
        assert!(error
            .text()
            .contains(if cancel { "cancelled" } else { "Timed out" }));
    }
}

#[test]
fn oversized_line_is_rejected_and_connection_closed() {
    let error = served(&vec![b'x'; MAX_LINE + 1], true).unwrap_err();
    assert!(error.text().contains("exceeds 16 KiB"));
}

#[test]
fn lines_read_back() {
    let mut reader = LineReader::default();
    let mut lines = Vec::new();
    for byte in b"one\n\ntwo\n" {
        if let Some(line) = reader.push(*byte).unwrap() {
            lines.push(line);
        }
    }
    assert_eq!(lines, vec![b"one".to_vec(), b"".to_vec(), b"two".to_vec()]);
    assert!(reader.line.is_empty());
}

#[test]
fn interfaces_fit_the_kernel() {
    assert!(check_interface("p2p-wlo1-27"));
    assert!(check_interface("p2p-12345678901"));
    assert!(!check_interface("p2p-123456789012"));
    assert!(!check_interface("p2p-"));
    assert!(!check_interface("p2p-a/b"));
}

#[test]
fn incomplete_and_unknown_events_are_refused() {
    let bare = |name: &str| Event {
        event: name.to_owned(),
        message: None,
        interface: None,
        reused: None,
    };
    assert_eq!(
        handle_event(bare("ready")),
        Err(PairingError::NoInterface)
    );
    assert_eq!(
        handle_event(bare("error")).unwrap_err().text(),
        "Pairing service: unspecified error"
    );
    assert_eq!(
        handle_event(bare("moved")),
        Err(PairingError::UnknownEvent("moved".to_owned()))
    );
    assert_eq!(handle_event(bare("status")), Ok(Progress::Status(None)));
    let mut ready = bare("ready");
    ready.interface = Some("p2p-wlo1-1".to_owned());
    assert_eq!(handle_event(ready), Err(PairingError::NoReused));
    assert_eq!(
        deadline(u64::MAX, 1, 0),
        Err(PairingError::TimeoutTooLarge)
    );
}

#[test]
fn clients_that_are_given_up_ask_for_nothing() {
    assert_eq!(
        Client::new("aa:bb:cc:dd:ee:ff", 1, 0, true, true, 0).err(),
        Some(PairingError::Cancelled)
    );
    assert_eq!(
        Client::new("aa:bb:cc:dd:ee:ff", 1, 0, true, false, u64::MAX).err(),
        Some(PairingError::TimeoutTooLarge)
    );
    let (mut client, _) = Client::new("aa:bb:cc:dd:ee:ff", 1, 0, true, false, 0).unwrap();
    assert_eq!(
        client.advance(Reply::Closed, false, 0),
        Err(PairingError::Unexpected)
    );
    client.advance(Reply::Done, false, 0).unwrap();
    client.advance(Reply::Done, false, 0).unwrap();
    client.advance(Reply::Byte(b'x'), false, 0).unwrap();
    assert_eq!(
        client.advance(Reply::Byte(b'\n'), false, 0),
        Ok(Task::Parse(b"x".to_vec()))
    );
    assert_eq!(
        client.advance(Reply::Event(Err("expected value".to_owned())), false, 0),
        Err(PairingError::InvalidResponse("expected value".to_owned()))
    );
    assert_eq!(
        PairingError::InvalidResponse("expected value".to_owned()).text(),
        "Invalid pairing service response: expected value"
    );
    assert!(check_wait(false, 0, 1).is_ok());
}

#[test]
fn connections_end_with_a_line_and_three_seconds() {
    assert_eq!(
        disconnect_request(),
        b"{\"operation\":\"disconnect\"}\n".to_vec()
    );
    assert!(drains(2999));
    assert!(!drains(3000));
}
