use remote_screen::dialogue::{Dialogue, Input, Turn};
use remote_screen::rtsp::{Decoder, Message};
use remote_screen::session::{Action, Chunk};
use remote_screen::wfd::{is_initial_connection_timeout, Config, Event, Ip, WfdError};

const LOCALHOST: Ip = Ip::V4(0x7f00_0001);

struct Talk {
    dialogue: Dialogue,
    turn: Turn,
    decoder: Decoder,
    events: Vec<Event>,
    stop: bool,
    now: u64,
}

impl Talk {
    fn new(config: &Config) -> Talk {
        let (dialogue, turn) = Dialogue::start(config, "127.0.0.1:7236", LOCALHOST, 42, 0, 5000);
        Talk {
            dialogue,
            turn,
            decoder: Decoder::default(),
            events: Vec::new(),
            stop: false,
            now: 1,
        }
    }

    // Takes turns until bytes are awaited, or until the negotiation or the session is over.
    fn go(&mut self) -> Result<(), WfdError<String>> {
        loop {
            let turn = std::mem::replace(&mut self.turn, Turn::Read);
            match turn {
                Turn::Act(actions) => {
                    for action in actions {
                        match action {
                            Action::Send(text) => self.decoder.feed(text.as_bytes()),
                            Action::SendLast(text) => self.decoder.feed(text.as_bytes()),
                            Action::Emit(event) => self.events.push(event),
                        }
                    }
                    self.turn = self.dialogue.advance(Input::Done, self.stop, self.now)?;
                }
                other => {
                    self.turn = other;
                    return Ok(());
                }
            }
        }
    }

    fn write(&mut self, bytes: &[u8]) -> Result<(), WfdError<String>> {
        self.go()?;
        assert_eq!(self.turn, Turn::Read);
        let chunk = Chunk::Bytes(bytes.to_vec());
        self.turn = self
            .dialogue
            .advance(Input::Chunk(chunk), self.stop, self.now)?;
        self.go()
    }

    fn read(&mut self) -> Message {
        self.decoder.next().unwrap().unwrap()
    }

    fn respond(&mut self, to: &Message, body: &str) -> Result<(), WfdError<String>> {
        let text = format!(
            "RTSP/1.0 200 OK\r\nCSeq: {}\r\nContent-Length: {}\r\n\r\n{body}",
            to.cseq().unwrap(),
            body.len()
        );
        self.write(text.as_bytes())
    }
}

fn config() -> Config {
    Config {
        expected_peer: Some(LOCALHOST),
        audio: false,
        ..Config::default()
    }
}

fn agreed() -> Talk {
    let mut talk = Talk::new(&config());
    talk.go().unwrap();
    let options = talk.read();
    // Two messages in one piece.
    let both = format!(
        "OPTIONS * RTSP/1.0\r\nCSeq: 1\r\n\r\nRTSP/1.0 200 OK\r\nCSeq: {}\r\n\r\n",
        options.cseq().unwrap()
    );
    talk.write(both.as_bytes()).unwrap();
    assert_eq!(talk.read().status(), Some(200));
    let query = talk.read();
    assert_eq!(query.method(), "GET_PARAMETER");
    talk.respond(
        &query,
        "wfd_client_rtp_ports: RTP/AVP/UDP;unicast 53000 0 mode=play\r\n",
    )
    .unwrap();
    let parameters = talk.read();
    talk.respond(&parameters, "").unwrap();
    let trigger = talk.read();
    assert!(trigger.body.contains("SETUP"));
    talk.respond(&trigger, "").unwrap();
    // A wish for a key frame is answered, but nothing plays yet.
    talk.write(b"SET_PARAMETER rtsp://localhost/ RTSP/1.0\r\nCSeq: 2\r\nContent-Length: 17\r\n\r\nwfd_idr_request\r\n").unwrap();
    assert_eq!(talk.read().status(), Some(200));
    assert!(talk.events.is_empty());
    talk.write(b"SETUP rtsp://localhost/ RTSP/1.0\r\nCSeq: 3\r\nTransport: RTP/AVP/UDP;unicast;client_port=53000-53001\r\n\r\n").unwrap();
    assert_eq!(talk.read().status(), Some(200));
    assert_eq!(talk.turn, Turn::Agreed);
    assert_eq!(talk.dialogue.negotiated().target.port, 53000);
    talk
}

#[test]
fn talks_go_from_the_options_to_the_teardown() {
    let mut talk = agreed();
    talk.turn = talk.dialogue.advance(Input::Serve, false, 2).unwrap();
    talk.go().unwrap();
    assert_eq!(talk.turn, Turn::Read);
    talk.write(b"PLAY rtsp://localhost/ RTSP/1.0\r\nCSeq: 4\r\n\r\n")
        .unwrap();
    assert_eq!(talk.read().status(), Some(200));
    assert_eq!(talk.events, vec![Event::Play, Event::Tick]);
    talk.write(b"TEARDOWN rtsp://localhost/ RTSP/1.0\r\nCSeq: 5\r\n\r\n")
        .unwrap();
    assert_eq!(talk.read().status(), Some(200));
    assert_eq!(
        talk.events,
        vec![Event::Play, Event::Tick, Event::Teardown]
    );
    assert_eq!(talk.turn, Turn::Over);
}

#[test]
fn users_end_the_session_in_order() {
    let mut talk = agreed();
    talk.turn = talk.dialogue.advance(Input::Serve, false, 2).unwrap();
    talk.go().unwrap();
    talk.stop = true;
    talk.turn = talk
        .dialogue
        .advance(Input::Chunk(Chunk::Nothing), true, 3)
        .unwrap();
    talk.go().unwrap();
    assert_eq!(talk.turn, Turn::Over);
    assert_eq!(talk.events, vec![Event::Tick, Event::Teardown]);
    assert!(talk.read().body.contains("wfd_trigger_method: TEARDOWN"));
}

#[test]
fn signs_of_life_are_sent_and_wanted() {
    let mut talk = agreed();
    talk.turn = talk.dialogue.advance(Input::Serve, false, 2).unwrap();
    talk.go().unwrap();
    talk.now = 15_001;
    talk.turn = talk
        .dialogue
        .advance(Input::Chunk(Chunk::Nothing), false, 15_001)
        .unwrap();
    talk.go().unwrap();
    assert_eq!(talk.read().method(), "GET_PARAMETER");
    talk.now = 45_002;
    talk.turn = talk
        .dialogue
        .advance(Input::Chunk(Chunk::Nothing), false, 45_002)
        .unwrap();
    assert_eq!(talk.go(), Err(WfdError::KeepaliveTimeout));
}

#[test]
fn negotiations_end_in_time() {
    let mut talk = Talk::new(&config());
    talk.go().unwrap();
    assert_eq!(
        talk.dialogue
            .advance(Input::Chunk(Chunk::Nothing), false, 5000),
        Err(WfdError::NegotiationTimeout)
    );
    let mut talk = Talk::new(&config());
    talk.go().unwrap();
    assert_eq!(
        talk.dialogue.advance(Input::Chunk(Chunk::Nothing), true, 1),
        Err(WfdError::Cancelled)
    );
    let mut talk = Talk::new(&config());
    talk.go().unwrap();
    assert_eq!(
        talk.dialogue.advance(Input::Chunk(Chunk::Closed), false, 1),
        Err(WfdError::Closed)
    );
    let mut talk = Talk::new(&config());
    assert_eq!(
        talk.dialogue.advance(Input::Serve, false, 1),
        Err(WfdError::Unexpected)
    );
}

#[test]
fn probes_end_with_the_capabilities() {
    let mut talk = Talk::new(&Config {
        probe_codecs: true,
        ..config()
    });
    talk.go().unwrap();
    let options = talk.read();
    talk.respond(&options, "").unwrap();
    talk.write(b"OPTIONS * RTSP/1.0\r\nCSeq: 1\r\n\r\n").unwrap();
    talk.read();
    let query = talk.read();
    talk.respond(&query, "wfd_video_formats: none\r\n").unwrap();
    assert_eq!(talk.turn, Turn::Agreed);
    assert_eq!(
        talk.dialogue.negotiated().raw_capabilities,
        "wfd_video_formats: none\r\n"
    );
    assert_eq!(
        talk.dialogue.advance(Input::Serve, false, 2),
        Ok(Turn::Over)
    );
}

#[test]
fn connected_receivers_are_not_absent() {
    let config = Config::default();
    let mut closed = Talk::new(&config);
    closed.go().unwrap();
    let error = closed
        .dialogue
        .advance(Input::Chunk(Chunk::Closed), false, 1)
        .unwrap_err();
    assert!(!is_initial_connection_timeout(&error));
    let mut late = Talk::new(&config);
    late.go().unwrap();
    let error = late
        .dialogue
        .advance(Input::Chunk(Chunk::Nothing), false, 5000)
        .unwrap_err();
    assert_eq!(error, WfdError::NegotiationTimeout);
    assert!(!is_initial_connection_timeout(&error));
}
