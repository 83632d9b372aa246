use remote_screen::number::NumberError;
use remote_screen::rtsp::{Decoder, Message, RtspError, MAX_MESSAGE};
use remote_screen::session::{
    accepts_peer, check_accept, write_reply, write_request, Action, Chunk, Session,
};
use remote_screen::wfd::{
    check_response, is_initial_connection_timeout, normalize_rtcp, parameters, parse_ports,
    parse_transport, supports_aac, supports_rhp2, video_descriptor, Config, Event, Ip, Pending,
    Profile, WfdError,
};

const LOCALHOST: Ip = Ip::V4(0x7f00_0001);

#[test]
fn decoder_handles_every_fragment_boundary_and_coalesced_messages() {
    let wire = b"RTSP/1.0 200 OK\r\nCSeq: 3\r\nContent-Length: 5\r\n\r\nhelloOPTIONS * RTSP/1.0\r\nCSeq: 9\r\n\r\n";
    for boundary in 0..wire.len() {
        let mut decoder = Decoder::default();
        decoder.bytes.extend_from_slice(&wire[..boundary]);
        let first = decoder.next().unwrap();
        decoder.bytes.extend_from_slice(&wire[boundary..]);
        let first = first.or_else(|| decoder.next().unwrap()).unwrap();
        assert_eq!(first.body, "hello");
        assert_eq!(first.cseq().unwrap(), 3);
        let second = decoder.next().unwrap().unwrap();
        assert_eq!(second.method(), "OPTIONS");
        assert!(decoder.next().unwrap().is_none());
    }
}

#[test]
fn decoder_rejects_ambiguous_or_unbounded_lengths() {
    for headers in [
        "Content-Length: 1\r\nContent-Length: 2",
        "Content-Length: 999999999",
        "Content-Length: -1",
    ] {
        let mut d = Decoder {
            bytes: format!("RTSP/1.0 200 OK\r\nCSeq: 1\r\n{headers}\r\n\r\n").into_bytes(),
        };
        assert!(d.next().is_err());
    }
}

#[test]
fn codec_rejection_does_not_advance_to_setup() {
    assert!(check_response(Pending::Parameters, 400).is_err());
    assert!(check_response(Pending::Parameters, 406).is_err());
    assert!(check_response(Pending::Parameters, 200).is_ok());
}

#[test]
fn descriptors_match_the_verified_tv_negotiation() {
    let mut c = Config::default();
    assert_eq!(
        video_descriptor(&c).unwrap(),
        (
            "wfd2_video_formats",
            "00 02 01 0004 000000000100 000000000000 000000000000 00 0000 0000 00 00".to_owned()
        )
    );
    c.profile = Profile::Rhp2;
    assert!(video_descriptor(&c).unwrap().1.starts_with("00 01 04 0010"));
    c.profile = Profile::Baseline;
    assert!(video_descriptor(&c).unwrap().1.contains("00000100"));
    c.fps = 30;
    assert!(video_descriptor(&c).unwrap().1.contains("00000080"));
    c.width = 1280;
    c.height = 720;
    c.fps = 60;
    assert!(video_descriptor(&c).unwrap().1.contains("00000040"));
}

#[test]
fn rhp2_checks_codec_profile_level_and_mode() {
    let body = "wfd2_video_formats: 20 01 04 0040 0000000F97FF 0001555575DF 000000000555 00 0000 0000 1F 00\r\n";
    assert!(supports_rhp2(body));
    for invalid in [
        body.replace("01 04", "02 04"),
        body.replace("0040", "0008"),
        body.replace("0F97FF", "0F96FF"),
        body.replace("0040", "0030"),
    ] {
        assert!(!supports_rhp2(&invalid));
    }
}

#[test]
fn parses_tv_transport_and_aac() {
    assert_eq!(
        parse_ports("RTP/AVP/UDP;unicast 53000 0 mode=play").unwrap(),
        (53000, Some(53001))
    );
    assert_eq!(
        parse_transport("RTP/AVP/UDP;unicast;client_port=53000-53001").unwrap(),
        (53000, Some(53001))
    );
    assert!(parse_transport("RTP/AVP/TCP;unicast;interleaved=0-1").is_err());
    assert_eq!(
        parse_transport("RTP/AVP/UDP;unicast;client_port=53000-0").unwrap(),
        (53000, Some(53001))
    );
    assert_eq!(
        parse_ports("RTP/AVP/UDP;unicast 53000 53000 mode=play").unwrap(),
        (53000, Some(53001))
    );
    assert!(parse_ports("RTP/AVP/UDP;unicast 65535 0 mode=play").is_err());
    assert!(supports_aac("LPCM 00000003 00, AAC 00000001 00"));
    assert!(!supports_aac("AAC 00000002 00"));
}

// A receiver that talks to a session over a wire of two buffers.
struct Tv {
    session: Session,
    decoder: Decoder,
    events: Vec<Event>,
    over: bool,
}

impl Tv {
    fn read(&mut self) -> Message {
        self.decoder.next().unwrap().unwrap()
    }

    fn act(&mut self, actions: Vec<Action<String>>) {
        for action in actions {
            match action {
                Action::Send(text) => self.decoder.feed(text.as_bytes()),
                Action::SendLast(text) => self.decoder.feed(text.as_bytes()),
                Action::Emit(event) => self.events.push(event),
            }
        }
    }

    // Hands bytes to the session in fragments and lets it answer each message.
    fn write(&mut self, bytes: &[u8]) -> Result<(), WfdError<String>> {
        for chunk in bytes.chunks(7) {
            let mut message = self.session.receive(Chunk::Bytes(chunk.to_vec()), 1)?;
            while let Some(m) = message {
                assert!(self.session.has_sequence());
                let (actions, over) = self.session.handle(&m)?;
                self.act(actions);
                if over {
                    self.over = true;
                    return Ok(());
                }
                message = self.session.next_message(1)?;
            }
        }
        Ok(())
    }

    fn respond(&mut self, sequence: u32, status: u16, body: &str) -> Result<(), WfdError<String>> {
        let bytes = format!(
            "RTSP/1.0 {status} Test\r\nCSeq: {sequence}\r\nContent-Length: {}\r\n\r\n{body}",
            body.len()
        );
        self.write(bytes.as_bytes())
    }
}

fn mock_tv(
    reject_configuration: bool,
    idr_capability: Option<bool>,
) -> (Result<(), WfdError<String>>, Vec<Event>) {
    let config = Config {
        timeout_ms: 5000,
        expected_peer: Some(LOCALHOST),
        ..Config::default()
    };
    assert!(accepts_peer(&config, LOCALHOST));
    let (session, hello) = Session::start(&config, "127.0.0.1", LOCALHOST, 42, 0);
    let mut tv = Tv {
        session,
        decoder: Decoder::default(),
        events: Vec::new(),
        over: false,
    };
    tv.decoder.feed(hello.as_bytes());
    let options = tv.read();
    assert_eq!(options.method(), "OPTIONS");
    // A sink OPTIONS request can arrive before its response to source OPTIONS.
    tv.write(b"OPTIONS * RTSP/1.0\r\nCSeq: 101\r\n\r\n")
        .unwrap();
    assert_eq!(tv.read().status(), Some(200));
    tv.respond(options.cseq().unwrap(), 200, "").unwrap();
    let query = tv.read();
    assert_eq!(query.method(), "GET_PARAMETER");
    assert!(query.body.contains("wfd_idr_request_capability\r\n"));
    let idr_parameter = idr_capability
        .map(|capable| format!("wfd_idr_request_capability: {}\r\n", u8::from(capable)))
        .unwrap_or_default();
    tv.respond(
        query.cseq().unwrap(),
        200,
        &format!(
            "wfd_client_rtp_ports: RTP/AVP/UDP;unicast 53000 0 mode=play\r\nwfd_audio_codecs: LPCM 00000003 00, AAC 00000001 00\r\nwfd2_video_formats: none\r\n{idr_parameter}"
        ),
    )
    .unwrap();
    let configuration = tv.read();
    assert!(configuration
        .body
        .contains("wfd2_video_formats: 00 02 01 0004"));
    assert!(configuration
        .body
        .contains("wfd2_audio_codecs: AAC 00000001 00"));
    assert!(configuration
        .body
        .contains("RTP/AVP/UDP;unicast 53000 53001 mode=play"));
    let answered = tv.respond(
        configuration.cseq().unwrap(),
        if reject_configuration { 406 } else { 200 },
        "",
    );
    if let Err(error) = answered {
        return (Err(error), tv.events);
    }
    if !reject_configuration {
        let trigger = tv.read();
        assert!(trigger.body.contains("wfd_trigger_method: SETUP"));
        // SETUP and the M5 response may be read together in either stage.
        tv.respond(trigger.cseq().unwrap(), 200, "").unwrap();
        tv.write(b"SETUP rtsp://localhost/wfd1.0/streamid=0 RTSP/1.0\r\nCSeq: 102\r\nTransport: RTP/AVP/UDP;unicast;client_port=53000-53001\r\n\r\n").unwrap();
        let setup = tv.read();
        assert_eq!(setup.status(), Some(200));
        assert!(setup
            .header("transport")
            .unwrap()
            .contains("server_port=50000-50001"));
        assert!(tv.session.has_media());
        assert_eq!(tv.session.negotiated().target.port, 53000);
        assert_eq!(
            tv.session.negotiated().idr_request_capability,
            idr_capability.unwrap_or(false)
        );
        let id = setup
            .header("session")
            .unwrap()
            .split(';')
            .next()
            .unwrap()
            .to_owned();
        for (index, method) in ["PLAY", "PAUSE", "PLAY", "TEARDOWN"].iter().enumerate() {
            tv.write(format!("{method} rtsp://localhost/wfd1.0/streamid=0 RTSP/1.0\r\nCSeq: {}\r\nSession: {id}\r\n\r\n", 103 + index).as_bytes()).unwrap();
            assert_eq!(tv.read().status(), Some(200));
            if index == 0 {
                let body = "wfd_idr_request\r\n";
                tv.write(format!("SET_PARAMETER rtsp://localhost/wfd1.0/streamid=0 RTSP/1.0\r\nCSeq: 200\r\nSession: {id}\r\nContent-Length: {}\r\n\r\n{body}", body.len()).as_bytes()).unwrap();
                assert_eq!(tv.read().status(), Some(200));
            }
        }
        assert!(tv.over);
    }
    (Ok(()), tv.events)
}

#[test]
fn initial_accept_timeout_remains_retryable_through_error_context() {
    let error = check_accept(false, 10, 10).unwrap_err();
    assert!(is_initial_connection_timeout(&error));
}

#[test]
fn cancellation_takes_precedence_over_accept_timeout() {
    let error = check_accept(true, 0, 0).unwrap_err();
    assert!(error.text().contains("cancelled"));
    assert!(!is_initial_connection_timeout(&error));
}

#[test]
fn connected_tv_negotiation_timeout_is_not_an_accept_timeout() {
    let config = Config {
        timeout_ms: 20,
        expected_peer: Some(LOCALHOST),
        ..Config::default()
    };
    let (session, _) = Session::start(&config, "127.0.0.1", LOCALHOST, 42, 0);
    assert_eq!(session.negotiating(false, 19, 20), Ok(true));
    let error = session.negotiating(false, 20, 20).unwrap_err();
    assert!(error.text().contains("Timed out negotiating"));
    assert!(!is_initial_connection_timeout(&error));
}

#[test]
fn full_rtsp_handshake_and_media_lifecycle() {
    for idr_capability in [Some(true), Some(false), None] {
        let (result, events) = mock_tv(false, idr_capability);
        result.unwrap();
        assert_eq!(
            events,
            vec![
                Event::Play,
                Event::Idr,
                Event::Pause,
                Event::Play,
                Event::Teardown
            ]
        );
    }
}

#[test]
fn rejected_configuration_ends_before_any_media_start() {
    let (result, events) = mock_tv(true, Some(true));
    let error = result.unwrap_err();
    assert!(error.text().contains("RTSP 406"));
    assert!(!is_initial_connection_timeout(&error));
    assert!(events.is_empty());
}

#[test]
fn written_messages_read_back() {
    let mut decoder = Decoder::default();
    decoder.feed(write_request("OPTIONS", "*", 7, &[("Require", "org.wfa.wfd1.0")], "").as_bytes());
    decoder.feed(write_reply(461, 8, &[("Session", "42")], "grün\r\n").as_bytes());
    let request = decoder.next().unwrap().unwrap();
    assert_eq!(request.start, "OPTIONS * RTSP/1.0");
    assert_eq!(request.method(), "OPTIONS");
    assert_eq!(request.cseq().unwrap(), 7);
    assert_eq!(request.header("require"), Some("org.wfa.wfd1.0"));
    assert_eq!(request.body, "");
    let reply = decoder.next().unwrap().unwrap();
    assert_eq!(reply.status(), Some(461));
    assert_eq!(reply.cseq().unwrap(), 8);
    assert_eq!(reply.header("session"), Some("42"));
    assert_eq!(reply.body, "grün\r\n");
    assert!(decoder.bytes.is_empty());
}

fn read_error(bytes: Vec<u8>) -> RtspError<String> {
    Decoder { bytes }.next().err().unwrap()
}

#[test]
fn streams_that_are_no_messages_are_refused() {
    assert_eq!(
        read_error(vec![b'x'; MAX_MESSAGE + 1]),
        RtspError::HeadersTooLong
    );
    assert_eq!(
        read_error(b"HTTP/1.1 200 OK\r\n\r\n".to_vec()),
        RtspError::InvalidStartLine("HTTP/1.1 200 OK".to_owned())
    );
    assert_eq!(
        read_error(b"RTSP/1.0 200 OK\r\nCSeq 1\r\n\r\n".to_vec()),
        RtspError::MalformedHeader
    );
    assert_eq!(
        read_error(b"RTSP/1.0 200 OK\r\nCSeq: 1\r\ncseq: 1\r\n\r\n".to_vec()),
        RtspError::DuplicateHeader("cseq".to_owned())
    );
    assert_eq!(
        read_error(b"RTSP/1.0 200 \xff\r\n\r\n".to_vec()),
        RtspError::HeaderEncoding("invalid utf-8 sequence of 1 bytes from index 13".to_owned())
    );
    assert_eq!(
        read_error(b"RTSP/1.0 200 OK\r\nContent-Length: 1\r\n\r\n\xff".to_vec()),
        RtspError::BodyEncoding("invalid utf-8 sequence of 1 bytes from index 0".to_owned())
    );
    assert_eq!(
        read_error(b"RTSP/1.0 200 OK\r\nContent-Length: x\r\n\r\n".to_vec()),
        RtspError::InvalidContentLength(NumberError::InvalidDigit)
    );
    assert_eq!(
        read_error(
            b"RTSP/1.0 200 OK\r\nContent-Length: 18446744073709551615\r\n\r\n".to_vec()
        ),
        RtspError::LengthOverflow
    );
    assert_eq!(
        read_error(b"RTSP/1.0 200 OK\r\nContent-Length: 131072\r\n\r\n".to_vec()),
        RtspError::MessageTooLong
    );
    let mut decoder = Decoder {
        bytes: b"RTSP/1.0 200 OK\r\n\r\nRTSP/1.0 200 OK\r\nCSeq: x\r\n\r\n".to_vec(),
    };
    let message = decoder.next().unwrap().unwrap();
    assert_eq!(message.cseq(), Err(RtspError::MissingCSeq));
    let message = decoder.next().unwrap().unwrap();
    let error = message.cseq().unwrap_err();
    assert_eq!(error, RtspError::InvalidCSeq(NumberError::InvalidDigit));
    assert_eq!(
        error.text(),
        "Invalid RTSP CSeq: invalid digit found in string"
    );
}

#[test]
fn more_bytes_mend_no_error() {
    let mut decoder = Decoder {
        bytes: b"RTSP/1.0 200 OK\r\nCSeq 1\r\n\r\n".to_vec(),
    };
    assert!(decoder.next().is_err());
    decoder.feed(b"OPTIONS * RTSP/1.0\r\nCSeq: 9\r\n\r\n");
    assert!(decoder.next().is_err());
    let mut long = Decoder {
        bytes: vec![b'x'; MAX_MESSAGE + 1],
    };
    assert!(long.next().is_err());
    long.feed(b"\r\n\r\n");
    assert!(long.next().is_err());
}

#[test]
fn ports_that_cannot_be_used_are_refused() {
    assert_eq!(normalize_rtcp(53000, None), Ok(53001));
    assert_eq!(normalize_rtcp(53000, Some(53005)), Ok(53005));
    assert_eq!(normalize_rtcp(65535, None), Err(WfdError::NoRtcpPort));
    assert_eq!(
        parse_ports("RTP/AVP/UDP;unicast 0 0 mode=play"),
        Err(WfdError::ZeroRtpPort)
    );
    assert_eq!(
        parse_transport("RTP/AVP/UDP;unicast"),
        Err(WfdError::NoClientPort)
    );
    assert_eq!(
        parse_transport("RTP/AVP/UDP;unicast;client_port=x"),
        Err(WfdError::InvalidPort(NumberError::InvalidDigit))
    );
    assert_eq!(
        parse_transport("RTP/AVP/UDP;unicast;client_port="),
        Err(WfdError::InvalidPort(NumberError::Empty))
    );
    assert_eq!(
        parse_ports("RTP/AVP/UDP;unicast 1 65536 mode=play")
            .unwrap_err()
            .text(),
        "number too large to fit in target type"
    );
}

#[test]
fn modes_without_a_number_are_refused() {
    let mut config = Config::default();
    config.width = 640;
    assert_eq!(
        video_descriptor(&config).unwrap_err().text(),
        "Unsupported WFD mode: 640x1080@60"
    );
    let mut config = Config::default();
    config.fps = 30;
    assert_eq!(video_descriptor(&config), Err(WfdError::RequiresFullHd));
}

#[test]
fn parameters_are_pairs_of_lines() {
    let fields = parameters("a: 1\r\nno pair\r\nb : two : three\r\na: 4\r\n");
    assert_eq!(fields.get("a"), Some("4"));
    assert_eq!(fields.get("b"), Some("two : three"));
    assert!(!fields.has("no pair"));
}

fn ready_session() -> (Tv, String) {
    let config = Config {
        expected_peer: Some(LOCALHOST),
        audio: false,
        ..Config::default()
    };
    let (session, hello) = Session::start(&config, "127.0.0.1", LOCALHOST, 42, 0);
    let mut tv = Tv {
        session,
        decoder: Decoder::default(),
        events: Vec::new(),
        over: false,
    };
    tv.decoder.feed(hello.as_bytes());
    let options = tv.read();
    tv.respond(options.cseq().unwrap(), 200, "").unwrap();
    tv.write(b"OPTIONS * RTSP/1.0\r\nCSeq: 1\r\n\r\n").unwrap();
    tv.read();
    let query = tv.read();
    tv.respond(
        query.cseq().unwrap(),
        200,
        "wfd_client_rtp_ports: RTP/AVP/UDP;unicast 53000 0 mode=play\r\n",
    )
    .unwrap();
    let configuration = tv.read();
    (tv, format!("{}", configuration.cseq().unwrap()))
}

#[test]
fn requests_out_of_order_are_answered_and_start_nothing() {
    let (mut tv, _) = ready_session();
    // The parameters are not accepted yet.
    tv.write(b"SETUP rtsp://localhost/ RTSP/1.0\r\nCSeq: 5\r\nTransport: RTP/AVP/UDP;unicast;client_port=53000-53001\r\n\r\n").unwrap();
    let refused = tv.read();
    assert_eq!(refused.status(), Some(455));
    assert_eq!(refused.cseq().unwrap(), 5);
    tv.write(b"PLAY rtsp://localhost/ RTSP/1.0\r\nCSeq: 6\r\n\r\n")
        .unwrap();
    assert_ne!(tv.read().status(), Some(200));
    tv.write(b"RECORD rtsp://localhost/ RTSP/1.0\r\nCSeq: 7\r\n\r\n")
        .unwrap();
    assert_eq!(tv.read().status(), Some(501));
    assert!(tv.events.is_empty());
}

#[test]
fn responses_to_no_request_end_the_session() {
    let (mut tv, _) = ready_session();
    assert_eq!(
        tv.respond(4711, 200, ""),
        Err(WfdError::UnmatchedResponse)
    );
}

#[test]
fn silence_ends_the_session() {
    let config = Config::default();
    let (mut session, _) = Session::start(&config, "127.0.0.1", LOCALHOST, 42, 0);
    assert!(session.check_alive(0).is_ok());
    assert_eq!(
        session.check_alive(10_000_000),
        Err(WfdError::KeepaliveTimeout)
    );
    assert_eq!(
        session.receive(Chunk::Closed, 1).err(),
        Some(WfdError::Closed)
    );
    assert!(session.receive(Chunk::Nothing, 1).unwrap().is_none());
    let (actions, over) = session.due(true, 1);
    assert!(over);
    assert!(!actions.is_empty());
}
