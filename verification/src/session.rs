//! A Wi-Fi Display session of the source: what it sends, what it answers and what it
//! asks of the media, for every message that the receiver sends.
use crate::fields::Fields;
use crate::number;
use crate::rtsp::{Decoder, Message};
use crate::rtsp;
use crate::text;
use crate::wfd::{
    Config, Endpoint, Event, Ip, Pending, Profile, WfdError, LOCAL_RTCP_PORT, LOCAL_RTP_PORT,
};
use crate::wfd;
use std::collections::BTreeMap;
use vstd::prelude::*;

verus! {

/// Something that is to be done, in order. Where one fails, those behind it are not done.
#[derive(Debug, PartialEq, Eq)]
pub enum Action<T> {
    /// Send a message.
    Send(T),
    /// Send a message with which the session ends; its failure changes nothing.
    SendLast(T),
    /// Tell the media.
    Emit(Event),
}

impl Action<String> {
    /// The action with its message as a sequence.
    pub open spec fn view(self) -> Action<Seq<char>> {
        match self {
            Action::Send(s) => Action::Send(s@),
            Action::SendLast(s) => Action::SendLast(s@),
            Action::Emit(e) => Action::Emit(e),
        }
    }
}

/// Actions with their messages as sequences.
pub open spec fn actions_of(v: Seq<Action<String>>) -> Seq<Action<Seq<char>>> {
    Seq::new(v.len(), |i: int| v[i].view())
}

/// What was agreed with the receiver.
#[derive(Debug)]
pub struct Negotiated {
    pub target: Endpoint,
    pub rtcp_target: Option<Endpoint>,
    pub idr_request_capability: bool,
    pub raw_capabilities: String,
    pub probe_only: bool,
}

/// What was agreed with the receiver.
pub ghost struct NegotiatedModel {
    pub target: Endpoint,
    pub rtcp_target: Option<Endpoint>,
    pub idr_request_capability: bool,
    pub raw_capabilities: Seq<char>,
    pub probe_only: bool,
}

impl View for Negotiated {
    type V = NegotiatedModel;

    open spec fn view(&self) -> NegotiatedModel {
        NegotiatedModel {
            target: self.target,
            rtcp_target: self.rtcp_target,
            idr_request_capability: self.idr_request_capability,
            raw_capabilities: self.raw_capabilities@,
            probe_only: self.probe_only,
        }
    }
}

/// The state of a session. Times are in milliseconds.
pub ghost struct SessionModel {
    pub bytes: Seq<u8>,
    pub pending: Map<u32, Pending>,
    pub next_cseq: int,
    pub presentation: Seq<char>,
    pub session_id: Seq<char>,
    pub negotiated: NegotiatedModel,
    pub config: Config,
    pub options_reply: bool,
    pub sink_options: bool,
    pub capabilities_sent: bool,
    pub parameters_accepted: bool,
    pub setup_done: bool,
    pub last_received: int,
    pub last_keepalive: int,
}

/// A session with one receiver.
pub struct Session {
    decoder: Decoder,
    pending: BTreeMap<u32, Pending>,
    next_cseq: u32,
    presentation: String,
    session_id: String,
    negotiated: Negotiated,
    config: Config,
    options_reply: bool,
    sink_options: bool,
    capabilities_sent: bool,
    parameters_accepted: bool,
    setup_done: bool,
    last_received: u64,
    last_keepalive: u64,
}

impl View for Session {
    type V = SessionModel;

    closed spec fn view(&self) -> SessionModel {
        SessionModel {
            bytes: self.decoder.bytes@,
            pending: self.pending@,
            next_cseq: self.next_cseq as int,
            presentation: self.presentation@,
            session_id: self.session_id@,
            negotiated: self.negotiated@,
            config: self.config,
            options_reply: self.options_reply,
            sink_options: self.sink_options,
            capabilities_sent: self.capabilities_sent,
            parameters_accepted: self.parameters_accepted,
            setup_done: self.setup_done,
            last_received: self.last_received as int,
            last_keepalive: self.last_keepalive as int,
        }
    }
}

// ---------------------------------------------------------------------------
// What is written
// ---------------------------------------------------------------------------

/// Header lines.
pub open spec fn headers_text(headers: Seq<(Seq<char>, Seq<char>)>) -> Seq<char>
    decreases headers.len(),
{
    if headers.len() == 0 {
        Seq::empty()
    } else {
        headers_text(headers.drop_last()) + headers.last().0 + ": "@ + headers.last().1 + "\r\n"@
    }
}

/// The header lines that go with a body, and the body.
pub open spec fn body_text(body: Seq<char>) -> Seq<char> {
    (if body.len() == 0 {
        Seq::empty()
    } else {
        "Content-Type: text/parameters\r\n"@
    }) + "Content-Length: "@ + number::decimal(vstd::utf8::encode_utf8(body).len() as int)
        + "\r\n\r\n"@ + body
}

/// A request.
pub open spec fn request_text(
    method: Seq<char>,
    uri: Seq<char>,
    sequence: int,
    headers: Seq<(Seq<char>, Seq<char>)>,
    body: Seq<char>,
) -> Seq<char> {
    method + " "@ + uri + " RTSP/1.0\r\nCSeq: "@ + number::decimal(sequence) + "\r\n"@
        + headers_text(headers) + body_text(body)
}

/// The words for a status.
pub open spec fn reason(status: int) -> Seq<char> {
    if status == 200 {
        "OK"@
    } else if status == 400 {
        "Bad Request"@
    } else if status == 454 {
        "Session Not Found"@
    } else if status == 455 {
        "Method Not Valid in This State"@
    } else if status == 461 {
        "Unsupported Transport"@
    } else {
        "Not Implemented"@
    }
}

/// A response.
pub open spec fn reply_text(
    status: int,
    sequence: int,
    headers: Seq<(Seq<char>, Seq<char>)>,
    body: Seq<char>,
) -> Seq<char> {
    "RTSP/1.0 "@ + number::decimal(status) + " "@ + reason(status) + "\r\nCSeq: "@
        + number::decimal(sequence) + "\r\n"@ + headers_text(headers) + body_text(body)
}

/// Headers as sequences.
pub open spec fn header_views(headers: Seq<(&str, &str)>) -> Seq<(Seq<char>, Seq<char>)> {
    Seq::new(headers.len(), |i: int| (headers[i].0@, headers[i].1@))
}

/// The header lines behind `out`.
fn push_headers(out: &mut String, headers: &[(&str, &str)])
    ensures
        final(out)@ == old(out)@ + headers_text(header_views(headers@)),
{
    let ghost all = header_views(headers@);
    let mut i: usize = 0;
    proof {
        assert(all.take(0) =~= Seq::<(Seq<char>, Seq<char>)>::empty());
        assert(out@ + Seq::<char>::empty() =~= out@);
    }
    while i < headers.len()
        invariant
            i <= headers@.len(),
            all == header_views(headers@),
            out@ == old(out)@ + headers_text(all.take(i as int)),
        decreases headers@.len() - i,
    {
        proof {
            assert(all.take(i + 1).drop_last() =~= all.take(i as int));
        }
        let ghost before = out@;
        out.append(headers[i].0);
        out.append(": ");
        out.append(headers[i].1);
        out.append("\r\n");
        proof {
            assert(out@ =~= old(out)@ + headers_text(all.take(i + 1)));
        }
        i = i + 1;
    }
    proof {
        assert(all.take(i as int) =~= all);
    }
}

/// The body and its header lines behind `out`.
fn push_body(out: &mut String, body: &str)
    ensures
        final(out)@ == old(out)@ + body_text(body@),
{
    let ghost start = out@;
    let length: usize = body.as_bytes().len();
    if !body.is_empty() {
        out.append("Content-Type: text/parameters\r\n");
    }
    out.append("Content-Length: ");
    out.append(number::decimal_text(length as u64).as_str());
    out.append("\r\n\r\n");
    out.append(body);
    proof {
        assert(out@ =~= start + body_text(body@));
    }
}

/// A request.
pub fn write_request(
    method: &str,
    uri: &str,
    sequence: u32,
    headers: &[(&str, &str)],
    body: &str,
) -> (r: String)
    ensures
        r@ == request_text(method@, uri@, sequence as int, header_views(headers@), body@),
{
    let mut out = method.to_owned();
    out.append(" ");
    out.append(uri);
    out.append(" RTSP/1.0\r\nCSeq: ");
    out.append(number::decimal_text(sequence as u64).as_str());
    out.append("\r\n");
    push_headers(&mut out, headers);
    push_body(&mut out, body);
    out
}

/// The words for a status.
fn reason_text(status: u16) -> (r: &'static str)
    ensures
        r@ == reason(status as int),
{
    match status {
        200 => "OK",
        400 => "Bad Request",
        454 => "Session Not Found",
        455 => "Method Not Valid in This State",
        461 => "Unsupported Transport",
        _ => "Not Implemented",
    }
}

/// A response.
pub fn write_reply(status: u16, sequence: u32, headers: &[(&str, &str)], body: &str) -> (r: String)
    ensures
        r@ == reply_text(status as int, sequence as int, header_views(headers@), body@),
{
    let mut out = "RTSP/1.0 ".to_owned();
    out.append(number::decimal_text(status as u64).as_str());
    out.append(" ");
    out.append(reason_text(status));
    out.append("\r\nCSeq: ");
    out.append(number::decimal_text(sequence as u64).as_str());
    out.append("\r\n");
    push_headers(&mut out, headers);
    push_body(&mut out, body);
    out
}

// ---------------------------------------------------------------------------
// What a session does
// ---------------------------------------------------------------------------

/// What a message leads to: the state behind it, and either what is to be done and
/// whether the session is over, or why it failed.
pub ghost struct Outcome {
    pub state: SessionModel,
    pub result: Result<(Seq<Action<Seq<char>>>, bool), WfdError<Seq<char>>>,
}

/// The state behind a request of the source.
pub open spec fn after_request(s: SessionModel, kind: Pending) -> SessionModel {
    SessionModel {
        pending: s.pending.insert(s.next_cseq as u32, kind),
        next_cseq: s.next_cseq + 1,
        ..s
    }
}

/// What the source asks the receiver for.
pub open spec fn capability_query(config: Config) -> Seq<char> {
    if config.probe_codecs {
        "wfd_client_rtp_ports\r\nwfd_audio_codecs\r\nwfd2_audio_codecs\r\nwfd_video_formats\r\nwfd2_video_formats\r\nwfdx_video_formats\r\n"@
    } else if config.profile == Profile::Baseline {
        "wfd_client_rtp_ports\r\nwfd_audio_codecs\r\nwfd_video_formats\r\nwfd_idr_request_capability\r\n"@
    } else {
        "wfd_client_rtp_ports\r\nwfd_audio_codecs\r\nwfd2_audio_codecs\r\nwfd2_video_formats\r\nwfd_idr_request_capability\r\n"@
    }
}

/// Whether it is time to ask for the capabilities: once, when both sides have exchanged
/// their options.
pub open spec fn ready_to_query(s: SessionModel) -> bool {
    s.options_reply && s.sink_options && !s.capabilities_sent
}

/// The state behind the question for the capabilities, if it is time for it.
pub open spec fn after_query(s: SessionModel) -> SessionModel {
    if ready_to_query(s) {
        after_request(SessionModel { capabilities_sent: true, ..s }, Pending::Capabilities)
    } else {
        s
    }
}

/// The question for the capabilities, if it is time for it.
pub open spec fn query_actions(s: SessionModel) -> Seq<Action<Seq<char>>> {
    if ready_to_query(s) {
        seq![
            Action::Send(
                request_text(
                    "GET_PARAMETER"@,
                    "rtsp://localhost/wfd1.0"@,
                    s.next_cseq,
                    Seq::empty(),
                    capability_query(s.config),
                ),
            ),
        ]
    } else {
        Seq::empty()
    }
}

/// The state that holds the capabilities of the receiver.
pub open spec fn with_capabilities(s: SessionModel, body: Seq<char>) -> SessionModel {
    let params = wfd::parameter_map(text::lines(body));
    SessionModel {
        negotiated: NegotiatedModel {
            raw_capabilities: body,
            idr_request_capability: params.contains_key("wfd_idr_request_capability"@)
                && params["wfd_idr_request_capability"@] == "1"@,
            ..s.negotiated
        },
        ..s
    }
}

/// The state with the ports of the receiver.
pub open spec fn with_ports(s: SessionModel, rtp: int, rtcp: int) -> SessionModel {
    let ip = s.negotiated.target.ip;
    SessionModel {
        negotiated: NegotiatedModel {
            target: Endpoint { ip, port: rtp as u16 },
            rtcp_target: Some(Endpoint { ip, port: rtcp as u16 }),
            ..s.negotiated
        },
        ..s
    }
}

/// Whether the receiver plays what the source sends.
pub open spec fn codec_check(
    config: Config,
    params: Map<Seq<char>, Seq<char>>,
    body: Seq<char>,
) -> Result<(), WfdError<Seq<char>>> {
    let second = params.contains_key("wfd2_audio_codecs"@);
    let first = params.contains_key("wfd_audio_codecs"@);
    let audio = if second {
        params["wfd2_audio_codecs"@]
    } else {
        params["wfd_audio_codecs"@]
    };
    if config.audio && !second && !first {
        Err(WfdError::NoAudio)
    } else if config.audio && !wfd::offers_aac(audio) {
        Err(WfdError::NoAac)
    } else if config.profile == Profile::Rhp2 && !wfd::offers_rhp2(body) {
        Err(WfdError::NoRhp2)
    } else {
        Ok(())
    }
}

/// The parameters that the source selects.
pub open spec fn selection(s: SessionModel, key: Seq<char>, value: Seq<char>, rtp: int, rtcp: int) -> Seq<
    char,
> {
    key + ": "@ + value + "\r\n"@ + (if s.config.profile == Profile::Baseline {
        "wfd_audio_codecs"@
    } else {
        "wfd2_audio_codecs"@
    }) + ": "@ + (if s.config.audio {
        "AAC 00000001 00"@
    } else {
        "none"@
    }) + "\r\nwfd_presentation_URL: "@ + s.presentation
        + " none\r\nwfd_client_rtp_ports: RTP/AVP/UDP;unicast "@ + number::decimal(rtp) + " "@
        + number::decimal(rtcp) + " mode=play\r\n"@
}

/// What is selected for the receiver, which is then told of it.
pub open spec fn selected(s: SessionModel, rtp: int, rtcp: int) -> Outcome {
    match wfd::descriptor(s.config) {
        Err(e) => Outcome { state: s, result: Err(e) },
        Ok((key, value)) => Outcome {
            state: after_request(s, Pending::Parameters),
            result: Ok(
                (
                    seq![
                        Action::Send(
                            request_text(
                                "SET_PARAMETER"@,
                                "rtsp://localhost/wfd1.0"@,
                                s.next_cseq,
                                Seq::empty(),
                                selection(s, key, value, rtp, rtcp),
                            ),
                        ),
                    ],
                    false,
                ),
            ),
        },
    }
}

/// What the capabilities of the receiver lead to.
pub open spec fn on_capabilities(s: SessionModel, body: Seq<char>) -> Outcome {
    let known = with_capabilities(s, body);
    let params = wfd::parameter_map(text::lines(body));
    if s.config.probe_codecs {
        Outcome { state: known, result: Ok((Seq::empty(), false)) }
    } else if !params.contains_key("wfd_client_rtp_ports"@) {
        Outcome { state: known, result: Err(WfdError::NoRtpPorts) }
    } else {
        match wfd::ports_of(params["wfd_client_rtp_ports"@]) {
            Err(e) => Outcome { state: known, result: Err(e) },
            Ok((rtp, rtcp)) => {
                let ported = with_ports(known, rtp, rtcp);
                match codec_check(s.config, params, body) {
                    Err(e) => Outcome { state: ported, result: Err(e) },
                    Ok(_) => selected(ported, rtp, rtcp),
                }
            },
        }
    }
}

/// What a response of the receiver leads to.
pub open spec fn on_response(s: SessionModel, m: rtsp::MessageModel, cseq: int, status: int) -> Outcome {
    let key = cseq as u32;
    if !s.pending.contains_key(key) {
        Outcome { state: s, result: Err(WfdError::UnmatchedResponse) }
    } else {
        let kind = s.pending[key];
        let matched = SessionModel { pending: s.pending.remove(key), ..s };
        if status != 200 {
            Outcome {
                state: matched,
                result: Err(WfdError::Rejected { kind, status: status as u16 }),
            }
        } else {
            match kind {
                Pending::Options => {
                    let next = SessionModel { options_reply: true, ..matched };
                    Outcome { state: after_query(next), result: Ok((query_actions(next), false)) }
                },
                Pending::Capabilities => on_capabilities(matched, m.body),
                Pending::Parameters => {
                    let next = SessionModel { parameters_accepted: true, ..matched };
                    Outcome {
                        state: after_request(next, Pending::Trigger),
                        result: Ok(
                            (
                                seq![
                                    Action::Send(
                                        request_text(
                                            "SET_PARAMETER"@,
                                            "rtsp://localhost/wfd1.0"@,
                                            next.next_cseq,
                                            Seq::empty(),
                                            "wfd_trigger_method: SETUP\r\n"@,
                                        ),
                                    ),
                                ],
                                false,
                            ),
                        ),
                    }
                },
                _ => Outcome { state: matched, result: Ok((Seq::empty(), false)) },
            }
        }
    }
}

/// A reply without a body.
pub open spec fn answer(
    status: int,
    cseq: int,
    headers: Seq<(Seq<char>, Seq<char>)>,
) -> Action<Seq<char>> {
    Action::Send(reply_text(status, cseq, headers, Seq::empty()))
}

/// A reply and nothing else.
pub open spec fn only_answer(
    s: SessionModel,
    status: int,
    cseq: int,
    headers: Seq<(Seq<char>, Seq<char>)>,
) -> Outcome {
    Outcome { state: s, result: Ok((seq![answer(status, cseq, headers)], false)) }
}

/// The methods that the source answers.
pub open spec fn public_methods() -> Seq<char> {
    "org.wfa.wfd1.0, OPTIONS, GET_PARAMETER, SET_PARAMETER, SETUP, PLAY, PAUSE, TEARDOWN"@
}

/// The transport that the source confirms.
pub open spec fn confirmed_transport(rtp: int, rtcp: int) -> Seq<char> {
    "RTP/AVP/UDP;unicast;client_port="@ + number::decimal(rtp) + "-"@ + number::decimal(rtcp)
        + ";server_port="@ + number::decimal(LOCAL_RTP_PORT as int) + "-"@ + number::decimal(
        LOCAL_RTCP_PORT as int,
    )
}

/// What a request for a setup leads to.
pub open spec fn on_setup(s: SessionModel, m: rtsp::MessageModel, cseq: int) -> Outcome {
    let transport = if m.headers.contains_key("transport"@) {
        m.headers["transport"@]
    } else {
        Seq::empty()
    };
    if !s.parameters_accepted {
        only_answer(s, 455, cseq, Seq::empty())
    } else {
        match wfd::transport_ports(transport) {
            Err(_) => only_answer(s, 461, cseq, Seq::empty()),
            Ok((rtp, rtcp)) => only_answer(
                SessionModel { setup_done: true, ..with_ports(s, rtp, rtcp) },
                200,
                cseq,
                seq![
                    ("Transport"@, confirmed_transport(rtp, rtcp)),
                    ("Session"@, s.session_id + ";timeout=60"@),
                ],
            ),
        }
    }
}

/// Whether a request names another session.
pub open spec fn foreign_session(s: SessionModel, m: rtsp::MessageModel) -> bool {
    m.headers.contains_key("session"@) && text::split(m.headers["session"@], ';')[0]
        != s.session_id
}

/// What a request for the media leads to.
pub open spec fn on_media(s: SessionModel, m: rtsp::MessageModel, cseq: int, event: Event) -> Outcome {
    if !s.setup_done {
        only_answer(s, 455, cseq, Seq::empty())
    } else if foreign_session(s, m) {
        only_answer(s, 454, cseq, Seq::empty())
    } else {
        Outcome {
            state: s,
            result: Ok(
                (
                    seq![
                        Action::Emit(event),
                        answer(200, cseq, seq![("Session"@, s.session_id)]),
                    ],
                    event == Event::Teardown,
                ),
            ),
        }
    }
}

/// What parameters of the receiver lead to.
pub open spec fn on_parameters(s: SessionModel, m: rtsp::MessageModel, cseq: int) -> Outcome {
    let params = wfd::parameter_map(text::lines(m.body));
    let idr = params.contains_key("wfd_idr_request"@) || text::trim(m.body) == "wfd_idr_request"@;
    let teardown = params.contains_key("wfd_trigger_method"@) && params["wfd_trigger_method"@]
        == "TEARDOWN"@;
    let asked: Seq<Action<Seq<char>>> = if idr {
        seq![Action::Emit(Event::Idr)]
    } else {
        Seq::empty()
    };
    let ended: Seq<Action<Seq<char>>> = if teardown {
        seq![Action::Emit(Event::Teardown)]
    } else {
        Seq::empty()
    };
    Outcome {
        state: s,
        result: Ok((asked + seq![answer(200, cseq, Seq::empty())] + ended, teardown)),
    }
}

/// What a request of the receiver leads to.
pub open spec fn on_request(s: SessionModel, m: rtsp::MessageModel, cseq: int) -> Outcome {
    let method = m.method();
    if method == "OPTIONS"@ {
        let next = SessionModel { sink_options: true, ..s };
        Outcome {
            state: after_query(next),
            result: Ok(
                (
                    seq![answer(200, cseq, seq![("Public"@, public_methods())])] + query_actions(
                        next,
                    ),
                    false,
                ),
            ),
        }
    } else if method == "SETUP"@ {
        on_setup(s, m, cseq)
    } else if method == "PLAY"@ {
        on_media(s, m, cseq, Event::Play)
    } else if method == "PAUSE"@ {
        on_media(s, m, cseq, Event::Pause)
    } else if method == "TEARDOWN"@ {
        on_media(s, m, cseq, Event::Teardown)
    } else if method == "GET_PARAMETER"@ {
        only_answer(s, 200, cseq, seq![("Session"@, s.session_id)])
    } else if method == "SET_PARAMETER"@ {
        on_parameters(s, m, cseq)
    } else {
        only_answer(s, 501, cseq, Seq::empty())
    }
}

/// What a message of the receiver leads to.
pub open spec fn handled(s: SessionModel, m: rtsp::MessageModel) -> Outcome {
    match m.cseq() {
        Err(e) => Outcome { state: s, result: Err(WfdError::Rtsp(e)) },
        Ok(cseq) => match m.status() {
            Some(status) => on_response(s, m, cseq, status),
            None => on_request(s, m, cseq),
        },
    }
}

/// Whether a result is the one that an outcome gives.
pub open spec fn fulfils(
    r: Result<(Vec<Action<String>>, bool), WfdError<String>>,
    expected: Result<(Seq<Action<Seq<char>>>, bool), WfdError<Seq<char>>>,
) -> bool {
    match expected {
        Ok((actions, over)) => r is Ok && actions_of(r->Ok_0.0@) == actions && r->Ok_0.1 == over,
        Err(e) => r is Err && r->Err_0@ == e,
    }
}

/// The state of a new session.
pub open spec fn initial(
    config: Config,
    local: Seq<char>,
    peer: Ip,
    process: u32,
    now: int,
) -> SessionModel {
    SessionModel {
        bytes: Seq::empty(),
        pending: Map::empty(),
        next_cseq: 1,
        presentation: "rtsp://"@ + local + "/wfd1.0/streamid=0"@,
        session_id: number::hexadecimal(process as int, 8),
        negotiated: NegotiatedModel {
            target: Endpoint { ip: peer, port: 0 },
            rtcp_target: None,
            idr_request_capability: false,
            raw_capabilities: Seq::empty(),
            probe_only: config.probe_codecs,
        },
        config,
        options_reply: false,
        sink_options: false,
        capabilities_sent: false,
        parameters_accepted: false,
        setup_done: false,
        last_received: now,
        last_keepalive: now,
    }
}

/// One action in a list.
fn one(action: Action<String>) -> (r: Vec<Action<String>>)
    ensures
        actions_of(r@) == seq![action.view()],
{
    let mut v: Vec<Action<String>> = Vec::new();
    v.push(action);
    proof {
        assert(actions_of(v@) =~= seq![action.view()]);
    }
    v
}

/// No actions.
fn none() -> (r: Vec<Action<String>>)
    ensures
        actions_of(r@) == Seq::<Action<Seq<char>>>::empty(),
{
    let v: Vec<Action<String>> = Vec::new();
    proof {
        assert(actions_of(v@) =~= Seq::<Action<Seq<char>>>::empty());
    }
    v
}

/// One action behind others.
proof fn lemma_actions_push(v: Seq<Action<String>>, a: Action<String>)
    ensures
        actions_of(v.push(a)) == actions_of(v).push(a.view()),
{
    assert(actions_of(v.push(a)) =~= actions_of(v).push(a.view()));
}

/// A reply without a body.
fn write_answer(status: u16, sequence: u32, headers: &[(&str, &str)]) -> (r: Action<String>)
    ensures
        r.view() == answer(status as int, sequence as int, header_views(headers@)),
{
    proof {
        reveal_strlit("");
        assert(""@ =~= Seq::<char>::empty());
    }
    Action::Send(write_reply(status, sequence, headers, ""))
}

impl Session {
    /// A session with a receiver that has just connected, and its first message.
    pub fn start(config: &Config, local: &str, peer: Ip, process: u32, now: u64) -> (r: (
        Session,
        String,
    ))
        ensures
            r.0@ == after_request(
                initial(*config, local@, peer, process, now as int),
                Pending::Options,
            ),
            r.1@ == request_text(
                "OPTIONS"@,
                "*"@,
                1,
                seq![("Require"@, "org.wfa.wfd1.0"@)],
                Seq::empty(),
            ),
    {
        let mut presentation = "rtsp://".to_owned();
        presentation.append(local);
        presentation.append("/wfd1.0/streamid=0");
        let mut session = Session {
            decoder: Decoder::default(),
            pending: BTreeMap::new(),
            next_cseq: 1,
            presentation,
            session_id: number::hexadecimal_text(process as u64, 8),
            negotiated: Negotiated {
                target: Endpoint { ip: peer, port: 0 },
                rtcp_target: None,
                idr_request_capability: false,
                raw_capabilities: String::new(),
                probe_only: config.probe_codecs,
            },
            config: *config,
            options_reply: false,
            sink_options: false,
            capabilities_sent: false,
            parameters_accepted: false,
            setup_done: false,
            last_received: now,
            last_keepalive: now,
        };
        proof {
            reveal_strlit("");
            assert(""@ =~= Seq::<char>::empty());
            assert(session@ == initial(*config, local@, peer, process, now as int));
        }
        let headers = [("Require", "org.wfa.wfd1.0")];
        proof {
            assert(header_views(headers@) =~= seq![("Require"@, "org.wfa.wfd1.0"@)]);
        }
        let text = session.request("OPTIONS", "*", &headers, "", Pending::Options);
        (session, text)
    }

    /// A request of the source.
    fn request(
        &mut self,
        method: &str,
        uri: &str,
        headers: &[(&str, &str)],
        body: &str,
        kind: Pending,
    ) -> (r: String)
        requires
            old(self)@.next_cseq < u32::MAX,
        ensures
            final(self)@ == after_request(old(self)@, kind),
            r@ == request_text(
                method@,
                uri@,
                old(self)@.next_cseq,
                header_views(headers@),
                body@,
            ),
    {
        let sequence: u32 = self.next_cseq;
        self.next_cseq = sequence + 1;
        self.pending.insert(sequence, kind);
        write_request(method, uri, sequence, headers, body)
    }

    /// A request without headers of its own, to the receiver as a whole.
    fn control(&mut self, method: &str, body: &str, kind: Pending) -> (r: Action<String>)
        requires
            old(self)@.next_cseq < u32::MAX,
        ensures
            final(self)@ == after_request(old(self)@, kind),
            r.view() == Action::Send(
                request_text(
                    method@,
                    "rtsp://localhost/wfd1.0"@,
                    old(self)@.next_cseq,
                    Seq::empty(),
                    body@,
                ),
            ),
    {
        let headers: [(&str, &str); 0] = [];
        proof {
            assert(header_views(headers@) =~= Seq::<(Seq<char>, Seq<char>)>::empty());
        }
        Action::Send(self.request(method, "rtsp://localhost/wfd1.0", &headers, body, kind))
    }

    /// Asks for the capabilities, if it is time for it.
    fn query_capabilities(&mut self, out: &mut Vec<Action<String>>)
        requires
            old(self)@.next_cseq < u32::MAX,
        ensures
            final(self)@ == after_query(old(self)@),
            actions_of(final(out)@) == actions_of(old(out)@) + query_actions(old(self)@),
    {
        let ghost before = out@;
        if self.options_reply && self.sink_options && !self.capabilities_sent {
            self.capabilities_sent = true;
            let body = if self.config.probe_codecs {
                "wfd_client_rtp_ports\r\nwfd_audio_codecs\r\nwfd2_audio_codecs\r\nwfd_video_formats\r\nwfd2_video_formats\r\nwfdx_video_formats\r\n"
            } else {
                match self.config.profile {
                    Profile::Baseline => {
                        "wfd_client_rtp_ports\r\nwfd_audio_codecs\r\nwfd_video_formats\r\nwfd_idr_request_capability\r\n"
                    },
                    _ => {
                        "wfd_client_rtp_ports\r\nwfd_audio_codecs\r\nwfd2_audio_codecs\r\nwfd2_video_formats\r\nwfd_idr_request_capability\r\n"
                    },
                }
            };
            let action = self.control("GET_PARAMETER", body, Pending::Capabilities);
            proof {
                lemma_actions_push(before, action);
            }
            out.push(action);
            proof {
                assert(actions_of(out@) =~= actions_of(before) + query_actions(old(self)@));
            }
        } else {
            proof {
                assert(actions_of(out@) =~= actions_of(before) + query_actions(old(self)@));
            }
        }
    }

    /// Takes over the ports of the receiver.
    fn set_ports(&mut self, rtp: u16, rtcp: u16)
        ensures
            final(self)@ == with_ports(old(self)@, rtp as int, rtcp as int),
    {
        let ip = self.negotiated.target.ip;
        self.negotiated.target = Endpoint { ip, port: rtp };
        self.negotiated.rtcp_target = Some(Endpoint { ip, port: rtcp });
    }

    /// The state of the negotiation.
    pub fn negotiated(&self) -> (r: &Negotiated)
        ensures
            r@ == self@.negotiated,
    {
        &self.negotiated
    }
}

/// Whether the receiver plays what the source sends.
fn check_codecs(config: &Config, params: &Fields, body: &str) -> (r: Result<(), WfdError<String>>)
    ensures
        match codec_check(*config, params@, body@) {
            Ok(_) => r is Ok,
            Err(e) => r is Err && r->Err_0@ == e,
        },
{
    if config.audio {
        let audio = match params.get("wfd2_audio_codecs") {
            Some(audio) => audio,
            None => match params.get("wfd_audio_codecs") {
                Some(audio) => audio,
                None => {
                    return Err(WfdError::NoAudio);
                },
            },
        };
        if !wfd::supports_aac(audio) {
            return Err(WfdError::NoAac);
        }
    }
    match config.profile {
        Profile::Rhp2 => {
            if !wfd::supports_rhp2(body) {
                return Err(WfdError::NoRhp2);
            }
        },
        _ => {},
    }
    Ok(())
}

impl Session {
    /// The parameters that the source selects.
    fn write_selection(&self, key: &str, value: &str, rtp: u16, rtcp: u16) -> (r: String)
        ensures
            r@ == selection(self@, key@, value@, rtp as int, rtcp as int),
    {
        let mut body = key.to_owned();
        body.append(": ");
        body.append(value);
        body.append("\r\n");
        match self.config.profile {
            Profile::Baseline => {
                body.append("wfd_audio_codecs");
            },
            _ => {
                body.append("wfd2_audio_codecs");
            },
        }
        body.append(": ");
        if self.config.audio {
            body.append("AAC 00000001 00");
        } else {
            body.append("none");
        }
        body.append("\r\nwfd_presentation_URL: ");
        body.append(self.presentation.as_str());
        body.append(" none\r\nwfd_client_rtp_ports: RTP/AVP/UDP;unicast ");
        body.append(number::decimal_text(rtp as u64).as_str());
        body.append(" ");
        body.append(number::decimal_text(rtcp as u64).as_str());
        body.append(" mode=play\r\n");
        body
    }

    /// Keeps the capabilities of the receiver, whose parameters are `params`.
    fn keep_capabilities(&mut self, body: &str, params: &Fields)
        requires
            params@ == wfd::parameter_map(text::lines(body@)),
        ensures
            final(self)@ == with_capabilities(old(self)@, body@),
    {
        self.negotiated.raw_capabilities = body.to_owned();
        self.negotiated.idr_request_capability = match params.get("wfd_idr_request_capability") {
            Some(value) => text::same(value, "1"),
            None => false,
        };
    }

    /// Tells the receiver what was selected.
    fn select(&mut self, rtp: u16, rtcp: u16) -> (r: Result<
        (Vec<Action<String>>, bool),
        WfdError<String>,
    >)
        requires
            old(self)@.next_cseq < u32::MAX,
        ensures
            final(self)@ == selected(old(self)@, rtp as int, rtcp as int).state,
            fulfils(r, selected(old(self)@, rtp as int, rtcp as int).result),
    {
        let config = self.config;
        let (key, descriptor) = wfd::video_descriptor(&config)?;
        let body = self.write_selection(key, descriptor.as_str(), rtp, rtcp);
        let action = self.control("SET_PARAMETER", body.as_str(), Pending::Parameters);
        Ok((one(action), false))
    }

    /// The capabilities of the receiver.
    fn handle_capabilities(&mut self, body: &str) -> (r: Result<
        (Vec<Action<String>>, bool),
        WfdError<String>,
    >)
        requires
            old(self)@.next_cseq < u32::MAX,
        ensures
            final(self)@ == on_capabilities(old(self)@, body@).state,
            fulfils(r, on_capabilities(old(self)@, body@).result),
    {
        let params = wfd::parameters(body);
        self.keep_capabilities(body, &params);
        if self.config.probe_codecs {
            return Ok((none(), false));
        }
        let value = match params.get("wfd_client_rtp_ports") {
            None => {
                return Err(WfdError::NoRtpPorts);
            },
            Some(value) => value,
        };
        let (rtp, second) = wfd::parse_ports(value)?;
        let rtcp: u16 = match second {
            Some(port) => port,
            None => 0,
        };
        self.set_ports(rtp, rtcp);
        let config = self.config;
        check_codecs(&config, &params, body)?;
        self.select(rtp, rtcp)
    }

    /// A response of the receiver.
    fn handle_response(&mut self, message: &Message, cseq: u32, status: u16) -> (r: Result<
        (Vec<Action<String>>, bool),
        WfdError<String>,
    >)
        requires
            old(self)@.next_cseq < u32::MAX,
        ensures
            final(self)@ == on_response(
                old(self)@,
                message@,
                cseq as int,
                status as int,
            ).state,
            fulfils(
                r,
                on_response(old(self)@, message@, cseq as int, status as int).result,
            ),
    {
        let kind = match self.pending.remove(&cseq) {
            None => {
                proof {
                    assert(self.pending@ =~= old(self).pending@);
                }
                return Err(WfdError::UnmatchedResponse);
            },
            Some(kind) => kind,
        };
        wfd::check_response(kind, status)?;
        match kind {
            Pending::Options => {
                self.options_reply = true;
                let mut out = none();
                self.query_capabilities(&mut out);
                proof {
                    let next = SessionModel {
                        options_reply: true,
                        pending: old(self)@.pending.remove(cseq),
                        ..old(self)@
                    };
                    assert(actions_of(out@) =~= query_actions(next));
                }
                Ok((out, false))
            },
            Pending::Capabilities => self.handle_capabilities(message.body.as_str()),
            Pending::Parameters => {
                self.parameters_accepted = true;
                let action = self.control(
                    "SET_PARAMETER",
                    "wfd_trigger_method: SETUP\r\n",
                    Pending::Trigger,
                );
                Ok((one(action), false))
            },
            _ => Ok((none(), false)),
        }
    }

    /// A request for a setup.
    fn handle_setup(&mut self, message: &Message, cseq: u32) -> (r: Result<
        (Vec<Action<String>>, bool),
        WfdError<String>,
    >)
        ensures
            final(self)@ == on_setup(old(self)@, message@, cseq as int).state,
            fulfils(r, on_setup(old(self)@, message@, cseq as int).result),
    {
        let no_headers: [(&str, &str); 0] = [];
        proof {
            assert(header_views(no_headers@) =~= Seq::<(Seq<char>, Seq<char>)>::empty());
            reveal_strlit("");
            assert(""@ =~= Seq::<char>::empty());
        }
        if !self.parameters_accepted {
            return Ok((one(write_answer(455, cseq, &no_headers)), false));
        }
        let transport = match message.header("transport") {
            Some(transport) => transport,
            None => "",
        };
        let (rtp, second) = match wfd::parse_transport(transport) {
            Ok(ports) => ports,
            Err(_) => {
                return Ok((one(write_answer(461, cseq, &no_headers)), false));
            },
        };
        let rtcp: u16 = match second {
            Some(port) => port,
            None => 0,
        };
        self.set_ports(rtp, rtcp);
        let mut confirmed = "RTP/AVP/UDP;unicast;client_port=".to_owned();
        confirmed.append(number::decimal_text(rtp as u64).as_str());
        confirmed.append("-");
        confirmed.append(number::decimal_text(rtcp as u64).as_str());
        confirmed.append(";server_port=");
        confirmed.append(number::decimal_text(LOCAL_RTP_PORT as u64).as_str());
        confirmed.append("-");
        confirmed.append(number::decimal_text(LOCAL_RTCP_PORT as u64).as_str());
        let mut id = self.session_id.clone();
        id.append(";timeout=60");
        let headers = [("Transport", confirmed.as_str()), ("Session", id.as_str())];
        proof {
            assert(header_views(headers@) =~= seq![
                ("Transport"@, confirmed@),
                ("Session"@, id@),
            ]);
        }
        let reply = write_answer(200, cseq, &headers);
        self.setup_done = true;
        Ok((one(reply), false))
    }

    /// A request for the media.
    fn handle_media(&self, message: &Message, cseq: u32, event: Event) -> (r: Result<
        (Vec<Action<String>>, bool),
        WfdError<String>,
    >)
        ensures
            on_media(self@, message@, cseq as int, event).state == self@,
            fulfils(r, on_media(self@, message@, cseq as int, event).result),
    {
        let no_headers: [(&str, &str); 0] = [];
        proof {
            assert(header_views(no_headers@) =~= Seq::<(Seq<char>, Seq<char>)>::empty());
        }
        if !self.setup_done {
            return Ok((one(write_answer(455, cseq, &no_headers)), false));
        }
        match message.header("session") {
            Some(id) => {
                let chars = text::chars_of(id);
                let parts = text::split_at_char(chars.as_slice(), ';');
                proof {
                    assert(text::views(parts@)[0] == parts@[0]@);
                }
                if !text::is(parts[0].as_slice(), self.session_id.as_str()) {
                    return Ok((one(write_answer(454, cseq, &no_headers)), false));
                }
            },
            None => {},
        }
        let headers = [("Session", self.session_id.as_str())];
        proof {
            assert(header_views(headers@) =~= seq![("Session"@, self.session_id@)]);
        }
        let reply = write_answer(200, cseq, &headers);
        let mut out = one(Action::Emit(event));
        proof {
            lemma_actions_push(out@, reply);
            assert(seq![Action::Emit(event)].push(reply.view()) =~= seq![
                Action::Emit(event),
                reply.view(),
            ]);
        }
        out.push(reply);
        Ok((out, matches!(event, Event::Teardown)))
    }

    /// Parameters of the receiver.
    fn handle_parameters(&self, message: &Message, cseq: u32) -> (r: Result<
        (Vec<Action<String>>, bool),
        WfdError<String>,
    >)
        ensures
            on_parameters(self@, message@, cseq as int).state == self@,
            fulfils(r, on_parameters(self@, message@, cseq as int).result),
    {
        let params = wfd::parameters(message.body.as_str());
        let body = text::chars_of(message.body.as_str());
        let idr = params.has("wfd_idr_request") || text::is(
            text::trimmed(body.as_slice()),
            "wfd_idr_request",
        );
        let teardown = match params.get("wfd_trigger_method") {
            Some(method) => text::same(method, "TEARDOWN"),
            None => false,
        };
        let no_headers: [(&str, &str); 0] = [];
        proof {
            assert(header_views(no_headers@) =~= Seq::<(Seq<char>, Seq<char>)>::empty());
        }
        let mut out = none();
        let ghost start = out@;
        if idr {
            let action = Action::Emit(Event::Idr);
            proof {
                lemma_actions_push(out@, action);
            }
            out.push(action);
        }
        let reply = write_answer(200, cseq, &no_headers);
        proof {
            lemma_actions_push(out@, reply);
        }
        out.push(reply);
        if teardown {
            let action = Action::Emit(Event::Teardown);
            proof {
                lemma_actions_push(out@, action);
            }
            out.push(action);
        }
        proof {
            assert(actions_of(out@) =~= on_parameters(
                self@,
                message@,
                cseq as int,
            ).result->Ok_0.0);
        }
        Ok((out, teardown))
    }

    /// A request of the receiver.
    fn handle_request(&mut self, message: &Message, cseq: u32) -> (r: Result<
        (Vec<Action<String>>, bool),
        WfdError<String>,
    >)
        requires
            old(self)@.next_cseq < u32::MAX,
        ensures
            final(self)@ == on_request(old(self)@, message@, cseq as int).state,
            fulfils(r, on_request(old(self)@, message@, cseq as int).result),
    {
        let method = message.method();
        let name = method.as_str();
        if text::same(name, "OPTIONS") {
            let headers = [
                (
                    "Public",
                    "org.wfa.wfd1.0, OPTIONS, GET_PARAMETER, SET_PARAMETER, SETUP, PLAY, PAUSE, TEARDOWN",
                ),
            ];
            proof {
                assert(header_views(headers@) =~= seq![("Public"@, public_methods())]);
            }
            let mut out = one(write_answer(200, cseq, &headers));
            self.sink_options = true;
            self.query_capabilities(&mut out);
            return Ok((out, false));
        }
        if text::same(name, "SETUP") {
            return self.handle_setup(message, cseq);
        }
        if text::same(name, "PLAY") {
            return self.handle_media(message, cseq, Event::Play);
        }
        if text::same(name, "PAUSE") {
            return self.handle_media(message, cseq, Event::Pause);
        }
        if text::same(name, "TEARDOWN") {
            return self.handle_media(message, cseq, Event::Teardown);
        }
        if text::same(name, "GET_PARAMETER") {
            let headers = [("Session", self.session_id.as_str())];
            proof {
                assert(header_views(headers@) =~= seq![("Session"@, self.session_id@)]);
            }
            return Ok((one(write_answer(200, cseq, &headers)), false));
        }
        if text::same(name, "SET_PARAMETER") {
            return self.handle_parameters(message, cseq);
        }
        let no_headers: [(&str, &str); 0] = [];
        proof {
            assert(header_views(no_headers@) =~= Seq::<(Seq<char>, Seq<char>)>::empty());
        }
        Ok((one(write_answer(501, cseq, &no_headers)), false))
    }

    /// A message of the receiver: what is to be done, and whether the session is over.
    pub fn handle(&mut self, message: &Message) -> (r: Result<
        (Vec<Action<String>>, bool),
        WfdError<String>,
    >)
        requires
            old(self)@.next_cseq < u32::MAX,
        ensures
            final(self)@ == handled(old(self)@, message@).state,
            fulfils(r, handled(old(self)@, message@).result),
    {
        let cseq: u32 = match message.cseq() {
            Ok(cseq) => cseq,
            Err(e) => {
                return Err(WfdError::Rtsp(e));
            },
        };
        match message.status() {
            Some(status) => self.handle_response(message, cseq, status),
            None => self.handle_request(message, cseq),
        }
    }
}

// ---------------------------------------------------------------------------
// The connection
// ---------------------------------------------------------------------------

/// What came of waiting for bytes.
pub enum Chunk {
    Bytes(Vec<u8>),
    /// The receiver closed the connection.
    Closed,
    /// Nothing yet.
    Nothing,
}

/// Whether to wait on for the receiver to connect. Giving up goes before the time limit.
pub fn check_accept(stop: bool, now: u64, deadline: u64) -> (r: Result<(), WfdError<String>>)
    ensures
        r is Ok <==> !stop && now < deadline,
        r is Err ==> r->Err_0@ == if stop {
            WfdError::<Seq<char>>::Cancelled
        } else {
            WfdError::<Seq<char>>::InitialConnectionTimeout
        },
{
    if stop {
        Err(WfdError::Cancelled)
    } else if now >= deadline {
        Err(WfdError::InitialConnectionTimeout)
    } else {
        Ok(())
    }
}

/// Whether a connection is one of the expected receiver; another is ignored.
pub fn accepts_peer(config: &Config, peer: Ip) -> (r: bool)
    ensures
        r == (config.expected_peer is None || config.expected_peer == Some(peer)),
{
    match config.expected_peer {
        None => true,
        Some(ip) => ip == peer,
    }
}

/// The time since `then`, or nothing where the clock went back.
pub open spec fn elapsed(then: int, now: int) -> int {
    if now >= then {
        now - then
    } else {
        0
    }
}

/// The time since `then`, or nothing where the clock went back.
fn elapsed_ms(then: u64, now: u64) -> (r: u64)
    ensures
        r == elapsed(then as int, now as int),
{
    if now >= then {
        now - then
    } else {
        0
    }
}

/// The state behind the first message of the bytes, if there is one.
pub open spec fn after_message(s: SessionModel, now: int) -> SessionModel {
    match rtsp::decoded(s.bytes) {
        Ok(Some((_, rest))) => SessionModel { bytes: rest, last_received: now, ..s },
        _ => s,
    }
}

/// The first message of the bytes, if there is one.
pub open spec fn first_message(s: SessionModel) -> Result<
    Option<rtsp::MessageModel>,
    WfdError<Seq<char>>,
> {
    match rtsp::decoded(s.bytes) {
        Err(e) => Err(WfdError::Rtsp(e)),
        Ok(None) => Ok(None),
        Ok(Some((m, _))) => Ok(Some(m)),
    }
}

/// Whether a result is the message that is expected.
pub open spec fn delivers(
    r: Result<Option<Message>, WfdError<String>>,
    expected: Result<Option<rtsp::MessageModel>, WfdError<Seq<char>>>,
) -> bool {
    match expected {
        Err(e) => r is Err && r->Err_0@ == e,
        Ok(None) => r is Ok && r->Ok_0 is None,
        Ok(Some(m)) => r is Ok && r->Ok_0 is Some && r->Ok_0->Some_0@ == m,
    }
}

/// The state behind a request to end the session.
pub open spec fn stop_actions(s: SessionModel) -> Seq<Action<Seq<char>>> {
    seq![
        Action::SendLast(
            request_text(
                "SET_PARAMETER"@,
                "rtsp://localhost/wfd1.0"@,
                s.next_cseq,
                Seq::empty(),
                "wfd_trigger_method: TEARDOWN\r\n"@,
            ),
        ),
        Action::Emit(Event::Teardown),
    ]
}

/// Whether a sign of life is due.
pub open spec fn keepalive_due(s: SessionModel, now: int) -> bool {
    elapsed(s.last_keepalive, now) >= 15_000
}

/// Whether nothing was heard of the receiver for too long.
pub open spec fn is_silent(s: SessionModel, now: int) -> bool {
    elapsed(s.last_received, now) >= 45_000
}

/// What is due before a message is awaited: the end of the session when the user wants it,
/// else a sign of life every fifteen seconds.
pub open spec fn due_actions(s: SessionModel, stop: bool, now: int) -> Seq<Action<Seq<char>>> {
    if stop {
        stop_actions(s)
    } else if keepalive_due(s, now) {
        seq![
            Action::Send(
                request_text(
                    "GET_PARAMETER"@,
                    "rtsp://localhost/wfd1.0"@,
                    s.next_cseq,
                    seq![("Session"@, s.session_id)],
                    Seq::empty(),
                ),
            ),
        ]
    } else {
        Seq::empty()
    }
}

/// The state behind what is due.
pub open spec fn after_due(s: SessionModel, stop: bool, now: int) -> SessionModel {
    if stop {
        after_request(s, Pending::Teardown)
    } else if keepalive_due(s, now) {
        SessionModel { last_keepalive: now, ..after_request(s, Pending::Keepalive) }
    } else {
        s
    }
}

impl Session {
    /// Whether there is a sequence number left for a request of the source.
    pub fn has_sequence(&self) -> (r: bool)
        ensures
            r == (self@.next_cseq < u32::MAX),
    {
        self.next_cseq < u32::MAX
    }

    /// The next message of the bytes that have come.
    pub fn next_message(&mut self, now: u64) -> (r: Result<Option<Message>, WfdError<String>>)
        ensures
            final(self)@ == after_message(old(self)@, now as int),
            delivers(r, first_message(old(self)@)),
    {
        match self.decoder.next() {
            Err(e) => Err(WfdError::Rtsp(e)),
            Ok(None) => Ok(None),
            Ok(Some(message)) => {
                self.last_received = now;
                Ok(Some(message))
            },
        }
    }

    /// The next message, when bytes have come or not.
    pub fn receive(&mut self, chunk: Chunk, now: u64) -> (r: Result<
        Option<Message>,
        WfdError<String>,
    >)
        ensures
            match chunk {
                Chunk::Closed => final(self)@ == old(self)@ && r is Err && r->Err_0@
                    is Closed,
                Chunk::Nothing => final(self)@ == old(self)@ && r is Ok && r->Ok_0 is None,
                Chunk::Bytes(bytes) => {
                    let fed = SessionModel { bytes: old(self)@.bytes + bytes@, ..old(self)@ };
                    final(self)@ == after_message(fed, now as int) && delivers(
                        r,
                        first_message(fed),
                    )
                },
            },
    {
        match chunk {
            Chunk::Closed => Err(WfdError::Closed),
            Chunk::Nothing => Ok(None),
            Chunk::Bytes(bytes) => {
                self.decoder.feed(bytes.as_slice());
                self.next_message(now)
            },
        }
    }

    /// Whether the negotiation goes on: until the setup, or until the capabilities are
    /// known where no more was asked.
    pub fn negotiating(&self, stop: bool, now: u64, deadline: u64) -> (r: Result<
        bool,
        WfdError<String>,
    >)
        ensures
            ({
                let s = self@;
                let over = s.setup_done || (s.config.probe_codecs
                    && s.negotiated.raw_capabilities.len() > 0);
                if over {
                    r is Ok && r->Ok_0 == false
                } else if stop {
                    r is Err && r->Err_0@ is Cancelled
                } else if now >= deadline {
                    r is Err && r->Err_0@ is NegotiationTimeout
                } else {
                    r is Ok && r->Ok_0 == true
                }
            }),
    {
        if self.setup_done || (self.config.probe_codecs
            && !self.negotiated.raw_capabilities.as_str().is_empty()) {
            Ok(false)
        } else if stop {
            Err(WfdError::Cancelled)
        } else if now >= deadline {
            Err(WfdError::NegotiationTimeout)
        } else {
            Ok(true)
        }
    }

    /// What is due before the next message is awaited. Says whether the session is over.
    pub fn due(&mut self, stop: bool, now: u64) -> (r: (Vec<Action<String>>, bool))
        requires
            old(self)@.next_cseq < u32::MAX,
        ensures
            r.1 == stop,
            final(self)@ == after_due(old(self)@, stop, now as int),
            actions_of(r.0@) == due_actions(old(self)@, stop, now as int),
    {
        let no_headers: [(&str, &str); 0] = [];
        proof {
            assert(header_views(no_headers@) =~= Seq::<(Seq<char>, Seq<char>)>::empty());
            reveal_strlit("");
            assert(""@ =~= Seq::<char>::empty());
        }
        if stop {
            let text = self.request(
                "SET_PARAMETER",
                "rtsp://localhost/wfd1.0",
                &no_headers,
                "wfd_trigger_method: TEARDOWN\r\n",
                Pending::Teardown,
            );
            let mut out = one(Action::SendLast(text));
            let last = Action::Emit(Event::Teardown);
            proof {
                lemma_actions_push(out@, last);
            }
            out.push(last);
            proof {
                assert(actions_of(out@) =~= stop_actions(old(self)@));
            }
            return (out, true);
        }
        if elapsed_ms(self.last_keepalive, now) >= 15_000 {
            let id = self.session_id.clone();
            let headers = [("Session", id.as_str())];
            proof {
                assert(header_views(headers@) =~= seq![("Session"@, id@)]);
            }
            let text = self.request(
                "GET_PARAMETER",
                "rtsp://localhost/wfd1.0",
                &headers,
                "",
                Pending::Keepalive,
            );
            self.last_keepalive = now;
            return (one(Action::Send(text)), false);
        }
        (none(), false)
    }

    /// Fails when nothing was heard of the receiver for 45 seconds.
    pub fn check_alive(&self, now: u64) -> (r: Result<(), WfdError<String>>)
        ensures
            r is Ok <==> !is_silent(self@, now as int),
            r is Err ==> r->Err_0@ is KeepaliveTimeout,
    {
        if elapsed_ms(self.last_received, now) < 45_000 {
            Ok(())
        } else {
            Err(WfdError::KeepaliveTimeout)
        }
    }

    /// Whether there is media to be sent, or only capabilities were asked for.
    pub fn has_media(&self) -> (r: bool)
        ensures
            r == !self@.negotiated.probe_only,
    {
        !self.negotiated.probe_only
    }
}

// ---------------------------------------------------------------------------
// Laws
// ---------------------------------------------------------------------------

/// The order of a session: the setup comes after the parameters were accepted, those
/// after the capabilities were asked for, and that after both sides have exchanged their
/// options. A request that waits has a number that was given out.
pub open spec fn in_order(s: SessionModel) -> bool {
    &&& s.setup_done ==> s.parameters_accepted
    &&& s.parameters_accepted ==> s.capabilities_sent
    &&& s.capabilities_sent ==> s.options_reply && s.sink_options
    &&& s.next_cseq >= 1
    &&& forall|k: u32| #[trigger]
        s.pending.contains_key(k) ==> {
            &&& k < s.next_cseq
            &&& s.pending[k] == Pending::Capabilities ==> s.capabilities_sent
            &&& s.pending[k] == Pending::Parameters ==> s.capabilities_sent
            &&& s.pending[k] == Pending::Trigger ==> s.parameters_accepted
        }
}

/// A new session is in order.
pub proof fn law_a_session_starts_in_order(
    config: Config,
    local: Seq<char>,
    peer: Ip,
    process: u32,
    now: int,
)
    ensures
        in_order(after_request(initial(config, local, peer, process, now), Pending::Options)),
{
}

/// A request of the source keeps the order.
proof fn lemma_request_in_order(s: SessionModel, kind: Pending)
    requires
        in_order(s),
        s.next_cseq < u32::MAX,
        kind == Pending::Capabilities ==> s.capabilities_sent,
        kind == Pending::Parameters ==> s.capabilities_sent,
        kind == Pending::Trigger ==> s.parameters_accepted,
    ensures
        in_order(after_request(s, kind)),
{
    let next = after_request(s, kind);
    assert forall|k: u32| #[trigger] next.pending.contains_key(k) implies k < next.next_cseq && (
    next.pending[k] == Pending::Capabilities ==> next.capabilities_sent) && (next.pending[k]
        == Pending::Parameters ==> next.capabilities_sent) && (next.pending[k] == Pending::Trigger
        ==> next.parameters_accepted) by {
        if k != s.next_cseq as u32 {
            assert(s.pending.contains_key(k));
        }
    }
}

/// Whatever the receiver sends, the session stays in order.
pub proof fn law_messages_keep_the_order(s: SessionModel, m: rtsp::MessageModel)
    requires
        in_order(s),
        s.next_cseq < u32::MAX,
    ensures
        in_order(handled(s, m).state),
{
    if m.cseq() is Ok {
        let cseq = m.cseq()->Ok_0;
        if m.status() is Some {
            let key = cseq as u32;
            if s.pending.contains_key(key) {
                let kind = s.pending[key];
                let matched = SessionModel { pending: s.pending.remove(key), ..s };
                assert(in_order(matched)) by {
                    assert forall|k: u32| #[trigger] matched.pending.contains_key(k) implies k
                        < matched.next_cseq && (matched.pending[k] == Pending::Capabilities
                        ==> matched.capabilities_sent) && (matched.pending[k]
                        == Pending::Parameters ==> matched.capabilities_sent) && (
                    matched.pending[k] == Pending::Trigger ==> matched.parameters_accepted) by {
                        assert(s.pending.contains_key(k));
                    }
                }
                match kind {
                    Pending::Options => {
                        lemma_query_in_order(SessionModel { options_reply: true, ..matched });
                    },
                    Pending::Capabilities => {
                        lemma_capabilities_in_order(matched, m.body);
                    },
                    Pending::Parameters => {
                        lemma_request_in_order(
                            SessionModel { parameters_accepted: true, ..matched },
                            Pending::Trigger,
                        );
                    },
                    _ => {},
                }
            }
        } else {
            lemma_query_in_order(SessionModel { sink_options: true, ..s });
        }
    }
}

/// Asking for the capabilities keeps the order.
proof fn lemma_query_in_order(s: SessionModel)
    requires
        in_order(s),
        s.next_cseq < u32::MAX,
    ensures
        in_order(after_query(s)),
{
    if ready_to_query(s) {
        lemma_request_in_order(
            SessionModel { capabilities_sent: true, ..s },
            Pending::Capabilities,
        );
    }
}

/// The capabilities keep the order.
proof fn lemma_capabilities_in_order(s: SessionModel, body: Seq<char>)
    requires
        in_order(s),
        s.capabilities_sent,
        s.next_cseq < u32::MAX,
    ensures
        in_order(on_capabilities(s, body).state),
{
    let known = with_capabilities(s, body);
    let params = wfd::parameter_map(text::lines(body));
    if params.contains_key("wfd_client_rtp_ports"@) {
        match wfd::ports_of(params["wfd_client_rtp_ports"@]) {
            Err(_) => {},
            Ok((rtp, rtcp)) => {
                lemma_request_in_order(with_ports(known, rtp, rtcp), Pending::Parameters);
            },
        }
    }
}

/// What is due keeps the order.
pub proof fn law_signs_of_life_keep_the_order(s: SessionModel, kind: Pending, now: int)
    requires
        in_order(s),
        s.next_cseq < u32::MAX,
        kind == Pending::Keepalive || kind == Pending::Teardown,
    ensures
        in_order(after_request(s, kind)),
        in_order(SessionModel { last_keepalive: now, ..after_request(s, kind) }),
{
    lemma_request_in_order(s, kind);
}

/// A refusal of the receiver ends the session where it stands: nothing is done, and it
/// does not come any closer to the setup.
pub proof fn law_refusal_does_not_advance(s: SessionModel, m: rtsp::MessageModel)
    requires
        m.cseq() is Ok,
        m.status() is Some,
        m.status()->Some_0 != 200,
    ensures
        handled(s, m).result is Err,
        handled(s, m).state.parameters_accepted == s.parameters_accepted,
        handled(s, m).state.setup_done == s.setup_done,
        handled(s, m).state.negotiated == s.negotiated,
{
}

/// A setup is refused, and changes nothing, until the receiver has accepted the
/// parameters.
pub proof fn law_setup_needs_accepted_parameters(s: SessionModel, m: rtsp::MessageModel)
    requires
        m.cseq() is Ok,
        m.status() is None,
        m.method() == "SETUP"@,
        !s.parameters_accepted,
    ensures
        handled(s, m) == only_answer(s, 455, m.cseq()->Ok_0, Seq::empty()),
{
    lemma_methods_differ();
}

/// The method names are told apart.
proof fn lemma_methods_differ()
    ensures
        "OPTIONS"@ != "SETUP"@,
        "OPTIONS"@ != "PLAY"@,
        "OPTIONS"@ != "PAUSE"@,
        "OPTIONS"@ != "TEARDOWN"@,
        "SETUP"@ != "PLAY"@,
        "SETUP"@ != "PAUSE"@,
        "SETUP"@ != "TEARDOWN"@,
        "PLAY"@ != "PAUSE"@,
        "PLAY"@ != "TEARDOWN"@,
        "PAUSE"@ != "TEARDOWN"@,
{
    reveal_strlit("OPTIONS");
    reveal_strlit("SETUP");
    reveal_strlit("PLAY");
    reveal_strlit("PAUSE");
    reveal_strlit("TEARDOWN");
    assert("OPTIONS"@.len() == 7);
    assert("SETUP"@.len() == 5);
    assert("PLAY"@.len() == 4);
    assert("PAUSE"@.len() == 5);
    assert("TEARDOWN"@.len() == 8);
    assert("SETUP"@[0] != "PAUSE"@[0]);
}

/// Media starts or pauses only in a session that was set up, and only for a request that
/// names no other session.
pub proof fn law_media_needs_setup(s: SessionModel, m: rtsp::MessageModel, event: Event)
    requires
        event == Event::Play || event == Event::Pause,
        handled(s, m).result is Ok,
        handled(s, m).result->Ok_0.0.contains(Action::Emit(event)),
    ensures
        s.setup_done,
        !foreign_session(s, m),
        m.status() is None,
{
    let actions = handled(s, m).result->Ok_0.0;
    let i = choose|i: int| 0 <= i < actions.len() && actions[i] == Action::<Seq<char>>::Emit(event);
    assert(actions[i] == Action::<Seq<char>>::Emit(event));
}

/// A request of the receiver never fails for its content: it is answered, with its own
/// sequence number, among what is done.
pub proof fn law_every_request_is_answered(s: SessionModel, m: rtsp::MessageModel) -> (i: (
    int,
    int,
    Seq<(Seq<char>, Seq<char>)>,
))
    requires
        m.cseq() is Ok,
        m.status() is None,
    ensures
        handled(s, m).result is Ok,
        0 <= i.0 < handled(s, m).result->Ok_0.0.len(),
        handled(s, m).result->Ok_0.0[i.0] == answer(i.1, m.cseq()->Ok_0, i.2),
{
    let cseq = m.cseq()->Ok_0;
    let actions = handled(s, m).result->Ok_0.0;
    let method = m.method();
    let none = Seq::<(Seq<char>, Seq<char>)>::empty();
    if method == "OPTIONS"@ {
        (0, 200, seq![("Public"@, public_methods())])
    } else if method == "SETUP"@ {
        if !s.parameters_accepted {
            (0, 455, none)
        } else {
            let transport = if m.headers.contains_key("transport"@) {
                m.headers["transport"@]
            } else {
                Seq::empty()
            };
            match wfd::transport_ports(transport) {
                Err(_) => (0, 461, none),
                Ok((rtp, rtcp)) => (
                    0,
                    200,
                    seq![
                        ("Transport"@, confirmed_transport(rtp, rtcp)),
                        ("Session"@, s.session_id + ";timeout=60"@),
                    ],
                ),
            }
        }
    } else if method == "PLAY"@ || method == "PAUSE"@ || method == "TEARDOWN"@ {
        if !s.setup_done {
            (0, 455, none)
        } else if foreign_session(s, m) {
            (0, 454, none)
        } else {
            (1, 200, seq![("Session"@, s.session_id)])
        }
    } else if method == "GET_PARAMETER"@ {
        (0, 200, seq![("Session"@, s.session_id)])
    } else if method == "SET_PARAMETER"@ {
        let params = wfd::parameter_map(text::lines(m.body));
        if params.contains_key("wfd_idr_request"@) || text::trim(m.body) == "wfd_idr_request"@ {
            (1, 200, none)
        } else {
            (0, 200, none)
        }
    } else {
        (0, 501, none)
    }
}

/// The capabilities are asked for at most once.
pub proof fn law_capabilities_are_asked_once(s: SessionModel, m: rtsp::MessageModel, k: u32)
    requires
        s.capabilities_sent,
        handled(s, m).state.pending.contains_key(k),
        handled(s, m).state.pending[k] == Pending::Capabilities,
    ensures
        s.pending.contains_key(k),
        s.pending[k] == Pending::Capabilities,
        handled(s, m).state.capabilities_sent,
{
}

/// What was agreed is sent to the receiver: whatever comes, media goes to the address
/// that connected.
pub proof fn law_target_stays_the_peer(s: SessionModel, m: rtsp::MessageModel)
    ensures
        handled(s, m).state.negotiated.target.ip == s.negotiated.target.ip,
        handled(s, m).state.negotiated.probe_only == s.negotiated.probe_only,
        handled(s, m).state.session_id == s.session_id,
        handled(s, m).state.config == s.config,
{
}

} // verus!
