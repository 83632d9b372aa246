//! Wi-Fi Display capabilities: what the receiver offers and what the source selects.
use crate::fields::Fields;
use crate::number;
use crate::number::NumberError;
use crate::rtsp;
use crate::rtsp::RtspError;
use crate::text;
use vstd::prelude::*;

verus! {

/// The port from which media is sent.
pub const LOCAL_RTP_PORT: u16 = 50000;

/// The port from which media control is sent.
pub const LOCAL_RTCP_PORT: u16 = 50001;

/// The video codec and profile.
#[derive(Clone, Copy, Debug, Default, PartialEq, Eq, Structural)]
pub enum Profile {
    #[default]
    Hevc,
    Baseline,
    Rhp2,
}

/// What the receiver asks of the media, and what passes in between.
#[derive(Clone, Copy, Debug, PartialEq, Eq, Structural)]
pub enum Event {
    Play,
    Pause,
    Idr,
    Teardown,
    Tick,
}

/// A request of the source that waits for its response.
#[derive(Clone, Copy, Debug, PartialEq, Eq, Structural)]
pub enum Pending {
    Options,
    Capabilities,
    Parameters,
    Trigger,
    Keepalive,
    Teardown,
}

impl Pending {
    /// The name of the request.
    pub open spec fn name(self) -> Seq<char> {
        match self {
            Pending::Options => "Options"@,
            Pending::Capabilities => "Capabilities"@,
            Pending::Parameters => "Parameters"@,
            Pending::Trigger => "Trigger"@,
            Pending::Keepalive => "Keepalive"@,
            Pending::Teardown => "Teardown"@,
        }
    }

    /// The name of the request.
    pub fn name_text(self) -> (r: &'static str)
        ensures
            r@ == self.name(),
    {
        match self {
            Pending::Options => "Options",
            Pending::Capabilities => "Capabilities",
            Pending::Parameters => "Parameters",
            Pending::Trigger => "Trigger",
            Pending::Keepalive => "Keepalive",
            Pending::Teardown => "Teardown",
        }
    }
}

/// An address of the internet protocol.
#[derive(Clone, Copy, Debug, PartialEq, Eq, Structural)]
pub enum Ip {
    V4(u32),
    V6(u128),
}

/// An address with a port.
#[derive(Clone, Copy, Debug, PartialEq, Eq, Structural)]
pub struct Endpoint {
    pub ip: Ip,
    pub port: u16,
}

/// What a session is to negotiate.
#[derive(Clone, Copy, Debug, PartialEq, Eq)]
pub struct Config {
    pub profile: Profile,
    pub audio: bool,
    pub width: u32,
    pub height: u32,
    pub fps: u32,
    /// How long the receiver has to connect and to finish the negotiation.
    pub timeout_ms: u64,
    /// Ask for the capabilities and no more.
    pub probe_codecs: bool,
    /// The only address that may connect.
    pub expected_peer: Option<Ip>,
}

impl Config {
    /// 1080p60 HEVC with audio, two minutes, and the usual address of a group owner,
    /// 192.168.49.1.
    pub open spec fn usual() -> Config {
        Config {
            profile: Profile::Hevc,
            audio: true,
            width: 1920,
            height: 1080,
            fps: 60,
            timeout_ms: 120_000,
            probe_codecs: false,
            expected_peer: Some(Ip::V4(0xc0a8_3101)),
        }
    }
}

impl Default for Config {
    fn default() -> (r: Config)
        ensures
            r == Config::usual(),
    {
        Config {
            profile: Profile::Hevc,
            audio: true,
            width: 1920,
            height: 1080,
            fps: 60,
            timeout_ms: 120_000,
            probe_codecs: false,
            expected_peer: Some(Ip::V4(0xc0a8_3101)),
        }
    }
}

/// Why a session ends without success.
#[derive(Debug, PartialEq, Eq)]
pub enum WfdError<T> {
    /// The receiver has not opened its connection yet; connecting again may help.
    InitialConnectionTimeout,
    /// The user gave up.
    Cancelled,
    /// The receiver connected and did not finish the negotiation.
    NegotiationTimeout,
    /// Nothing was heard of the receiver for too long.
    KeepaliveTimeout,
    /// The receiver closed the connection.
    Closed,
    /// Bytes that are no message.
    Rtsp(RtspError<T>),
    /// A response to no request.
    UnmatchedResponse,
    /// A request of the source was refused.
    Rejected { kind: Pending, status: u16 },
    /// No ports among the capabilities.
    NoRtpPorts,
    /// Ports of another transport.
    UnsupportedTransport(T),
    /// A port that is no number.
    InvalidPort(NumberError),
    /// Port zero.
    ZeroRtpPort,
    /// No port behind the last.
    NoRtcpPort,
    /// No audio codecs among the capabilities.
    NoAudio,
    /// No stereo AAC among the audio codecs.
    NoAac,
    /// No RHP2 at 1080p60 among the video formats.
    NoRhp2,
    /// A mode without a number in the protocol.
    UnsupportedMode { width: u32, height: u32, fps: u32 },
    /// HEVC or RHP2 in a lesser mode.
    RequiresFullHd,
    /// A transport other than UDP to one receiver.
    NotUnicast,
    /// No ports in a transport.
    NoClientPort,
    /// Port zero in a transport.
    ZeroClientPort,
    /// No sequence number is left for a request.
    TooManyRequests,
    /// A reply to another task.
    Unexpected,
}

impl WfdError<String> {
    /// The error with its text as a sequence.
    pub open spec fn view(self) -> WfdError<Seq<char>> {
        match self {
            WfdError::InitialConnectionTimeout => WfdError::InitialConnectionTimeout,
            WfdError::Cancelled => WfdError::Cancelled,
            WfdError::NegotiationTimeout => WfdError::NegotiationTimeout,
            WfdError::KeepaliveTimeout => WfdError::KeepaliveTimeout,
            WfdError::Closed => WfdError::Closed,
            WfdError::Rtsp(e) => WfdError::Rtsp(e@),
            WfdError::UnmatchedResponse => WfdError::UnmatchedResponse,
            WfdError::Rejected { kind, status } => WfdError::Rejected { kind, status },
            WfdError::NoRtpPorts => WfdError::NoRtpPorts,
            WfdError::UnsupportedTransport(s) => WfdError::UnsupportedTransport(s@),
            WfdError::InvalidPort(e) => WfdError::InvalidPort(e),
            WfdError::ZeroRtpPort => WfdError::ZeroRtpPort,
            WfdError::NoRtcpPort => WfdError::NoRtcpPort,
            WfdError::NoAudio => WfdError::NoAudio,
            WfdError::NoAac => WfdError::NoAac,
            WfdError::NoRhp2 => WfdError::NoRhp2,
            WfdError::UnsupportedMode { width, height, fps } => WfdError::UnsupportedMode {
                width,
                height,
                fps,
            },
            WfdError::RequiresFullHd => WfdError::RequiresFullHd,
            WfdError::NotUnicast => WfdError::NotUnicast,
            WfdError::NoClientPort => WfdError::NoClientPort,
            WfdError::ZeroClientPort => WfdError::ZeroClientPort,
            WfdError::TooManyRequests => WfdError::TooManyRequests,
            WfdError::Unexpected => WfdError::Unexpected,
        }
    }

    /// The message shown to the user.
    pub fn text(&self) -> (r: String)
        ensures
            r@ == error_text(self@),
    {
        match self {
            WfdError::InitialConnectionTimeout => {
                "Timed out waiting for TV RTSP connection".to_owned()
            },
            WfdError::Cancelled => "Mirroring cancelled".to_owned(),
            WfdError::NegotiationTimeout => "Timed out negotiating WFD with TV".to_owned(),
            WfdError::KeepaliveTimeout => "TV RTSP keepalive timed out".to_owned(),
            WfdError::Closed => "TV closed RTSP connection".to_owned(),
            WfdError::Rtsp(e) => e.text(),
            WfdError::UnmatchedResponse => "Unmatched RTSP response CSeq".to_owned(),
            WfdError::Rejected { kind, status } => "TV rejected ".to_owned().concat(
                kind.name_text(),
            ).concat(": RTSP ").concat(number::decimal_text(*status as u64).as_str()),
            WfdError::NoRtpPorts => "TV did not provide RTP ports".to_owned(),
            WfdError::UnsupportedTransport(s) => "Unsupported WFD RTP transport: ".to_owned().concat(
                s.as_str(),
            ),
            WfdError::InvalidPort(e) => e.text().to_owned(),
            WfdError::ZeroRtpPort => "TV returned zero RTP port".to_owned(),
            WfdError::NoRtcpPort => "Cannot derive RTCP port from RTP port 65535".to_owned(),
            WfdError::NoAudio => "TV did not advertise audio".to_owned(),
            WfdError::NoAac => "TV did not advertise AAC stereo 48 kHz".to_owned(),
            WfdError::NoRhp2 => "TV did not advertise RHP2 1080p60".to_owned(),
            WfdError::UnsupportedMode { width, height, fps } => {
                "Unsupported WFD mode: ".to_owned().concat(
                    number::decimal_text(*width as u64).as_str(),
                ).concat("x").concat(number::decimal_text(*height as u64).as_str()).concat("@").concat(
                    number::decimal_text(*fps as u64).as_str(),
                )
            },
            WfdError::RequiresFullHd => "HEVC and RHP2 require 1080p60".to_owned(),
            WfdError::NotUnicast => "Only UDP unicast is supported".to_owned(),
            WfdError::NoClientPort => "SETUP lacks client_port".to_owned(),
            WfdError::ZeroClientPort => "Invalid RTP port".to_owned(),
            WfdError::TooManyRequests => "No RTSP sequence number is left".to_owned(),
            WfdError::Unexpected => "Reply to another RTSP task".to_owned(),
        }
    }
}

/// The text of each error.
pub open spec fn error_text(e: WfdError<Seq<char>>) -> Seq<char> {
    match e {
        WfdError::InitialConnectionTimeout => "Timed out waiting for TV RTSP connection"@,
        WfdError::Cancelled => "Mirroring cancelled"@,
        WfdError::NegotiationTimeout => "Timed out negotiating WFD with TV"@,
        WfdError::KeepaliveTimeout => "TV RTSP keepalive timed out"@,
        WfdError::Closed => "TV closed RTSP connection"@,
        WfdError::Rtsp(e) => rtsp::error_text(e),
        WfdError::UnmatchedResponse => "Unmatched RTSP response CSeq"@,
        WfdError::Rejected { kind, status } => "TV rejected "@ + kind.name() + ": RTSP "@
            + number::decimal(status as int),
        WfdError::NoRtpPorts => "TV did not provide RTP ports"@,
        WfdError::UnsupportedTransport(s) => "Unsupported WFD RTP transport: "@ + s,
        WfdError::InvalidPort(e) => e.message(),
        WfdError::ZeroRtpPort => "TV returned zero RTP port"@,
        WfdError::NoRtcpPort => "Cannot derive RTCP port from RTP port 65535"@,
        WfdError::NoAudio => "TV did not advertise audio"@,
        WfdError::NoAac => "TV did not advertise AAC stereo 48 kHz"@,
        WfdError::NoRhp2 => "TV did not advertise RHP2 1080p60"@,
        WfdError::UnsupportedMode { width, height, fps } => "Unsupported WFD mode: "@
            + number::decimal(width as int) + "x"@ + number::decimal(height as int) + "@"@
            + number::decimal(fps as int),
        WfdError::RequiresFullHd => "HEVC and RHP2 require 1080p60"@,
        WfdError::NotUnicast => "Only UDP unicast is supported"@,
        WfdError::NoClientPort => "SETUP lacks client_port"@,
        WfdError::ZeroClientPort => "Invalid RTP port"@,
        WfdError::TooManyRequests => "No RTSP sequence number is left"@,
        WfdError::Unexpected => "Reply to another RTSP task"@,
    }
}

/// Whether connecting again may help: only where the receiver never opened its
/// connection, not where the user gave up or the session failed.
pub fn is_initial_connection_timeout(error: &WfdError<String>) -> (r: bool)
    ensures
        r == (error@ is InitialConnectionTimeout),
{
    match error {
        WfdError::InitialConnectionTimeout => true,
        _ => false,
    }
}

// ---------------------------------------------------------------------------
// Parameters
// ---------------------------------------------------------------------------

/// The parameters of lines: name and value, without white space around them, a later
/// one in place of an earlier one. Lines without a colon hold none.
pub open spec fn parameter_map(lines: Seq<Seq<char>>) -> Map<Seq<char>, Seq<char>>
    decreases lines.len(),
{
    if lines.len() == 0 {
        Map::empty()
    } else {
        let before = parameter_map(lines.drop_last());
        match text::split_once(lines.last(), ':') {
            None => before,
            Some((name, value)) => before.insert(text::trim(name), text::trim(value)),
        }
    }
}

/// The parameters of a body.
pub fn parameters(body: &str) -> (r: Fields)
    ensures
        r@ == parameter_map(text::lines(body@)),
{
    let chars = text::chars_of(body);
    let lines = text::lines_of(chars.as_slice());
    let ghost all = text::views(lines@);
    let mut fields = Fields::new();
    let mut i: usize = 0;
    proof {
        assert(all.take(0) =~= Seq::<Seq<char>>::empty());
    }
    while i < lines.len()
        invariant
            i <= lines@.len(),
            all == text::views(lines@),
            fields@ == parameter_map(all.take(i as int)),
        decreases lines@.len() - i,
    {
        let line = lines[i].as_slice();
        let colon: usize = text::position(line, ':');
        proof {
            assert(all.take(i + 1).drop_last() =~= all.take(i as int));
            assert(all.take(i + 1).last() == line@);
        }
        if colon < line.len() {
            proof {
                assert(line@.subrange(0, colon as int) =~= line@.take(colon as int));
                assert(line@.subrange(colon + 1, line@.len() as int) =~= line@.skip(colon + 1));
            }
            let name = text::text_of(text::trimmed(&line[0..colon]));
            let value = text::text_of(text::trimmed(&line[colon + 1..line.len()]));
            fields.set(name, value);
        }
        i = i + 1;
    }
    proof {
        assert(all.take(i as int) =~= all);
    }
    fields
}

// ---------------------------------------------------------------------------
// Ports
// ---------------------------------------------------------------------------

/// The control port: the one that was given, if it is another than zero and than the
/// media port, else the one behind the media port.
pub open spec fn control_port(rtp: int, rtcp: Option<int>) -> Result<int, WfdError<Seq<char>>> {
    if rtcp is Some && rtcp->Some_0 != 0 && rtcp->Some_0 != rtp {
        Ok(rtcp->Some_0)
    } else if rtp == 65535 {
        Err(WfdError::NoRtcpPort)
    } else {
        Ok(rtp + 1)
    }
}

/// The control port that goes with a media port.
pub fn normalize_rtcp(rtp: u16, rtcp: Option<u16>) -> (r: Result<u16, WfdError<String>>)
    ensures
        match control_port(
            rtp as int,
            match rtcp {
                Some(p) => Some(p as int),
                None => None,
            },
        ) {
            Ok(port) => r is Ok && r->Ok_0 == port,
            Err(e) => r is Err && r->Err_0@ == e,
        },
{
    match rtcp {
        Some(port) => if port != 0 && port != rtp {
            return Ok(port);
        },
        None => {},
    }
    match rtp.checked_add(1) {
        None => Err(WfdError::NoRtcpPort),
        Some(port) => Ok(port),
    }
}

/// The media and the control port of a capability.
pub open spec fn ports_of(value: Seq<char>) -> Result<(int, int), WfdError<Seq<char>>> {
    let fields = text::fields(value);
    if fields.len() < 3 || fields[0] != "RTP/AVP/UDP;unicast"@ {
        Err(WfdError::UnsupportedTransport(value))
    } else {
        match (number::number(fields[1], 10, 65535), number::number(fields[2], 10, 65535)) {
            (Some(rtp), Some(rtcp)) => if rtp == 0 {
                Err(WfdError::ZeroRtpPort)
            } else {
                match control_port(rtp, Some(rtcp)) {
                    Err(e) => Err(e),
                    Ok(port) => Ok((rtp, port)),
                }
            },
            (None, _) => Err(WfdError::InvalidPort(number::problem(fields[1], 10, 65535))),
            (_, None) => Err(WfdError::InvalidPort(number::problem(fields[2], 10, 65535))),
        }
    }
}

/// The media and the control port of a capability.
pub fn parse_ports(value: &str) -> (r: Result<(u16, Option<u16>), WfdError<String>>)
    ensures
        match ports_of(value@) {
            Ok((rtp, rtcp)) => r is Ok && r->Ok_0.0 == rtp && r->Ok_0.1 is Some
                && r->Ok_0.1->Some_0 == rtcp,
            Err(e) => r is Err && r->Err_0@ == e,
        },
{
    let chars = text::chars_of(value);
    let fields = text::fields_of(chars.as_slice());
    let ghost parts = text::views(fields@);
    if fields.len() < 3 {
        return Err(WfdError::UnsupportedTransport(value.to_owned()));
    }
    proof {
        assert(parts[0] == fields@[0]@);
        assert(parts[1] == fields@[1]@);
        assert(parts[2] == fields@[2]@);
    }
    if !text::is(fields[0].as_slice(), "RTP/AVP/UDP;unicast") {
        return Err(WfdError::UnsupportedTransport(value.to_owned()));
    }
    let rtp: u16 = match number::parse_u16(fields[1].as_slice()) {
        Err(e) => {
            return Err(WfdError::InvalidPort(e));
        },
        Ok(port) => port,
    };
    let rtcp: u16 = match number::parse_u16(fields[2].as_slice()) {
        Err(e) => {
            return Err(WfdError::InvalidPort(e));
        },
        Ok(port) => port,
    };
    if rtp == 0 {
        return Err(WfdError::ZeroRtpPort);
    }
    let port: u16 = normalize_rtcp(rtp, Some(rtcp))?;
    Ok((rtp, Some(port)))
}

/// The parts of a transport, without white space around them.
pub open spec fn transport_parts(value: Seq<char>) -> Seq<Seq<char>> {
    let parts = text::split(value, ';');
    Seq::new(parts.len(), |i: int| text::trim(parts[i]))
}

/// What follows `prefix` in the first part that starts with it.
pub open spec fn first_with_prefix(parts: Seq<Seq<char>>, prefix: Seq<char>) -> Option<Seq<char>>
    decreases parts.len(),
{
    if parts.len() == 0 {
        None
    } else if text::starts_with(parts[0], prefix) {
        Some(parts[0].skip(prefix.len() as int))
    } else {
        first_with_prefix(parts.drop_first(), prefix)
    }
}

/// The media and the control port of a transport.
pub open spec fn transport_ports(value: Seq<char>) -> Result<(int, int), WfdError<Seq<char>>> {
    let parts = transport_parts(value);
    if !(parts[0] == "RTP/AVP"@ || parts[0] == "RTP/AVP/UDP"@) || !parts.contains("unicast"@) {
        Err(WfdError::NotUnicast)
    } else {
        match first_with_prefix(parts, "client_port="@) {
            None => Err(WfdError::NoClientPort),
            Some(ports) => client_ports(ports),
        }
    }
}

/// One port, or two with a hyphen between them.
pub open spec fn client_ports(ports: Seq<char>) -> Result<(int, int), WfdError<Seq<char>>> {
    let (first, second) = match text::split_once(ports, '-') {
        Some((a, b)) => (a, Some(b)),
        None => (ports, None),
    };
    let rtp = number::number(first, 10, 65535);
    let rtcp = match second {
        Some(b) => number::number(b, 10, 65535),
        None => None,
    };
    if rtp is None {
        Err(WfdError::InvalidPort(number::problem(first, 10, 65535)))
    } else if second is Some && rtcp is None {
        Err(WfdError::InvalidPort(number::problem(second->Some_0, 10, 65535)))
    } else if rtp->Some_0 == 0 {
        Err(WfdError::ZeroClientPort)
    } else {
        match control_port(rtp->Some_0, rtcp) {
            Err(e) => Err(e),
            Ok(port) => Ok((rtp->Some_0, port)),
        }
    }
}

/// The parts of a transport, without white space around them.
fn parts_of(value: &str) -> (r: Vec<Vec<char>>)
    ensures
        text::views(r@) == transport_parts(value@),
        r@.len() > 0,
{
    let chars = text::chars_of(value);
    let raw = text::split_at_char(chars.as_slice(), ';');
    let mut parts: Vec<Vec<char>> = Vec::new();
    let mut i: usize = 0;
    while i < raw.len()
        invariant
            i <= raw@.len(),
            parts@.len() == i,
            text::views(raw@) == text::split(value@, ';'),
            forall|k: int| 0 <= k < i ==> (#[trigger] parts@[k])@ == text::trim(raw@[k]@),
        decreases raw@.len() - i,
    {
        parts.push(text::copied(text::trimmed(raw[i].as_slice())));
        i = i + 1;
    }
    proof {
        assert forall|k: int| 0 <= k < raw@.len() implies text::views(raw@)[k] == raw@[k]@ by {}
        assert(text::views(parts@) =~= transport_parts(value@));
    }
    parts
}

/// Whether one of the parts is `word`.
fn has_part(parts: &Vec<Vec<char>>, word: &str) -> (r: bool)
    ensures
        r == text::views(parts@).contains(word@),
{
    let mut i: usize = 0;
    while i < parts.len()
        invariant
            i <= parts@.len(),
            forall|k: int| 0 <= k < i ==> (#[trigger] parts@[k])@ != word@,
        decreases parts@.len() - i,
    {
        if text::is(parts[i].as_slice(), word) {
            proof {
                assert(text::views(parts@)[i as int] == word@);
            }
            return true;
        }
        i = i + 1;
    }
    proof {
        if text::views(parts@).contains(word@) {
            let k = choose|k: int|
                0 <= k < text::views(parts@).len() && text::views(parts@)[k] == word@;
            assert(parts@[k]@ == word@);
        }
    }
    false
}

/// What follows `prefix` in the first part that starts with it.
fn find_prefixed(parts: &Vec<Vec<char>>, prefix: &str) -> (r: Option<Vec<char>>)
    ensures
        match first_with_prefix(text::views(parts@), prefix@) {
            Some(rest) => r is Some && r->Some_0@ == rest,
            None => r is None,
        },
{
    let ghost all = text::views(parts@);
    let mut i: usize = 0;
    proof {
        assert(all.skip(0) =~= all);
    }
    while i < parts.len()
        invariant
            i <= parts@.len(),
            all == text::views(parts@),
            first_with_prefix(all, prefix@) == first_with_prefix(all.skip(i as int), prefix@),
        decreases parts@.len() - i,
    {
        proof {
            assert(all.skip(i as int)[0] == parts@[i as int]@);
            assert(all.skip(i as int).drop_first() =~= all.skip(i + 1));
        }
        match text::strip_prefix(parts[i].as_slice(), prefix) {
            Some(rest) => {
                return Some(text::copied(rest));
            },
            None => {},
        }
        i = i + 1;
    }
    None
}

/// The media and the control port of a transport.
pub fn parse_transport(value: &str) -> (r: Result<(u16, Option<u16>), WfdError<String>>)
    ensures
        match transport_ports(value@) {
            Ok((rtp, rtcp)) => r is Ok && r->Ok_0.0 == rtp && r->Ok_0.1 is Some
                && r->Ok_0.1->Some_0 == rtcp,
            Err(e) => r is Err && r->Err_0@ == e,
        },
{
    let parts = parts_of(value);
    proof {
        assert(text::views(parts@)[0] == parts@[0]@);
    }
    let first = parts[0].as_slice();
    if !(text::is(first, "RTP/AVP") || text::is(first, "RTP/AVP/UDP")) || !has_part(
        &parts,
        "unicast",
    ) {
        return Err(WfdError::NotUnicast);
    }
    let ports = match find_prefixed(&parts, "client_port=") {
        None => {
            return Err(WfdError::NoClientPort);
        },
        Some(ports) => ports,
    };
    let all = ports.as_slice();
    let hyphen: usize = text::position(all, '-');
    proof {
        assert(all@.subrange(0, hyphen as int) =~= all@.take(hyphen as int));
        assert(all@.take(all@.len() as int) =~= all@);
    }
    let rtp: u16 = match number::parse_u16(&all[0..hyphen]) {
        Err(e) => {
            return Err(WfdError::InvalidPort(e));
        },
        Ok(port) => port,
    };
    let mut rtcp: Option<u16> = None;
    if hyphen < all.len() {
        proof {
            assert(all@.subrange(hyphen + 1, all@.len() as int) =~= all@.skip(hyphen + 1));
        }
        match number::parse_u16(&all[hyphen + 1..all.len()]) {
            Err(e) => {
                return Err(WfdError::InvalidPort(e));
            },
            Ok(port) => {
                rtcp = Some(port);
            },
        }
    }
    if rtp == 0 {
        return Err(WfdError::ZeroClientPort);
    }
    let port: u16 = normalize_rtcp(rtp, rtcp)?;
    Ok((rtp, Some(port)))
}

// ---------------------------------------------------------------------------
// Codecs
// ---------------------------------------------------------------------------

/// An audio entry that offers stereo AAC at 48 kHz: bit zero of its modes.
pub open spec fn entry_is_aac(entry: Seq<char>) -> bool {
    let fields = text::fields(entry);
    &&& fields.len() >= 2
    &&& fields[0] == "AAC"@
    &&& number::number(fields[1], 16, 0xffff_ffff) is Some
    &&& number::number(fields[1], 16, 0xffff_ffff)->Some_0 % 2 == 1
}

/// Whether one of the audio entries is stereo AAC at 48 kHz.
pub open spec fn offers_aac(value: Seq<char>) -> bool {
    exists|i: int|
        0 <= i < text::split(value, ',').len() && entry_is_aac(
            #[trigger] text::split(value, ',')[i],
        )
}

/// Whether an audio entry is stereo AAC at 48 kHz.
fn check_aac(entry: &[char]) -> (r: bool)
    ensures
        r == entry_is_aac(entry@),
{
    let fields = text::fields_of(entry);
    let ghost parts = text::views(fields@);
    if fields.len() < 2 {
        return false;
    }
    proof {
        assert(parts[0] == fields@[0]@);
        assert(parts[1] == fields@[1]@);
    }
    if !text::is(fields[0].as_slice(), "AAC") {
        return false;
    }
    match number::parse(fields[1].as_slice(), 16, 0xffff_ffff) {
        Err(_) => false,
        Ok(modes) => modes % 2 == 1,
    }
}

/// Whether the receiver plays stereo AAC at 48 kHz.
pub fn supports_aac(value: &str) -> (r: bool)
    ensures
        r == offers_aac(value@),
{
    let chars = text::chars_of(value);
    let entries = text::split_at_char(chars.as_slice(), ',');
    let ghost all = text::split(value@, ',');
    let mut i: usize = 0;
    while i < entries.len()
        invariant
            i <= entries@.len(),
            all == text::views(entries@),
            all == text::split(value@, ','),
            forall|k: int| 0 <= k < i ==> !entry_is_aac(#[trigger] all[k]),
        decreases entries@.len() - i,
    {
        proof {
            assert(all[i as int] == entries@[i as int]@);
        }
        if check_aac(entries[i].as_slice()) {
            return true;
        }
        i = i + 1;
    }
    false
}

/// A video entry that offers H.264 RHP2 at 1080p60. The first entry has one field more
/// in front.
pub open spec fn entry_is_rhp2(entry: Seq<char>, first: bool) -> bool {
    let fields = text::fields(entry);
    let at: int = if first {
        1
    } else {
        0
    };
    let level = number::number(fields[at + 2], 16, 65535);
    let modes = number::number(fields[at + 3], 16, u64::MAX as int);
    &&& fields.len() >= at + 10
    &&& fields[at] == "01"@
    &&& fields[at + 1] == "04"@
    &&& fields[at + 2].len() == 4
    &&& fields[at + 3].len() == 12
    &&& level is Some
    &&& (level->Some_0 == 16 || level->Some_0 == 32 || level->Some_0 == 64 || level->Some_0 == 128)
    &&& modes is Some
    &&& modes->Some_0 / 256 % 2 == 1
}

/// Whether one of the video entries is H.264 RHP2 at 1080p60.
pub open spec fn offers_rhp2(body: Seq<char>) -> bool {
    let params = parameter_map(text::lines(body));
    let entries = text::split(params["wfd2_video_formats"@], ',');
    &&& params.contains_key("wfd2_video_formats"@)
    &&& exists|i: int| 0 <= i < entries.len() && entry_is_rhp2(#[trigger] entries[i], i == 0)
}

/// Whether a video entry is H.264 RHP2 at 1080p60.
fn check_rhp2(entry: &[char], first: bool) -> (r: bool)
    ensures
        r == entry_is_rhp2(entry@, first),
{
    let fields = text::fields_of(entry);
    let ghost parts = text::views(fields@);
    let at: usize = if first {
        1
    } else {
        0
    };
    if fields.len() < at + 10 {
        return false;
    }
    proof {
        assert(parts[at as int] == fields@[at as int]@);
        assert(parts[at + 1] == fields@[at + 1]@);
        assert(parts[at + 2] == fields@[at + 2]@);
        assert(parts[at + 3] == fields@[at + 3]@);
    }
    if !text::is(fields[at].as_slice(), "01") || !text::is(fields[at + 1].as_slice(), "04") {
        return false;
    }
    if fields[at + 2].len() != 4 || fields[at + 3].len() != 12 {
        return false;
    }
    let level: u64 = match number::parse(fields[at + 2].as_slice(), 16, 65535) {
        Err(_) => {
            return false;
        },
        Ok(level) => level,
    };
    let modes: u64 = match number::parse(fields[at + 3].as_slice(), 16, u64::MAX) {
        Err(_) => {
            return false;
        },
        Ok(modes) => modes,
    };
    (level == 16 || level == 32 || level == 64 || level == 128) && modes / 256 % 2 == 1
}

/// Whether the receiver plays H.264 RHP2 at 1080p60.
pub fn supports_rhp2(body: &str) -> (r: bool)
    ensures
        r == offers_rhp2(body@),
{
    let params = parameters(body);
    let value = match params.get("wfd2_video_formats") {
        None => {
            return false;
        },
        Some(value) => value,
    };
    let chars = text::chars_of(value);
    let entries = text::split_at_char(chars.as_slice(), ',');
    let ghost all = text::split(value@, ',');
    let mut i: usize = 0;
    while i < entries.len()
        invariant
            i <= entries@.len(),
            all == text::views(entries@),
            all == text::split(value@, ','),
            parameter_map(text::lines(body@)).contains_key("wfd2_video_formats"@),
            value@ == parameter_map(text::lines(body@))["wfd2_video_formats"@],
            forall|k: int| 0 <= k < i ==> !entry_is_rhp2(#[trigger] all[k], k == 0),
        decreases entries@.len() - i,
    {
        proof {
            assert(all[i as int] == entries@[i as int]@);
        }
        if check_rhp2(entries[i].as_slice(), i == 0) {
            return true;
        }
        i = i + 1;
    }
    false
}

/// The mode bit of the resolution table.
pub open spec fn mode_mask(config: Config) -> Option<int> {
    if config.width == 1920 && config.height == 1080 && config.fps == 60 {
        Some(256)
    } else if config.width == 1920 && config.height == 1080 && config.fps == 30 {
        Some(128)
    } else if config.width == 1280 && config.height == 720 && config.fps == 60 {
        Some(64)
    } else {
        None
    }
}

/// The name and the value of the video format that is selected.
pub open spec fn descriptor(config: Config) -> Result<
    (Seq<char>, Seq<char>),
    WfdError<Seq<char>>,
> {
    match mode_mask(config) {
        None => Err(
            WfdError::UnsupportedMode { width: config.width, height: config.height, fps: config.fps },
        ),
        Some(mask) => if config.profile == Profile::Baseline {
            Ok(
                (
                    "wfd_video_formats"@,
                    "00 00 01 10 "@ + number::hexadecimal(mask, 8)
                        + " 00000000 00000000 00 0000 0000 00 none none"@,
                ),
            )
        } else if mask != 256 {
            Err(WfdError::RequiresFullHd)
        } else if config.profile == Profile::Hevc {
            Ok(
                (
                    "wfd2_video_formats"@,
                    "00 02 01 0004 000000000100 000000000000 000000000000 00 0000 0000 00 00"@,
                ),
            )
        } else {
            Ok(
                (
                    "wfd2_video_formats"@,
                    "00 01 04 0010 000000000100 000000000000 000000000000 00 0000 0000 00 00"@,
                ),
            )
        },
    }
}

/// The name and the value of the video format that is selected.
pub fn video_descriptor(config: &Config) -> (r: Result<(&'static str, String), WfdError<String>>)
    ensures
        match descriptor(*config) {
            Ok((key, value)) => r is Ok && r->Ok_0.0@ == key && r->Ok_0.1@ == value,
            Err(e) => r is Err && r->Err_0@ == e,
        },
{
    let mask: u64 = if config.width == 1920 && config.height == 1080 && config.fps == 60 {
        256
    } else if config.width == 1920 && config.height == 1080 && config.fps == 30 {
        128
    } else if config.width == 1280 && config.height == 720 && config.fps == 60 {
        64
    } else {
        return Err(
            WfdError::UnsupportedMode { width: config.width, height: config.height, fps: config.fps },
        );
    };
    match config.profile {
        Profile::Baseline => {
            let value = "00 00 01 10 ".to_owned().concat(
                number::hexadecimal_text(mask, 8).as_str(),
            ).concat(" 00000000 00000000 00 0000 0000 00 none none");
            Ok(("wfd_video_formats", value))
        },
        Profile::Hevc => {
            if mask != 256 {
                return Err(WfdError::RequiresFullHd);
            }
            Ok(
                (
                    "wfd2_video_formats",
                    "00 02 01 0004 000000000100 000000000000 000000000000 00 0000 0000 00 00".to_owned(),
                ),
            )
        },
        Profile::Rhp2 => {
            if mask != 256 {
                return Err(WfdError::RequiresFullHd);
            }
            Ok(
                (
                    "wfd2_video_formats",
                    "00 01 04 0010 000000000100 000000000000 000000000000 00 0000 0000 00 00".to_owned(),
                ),
            )
        },
    }
}

/// Only success is accepted.
pub fn check_response(kind: Pending, status: u16) -> (r: Result<(), WfdError<String>>)
    ensures
        r is Ok <==> status == 200,
        r is Err ==> r->Err_0@ == (WfdError::<Seq<char>>::Rejected { kind, status }),
{
    if status == 200 {
        Ok(())
    } else {
        Err(WfdError::Rejected { kind, status })
    }
}

// ---------------------------------------------------------------------------
// Laws
// ---------------------------------------------------------------------------

/// Lines behind a line end.
proof fn lemma_lines_behind(a: Seq<char>, b: Seq<char>)
    requires
        a.len() == 0 || a.last() == '\n',
    ensures
        text::lines(a + b) == text::lines(a) + text::lines(b),
    decreases a.len(),
{
    if a.len() == 0 {
        assert(a + b =~= b);
        assert(text::lines(a) + text::lines(b) =~= text::lines(b));
    } else {
        text::lemma_find(a, '\n');
        let j = text::find(a, '\n');
        if j == a.len() {
            assert(a.take(j)[a.len() - 1] == '\n');
        }
        let line = a.take(j);
        let rest = a.skip(j + 1);
        assert(a + b =~= line + seq!['\n'] + (rest + b));
        text::lemma_find_behind(line, '\n', rest + b);
        assert((a + b).take(j) =~= line);
        assert((a + b).skip(j + 1) =~= rest + b);
        if rest.len() > 0 {
            assert(rest.last() == a.last());
        }
        lemma_lines_behind(rest, b);
        assert(text::lines(a + b) =~= text::lines(a) + text::lines(b));
    }
}

/// A line with a name, a colon and a value sets this parameter, in place of an earlier one of
/// that name, and no other.
pub proof fn law_a_line_sets_its_parameter(
    body: Seq<char>,
    name: Seq<char>,
    blank: Seq<char>,
    value: Seq<char>,
)
    requires
        body.len() == 0 || body.last() == '\n',
        name.len() > 0 && !text::is_space(name[0]) && !text::is_space(name.last()),
        text::is_without(name, ':') && text::is_without(name, '\n'),
        forall|i: int| 0 <= i < blank.len() ==> #[trigger] blank[i] == ' ',
        value.len() > 0 ==> !text::is_space(value[0]) && !text::is_space(value.last()),
        text::is_without(value, '\n'),
    ensures
        parameter_map(text::lines(body + (name + seq![':'] + blank + value + seq!['\r', '\n'])))
            == parameter_map(text::lines(body)).insert(name, value),
{
    let line = name + seq![':'] + blank + value;
    let none = Seq::<char>::empty();
    assert forall|i: int| 0 <= i < line.len() implies #[trigger] line[i] != '\n' by {
        if i < name.len() {
            assert(line[i] == name[i]);
        } else if i > name.len() && i <= name.len() + blank.len() {
            assert(line[i] == blank[i - name.len() - 1]);
        } else if i > name.len() {
            assert(line[i] == value[i - name.len() - 1 - blank.len()]);
        }
    }
    let end = seq!['\r', '\n'];
    lemma_lines_behind(body, line + end);
    text::law_line_ends_part_lines(line, none);
    assert(line + end + none =~= line + end);
    assert(text::lines(none) =~= Seq::<Seq<char>>::empty());
    let all = text::lines(body + (line + end));
    assert(all =~= text::lines(body).push(line));
    assert(all.drop_last() =~= text::lines(body));
    assert(line =~= name + seq![':'] + (blank + value));
    text::law_the_first_separator_cuts(name, ':', blank + value);
    text::law_trimming_takes_white_space(none, name, none);
    assert(none + name + none =~= name);
    text::law_trimming_takes_white_space(blank, value, none);
    assert(blank + value + none =~= blank + value);
}

/// The value of hexadecimal digits is below the power of sixteen for their number.
proof fn lemma_hex_bound(s: Seq<char>)
    requires
        number::all_digits(s, 16),
    ensures
        0 <= number::digits_value(s, 16),
        s.len() <= 8 ==> number::digits_value(s, 16) <= 0xffff_ffff,
        s.len() <= 12 ==> number::digits_value(s, 16) < 0x1_0000_0000_0000,
        s.len() > 0 ==> number::digits_value(s, 16) % 2 == number::digit_value(s.last()) % 2,
{
    lemma_hex_power(s);
    lemma_sixteen(s.len() as int, 8);
    lemma_sixteen(s.len() as int, 12);
    assert(sixteen(8) == 0x1_0000_0000) by {
        reveal_with_fuel(sixteen, 9);
    }
    assert(sixteen(12) == 0x1_0000_0000_0000) by {
        reveal_with_fuel(sixteen, 13);
    }
}

/// Sixteen to the power of `n`.
spec fn sixteen(n: int) -> int
    decreases n,
{
    if n <= 0 {
        1
    } else {
        16 * sixteen(n - 1)
    }
}

/// Powers grow.
proof fn lemma_sixteen(a: int, b: int)
    requires
        0 <= a,
    ensures
        sixteen(a) >= 1,
        a <= b ==> sixteen(a) <= sixteen(b),
    decreases b - a, a,
{
    if a > 0 {
        lemma_sixteen_positive(a);
    }
    if a < b {
        lemma_sixteen(a + 1, b);
        lemma_sixteen_positive(a);
    }
}

proof fn lemma_sixteen_positive(n: int)
    ensures
        sixteen(n) >= 1,
    decreases n,
{
    if n > 0 {
        lemma_sixteen_positive(n - 1);
    }
}

proof fn lemma_hex_power(s: Seq<char>)
    requires
        number::all_digits(s, 16),
    ensures
        0 <= number::digits_value(s, 16) < sixteen(s.len() as int),
    decreases s.len(),
{
    if s.len() > 0 {
        let front = s.drop_last();
        assert forall|i: int| 0 <= i < front.len() implies number::digit_value(#[trigger] front[i])
            < 16 by {
            assert(number::digit_value(s[i]) < 16);
        }
        lemma_hex_power(front);
        assert(number::digit_value(s[s.len() - 1]) < 16);
    }
}

/// The value of a text whose last digits are known.
proof fn lemma_last_digits(s: Seq<char>)
    requires
        s.len() >= 3,
        number::all_digits(s, 16),
    ensures
        ({
            let n = s.len() as int;
            number::digits_value(s, 16) == ((number::digits_value(s.take(n - 3), 16) * 16
                + number::digit_value(s[n - 3])) * 16 + number::digit_value(s[n - 2])) * 16
                + number::digit_value(s[n - 1])
        }),
{
    let n = s.len() as int;
    let a = s.drop_last();
    let b = a.drop_last();
    let c = b.drop_last();
    assert(c =~= s.take(n - 3));
    assert(number::digits_value(b, 16) == number::digits_value(c, 16) * 16 + number::digit_value(
        s[n - 3],
    ));
    assert(number::digits_value(a, 16) == number::digits_value(b, 16) * 16 + number::digit_value(
        s[n - 2],
    ));
}

/// Four hexadecimal digits.
proof fn lemma_four_digits(s: Seq<char>)
    requires
        s.len() == 4,
        number::all_digits(s, 16),
    ensures
        number::digits_value(s, 16) == ((number::digit_value(s[0]) * 16 + number::digit_value(s[1]))
            * 16 + number::digit_value(s[2])) * 16 + number::digit_value(s[3]),
{
    lemma_last_digits(s);
    let one = s.take(1);
    assert(number::digits_value(one.drop_last(), 16) == 0);
    assert(one.last() == s[0]);
}

/// The levels of RHP2.
proof fn lemma_levels(level: Seq<char>)
    requires
        level == "0010"@ || level == "0020"@ || level == "0040"@ || level == "0080"@,
    ensures
        level.len() == 4,
        number::number(level, 16, 65535) is Some,
        level == "0010"@ ==> number::number(level, 16, 65535)->Some_0 == 16,
        level == "0020"@ ==> number::number(level, 16, 65535)->Some_0 == 32,
        level == "0040"@ ==> number::number(level, 16, 65535)->Some_0 == 64,
        level == "0080"@ ==> number::number(level, 16, 65535)->Some_0 == 128,
{
    reveal_strlit("0010");
    reveal_strlit("0020");
    reveal_strlit("0040");
    reveal_strlit("0080");
    assert(number::all_digits(level, 16)) by {
        assert forall|i: int| 0 <= i < level.len() implies number::digit_value(#[trigger] level[i])
            < 16 by {}
    }
    lemma_four_digits(level);
}

/// A mode of 1080p60 among twelve hexadecimal digits: the lowest bit of the third digit from
/// the right.
proof fn lemma_mode_bit(modes: Seq<char>)
    requires
        modes.len() == 12,
        number::all_digits(modes, 16),
    ensures
        modes[0] != '+',
        number::number(modes, 16, u64::MAX as int) is Some,
        number::number(modes, 16, u64::MAX as int)->Some_0 / 256 % 2 == number::digit_value(modes[9])
            % 2,
{
    assert(number::digit_value(modes[0]) < 16);
    lemma_hex_bound(modes);
    lemma_last_digits(modes);
    let high = number::digits_value(modes.take(9), 16);
    let d = number::digit_value(modes[9]);
    let low = number::digit_value(modes[10]) * 16 + number::digit_value(modes[11]);
    assert(number::digit_value(modes[10]) < 16 && number::digit_value(modes[11]) < 16);
    let value = number::digits_value(modes, 16);
    assert(value == (high * 16 + d) * 256 + low);
    assert(0 <= low < 256);
    assert(value / 256 == high * 16 + d);
}

/// An entry of the video formats offers RHP2 at 1080p60 wherever in the list it stands: H.264,
/// profile 04, one of the four levels, and the bit of the mode. Only the first entry has a
/// field more in front.
pub proof fn law_rhp2_counts_wherever_it_stands(body: Seq<char>, i: int)
    requires
        ({
            let params = parameter_map(text::lines(body));
            let entries = text::split(params["wfd2_video_formats"@], ',');
            let words = text::fields(entries[i]);
            let at: int = if i == 0 {
                1
            } else {
                0
            };
            &&& params.contains_key("wfd2_video_formats"@)
            &&& 0 <= i < entries.len()
            &&& words.len() >= at + 10
            &&& words[at] == "01"@
            &&& words[at + 1] == "04"@
            &&& words[at + 2] == "0010"@ || words[at + 2] == "0020"@ || words[at + 2] == "0040"@
                || words[at + 2] == "0080"@
            &&& words[at + 3].len() == 12
            &&& number::all_digits(words[at + 3], 16)
            &&& number::digit_value(words[at + 3][9]) % 2 == 1
        }),
    ensures
        offers_rhp2(body),
{
    let params = parameter_map(text::lines(body));
    let entries = text::split(params["wfd2_video_formats"@], ',');
    let words = text::fields(entries[i]);
    let at: int = if i == 0 {
        1
    } else {
        0
    };
    lemma_levels(words[at + 2]);
    lemma_mode_bit(words[at + 3]);
    assert(entry_is_rhp2(entries[i], i == 0));
}

/// Nothing else offers RHP2.
pub proof fn law_only_rhp2_counts(body: Seq<char>) -> (i: int)
    requires
        offers_rhp2(body),
    ensures
        ({
            let params = parameter_map(text::lines(body));
            let entries = text::split(params["wfd2_video_formats"@], ',');
            let words = text::fields(entries[i]);
            let at: int = if i == 0 {
                1
            } else {
                0
            };
            let level = number::number(words[at + 2], 16, 65535);
            let modes = number::number(words[at + 3], 16, u64::MAX as int);
            &&& params.contains_key("wfd2_video_formats"@)
            &&& 0 <= i < entries.len()
            &&& words.len() >= at + 10
            &&& words[at] == "01"@ && words[at + 1] == "04"@
            &&& words[at + 2].len() == 4 && words[at + 3].len() == 12
            &&& level == Some(0x10int) || level == Some(0x20int) || level == Some(0x40int) || level
                == Some(0x80int)
            &&& modes is Some && modes->Some_0 / 0x100 % 2 == 1
        }),
{
    let params = parameter_map(text::lines(body));
    let entries = text::split(params["wfd2_video_formats"@], ',');
    choose|i: int| 0 <= i < entries.len() && entry_is_rhp2(#[trigger] entries[i], i == 0)
}

/// Parts behind a separator.
proof fn lemma_split_behind(a: Seq<char>, c: char, b: Seq<char>)
    ensures
        text::split(a + seq![c] + b, c) == text::split(a, c) + text::split(b, c),
    decreases a.len(),
{
    let s = a + seq![c] + b;
    text::lemma_find(a, c);
    let j = text::find(a, c);
    if j == a.len() {
        assert(a.take(j) =~= a);
        text::lemma_find_behind(a, c, b);
        assert(s.take(j) =~= a);
        assert(s.skip(j + 1) =~= b);
        assert(text::split(s, c) =~= text::split(a, c) + text::split(b, c));
    } else {
        let rest = a.skip(j + 1);
        assert(s =~= a.take(j) + seq![c] + (rest + seq![c] + b));
        text::lemma_find_behind(a.take(j), c, rest + seq![c] + b);
        assert(s.take(j) =~= a.take(j));
        assert(s.skip(j + 1) =~= rest + seq![c] + b);
        lemma_split_behind(rest, c, b);
        assert(text::split(s, c) =~= text::split(a, c) + text::split(b, c));
    }
}

/// Further entries behind those of a list take nothing from it.
pub proof fn law_more_formats_take_nothing_away(body: Seq<char>, longer: Seq<char>, more: Seq<char>)
    requires
        offers_rhp2(body),
        parameter_map(text::lines(longer)) == parameter_map(text::lines(body)).insert(
            "wfd2_video_formats"@,
            parameter_map(text::lines(body))["wfd2_video_formats"@] + seq![','] + more,
        ),
    ensures
        offers_rhp2(longer),
{
    let value = parameter_map(text::lines(body))["wfd2_video_formats"@];
    let entries = text::split(value, ',');
    let all = text::split(value + seq![','] + more, ',');
    lemma_split_behind(value, ',', more);
    let i = choose|i: int| 0 <= i < entries.len() && entry_is_rhp2(#[trigger] entries[i], i == 0);
    assert(all[i] == entries[i]);
    assert(entry_is_rhp2(all[i], i == 0));
    assert(parameter_map(text::lines(longer))["wfd2_video_formats"@] == value + seq![','] + more);
}

/// Stereo AAC at 48 kHz is offered exactly where some entry of the list is for AAC with an odd
/// number of modes: up to eight hexadecimal digits of which the last is odd are one.
pub proof fn law_aac_counts_wherever_it_stands(value: Seq<char>, i: int)
    requires
        ({
            let words = text::fields(text::split(value, ',')[i]);
            &&& 0 <= i < text::split(value, ',').len()
            &&& words.len() >= 2
            &&& words[0] == "AAC"@
            &&& 0 < words[1].len() <= 8
            &&& number::all_digits(words[1], 16)
            &&& number::digit_value(words[1].last()) % 2 == 1
        }),
    ensures
        offers_aac(value),
{
    let entry = text::split(value, ',')[i];
    let modes = text::fields(entry)[1];
    lemma_hex_bound(modes);
    assert(number::digit_value(modes[0]) < 16);
    assert(entry_is_aac(entry));
}

/// Nothing else offers it.
pub proof fn law_only_aac_counts(value: Seq<char>) -> (i: int)
    requires
        offers_aac(value),
    ensures
        ({
            let words = text::fields(text::split(value, ',')[i]);
            let modes = number::number(words[1], 16, 0xffff_ffff);
            &&& 0 <= i < text::split(value, ',').len()
            &&& words.len() >= 2
            &&& words[0] == "AAC"@
            &&& modes is Some && modes->Some_0 % 2 == 1
        }),
{
    choose|i: int|
        0 <= i < text::split(value, ',').len() && entry_is_aac(#[trigger] text::split(value, ',')[i])
}

/// Digits are no white space and no separators.
proof fn lemma_decimal_word(n: int)
    requires
        0 <= n,
    ensures
        number::decimal(n).len() > 0,
        text::is_without_space(number::decimal(n)),
        text::is_without(number::decimal(n), '-'),
        text::is_without(number::decimal(n), ';'),
{
    number::lemma_decimal(n);
    let s = number::decimal(n);
    assert forall|i: int| 0 <= i < s.len() implies !text::is_space(#[trigger] s[i]) && s[i] != '-'
        && s[i] != ';' by {
        assert(number::digit_value(s[i]) < 10);
    }
}

/// The ports of a capability read back: the first for the media, and the second for its
/// control, or the one behind the first where the second is zero or the first again. Whatever
/// follows behind white space is passed over.
pub proof fn law_ports_read_back(rtp: int, rtcp: int, rest: Seq<char>)
    requires
        0 <= rtp <= 65535,
        0 <= rtcp <= 65535,
        rest.len() == 0 || text::is_space(rest[0]),
    ensures
        ({
            let value = "RTP/AVP/UDP;unicast"@ + seq![' '] + number::decimal(rtp) + seq![' ']
                + number::decimal(rtcp) + rest;
            &&& rtp == 0 ==> ports_of(value) == Err::<(int, int), WfdError<Seq<char>>>(
                WfdError::ZeroRtpPort,
            )
            &&& rtp > 0 && rtcp != 0 && rtcp != rtp ==> ports_of(value) == Ok::<
                (int, int),
                WfdError<Seq<char>>,
            >((rtp, rtcp))
            &&& 0 < rtp < 65535 && (rtcp == 0 || rtcp == rtp) ==> ports_of(value) == Ok::<
                (int, int),
                WfdError<Seq<char>>,
            >((rtp, rtp + 1))
            &&& rtp == 65535 && (rtcp == 0 || rtcp == rtp) ==> ports_of(value) == Err::<
                (int, int),
                WfdError<Seq<char>>,
            >(WfdError::NoRtcpPort)
        }),
{
    let kind = "RTP/AVP/UDP;unicast"@;
    let a = number::decimal(rtp);
    let b = number::decimal(rtcp);
    let value = kind + seq![' '] + a + seq![' '] + b + rest;
    lemma_decimal_word(rtp);
    lemma_decimal_word(rtcp);
    reveal_strlit("RTP/AVP/UDP;unicast");
    assert(text::is_without_space(kind)) by {
        assert forall|i: int| 0 <= i < kind.len() implies !text::is_space(#[trigger] kind[i]) by {}
    }
    text::law_a_word_is_one_field(kind);
    text::law_a_word_is_one_field(a);
    let last = b + rest;
    text::law_white_space_parts_fields(kind, ' ', a + seq![' '] + last);
    text::law_white_space_parts_fields(a, ' ', last);
    assert(value =~= kind + seq![' '] + (a + seq![' '] + last));
    text::lemma_find_space_behind(b, rest);
    assert(last[0] == b[0]);
    assert(last.take(b.len() as int) =~= b);
    assert(text::fields(last)[0] == b);
    let fields = text::fields(value);
    assert(fields =~= seq![kind] + (seq![a] + text::fields(last)));
    assert(fields[0] == kind && fields[1] == a && fields[2] == b);
    number::law_decimal_reads_back(rtp, 65535);
    number::law_decimal_reads_back(rtcp, 65535);
}

/// The ports of a transport to one receiver read back, wherever among its parts they stand,
/// with the port of the control or without it.
pub proof fn law_transports_read_back(
    parts: Seq<Seq<char>>,
    k: int,
    rtp: int,
    rtcp: Option<int>,
)
    requires
        parts.len() >= 1,
        forall|i: int|
            0 <= i < parts.len() ==> text::is_without(#[trigger] parts[i], ';') && parts[i].len() > 0
                && !text::is_space(parts[i][0]) && !text::is_space(parts[i].last()),
        parts[0] == "RTP/AVP"@ || parts[0] == "RTP/AVP/UDP"@,
        parts.contains("unicast"@),
        0 <= k < parts.len(),
        0 <= rtp <= 65535,
        rtcp matches Some(p) ==> 0 <= p <= 65535,
        parts[k] == "client_port="@ + (match rtcp {
            Some(p) => number::decimal(rtp) + seq!['-'] + number::decimal(p),
            None => number::decimal(rtp),
        }),
        forall|j: int|
            0 <= j < k ==> !text::starts_with(#[trigger] parts[j], "client_port="@),
    ensures
        ({
            let result = transport_ports(text::joined(parts, ';'));
            let given = rtcp is Some && rtcp->Some_0 != 0 && rtcp->Some_0 != rtp;
            &&& rtp == 0 ==> result == Err::<(int, int), WfdError<Seq<char>>>(
                WfdError::ZeroClientPort,
            )
            &&& rtp > 0 && given ==> result == Ok::<(int, int), WfdError<Seq<char>>>(
                (rtp, rtcp->Some_0),
            )
            &&& 0 < rtp < 65535 && !given ==> result == Ok::<(int, int), WfdError<Seq<char>>>(
                (rtp, rtp + 1),
            )
            &&& rtp == 65535 && !given ==> result == Err::<(int, int), WfdError<Seq<char>>>(
                WfdError::NoRtcpPort,
            )
        }),
{
    let ports = match rtcp {
        Some(p) => number::decimal(rtp) + seq!['-'] + number::decimal(p),
        None => number::decimal(rtp),
    };
    lemma_transport_parts(parts);
    assert(parts[k].take("client_port="@.len() as int) =~= "client_port="@);
    assert(parts[k].skip("client_port="@.len() as int) =~= ports);
    lemma_first_prefixed(parts, "client_port="@, k);
    lemma_client_ports(rtp, rtcp);
}

/// The parts of a transport.
proof fn lemma_transport_parts(parts: Seq<Seq<char>>)
    requires
        parts.len() >= 1,
        forall|i: int|
            0 <= i < parts.len() ==> text::is_without(#[trigger] parts[i], ';') && parts[i].len() > 0
                && !text::is_space(parts[i][0]) && !text::is_space(parts[i].last()),
    ensures
        transport_parts(text::joined(parts, ';')) == parts,
{
    text::law_joined_texts_are_parted(parts, ';');
    let none = Seq::<char>::empty();
    assert forall|i: int| 0 <= i < parts.len() implies text::trim(#[trigger] parts[i]) == parts[i] by {
        text::law_trimming_takes_white_space(none, parts[i], none);
        assert(none + parts[i] + none =~= parts[i]);
    }
    assert(transport_parts(text::joined(parts, ';')) =~= parts);
}

/// Ports with a hyphen between them, or one alone.
proof fn lemma_client_ports(rtp: int, rtcp: Option<int>)
    requires
        0 <= rtp <= 65535,
        rtcp matches Some(p) ==> 0 <= p <= 65535,
    ensures
        ({
            let ports = match rtcp {
                Some(p) => number::decimal(rtp) + seq!['-'] + number::decimal(p),
                None => number::decimal(rtp),
            };
            client_ports(ports) == if rtp == 0 {
                Err::<(int, int), WfdError<Seq<char>>>(WfdError::ZeroClientPort)
            } else {
                match control_port(rtp, rtcp) {
                    Err(e) => Err(e),
                    Ok(port) => Ok((rtp, port)),
                }
            }
        }),
{
    lemma_decimal_word(rtp);
    number::law_decimal_reads_back(rtp, 65535);
    match rtcp {
        Some(p) => {
            number::law_decimal_reads_back(p, 65535);
            text::law_the_first_separator_cuts(number::decimal(rtp), '-', number::decimal(p));
        },
        None => {
            text::law_the_first_separator_cuts(number::decimal(rtp), '-', Seq::empty());
        },
    }
}

/// The first part with a prefix is found.
proof fn lemma_first_prefixed(parts: Seq<Seq<char>>, prefix: Seq<char>, k: int)
    requires
        0 <= k < parts.len(),
        text::starts_with(parts[k], prefix),
        forall|j: int| 0 <= j < k ==> !text::starts_with(#[trigger] parts[j], prefix),
    ensures
        first_with_prefix(parts, prefix) == Some(parts[k].skip(prefix.len() as int)),
    decreases k,
{
    if k > 0 {
        let rest = parts.drop_first();
        assert(!text::starts_with(parts[0], prefix));
        assert forall|j: int| 0 <= j < k - 1 implies !text::starts_with(#[trigger] rest[j], prefix) by {
            assert(!text::starts_with(parts[j + 1], prefix));
        }
        assert(rest[k - 1] == parts[k]);
        lemma_first_prefixed(rest, prefix, k - 1);
    }
}

/// A transport is refused that is not UDP or not to one receiver, or that names no ports.
pub proof fn law_other_transports_are_refused(parts: Seq<Seq<char>>)
    requires
        parts.len() >= 1,
        forall|i: int|
            0 <= i < parts.len() ==> text::is_without(#[trigger] parts[i], ';') && parts[i].len() > 0
                && !text::is_space(parts[i][0]) && !text::is_space(parts[i].last()),
    ensures
        parts[0] != "RTP/AVP"@ && parts[0] != "RTP/AVP/UDP"@ ==> transport_ports(
            text::joined(parts, ';'),
        ) == Err::<(int, int), WfdError<Seq<char>>>(WfdError::NotUnicast),
        !parts.contains("unicast"@) ==> transport_ports(text::joined(parts, ';')) == Err::<
            (int, int),
            WfdError<Seq<char>>,
        >(WfdError::NotUnicast),
        transport_ports(text::joined(parts, ';')) is Ok ==> exists|k: int|
            0 <= k < parts.len() && #[trigger] text::starts_with(parts[k], "client_port="@),
{
    lemma_transport_parts(parts);
    if transport_ports(text::joined(parts, ';')) is Ok {
        lemma_prefixed(parts, "client_port="@);
    }
}

/// What is found with a prefix is one of the parts.
proof fn lemma_prefixed(parts: Seq<Seq<char>>, prefix: Seq<char>)
    requires
        first_with_prefix(parts, prefix) is Some,
    ensures
        exists|k: int| 0 <= k < parts.len() && #[trigger] text::starts_with(parts[k], prefix),
    decreases parts.len(),
{
    if text::starts_with(parts[0], prefix) {
    } else {
        let rest = parts.drop_first();
        lemma_prefixed(rest, prefix);
        let k = choose|k: int| 0 <= k < rest.len() && #[trigger] text::starts_with(rest[k], prefix);
        assert(text::starts_with(parts[k + 1], prefix));
    }
}

/// The formats that are selected, for every mode and profile: the baseline with the bit of its
/// mode, HEVC and RHP2 in 1080p60 alone.
pub proof fn law_selected_formats(config: Config)
    ensures
        ({
            let selected = descriptor(config);
            let full = config.width == 1920 && config.height == 1080;
            let half = config.width == 1280 && config.height == 720;
            &&& config.profile == Profile::Baseline && full && config.fps == 60 ==> selected == Ok::<
                (Seq<char>, Seq<char>),
                WfdError<Seq<char>>,
            >(
                (
                    "wfd_video_formats"@,
                    "00 00 01 10 00000100 00000000 00000000 00 0000 0000 00 none none"@,
                ),
            )
            &&& config.profile == Profile::Baseline && full && config.fps == 30 ==> selected == Ok::<
                (Seq<char>, Seq<char>),
                WfdError<Seq<char>>,
            >(
                (
                    "wfd_video_formats"@,
                    "00 00 01 10 00000080 00000000 00000000 00 0000 0000 00 none none"@,
                ),
            )
            &&& config.profile == Profile::Baseline && half && config.fps == 60 ==> selected == Ok::<
                (Seq<char>, Seq<char>),
                WfdError<Seq<char>>,
            >(
                (
                    "wfd_video_formats"@,
                    "00 00 01 10 00000040 00000000 00000000 00 0000 0000 00 none none"@,
                ),
            )
            &&& config.profile == Profile::Hevc && full && config.fps == 60 ==> selected == Ok::<
                (Seq<char>, Seq<char>),
                WfdError<Seq<char>>,
            >(
                (
                    "wfd2_video_formats"@,
                    "00 02 01 0004 000000000100 000000000000 000000000000 00 0000 0000 00 00"@,
                ),
            )
            &&& config.profile == Profile::Rhp2 && full && config.fps == 60 ==> selected == Ok::<
                (Seq<char>, Seq<char>),
                WfdError<Seq<char>>,
            >(
                (
                    "wfd2_video_formats"@,
                    "00 01 04 0010 000000000100 000000000000 000000000000 00 0000 0000 00 00"@,
                ),
            )
            &&& config.profile != Profile::Baseline && ((full && config.fps == 30) || (half
                && config.fps == 60)) ==> selected == Err::<
                (Seq<char>, Seq<char>),
                WfdError<Seq<char>>,
            >(WfdError::RequiresFullHd)
            &&& !(full && (config.fps == 60 || config.fps == 30)) && !(half && config.fps == 60)
                ==> selected == Err::<(Seq<char>, Seq<char>), WfdError<Seq<char>>>(
                WfdError::UnsupportedMode {
                    width: config.width,
                    height: config.height,
                    fps: config.fps,
                },
            )
        }),
{
    reveal_with_fuel(number::hexadecimal, 9);
    reveal_strlit("00 00 01 10 ");
    reveal_strlit(" 00000000 00000000 00 0000 0000 00 none none");
    reveal_strlit("00 00 01 10 00000100 00000000 00000000 00 0000 0000 00 none none");
    reveal_strlit("00 00 01 10 00000080 00000000 00000000 00 0000 0000 00 none none");
    reveal_strlit("00 00 01 10 00000040 00000000 00000000 00 0000 0000 00 none none");
    let front = "00 00 01 10 "@;
    let back = " 00000000 00000000 00 0000 0000 00 none none"@;
    assert(number::hexadecimal(256, 8) =~= seq!['0', '0', '0', '0', '0', '1', '0', '0']);
    assert(number::hexadecimal(128, 8) =~= seq!['0', '0', '0', '0', '0', '0', '8', '0']);
    assert(number::hexadecimal(64, 8) =~= seq!['0', '0', '0', '0', '0', '0', '4', '0']);
    assert(front + number::hexadecimal(256, 8) + back
        =~= "00 00 01 10 00000100 00000000 00000000 00 0000 0000 00 none none"@);
    assert(front + number::hexadecimal(128, 8) + back
        =~= "00 00 01 10 00000080 00000000 00000000 00 0000 0000 00 none none"@);
    assert(front + number::hexadecimal(64, 8) + back
        =~= "00 00 01 10 00000040 00000000 00000000 00 0000 0000 00 none none"@);
}

} // verus!
