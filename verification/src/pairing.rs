//! The client of the pairing service: its requests, the lines of the service and what they
//! say.
use crate::json;
use crate::text;
use vstd::prelude::*;

verus! {

/// The longest line of the service, in bytes.
pub const MAX_LINE: usize = 16_384;

/// Why there is no pairing.
#[derive(Debug, PartialEq, Eq)]
pub enum PairingError<T> {
    /// The user gave up.
    Cancelled,
    /// A time limit beyond the clock.
    TimeoutTooLarge,
    /// The service took too long.
    TimedOut,
    /// The service went away.
    Disconnected,
    /// The request could not be written.
    Encoding,
    /// A line beyond the limit.
    LineTooLong,
    /// A line that is no event.
    InvalidResponse(T),
    /// Ready without an interface.
    NoInterface,
    /// Ready with something that is no interface of Wi-Fi Direct.
    InvalidInterface,
    /// Ready without saying whether a pairing was used again.
    NoReused,
    /// The service failed.
    Service(T),
    /// An event of another kind.
    UnknownEvent(T),
    /// A reply to another task.
    Unexpected,
}

impl PairingError<String> {
    /// The error with its text as a sequence.
    pub open spec fn view(self) -> PairingError<Seq<char>> {
        match self {
            PairingError::Cancelled => PairingError::Cancelled,
            PairingError::TimeoutTooLarge => PairingError::TimeoutTooLarge,
            PairingError::TimedOut => PairingError::TimedOut,
            PairingError::Disconnected => PairingError::Disconnected,
            PairingError::Encoding => PairingError::Encoding,
            PairingError::LineTooLong => PairingError::LineTooLong,
            PairingError::InvalidResponse(s) => PairingError::InvalidResponse(s@),
            PairingError::NoInterface => PairingError::NoInterface,
            PairingError::InvalidInterface => PairingError::InvalidInterface,
            PairingError::NoReused => PairingError::NoReused,
            PairingError::Service(s) => PairingError::Service(s@),
            PairingError::UnknownEvent(s) => PairingError::UnknownEvent(s@),
            PairingError::Unexpected => PairingError::Unexpected,
        }
    }

    /// The message shown to the user.
    pub fn text(&self) -> (r: String)
        ensures
            r@ == error_text(self@),
    {
        match self {
            PairingError::Cancelled => "Mirroring cancelled".to_owned(),
            PairingError::TimeoutTooLarge => "Pairing timeout is too large".to_owned(),
            PairingError::TimedOut => "Timed out waiting for pairing service".to_owned(),
            PairingError::Disconnected => "Pairing service disconnected before ready".to_owned(),
            PairingError::Encoding => "Cannot encode pairing request".to_owned(),
            PairingError::LineTooLong => "Pairing service response exceeds 16 KiB".to_owned(),
            PairingError::InvalidResponse(s) => {
                "Invalid pairing service response: ".to_owned().concat(s.as_str())
            },
            PairingError::NoInterface => "Pairing ready lacks interface".to_owned(),
            PairingError::InvalidInterface => {
                "Pairing service returned invalid P2P interface".to_owned()
            },
            PairingError::NoReused => "Pairing ready lacks reused flag".to_owned(),
            PairingError::Service(s) => "Pairing service: ".to_owned().concat(s.as_str()),
            PairingError::UnknownEvent(s) => "Unknown pairing service event: ".to_owned().concat(
                s.as_str(),
            ),
            PairingError::Unexpected => "Reply to another pairing task".to_owned(),
        }
    }
}

/// The text of each error.
pub open spec fn error_text(e: PairingError<Seq<char>>) -> Seq<char> {
    match e {
        PairingError::Cancelled => "Mirroring cancelled"@,
        PairingError::TimeoutTooLarge => "Pairing timeout is too large"@,
        PairingError::TimedOut => "Timed out waiting for pairing service"@,
        PairingError::Disconnected => "Pairing service disconnected before ready"@,
        PairingError::Encoding => "Cannot encode pairing request"@,
        PairingError::LineTooLong => "Pairing service response exceeds 16 KiB"@,
        PairingError::InvalidResponse(s) => "Invalid pairing service response: "@ + s,
        PairingError::NoInterface => "Pairing ready lacks interface"@,
        PairingError::InvalidInterface => "Pairing service returned invalid P2P interface"@,
        PairingError::NoReused => "Pairing ready lacks reused flag"@,
        PairingError::Service(s) => "Pairing service: "@ + s,
        PairingError::UnknownEvent(s) => "Unknown pairing service event: "@ + s,
        PairingError::Unexpected => "Reply to another pairing task"@,
    }
}

// ---------------------------------------------------------------------------
// Requests
// ---------------------------------------------------------------------------

/// The texts of a request to connect.
pub open spec fn request_texts(peer: Seq<char>) -> Seq<(Seq<char>, Seq<char>)> {
    seq![("operation"@, "connect"@), ("peer"@, peer)]
}

/// A request to connect: one JSON object on a line of its own.
pub open spec fn request_bytes(peer: Seq<char>, timeout_secs: u64, allow_pairing: bool) -> Seq<u8> {
    json::json_object(
        request_texts(peer),
        seq![("timeout_secs"@, timeout_secs)],
        seq![("allow_pairing"@, allow_pairing)],
    ).push(10)
}

/// A request to connect. A new pairing is made only where that is allowed.
pub fn connect_request(peer: &str, timeout_secs: u64, allow_pairing: bool) -> (r: Result<
    Vec<u8>,
    PairingError<String>,
>)
    ensures
        r is Ok,
        r->Ok_0@ == request_bytes(peer@, timeout_secs, allow_pairing),
        forall|i: int| 0 <= i < r->Ok_0@.len() - 1 ==> #[trigger] r->Ok_0@[i] != 10,
{
    let mut texts: Vec<(String, String)> = Vec::new();
    texts.push(("operation".to_owned(), "connect".to_owned()));
    texts.push(("peer".to_owned(), peer.to_owned()));
    let mut numbers: Vec<(String, u64)> = Vec::new();
    numbers.push(("timeout_secs".to_owned(), timeout_secs));
    let mut flags: Vec<(String, bool)> = Vec::new();
    flags.push(("allow_pairing".to_owned(), allow_pairing));
    proof {
        assert(json::text_pairs(texts@) =~= request_texts(peer@));
        assert(json::number_pairs(numbers@) =~= seq![("timeout_secs"@, timeout_secs)]);
        assert(json::flag_pairs(flags@) =~= seq![("allow_pairing"@, allow_pairing)]);
    }
    match json::write_object(&texts, &numbers, &flags) {
        Ok(bytes) => {
            let mut line = bytes;
            line.push(10);
            Ok(line)
        },
        Err(_) => Err(PairingError::Encoding),
    }
}

/// The line that ends a connection: `{"operation":"disconnect"}` and a line feed.
pub open spec fn disconnect_bytes() -> Seq<u8> {
    seq![
        123u8, 34, 111, 112, 101, 114, 97, 116, 105, 111, 110, 34, 58, 34,
        100, 105, 115, 99, 111, 110, 110, 101, 99, 116, 34, 125, 10,
    ]
}

/// The line that ends a connection.
pub fn disconnect_request() -> (r: Vec<u8>)
    ensures
        r@ == disconnect_bytes(),
{
    let line: Vec<u8> = vec![
        123, 34, 111, 112, 101, 114, 97, 116, 105, 111, 110, 34, 58, 34,
        100, 105, 115, 99, 111, 110, 110, 101, 99, 116, 34, 125, 10,
    ];
    proof {
        assert(line@ =~= disconnect_bytes());
    }
    line
}

/// How long the service has to say its last, in milliseconds.
pub const DRAIN_MS: u64 = 3000;

/// Whether to go on reading what the service still sends, for three seconds at most.
pub fn drains(elapsed_ms: u64) -> (r: bool)
    ensures
        r == (elapsed_ms < 3000),
{
    elapsed_ms < DRAIN_MS
}

/// The end of the wait for the service: the time limit that it was given, and some more.
pub fn deadline(now_ms: u64, timeout_ms: u64, grace_ms: u64) -> (r: Result<
    u64,
    PairingError<String>,
>)
    ensures
        if now_ms + timeout_ms + grace_ms <= u64::MAX {
            r is Ok && r->Ok_0 == now_ms + timeout_ms + grace_ms
        } else {
            r is Err && r->Err_0@ is TimeoutTooLarge
        },
{
    match now_ms.checked_add(timeout_ms) {
        None => Err(PairingError::TimeoutTooLarge),
        Some(limit) => match limit.checked_add(grace_ms) {
            None => Err(PairingError::TimeoutTooLarge),
            Some(limit) => Ok(limit),
        },
    }
}

/// Whether to wait on for the service. Giving up goes before the time limit.
pub fn check_wait(stop: bool, now_ms: u64, deadline_ms: u64) -> (r: Result<
    (),
    PairingError<String>,
>)
    ensures
        if stop {
            r is Err && r->Err_0@ is Cancelled
        } else if now_ms >= deadline_ms {
            r is Err && r->Err_0@ is TimedOut
        } else {
            r is Ok
        },
{
    if stop {
        Err(PairingError::Cancelled)
    } else if now_ms >= deadline_ms {
        Err(PairingError::TimedOut)
    } else {
        Ok(())
    }
}

// ---------------------------------------------------------------------------
// Lines
// ---------------------------------------------------------------------------

/// A line of the service, as far as it has come.
#[derive(Debug)]
pub struct LineReader {
    pub line: Vec<u8>,
}

/// What the bytes of a line are when one more has come, and the line where it is whole.
pub open spec fn line_step(line: Seq<u8>, byte: u8) -> Result<
    (Seq<u8>, Option<Seq<u8>>),
    PairingError<Seq<char>>,
> {
    if byte == 10 {
        Ok((Seq::empty(), Some(line)))
    } else if line.len() < MAX_LINE {
        Ok((line.push(byte), None))
    } else {
        Err(PairingError::LineTooLong)
    }
}

impl Default for LineReader {
    fn default() -> (r: LineReader)
        ensures
            r.line@ == Seq::<u8>::empty(),
    {
        LineReader { line: Vec::new() }
    }
}

impl LineReader {
    /// One more byte: gives the line where it is whole.
    pub fn push(&mut self, byte: u8) -> (r: Result<Option<Vec<u8>>, PairingError<String>>)
        ensures
            match line_step(old(self).line@, byte) {
                Err(e) => r is Err && r->Err_0@ == e && final(self).line@ == old(self).line@,
                Ok((rest, None)) => r is Ok && r->Ok_0 is None && final(self).line@ == rest,
                Ok((rest, Some(line))) => r is Ok && r->Ok_0 is Some && r->Ok_0->Some_0@ == line
                    && final(self).line@ == rest,
            },
    {
        if byte == 10 {
            let mut line: Vec<u8> = Vec::new();
            std::mem::swap(&mut line, &mut self.line);
            return Ok(Some(line));
        }
        if self.line.len() >= MAX_LINE {
            return Err(PairingError::LineTooLong);
        }
        self.line.push(byte);
        Ok(None)
    }
}

/// The line after bytes without a line feed.
pub open spec fn after_bytes(line: Seq<u8>, bytes: Seq<u8>) -> Result<
    Seq<u8>,
    PairingError<Seq<char>>,
>
    decreases bytes.len(),
{
    if bytes.len() == 0 {
        Ok(line)
    } else {
        match line_step(line, bytes[0]) {
            Err(e) => Err(e),
            Ok((rest, _)) => after_bytes(rest, bytes.drop_first()),
        }
    }
}

// ---------------------------------------------------------------------------
// Events
// ---------------------------------------------------------------------------

/// An event of the service.
#[derive(Debug, PartialEq, Eq)]
pub struct Event {
    pub event: String,
    pub message: Option<String>,
    pub interface: Option<String>,
    pub reused: Option<bool>,
}

/// What an event means.
#[derive(Debug, PartialEq, Eq)]
pub enum Progress<T> {
    /// Something to show the user, if there is anything.
    Status(Option<T>),
    /// The connection is up.
    Ready { interface: T, reused: bool },
}

impl Progress<String> {
    /// The meaning with its texts as sequences.
    pub open spec fn view(self) -> Progress<Seq<char>> {
        match self {
            Progress::Status(None) => Progress::Status(None),
            Progress::Status(Some(s)) => Progress::Status(Some(s@)),
            Progress::Ready { interface, reused } => Progress::Ready {
                interface: interface@,
                reused,
            },
        }
    }
}

/// The size of the name of a network interface, with the zero at its end, as `libc`
/// gives it for Linux.
#[verifier::external_body]
pub(crate) fn interface_name_size() -> (r: usize)
    ensures
        r == 16,
{
    libc::IFNAMSIZ
}

/// A character of an interface name.
pub open spec fn is_name_char(c: char) -> bool {
    ('a' <= c && c <= 'z') || ('A' <= c && c <= 'Z') || ('0' <= c && c <= '9') || c == '-'
}

/// The name of an interface of Wi-Fi Direct.
pub open spec fn is_p2p_interface(name: Seq<char>) -> bool {
    &&& text::starts_with(name, "p2p-"@)
    &&& 4 < name.len() < 16
    &&& forall|i: int| 0 <= i < name.len() ==> is_name_char(#[trigger] name[i]) || name[i] == '_'
}

/// A character of an interface name.
pub(crate) fn name_char(c: char) -> (r: bool)
    ensures
        r == is_name_char(c),
{
    ('a' <= c && c <= 'z') || ('A' <= c && c <= 'Z') || ('0' <= c && c <= '9') || c == '-'
}

/// The name of an interface of Wi-Fi Direct.
pub fn check_interface(name: &str) -> (r: bool)
    ensures
        r == is_p2p_interface(name@),
{
    let chars = text::chars_of(name);
    if !text::has_prefix(chars.as_slice(), "p2p-") || chars.len() <= 4 || chars.len()
        >= interface_name_size() {
        return false;
    }
    let mut i: usize = 0;
    while i < chars.len()
        invariant
            i <= chars@.len(),
            chars@ == name@,
            forall|k: int|
                0 <= k < i ==> is_name_char(#[trigger] chars@[k]) || chars@[k] == '_',
        decreases chars@.len() - i,
    {
        if !name_char(chars[i]) && chars[i] != '_' {
            return false;
        }
        i = i + 1;
    }
    true
}

/// What an event means.
pub open spec fn meaning(e: Event) -> Result<Progress<Seq<char>>, PairingError<Seq<char>>> {
    if e.event@ == "status"@ {
        Ok(
            Progress::Status(
                match e.message {
                    Some(s) => Some(s@),
                    None => None,
                },
            ),
        )
    } else if e.event@ == "ready"@ {
        if e.interface is None {
            Err(PairingError::NoInterface)
        } else if !is_p2p_interface(e.interface->Some_0@) {
            Err(PairingError::InvalidInterface)
        } else if e.reused is None {
            Err(PairingError::NoReused)
        } else {
            Ok(Progress::Ready { interface: e.interface->Some_0@, reused: e.reused->Some_0 })
        }
    } else if e.event@ == "error"@ {
        Err(
            PairingError::Service(
                match e.message {
                    Some(s) => s@,
                    None => "unspecified error"@,
                },
            ),
        )
    } else {
        Err(PairingError::UnknownEvent(e.event@))
    }
}

/// What an event means.
pub fn handle_event(e: Event) -> (r: Result<Progress<String>, PairingError<String>>)
    ensures
        match meaning(e) {
            Ok(progress) => r is Ok && r->Ok_0@ == progress,
            Err(error) => r is Err && r->Err_0@ == error,
        },
{
    if text::same(e.event.as_str(), "status") {
        return Ok(Progress::Status(e.message));
    }
    if text::same(e.event.as_str(), "ready") {
        let interface = match e.interface {
            None => {
                return Err(PairingError::NoInterface);
            },
            Some(interface) => interface,
        };
        if !check_interface(interface.as_str()) {
            return Err(PairingError::InvalidInterface);
        }
        return match e.reused {
            None => Err(PairingError::NoReused),
            Some(reused) => Ok(Progress::Ready { interface, reused }),
        };
    }
    if text::same(e.event.as_str(), "error") {
        return match e.message {
            Some(message) => Err(PairingError::Service(message)),
            None => Err(PairingError::Service("unspecified error".to_owned())),
        };
    }
    Err(PairingError::UnknownEvent(e.event))
}

// ---------------------------------------------------------------------------
// Laws
// ---------------------------------------------------------------------------

/// A line within the limit is read back whole, whatever its bytes but a line feed, and
/// the next line starts empty.
pub proof fn law_lines_read_back(line: Seq<u8>, bytes: Seq<u8>)
    requires
        line.len() + bytes.len() <= MAX_LINE,
        forall|i: int| 0 <= i < bytes.len() ==> bytes[i] != 10,
    ensures
        after_bytes(line, bytes) == Ok::<Seq<u8>, PairingError<Seq<char>>>(line + bytes),
        line_step(line + bytes, 10) == Ok::<
            (Seq<u8>, Option<Seq<u8>>),
            PairingError<Seq<char>>,
        >((Seq::empty(), Some(line + bytes))),
    decreases bytes.len(),
{
    if bytes.len() > 0 {
        let rest = bytes.drop_first();
        assert forall|i: int| 0 <= i < rest.len() implies rest[i] != 10 by {
            assert(bytes[i + 1] != 10);
        }
        law_lines_read_back(line.push(bytes[0]), rest);
        assert(line.push(bytes[0]) + rest =~= line + bytes);
    } else {
        assert(line + bytes =~= line);
    }
}

/// A line never holds more than the limit.
pub proof fn law_lines_are_bounded(line: Seq<u8>, byte: u8)
    requires
        line.len() <= MAX_LINE,
        line_step(line, byte) is Ok,
    ensures
        line_step(line, byte)->Ok_0.0.len() <= MAX_LINE,
{
}

/// Only an event that says so, with an interface of Wi-Fi Direct, makes a connection.
pub proof fn law_ready_names_a_p2p_interface(e: Event)
    requires
        meaning(e) matches Ok(Progress::Ready { .. }),
    ensures
        e.event@ == "ready"@,
        is_p2p_interface(meaning(e)->Ok_0->interface),
        e.reused == Some(meaning(e)->Ok_0->reused),
{
}

/// The name of an interface of Wi-Fi Direct is `p2p-` and one to eleven letters, digits, hyphens
/// and underscores.
pub proof fn law_names_of_interfaces(rest: Seq<char>)
    ensures
        is_p2p_interface("p2p-"@ + rest) <==> 1 <= rest.len() <= 11 && forall|i: int|
            0 <= i < rest.len() ==> {
                let c = #[trigger] rest[i];
                '0' <= c <= '9' || 'A' <= c <= 'Z' || 'a' <= c <= 'z' || c == '-' || c == '_'
            },
        is_p2p_interface(rest) ==> rest.take(4) == "p2p-"@,
{
    reveal_strlit("p2p-");
    let name = "p2p-"@ + rest;
    assert(name.take(4) =~= "p2p-"@);
    if is_p2p_interface(name) {
        assert forall|i: int| 0 <= i < rest.len() implies {
            let c = #[trigger] rest[i];
            '0' <= c <= '9' || 'A' <= c <= 'Z' || 'a' <= c <= 'z' || c == '-' || c == '_'
        } by {
            assert(is_name_char(name[i + 4]) || name[i + 4] == '_');
        }
    }
    if 1 <= rest.len() <= 11 && forall|i: int|
        0 <= i < rest.len() ==> {
            let c = #[trigger] rest[i];
            '0' <= c <= '9' || 'A' <= c <= 'Z' || 'a' <= c <= 'z' || c == '-' || c == '_'
        } {
        assert forall|i: int| 0 <= i < name.len() implies is_name_char(#[trigger] name[i]) || name[i]
            == '_' by {
            if i >= 4 {
                assert(name[i] == rest[i - 4]);
            } else {
                assert(name[i] == 'p' || name[i] == '2' || name[i] == '-');
            }
        }
    }
}

/// What the service says: a status is shown as it is, a connection that is up comes with its
/// interface and with whether it was there before, and an error ends the way with what the
/// service says of it. Nothing else is understood.
pub proof fn law_events_are_understood(e: Event)
    ensures
        e.event@ == "status"@ ==> (e.message matches Some(m) ==> meaning(e) == Ok::<
            Progress<Seq<char>>,
            PairingError<Seq<char>>,
        >(Progress::Status(Some(m@)))),
        e.event@ == "ready"@ ==> (e.interface matches Some(name) ==> e.reused matches Some(reused)
            ==> is_p2p_interface(name@) ==> meaning(e) == Ok::<
            Progress<Seq<char>>,
            PairingError<Seq<char>>,
        >(Progress::Ready { interface: name@, reused })),
        e.event@ == "ready"@ && (e.interface is None || e.reused is None || !is_p2p_interface(
            e.interface->Some_0@,
        )) ==> meaning(e) is Err,
        e.event@ == "error"@ ==> meaning(e) is Err && (e.message matches Some(m) ==> meaning(
            e,
        )->Err_0 == PairingError::<Seq<char>>::Service(m@)),
        e.event@ != "status"@ && e.event@ != "ready"@ && e.event@ != "error"@ ==> meaning(e) == Err::<
            Progress<Seq<char>>,
            PairingError<Seq<char>>,
        >(PairingError::UnknownEvent(e.event@)),
{
    reveal_strlit("status");
    reveal_strlit("ready");
    reveal_strlit("error");
    assert("status"@.len() == 6 && "ready"@.len() == 5 && "error"@.len() == 5);
    assert("ready"@[0] == 'r' && "error"@[0] == 'e');
}

/// The line that ends a connection is the object with the operation `disconnect`.
pub proof fn law_the_last_line_disconnects()
    ensures
        disconnect_bytes().len() == "{\"operation\":\"disconnect\"}"@.len() + 1,
        forall|i: int|
            0 <= i < "{\"operation\":\"disconnect\"}"@.len() ==> #[trigger] disconnect_bytes()[i]
                == "{\"operation\":\"disconnect\"}"@[i] as u32,
        disconnect_bytes().last() == 10,
{
    reveal_strlit("{\"operation\":\"disconnect\"}");
}

} // verus!
