//! RTSP messages: reading them from a stream of bytes, and their parts.
use crate::fields::Fields;
use crate::number;
use crate::number::NumberError;
use crate::text;
use vstd::prelude::*;

verus! {

/// The largest message that is accepted, in bytes.
pub const MAX_MESSAGE: usize = 131_072;

/// Why the bytes of a stream are no message, or a message lacks a part.
#[derive(Debug, PartialEq, Eq)]
pub enum RtspError<T> {
    /// No end of the headers within the size limit.
    HeadersTooLong,
    /// Headers that are not UTF-8.
    HeaderEncoding(T),
    /// A start line of another protocol.
    InvalidStartLine(T),
    /// A header without a colon.
    MalformedHeader,
    /// The same header twice.
    DuplicateHeader(T),
    /// A length that is no number.
    InvalidContentLength(NumberError),
    /// A length beyond the address space.
    LengthOverflow,
    /// A message beyond the size limit.
    MessageTooLong,
    /// A body that is not UTF-8.
    BodyEncoding(T),
    /// No sequence number.
    MissingCSeq,
    /// A sequence number that is no number.
    InvalidCSeq(NumberError),
}

impl RtspError<String> {
    /// The error with its text as a sequence.
    pub open spec fn view(self) -> RtspError<Seq<char>> {
        match self {
            RtspError::HeadersTooLong => RtspError::HeadersTooLong,
            RtspError::HeaderEncoding(s) => RtspError::HeaderEncoding(s@),
            RtspError::InvalidStartLine(s) => RtspError::InvalidStartLine(s@),
            RtspError::MalformedHeader => RtspError::MalformedHeader,
            RtspError::DuplicateHeader(s) => RtspError::DuplicateHeader(s@),
            RtspError::InvalidContentLength(e) => RtspError::InvalidContentLength(e),
            RtspError::LengthOverflow => RtspError::LengthOverflow,
            RtspError::MessageTooLong => RtspError::MessageTooLong,
            RtspError::BodyEncoding(s) => RtspError::BodyEncoding(s@),
            RtspError::MissingCSeq => RtspError::MissingCSeq,
            RtspError::InvalidCSeq(e) => RtspError::InvalidCSeq(e),
        }
    }

    /// The message shown to the user.
    pub fn text(&self) -> (r: String)
        ensures
            r@ == error_text(self@),
    {
        match self {
            RtspError::HeadersTooLong => "RTSP headers exceed size limit".to_owned(),
            RtspError::HeaderEncoding(s) => "Invalid RTSP header encoding: ".to_owned().concat(
                s.as_str(),
            ),
            RtspError::InvalidStartLine(s) => "Invalid RTSP start line: ".to_owned().concat(
                s.as_str(),
            ),
            RtspError::MalformedHeader => "Malformed RTSP header".to_owned(),
            RtspError::DuplicateHeader(s) => "Duplicate RTSP header: ".to_owned().concat(
                s.as_str(),
            ),
            RtspError::InvalidContentLength(e) => "Invalid RTSP Content-Length: ".to_owned().concat(
                e.text(),
            ),
            RtspError::LengthOverflow => "RTSP length overflow".to_owned(),
            RtspError::MessageTooLong => "RTSP message exceeds size limit".to_owned(),
            RtspError::BodyEncoding(s) => "Invalid RTSP parameter encoding: ".to_owned().concat(
                s.as_str(),
            ),
            RtspError::MissingCSeq => "RTSP message lacks CSeq".to_owned(),
            RtspError::InvalidCSeq(e) => "Invalid RTSP CSeq: ".to_owned().concat(e.text()),
        }
    }
}

/// The text of each error.
pub open spec fn error_text(e: RtspError<Seq<char>>) -> Seq<char> {
    match e {
        RtspError::HeadersTooLong => "RTSP headers exceed size limit"@,
        RtspError::HeaderEncoding(s) => "Invalid RTSP header encoding: "@ + s,
        RtspError::InvalidStartLine(s) => "Invalid RTSP start line: "@ + s,
        RtspError::MalformedHeader => "Malformed RTSP header"@,
        RtspError::DuplicateHeader(s) => "Duplicate RTSP header: "@ + s,
        RtspError::InvalidContentLength(e) => "Invalid RTSP Content-Length: "@ + e.message(),
        RtspError::LengthOverflow => "RTSP length overflow"@,
        RtspError::MessageTooLong => "RTSP message exceeds size limit"@,
        RtspError::BodyEncoding(s) => "Invalid RTSP parameter encoding: "@ + s,
        RtspError::MissingCSeq => "RTSP message lacks CSeq"@,
        RtspError::InvalidCSeq(e) => "Invalid RTSP CSeq: "@ + e.message(),
    }
}

// ---------------------------------------------------------------------------
// Messages
// ---------------------------------------------------------------------------

/// What a message holds.
pub ghost struct MessageModel {
    pub start: Seq<char>,
    pub headers: Map<Seq<char>, Seq<char>>,
    pub body: Seq<char>,
}

impl MessageModel {
    /// The sequence number.
    pub open spec fn cseq(self) -> Result<int, RtspError<Seq<char>>> {
        if !self.headers.contains_key("cseq"@) {
            Err(RtspError::MissingCSeq)
        } else {
            match number::number(self.headers["cseq"@], 10, 0xffff_ffff) {
                None => Err(
                    RtspError::InvalidCSeq(
                        number::problem(self.headers["cseq"@], 10, 0xffff_ffff),
                    ),
                ),
                Some(n) => Ok(n),
            }
        }
    }

    /// The status of a response; `None` for a request.
    pub open spec fn status(self) -> Option<int> {
        let prefix = "RTSP/1.0 "@;
        let parts = text::fields(self.start.skip(prefix.len() as int));
        if !text::starts_with(self.start, prefix) || parts.len() == 0 {
            None
        } else {
            number::number(parts[0], 10, 65535)
        }
    }

    /// The first word of the start line.
    pub open spec fn method(self) -> Seq<char> {
        let parts = text::fields(self.start);
        if parts.len() == 0 {
            Seq::empty()
        } else {
            parts[0]
        }
    }
}

/// A request or a response.
pub struct Message {
    pub start: String,
    pub headers: Fields,
    pub body: String,
}

impl View for Message {
    type V = MessageModel;

    open spec fn view(&self) -> MessageModel {
        MessageModel { start: self.start@, headers: self.headers@, body: self.body@ }
    }
}

impl Message {
    /// The value of a header, by its name in lower case.
    pub fn header(&self, key: &str) -> (r: Option<&str>)
        ensures
            match r {
                Some(v) => self@.headers.contains_key(key@) && v@ == self@.headers[key@],
                None => !self@.headers.contains_key(key@),
            },
    {
        self.headers.get(key)
    }

    /// The sequence number.
    pub fn cseq(&self) -> (r: Result<u32, RtspError<String>>)
        ensures
            match self@.cseq() {
                Ok(n) => r is Ok && r->Ok_0 == n,
                Err(e) => r is Err && r->Err_0@ == e,
            },
    {
        match self.header("cseq") {
            None => Err(RtspError::MissingCSeq),
            Some(value) => {
                let chars = text::chars_of(value);
                match number::parse_u32(chars.as_slice()) {
                    Err(e) => Err(RtspError::InvalidCSeq(e)),
                    Ok(n) => Ok(n),
                }
            },
        }
    }

    /// The status of a response; `None` for a request.
    pub fn status(&self) -> (r: Option<u16>)
        ensures
            match self@.status() {
                Some(n) => r is Some && r->Some_0 == n,
                None => r is None,
            },
    {
        let start = text::chars_of(self.start.as_str());
        match text::strip_prefix(start.as_slice(), "RTSP/1.0 ") {
            None => None,
            Some(rest) => {
                let parts = text::fields_of(rest);
                proof {
                    assert(text::views(parts@).len() == parts@.len());
                }
                if parts.len() == 0 {
                    return None;
                }
                proof {
                    assert(text::views(parts@)[0] == parts@[0]@);
                }
                match number::parse_u16(parts[0].as_slice()) {
                    Ok(n) => Some(n),
                    Err(_) => None,
                }
            },
        }
    }

    /// The first word of the start line.
    pub fn method(&self) -> (r: String)
        ensures
            r@ == self@.method(),
    {
        let start = text::chars_of(self.start.as_str());
        let parts = text::fields_of(start.as_slice());
        proof {
            assert(text::views(parts@).len() == parts@.len());
        }
        if parts.len() == 0 {
            return String::new();
        }
        proof {
            assert(text::views(parts@)[0] == parts@[0]@);
        }
        text::text_of(parts[0].as_slice())
    }
}

// ---------------------------------------------------------------------------
// Reading
// ---------------------------------------------------------------------------

/// The place of the first empty line, or the length.
pub open spec fn head_end(bytes: Seq<u8>) -> int
    decreases bytes.len(),
{
    if bytes.len() < 4 {
        bytes.len() as int
    } else if bytes[0] == 13 && bytes[1] == 10 && bytes[2] == 13 && bytes[3] == 10 {
        0
    } else {
        1 + head_end(bytes.skip(1))
    }
}

/// The headers of header lines, or the error of the first line that is refused.
pub open spec fn header_map(lines: Seq<Seq<char>>) -> Result<
    Map<Seq<char>, Seq<char>>,
    RtspError<Seq<char>>,
>
    decreases lines.len(),
{
    if lines.len() == 0 {
        Ok(Map::empty())
    } else {
        match header_map(lines.drop_last()) {
            Err(e) => Err(e),
            Ok(map) => match text::split_once(lines.last(), ':') {
                None => Err(RtspError::MalformedHeader),
                Some((name, value)) => {
                    let key = text::lowercase(text::trim(name));
                    if map.contains_key(key) {
                        Err(RtspError::DuplicateHeader(key))
                    } else {
                        Ok(map.insert(key, text::trim(value)))
                    }
                },
            },
        }
    }
}

/// The start line and the headers of a head.
pub open spec fn head_of(head: Seq<char>) -> Result<
    (Seq<char>, Map<Seq<char>, Seq<char>>),
    RtspError<Seq<char>>,
> {
    let lines = text::split_crlf(head);
    let start = lines[0];
    if !text::starts_with(start, "RTSP/1.0 "@) && !text::ends_with(start, " RTSP/1.0"@) {
        Err(RtspError::InvalidStartLine(start))
    } else {
        match header_map(lines.drop_first()) {
            Err(e) => Err(e),
            Ok(headers) => Ok((start, headers)),
        }
    }
}

/// The number of bytes that a message of these headers has, its head ending at `end`.
pub open spec fn total_length(headers: Map<Seq<char>, Seq<char>>, end: int) -> Result<
    int,
    RtspError<Seq<char>>,
> {
    let length = if headers.contains_key("content-length"@) {
        number::number(headers["content-length"@], 10, usize::MAX as int)
    } else {
        Some(0)
    };
    match length {
        None => Err(
            RtspError::InvalidContentLength(
                number::problem(headers["content-length"@], 10, usize::MAX as int),
            ),
        ),
        Some(n) => if end + 4 + n > usize::MAX {
            Err(RtspError::LengthOverflow)
        } else if end + 4 + n > MAX_MESSAGE {
            Err(RtspError::MessageTooLong)
        } else {
            Ok(end + 4 + n)
        },
    }
}

/// The first message of a stream and what follows it; `None` while it is not complete.
pub open spec fn decoded(bytes: Seq<u8>) -> Result<
    Option<(MessageModel, Seq<u8>)>,
    RtspError<Seq<char>>,
> {
    let end = head_end(bytes);
    if end >= bytes.len() {
        if bytes.len() > MAX_MESSAGE {
            Err(RtspError::HeadersTooLong)
        } else {
            Ok(None)
        }
    } else if !vstd::utf8::valid_utf8(bytes.take(end)) {
        Err(RtspError::HeaderEncoding(text::utf8_error(bytes.take(end))))
    } else {
        match head_of(vstd::utf8::decode_utf8(bytes.take(end))) {
            Err(e) => Err(e),
            Ok((start, headers)) => match total_length(headers, end) {
                Err(e) => Err(e),
                Ok(total) => {
                    let body = bytes.take(total).skip(end + 4);
                    if bytes.len() < total {
                        Ok(None)
                    } else if !vstd::utf8::valid_utf8(body) {
                        Err(RtspError::BodyEncoding(text::utf8_error(body)))
                    } else {
                        Ok(
                            Some(
                                (
                                    MessageModel {
                                        start,
                                        headers,
                                        body: vstd::utf8::decode_utf8(body),
                                    },
                                    bytes.skip(total),
                                ),
                            ),
                        )
                    }
                },
            },
        }
    }
}

/// The bytes of a stream that are not yet read as messages.
pub struct Decoder {
    pub bytes: Vec<u8>,
}

impl Default for Decoder {
    fn default() -> (r: Decoder)
        ensures
            r.bytes@ == Seq::<u8>::empty(),
    {
        Decoder { bytes: Vec::new() }
    }
}

/// The place of the first empty line, or the length.
fn find_head_end(bytes: &[u8]) -> (r: usize)
    ensures
        r == head_end(bytes@),
        r <= bytes@.len(),
        r < bytes@.len() ==> r + 4 <= bytes@.len(),
{
    let mut i: usize = 0;
    proof {
        assert(bytes@.skip(0) =~= bytes@);
    }
    while bytes.len() - i >= 4
        invariant
            i <= bytes@.len(),
            head_end(bytes@) == i + head_end(bytes@.skip(i as int)),
        decreases bytes@.len() - i,
    {
        if bytes[i] == 13 && bytes[i + 1] == 10 && bytes[i + 2] == 13 && bytes[i + 3] == 10 {
            return i;
        }
        proof {
            assert(bytes@.skip(i as int).skip(1) =~= bytes@.skip(i + 1));
        }
        i = i + 1;
    }
    bytes.len()
}

/// An error among the first header lines is the error of them all.
proof fn lemma_header_failure(lines: Seq<Seq<char>>, later: Seq<Seq<char>>)
    requires
        header_map(lines) is Err,
    ensures
        header_map(lines + later) == header_map(lines),
    decreases later.len(),
{
    if later.len() == 0 {
        assert(lines + later =~= lines);
    } else {
        assert((lines + later).drop_last() =~= lines + later.drop_last());
        lemma_header_failure(lines, later.drop_last());
    }
}

/// The headers of the lines behind the first.
fn read_headers(lines: &Vec<Vec<char>>) -> (r: Result<Fields, RtspError<String>>)
    requires
        lines@.len() > 0,
    ensures
        match header_map(text::views(lines@).drop_first()) {
            Ok(map) => r is Ok && r->Ok_0@ == map,
            Err(e) => r is Err && r->Err_0@ == e,
        },
{
    let ghost all = text::views(lines@).drop_first();
    let mut headers = Fields::new();
    let mut i: usize = 1;
    proof {
        assert(all.take(0) =~= Seq::<Seq<char>>::empty());
    }
    while i < lines.len()
        invariant
            1 <= i <= lines@.len(),
            all == text::views(lines@).drop_first(),
            header_map(all.take(i - 1)) == Ok::<Map<Seq<char>, Seq<char>>, RtspError<Seq<char>>>(
                headers@,
            ),
        decreases lines@.len() - i,
    {
        let line = lines[i].as_slice();
        let ghost seen = all.take(i as int);
        proof {
            assert(seen.drop_last() =~= all.take(i - 1));
            assert(seen.last() == line@);
            assert(all =~= seen + all.skip(i as int));
        }
        let colon: usize = text::position(line, ':');
        if colon == line.len() {
            proof {
                lemma_header_failure(seen, all.skip(i as int));
            }
            return Err(RtspError::MalformedHeader);
        }
        let name = text::to_lowercase(text::trimmed(&line[0..colon]));
        let value = text::trimmed(&line[colon + 1..line.len()]);
        proof {
            assert(line@.subrange(0, colon as int) =~= line@.take(colon as int));
            assert(line@.subrange(colon + 1, line@.len() as int) =~= line@.skip(colon + 1));
        }
        let key = text::text_of(name.as_slice());
        if headers.has(key.as_str()) {
            proof {
                lemma_header_failure(seen, all.skip(i as int));
            }
            return Err(RtspError::DuplicateHeader(key));
        }
        headers.set(key, text::text_of(value));
        i = i + 1;
    }
    proof {
        assert(all.take(i - 1) =~= all);
    }
    Ok(headers)
}

/// The start line and the headers of a head.
fn read_head(head: &str) -> (r: Result<(String, Fields), RtspError<String>>)
    ensures
        match head_of(head@) {
            Ok((start, headers)) => r is Ok && r->Ok_0.0@ == start && r->Ok_0.1@ == headers,
            Err(e) => r is Err && r->Err_0@ == e,
        },
{
    let chars = text::chars_of(head);
    let lines = text::split_at_crlf(chars.as_slice());
    let start = lines[0].as_slice();
    proof {
        assert(text::views(lines@)[0] == start@);
    }
    if !text::has_prefix(start, "RTSP/1.0 ") && !text::has_suffix(start, " RTSP/1.0") {
        return Err(RtspError::InvalidStartLine(text::text_of(start)));
    }
    let headers = read_headers(&lines)?;
    Ok((text::text_of(start), headers))
}

/// The length of a message.
fn read_total(headers: &Fields, end: usize) -> (r: Result<usize, RtspError<String>>)
    requires
        end + 4 <= usize::MAX,
    ensures
        match total_length(headers@, end as int) {
            Ok(total) => r is Ok && r->Ok_0 == total && end + 4 <= total,
            Err(e) => r is Err && r->Err_0@ == e,
        },
{
    let length: usize = match headers.get("content-length") {
        None => 0,
        Some(value) => {
            let chars = text::chars_of(value);
            match number::parse_usize(chars.as_slice()) {
                Err(e) => {
                    return Err(RtspError::InvalidContentLength(e));
                },
                Ok(n) => n,
            }
        },
    };
    match (end + 4).checked_add(length) {
        None => Err(RtspError::LengthOverflow),
        Some(total) => if total > MAX_MESSAGE {
            Err(RtspError::MessageTooLong)
        } else {
            Ok(total)
        },
    }
}

impl Decoder {
    /// Takes the first message from the bytes; leaves them as they are while it is not
    /// complete, and where they are no message.
    pub fn next(&mut self) -> (r: Result<Option<Message>, RtspError<String>>)
        ensures
            match decoded(old(self).bytes@) {
                Err(e) => r is Err && r->Err_0@ == e && final(self).bytes@ == old(self).bytes@,
                Ok(None) => r is Ok && r->Ok_0 is None && final(self).bytes@ == old(self).bytes@,
                Ok(Some((message, rest))) => r is Ok && r->Ok_0 is Some && r->Ok_0->Some_0@
                    == message && final(self).bytes@ == rest,
            },
    {
        let end: usize = find_head_end(self.bytes.as_slice());
        if end == self.bytes.len() {
            if self.bytes.len() > MAX_MESSAGE {
                return Err(RtspError::HeadersTooLong);
            }
            return Ok(None);
        }
        let head = match text::decode(&self.bytes.as_slice()[0..end]) {
            Err(e) => {
                return Err(RtspError::HeaderEncoding(e));
            },
            Ok(head) => head,
        };
        let (start, headers) = read_head(head.as_str())?;
        let total: usize = read_total(&headers, end)?;
        if self.bytes.len() < total {
            return Ok(None);
        }
        proof {
            assert(self.bytes@.take(total as int).skip(end + 4) =~= self.bytes@.subrange(
                end + 4,
                total as int,
            ));
        }
        let body = match text::decode(&self.bytes.as_slice()[end + 4..total]) {
            Err(e) => {
                return Err(RtspError::BodyEncoding(e));
            },
            Ok(body) => body,
        };
        let rest = self.bytes.split_off(total);
        self.bytes = rest;
        Ok(Some(Message { start, headers, body }))
    }

    /// Puts bytes of the stream behind those that are there.
    pub fn feed(&mut self, bytes: &[u8])
        ensures
            final(self).bytes@ == old(self).bytes@ + bytes@,
    {
        self.bytes.extend_from_slice(bytes);
        proof {
            assert(self.bytes@ =~= old(self).bytes@ + bytes@);
        }
    }
}

// ---------------------------------------------------------------------------
// Laws
// ---------------------------------------------------------------------------

/// The end of a head that is there does not move when more bytes come.
proof fn lemma_head_end_stays(a: Seq<u8>, b: Seq<u8>)
    requires
        head_end(a) < a.len(),
    ensures
        head_end(a + b) == head_end(a),
        0 <= head_end(a) <= a.len() - 4,
    decreases a.len(),
{
    let s = a + b;
    if a.len() >= 4 && !(a[0] == 13 && a[1] == 10 && a[2] == 13 && a[3] == 10) {
        assert(s.skip(1) =~= a.skip(1) + b);
        lemma_head_end_stays(a.skip(1), b);
    }
}

/// The end of a head is within the bytes.
proof fn lemma_head_end_range(s: Seq<u8>)
    ensures
        0 <= head_end(s) <= s.len(),
    decreases s.len(),
{
    if s.len() >= 4 {
        lemma_head_end_range(s.skip(1));
    }
}

/// A head that is not there yet ends, if it ever does, with a byte that is new.
proof fn lemma_head_end_grows(a: Seq<u8>, b: Seq<u8>)
    requires
        head_end(a) >= a.len(),
    ensures
        head_end(a + b) + 4 > a.len(),
    decreases a.len(),
{
    let s = a + b;
    if a.len() >= 4 {
        assert(s.skip(1) =~= a.skip(1) + b);
        lemma_head_end_grows(a.skip(1), b);
    } else {
        lemma_head_end_range(s);
    }
}

/// A message that is complete is read the same whatever follows it, and what follows it
/// is left for the next: it makes no difference where the stream was cut.
pub proof fn law_more_bytes_change_no_message(a: Seq<u8>, b: Seq<u8>)
    requires
        decoded(a) matches Ok(Some(_)),
    ensures
        decoded(a + b) == Ok::<Option<(MessageModel, Seq<u8>)>, RtspError<Seq<char>>>(
            Some((decoded(a)->Ok_0->Some_0.0, decoded(a)->Ok_0->Some_0.1 + b)),
        ),
{
    let end = head_end(a);
    lemma_head_end_stays(a, b);
    assert((a + b).take(end) =~= a.take(end));
    let head = vstd::utf8::decode_utf8(a.take(end));
    let (start, headers) = head_of(head)->Ok_0;
    let total = total_length(headers, end)->Ok_0;
    lemma_total_range(headers, end);
    assert((a + b).take(total) =~= a.take(total));
    assert((a + b).skip(total) =~= a.skip(total) + b);
}

/// Bytes that are no message stay none, whatever follows them.
pub proof fn law_more_bytes_mend_no_error(a: Seq<u8>, b: Seq<u8>)
    requires
        decoded(a) is Err,
    ensures
        decoded(a + b) is Err,
{
    let end = head_end(a);
    if end < a.len() {
        lemma_head_end_stays(a, b);
        assert((a + b).take(end) =~= a.take(end));
        if vstd::utf8::valid_utf8(a.take(end)) {
            let head = head_of(vstd::utf8::decode_utf8(a.take(end)));
            if head is Ok && total_length(head->Ok_0.1, end) is Ok {
                let total = total_length(head->Ok_0.1, end)->Ok_0;
                lemma_total_range(head->Ok_0.1, end);
                assert((a + b).take(total) =~= a.take(total));
            }
        }
    } else {
        lemma_head_end_grows(a, b);
        let later = head_end(a + b);
        if later < (a + b).len() {
            lemma_head_end_stays(a + b, Seq::empty());
            if vstd::utf8::valid_utf8((a + b).take(later)) {
                let head = head_of(vstd::utf8::decode_utf8((a + b).take(later)));
                if head is Ok && total_length(head->Ok_0.1, later) is Ok {
                    lemma_total_range(head->Ok_0.1, later);
                }
            }
        }
    }
}

/// Reading a message takes bytes away, and the message has at most the size limit.
pub proof fn law_messages_are_bounded(bytes: Seq<u8>)
    requires
        decoded(bytes) matches Ok(Some(_)),
    ensures
        ({
            let rest = decoded(bytes)->Ok_0->Some_0.1;
            rest.len() < bytes.len() <= rest.len() + MAX_MESSAGE
        }),
{
    lemma_head_end_stays(bytes, Seq::empty());
    let end = head_end(bytes);
    let (start, headers) = head_of(vstd::utf8::decode_utf8(bytes.take(end)))->Ok_0;
    lemma_total_range(headers, end);
}

/// A message is longer than its head and no longer than the limit.
proof fn lemma_total_range(headers: Map<Seq<char>, Seq<char>>, end: int)
    requires
        total_length(headers, end) is Ok,
    ensures
        end + 4 <= total_length(headers, end)->Ok_0 <= MAX_MESSAGE,
{
    if headers.contains_key("content-length"@) {
        number::lemma_number_range(headers["content-length"@], 10, usize::MAX as int);
    }
}

/// A header line is cut at its first colon; its name counts without its case, and both parts
/// without the white space around them. A name that was there already is refused, whatever its
/// case, and so is a line without a colon. What was wrong before stays wrong.
pub proof fn law_headers_are_read(
    lines: Seq<Seq<char>>,
    name: Seq<char>,
    space: Seq<char>,
    value: Seq<char>,
)
    requires
        text::is_without(name, ':'),
        name.len() > 0 ==> !text::is_space(name[0]) && !text::is_space(name.last()),
        forall|i: int| 0 <= i < space.len() ==> text::is_space(#[trigger] space[i]),
        value.len() > 0 ==> !text::is_space(value[0]) && !text::is_space(value.last()),
    ensures
        ({
            let before = header_map(lines);
            let key = text::lowercase(name);
            let after = header_map(lines.push(name + seq![':'] + space + value));
            &&& before is Err ==> after == before
            &&& before is Ok && !before->Ok_0.contains_key(key) ==> after == Ok::<
                Map<Seq<char>, Seq<char>>,
                RtspError<Seq<char>>,
            >(before->Ok_0.insert(key, value))
            &&& before is Ok && before->Ok_0.contains_key(key) ==> after == Err::<
                Map<Seq<char>, Seq<char>>,
                RtspError<Seq<char>>,
            >(RtspError::DuplicateHeader(key))
            &&& before is Ok ==> header_map(lines.push(name)) == Err::<
                Map<Seq<char>, Seq<char>>,
                RtspError<Seq<char>>,
            >(RtspError::MalformedHeader)
        }),
{
    let none = Seq::<char>::empty();
    let line = name + seq![':'] + space + value;
    assert(line =~= name + seq![':'] + (space + value));
    text::law_the_first_separator_cuts(name, ':', space + value);
    text::law_trimming_takes_white_space(none, name, none);
    text::law_trimming_takes_white_space(space, value, none);
    assert(none + name + none =~= name);
    assert(space + value + none =~= space + value);
    assert(lines.push(line).drop_last() =~= lines);
    assert(lines.push(name).drop_last() =~= lines);
}

/// Names that differ in their case alone are the same.
pub proof fn law_case_does_not_matter(a: Seq<char>, b: Seq<char>)
    ensures
        a.len() == b.len() && (forall|i: int|
            0 <= i < a.len() ==> #[trigger] a[i] == b[i] || ('A' <= a[i] && a[i] <= 'Z' && b[i] as u32
                == a[i] as u32 + 32)) ==> text::lowercase(a) == text::lowercase(b),
        forall|i: int|
            0 <= i < a.len() ==> #[trigger] text::lowercase(a)[i] == a[i] || ('A' <= a[i] && a[i]
                <= 'Z'),
{
    if a.len() == b.len() && (forall|i: int|
        0 <= i < a.len() ==> #[trigger] a[i] == b[i] || ('A' <= a[i] && a[i] <= 'Z' && b[i] as u32
            == a[i] as u32 + 32)) {
        assert forall|i: int| 0 <= i < a.len() implies #[trigger] text::lowercase(a)[i]
            == text::lowercase(b)[i] by {
            assert(a[i] == b[i] || ('A' <= a[i] && a[i] <= 'Z' && b[i] as u32 == a[i] as u32 + 32));
        }
        assert(text::lowercase(a) =~= text::lowercase(b));
    }
}

/// A message is as long as its head, the empty line and the body that it announces, none where
/// it announces none. One of 128 KiB is accepted, a longer one is not.
pub proof fn law_lengths_are_counted(headers: Map<Seq<char>, Seq<char>>, end: int, n: int)
    requires
        0 <= end,
        0 <= n,
        n + end + 4 <= usize::MAX,
        headers.contains_key("content-length"@) ==> headers["content-length"@] == number::decimal(n),
        !headers.contains_key("content-length"@) ==> n == 0,
    ensures
        end + n + 4 <= 131_072 ==> total_length(headers, end) == Ok::<int, RtspError<Seq<char>>>(
            end + 4 + n,
        ),
        end + n + 4 > 131_072 ==> total_length(headers, end) == Err::<int, RtspError<Seq<char>>>(
            RtspError::MessageTooLong,
        ),
{
    number::law_decimal_reads_back(n, usize::MAX as int);
}

/// While the end of the head is missing, more bytes are awaited, up to 128 KiB of them.
pub proof fn law_heads_are_awaited(bytes: Seq<u8>)
    requires
        forall|i: int|
            0 <= i <= bytes.len() - 4 ==> !(#[trigger] bytes[i] == 13 && bytes[i + 1] == 10 && bytes[i
                + 2] == 13 && bytes[i + 3] == 10),
    ensures
        bytes.len() <= 131_072 ==> decoded(bytes) == Ok::<
            Option<(MessageModel, Seq<u8>)>,
            RtspError<Seq<char>>,
        >(None),
        bytes.len() > 131_072 ==> decoded(bytes) == Err::<
            Option<(MessageModel, Seq<u8>)>,
            RtspError<Seq<char>>,
        >(RtspError::HeadersTooLong),
{
    lemma_no_head_end(bytes);
}

/// Without an empty line no head ends.
proof fn lemma_no_head_end(bytes: Seq<u8>)
    requires
        forall|i: int|
            0 <= i <= bytes.len() - 4 ==> !(#[trigger] bytes[i] == 13 && bytes[i + 1] == 10 && bytes[i
                + 2] == 13 && bytes[i + 3] == 10),
    ensures
        head_end(bytes) == bytes.len(),
    decreases bytes.len(),
{
    if bytes.len() >= 4 {
        assert(!(bytes[0] == 13 && bytes[1] == 10 && bytes[2] == 13 && bytes[3] == 10));
        let rest = bytes.skip(1);
        assert forall|i: int| 0 <= i <= rest.len() - 4 implies !(#[trigger] rest[i] == 13 && rest[i
            + 1] == 10 && rest[i + 2] == 13 && rest[i + 3] == 10) by {
            assert(rest[i] == bytes[i + 1]);
        }
        lemma_no_head_end(rest);
    }
}

/// A sequence number has to be there, and to be a number; a status is one behind the version.
pub proof fn law_numbers_of_messages(m: MessageModel, n: int)
    requires
        0 <= n <= 0xffff_ffff,
    ensures
        !m.headers.contains_key("cseq"@) ==> m.cseq() == Err::<int, RtspError<Seq<char>>>(
            RtspError::MissingCSeq,
        ),
        m.headers.contains_key("cseq"@) && m.headers["cseq"@] == number::decimal(n) ==> m.cseq()
            == Ok::<int, RtspError<Seq<char>>>(n),
        m.headers.contains_key("cseq"@) && number::number(m.headers["cseq"@], 10, 0xffff_ffff)
            is None ==> m.cseq() is Err && m.cseq()->Err_0 is InvalidCSeq,
        !text::starts_with(m.start, "RTSP/1.0 "@) ==> m.status() is None,
{
    number::law_decimal_reads_back(n, 0xffff_ffff);
}

} // verus!
