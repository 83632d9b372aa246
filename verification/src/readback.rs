//! What is written reads back: a message that a session writes is, for a reader of messages,
//! the message that was meant.
use crate::number;
use crate::rtsp;
use crate::rtsp::{MessageModel, RtspError};
use crate::session;
use crate::text;
use vstd::prelude::*;

verus! {

// ---------------------------------------------------------------------------
// Bytes
// ---------------------------------------------------------------------------

/// The bytes of texts one behind the other.
proof fn lemma_encode_concat(a: Seq<char>, b: Seq<char>)
    ensures
        vstd::utf8::encode_utf8(a + b) == vstd::utf8::encode_utf8(a) + vstd::utf8::encode_utf8(b),
    decreases a.len(),
{
    if a.len() == 0 {
        assert(a + b =~= b);
        assert(vstd::utf8::encode_utf8(a) + vstd::utf8::encode_utf8(b) =~= vstd::utf8::encode_utf8(
            b,
        ));
    } else {
        assert((a + b).drop_first() =~= a.drop_first() + b);
        lemma_encode_concat(a.drop_first(), b);
        assert(vstd::utf8::encode_utf8(a + b) =~= vstd::utf8::encode_utf8(a)
            + vstd::utf8::encode_utf8(b));
    }
}

/// The bytes of characters beyond ASCII are beyond ASCII.
proof fn lemma_wide_bytes(c: u32)
    by (bit_vector)
    ensures
        0xC0u8 | ((c >> 6) & 0x1F) as u8 >= 0x80u8,
        0xE0u8 | ((c >> 12) & 0x0F) as u8 >= 0x80u8,
        0xF0u8 | ((c >> 18) & 0x7) as u8 >= 0x80u8,
        0x80u8 | (c & 0x3F) as u8 >= 0x80u8,
        0x80u8 | ((c >> 6) & 0x3F) as u8 >= 0x80u8,
        0x80u8 | ((c >> 12) & 0x3F) as u8 >= 0x80u8,
        c <= 0x7F ==> (c & 0x7F) as u8 == c,
{
}

/// No carriage return.
pub open spec fn is_line(s: Seq<char>) -> bool {
    forall|i: int| 0 <= i < s.len() ==> #[trigger] s[i] != '\r'
}

/// No carriage return among bytes.
spec fn no_return(b: Seq<u8>) -> bool {
    forall|i: int| 0 <= i < b.len() ==> #[trigger] b[i] != 13
}

/// The bytes of a line hold no carriage return, and there are some where it is not empty.
proof fn lemma_line_bytes(s: Seq<char>)
    requires
        is_line(s),
    ensures
        no_return(vstd::utf8::encode_utf8(s)),
        s.len() > 0 ==> vstd::utf8::encode_utf8(s).len() > 0,
    decreases s.len(),
{
    if s.len() > 0 {
        let rest = s.drop_first();
        assert(is_line(rest)) by {
            assert forall|i: int| 0 <= i < rest.len() implies #[trigger] rest[i] != '\r' by {
                assert(rest[i] == s[i + 1]);
            }
        }
        lemma_line_bytes(rest);
        lemma_wide_bytes(s[0] as u32);
        assert(s[0] != '\r');
        assert(s[0] as u32 != 13) by {
            if s[0] as u32 == 13 {
                vstd::utf8::char_u32_cast(s[0], 13);
            }
        }
        assert(no_return(vstd::utf8::encode_scalar(s[0] as u32)));
    }
}

/// The bytes of a line end.
proof fn lemma_line_end_bytes()
    ensures
        vstd::utf8::encode_utf8("\r\n"@) == seq![13u8, 10u8],
        "\r\n"@ == seq!['\r', '\n'],
{
    reveal_strlit("\r\n");
    assert("\r\n"@ =~= seq!['\r', '\n']);
    lemma_wide_bytes(13);
    lemma_wide_bytes(10);
    assert("\r\n"@.drop_first() =~= seq!['\n']);
    assert(seq!['\n'].drop_first() =~= Seq::<char>::empty());
    reveal_with_fuel(vstd::utf8::encode_utf8, 3);
    assert(vstd::utf8::encode_utf8("\r\n"@) =~= seq![13u8, 10u8]);
}

/// The end of a head is not among bytes without a carriage return.
proof fn lemma_head_end_behind(b: Seq<u8>, t: Seq<u8>)
    requires
        no_return(b),
        t.len() >= 4,
    ensures
        rtsp::head_end(b + t) == b.len() + rtsp::head_end(t),
    decreases b.len(),
{
    if b.len() == 0 {
        assert(b + t =~= t);
    } else {
        assert((b + t).skip(1) =~= b.skip(1) + t);
        assert(b[0] != 13);
        assert(no_return(b.skip(1))) by {
            assert forall|i: int| 0 <= i < b.skip(1).len() implies #[trigger] b.skip(1)[i] != 13 by {
                assert(b.skip(1)[i] == b[i + 1]);
            }
        }
        lemma_head_end_behind(b.skip(1), t);
    }
}

/// The end of a head is not at a line end with a line behind it.
proof fn lemma_head_end_line(t: Seq<u8>)
    requires
        t.len() >= 4,
        t[0] != 13,
    ensures
        rtsp::head_end(seq![13u8, 10u8] + t) == 2 + rtsp::head_end(t),
{
    let s = seq![13u8, 10u8] + t;
    assert(s[2] == t[0]);
    assert(s.skip(1) =~= seq![10u8] + t);
    assert((seq![10u8] + t).skip(1) =~= t);
    reveal_with_fuel(rtsp::head_end, 3);
}

// ---------------------------------------------------------------------------
// Lines
// ---------------------------------------------------------------------------

/// Lines with line ends between them.
pub open spec fn joined(lines: Seq<Seq<char>>) -> Seq<char>
    decreases lines.len(),
{
    if lines.len() == 0 {
        Seq::empty()
    } else if lines.len() == 1 {
        lines[0]
    } else {
        lines[0] + "\r\n"@ + joined(lines.drop_first())
    }
}

/// Lines that are not empty.
spec fn are_lines(lines: Seq<Seq<char>>) -> bool {
    forall|i: int|
        0 <= i < lines.len() ==> is_line(#[trigger] lines[i]) && lines[i].len() > 0
}

/// Lines without the first are lines.
proof fn lemma_lines_behind(lines: Seq<Seq<char>>)
    requires
        are_lines(lines),
        lines.len() > 0,
    ensures
        are_lines(lines.drop_first()),
{
    assert forall|i: int| 0 <= i < lines.drop_first().len() implies is_line(
        #[trigger] lines.drop_first()[i],
    ) && lines.drop_first()[i].len() > 0 by {
        assert(lines.drop_first()[i] == lines[i + 1]);
    }
}

/// A line behind others.
proof fn lemma_joined_push(lines: Seq<Seq<char>>, line: Seq<char>)
    requires
        lines.len() > 0,
    ensures
        joined(lines.push(line)) == joined(lines) + "\r\n"@ + line,
    decreases lines.len(),
{
    let all = lines.push(line);
    assert(all.drop_first() =~= lines.drop_first().push(line));
    if lines.len() == 1 {
        assert(all.drop_first() =~= seq![line]);
        assert(joined(seq![line]) == line);
    } else {
        lemma_joined_push(lines.drop_first(), line);
        assert(joined(all) =~= joined(lines) + "\r\n"@ + line);
    }
}

/// The first line end stands behind the first line.
proof fn lemma_find_crlf(line: Seq<char>, rest: Seq<char>)
    requires
        is_line(line),
        rest.len() >= 2,
        rest[0] == '\r',
        rest[1] == '\n',
    ensures
        text::find_crlf(line + rest) == line.len(),
    decreases line.len(),
{
    let s = line + rest;
    if line.len() == 0 {
        assert(s =~= rest);
    } else {
        assert(s.skip(1) =~= line.skip(1) + rest);
        assert(s[0] == line[0]);
        assert(is_line(line.skip(1))) by {
            assert forall|i: int| 0 <= i < line.skip(1).len() implies #[trigger] line.skip(1)[i]
                != '\r' by {
                assert(line.skip(1)[i] == line[i + 1]);
            }
        }
        lemma_find_crlf(line.skip(1), rest);
    }
}

/// A line holds no line end.
proof fn lemma_no_crlf(line: Seq<char>)
    requires
        is_line(line),
    ensures
        text::find_crlf(line) == line.len(),
    decreases line.len(),
{
    if line.len() >= 2 {
        assert(line[0] != '\r');
        assert(is_line(line.skip(1))) by {
            assert forall|i: int| 0 <= i < line.skip(1).len() implies #[trigger] line.skip(1)[i]
                != '\r' by {
                assert(line.skip(1)[i] == line[i + 1]);
            }
        }
        lemma_no_crlf(line.skip(1));
    }
}

/// Lines that were joined are split into the same lines.
proof fn lemma_split_joined(lines: Seq<Seq<char>>)
    requires
        are_lines(lines),
        lines.len() > 0,
    ensures
        text::split_crlf(joined(lines)) == lines,
    decreases lines.len(),
{
    let s = joined(lines);
    assert(is_line(lines[0]));
    if lines.len() == 1 {
        lemma_no_crlf(lines[0]);
        assert(lines =~= seq![lines[0]]);
    } else {
        let rest = joined(lines.drop_first());
        lemma_line_end_bytes();
        assert(s =~= lines[0] + ("\r\n"@ + rest));
        lemma_find_crlf(lines[0], "\r\n"@ + rest);
        lemma_lines_behind(lines);
        lemma_split_joined(lines.drop_first());
        assert(s.take(lines[0].len() as int) =~= lines[0]);
        assert(s.skip(lines[0].len() as int + 2) =~= rest);
        assert(seq![lines[0]] + lines.drop_first() =~= lines);
    }
}

/// The head of joined lines ends where they end.
proof fn lemma_head_end_joined(lines: Seq<Seq<char>>, tail: Seq<u8>)
    requires
        are_lines(lines),
        lines.len() > 0,
    ensures
        rtsp::head_end(
            vstd::utf8::encode_utf8(joined(lines)) + seq![13u8, 10u8, 13u8, 10u8] + tail,
        ) == vstd::utf8::encode_utf8(joined(lines)).len(),
        vstd::utf8::encode_utf8(joined(lines)).len() > 0,
        vstd::utf8::encode_utf8(joined(lines))[0] != 13,
    decreases lines.len(),
{
    let end = seq![13u8, 10u8, 13u8, 10u8] + tail;
    let first = vstd::utf8::encode_utf8(lines[0]);
    assert(is_line(lines[0]));
    lemma_line_bytes(lines[0]);
    if lines.len() == 1 {
        let all = first + seq![13u8, 10u8, 13u8, 10u8] + tail;
        assert(all =~= first + end);
        lemma_head_end_behind(first, end);
    } else {
        let rest = joined(lines.drop_first());
        let bytes = vstd::utf8::encode_utf8(rest);
        lemma_lines_behind(lines);
        lemma_head_end_joined(lines.drop_first(), tail);
        lemma_line_end_bytes();
        lemma_encode_concat(lines[0] + "\r\n"@, rest);
        lemma_encode_concat(lines[0], "\r\n"@);
        let behind = bytes + seq![13u8, 10u8, 13u8, 10u8] + tail;
        let all = vstd::utf8::encode_utf8(joined(lines)) + seq![13u8, 10u8, 13u8, 10u8] + tail;
        assert(all =~= first + (seq![13u8, 10u8] + behind));
        lemma_head_end_line(behind);
        lemma_head_end_behind(first, seq![13u8, 10u8] + behind);
    }
}

// ---------------------------------------------------------------------------
// Headers
// ---------------------------------------------------------------------------

/// A header that keeps its form: a name and a value of one line each, without white space
/// around them, and no colon in the name.
pub open spec fn is_header(h: (Seq<char>, Seq<char>)) -> bool {
    &&& h.0.len() > 0
    &&& is_line(h.0)
    &&& is_line(h.1)
    &&& forall|i: int| 0 <= i < h.0.len() ==> #[trigger] h.0[i] != ':'
    &&& text::trim(h.0) == h.0
    &&& text::trim(h.1) == h.1
}

/// The headers as a reader knows them: by their names in lower case.
pub open spec fn header_fields(headers: Seq<(Seq<char>, Seq<char>)>) -> Map<Seq<char>, Seq<char>>
    decreases headers.len(),
{
    if headers.len() == 0 {
        Map::empty()
    } else {
        header_fields(headers.drop_last()).insert(
            text::lowercase(headers.last().0),
            headers.last().1,
        )
    }
}

/// No name twice, in upper or lower case.
pub open spec fn are_distinct(headers: Seq<(Seq<char>, Seq<char>)>) -> bool {
    forall|i: int, j: int|
        0 <= i < j < headers.len() ==> text::lowercase(#[trigger] headers[i].0)
            != text::lowercase(#[trigger] headers[j].0)
}

/// Headers that keep their form.
pub open spec fn are_headers(headers: Seq<(Seq<char>, Seq<char>)>) -> bool {
    forall|i: int| 0 <= i < headers.len() ==> is_header(#[trigger] headers[i])
}

/// The lines of headers.
spec fn header_lines(headers: Seq<(Seq<char>, Seq<char>)>) -> Seq<Seq<char>> {
    Seq::new(headers.len(), |i: int| headers[i].0 + ": "@ + headers[i].1)
}

/// The literals of a header line.
proof fn lemma_separator()
    ensures
        ": "@ == seq![':', ' '],
{
    reveal_strlit(": ");
    assert(": "@ =~= seq![':', ' ']);
}

/// The first colon stands behind a name without one.
proof fn lemma_find_colon(name: Seq<char>, rest: Seq<char>)
    requires
        forall|i: int| 0 <= i < name.len() ==> #[trigger] name[i] != ':',
        rest.len() > 0,
        rest[0] == ':',
    ensures
        text::find(name + rest, ':') == name.len(),
    decreases name.len(),
{
    let s = name + rest;
    if name.len() == 0 {
        assert(s =~= rest);
    } else {
        assert(s.skip(1) =~= name.skip(1) + rest);
        assert(s[0] == name[0]);
        assert forall|i: int| 0 <= i < name.skip(1).len() implies #[trigger] name.skip(1)[i]
            != ':' by {
            assert(name.skip(1)[i] == name[i + 1]);
        }
        lemma_find_colon(name.skip(1), rest);
    }
}

/// A header line is read as its name and its value.
proof fn lemma_header_line(h: (Seq<char>, Seq<char>))
    requires
        is_header(h),
    ensures
        ({
            let line = h.0 + ": "@ + h.1;
            let parts = text::split_once(line, ':');
            &&& is_line(line)
            &&& line.len() > 0
            &&& parts is Some
            &&& parts->Some_0.0 == h.0
            &&& text::trim(parts->Some_0.1) == h.1
        }),
{
    let line = h.0 + ": "@ + h.1;
    lemma_separator();
    assert(line =~= h.0 + (seq![':', ' '] + h.1));
    lemma_find_colon(h.0, seq![':', ' '] + h.1);
    assert(line.take(h.0.len() as int) =~= h.0);
    let value = line.skip(h.0.len() as int + 1);
    assert(value =~= seq![' '] + h.1);
    assert(value.skip(1) =~= h.1);
    assert(text::trim_start(value) == text::trim_start(h.1));
    assert forall|i: int| 0 <= i < line.len() implies #[trigger] line[i] != '\r' by {
        if i < h.0.len() {
            assert(line[i] == h.0[i]);
        } else if i >= h.0.len() + 2 {
            assert(line[i] == h.1[i - h.0.len() - 2]);
        }
    }
}

/// A name that is known is the name of one of the headers.
proof fn lemma_header_known(headers: Seq<(Seq<char>, Seq<char>)>, key: Seq<char>)
    requires
        header_fields(headers).contains_key(key),
    ensures
        exists|i: int|
            0 <= i < headers.len() && text::lowercase(#[trigger] headers[i].0) == key,
    decreases headers.len(),
{
    if headers.len() > 0 {
        if text::lowercase(headers.last().0) == key {
            assert(text::lowercase(headers[headers.len() - 1].0) == key);
        } else {
            lemma_header_known(headers.drop_last(), key);
            let i = choose|i: int|
                0 <= i < headers.drop_last().len() && text::lowercase(
                    #[trigger] headers.drop_last()[i].0,
                ) == key;
            assert(headers.drop_last()[i] == headers[i]);
        }
    }
}

/// A header is known by its name.
proof fn lemma_header_value(headers: Seq<(Seq<char>, Seq<char>)>, i: int)
    requires
        are_distinct(headers),
        0 <= i < headers.len(),
    ensures
        header_fields(headers).contains_key(text::lowercase(headers[i].0)),
        header_fields(headers)[text::lowercase(headers[i].0)] == headers[i].1,
    decreases headers.len(),
{
    let before = headers.drop_last();
    if i < headers.len() - 1 {
        assert(are_distinct(before)) by {
            assert forall|a: int, b: int| 0 <= a < b < before.len() implies text::lowercase(
                #[trigger] before[a].0,
            ) != text::lowercase(#[trigger] before[b].0) by {
                assert(before[a] == headers[a]);
                assert(before[b] == headers[b]);
            }
        }
        lemma_header_value(before, i);
        assert(before[i] == headers[i]);
        assert(text::lowercase(headers[i].0) != text::lowercase(headers[headers.len() - 1].0));
    }
}

/// Header lines are read as their headers.
proof fn lemma_header_map(headers: Seq<(Seq<char>, Seq<char>)>)
    requires
        are_headers(headers),
        are_distinct(headers),
    ensures
        rtsp::header_map(header_lines(headers)) == Ok::<
            Map<Seq<char>, Seq<char>>,
            RtspError<Seq<char>>,
        >(header_fields(headers)),
    decreases headers.len(),
{
    if headers.len() > 0 {
        let before = headers.drop_last();
        assert(are_headers(before)) by {
            assert forall|i: int| 0 <= i < before.len() implies is_header(#[trigger] before[i]) by {
                assert(before[i] == headers[i]);
            }
        }
        assert(are_distinct(before)) by {
            assert forall|a: int, b: int| 0 <= a < b < before.len() implies text::lowercase(
                #[trigger] before[a].0,
            ) != text::lowercase(#[trigger] before[b].0) by {
                assert(before[a] == headers[a]);
                assert(before[b] == headers[b]);
            }
        }
        lemma_header_map(before);
        let lines = header_lines(headers);
        assert(lines.drop_last() =~= header_lines(before));
        let last = headers[headers.len() - 1];
        assert(is_header(last));
        lemma_header_line(last);
        assert(lines.last() == last.0 + ": "@ + last.1);
        let key = text::lowercase(last.0);
        if header_fields(before).contains_key(key) {
            lemma_header_known(before, key);
            let i = choose|i: int|
                0 <= i < before.len() && text::lowercase(#[trigger] before[i].0) == key;
            assert(before[i] == headers[i]);
            assert(text::lowercase(headers[i].0) != text::lowercase(
                headers[headers.len() - 1].0,
            ));
        }
    }
}

/// Header lines behind others.
proof fn lemma_headers_text(a: Seq<(Seq<char>, Seq<char>)>, b: Seq<(Seq<char>, Seq<char>)>)
    ensures
        session::headers_text(a + b) == session::headers_text(a) + session::headers_text(b),
    decreases b.len(),
{
    if b.len() == 0 {
        assert(a + b =~= a);
        assert(session::headers_text(a) + session::headers_text(b) =~= session::headers_text(a));
    } else {
        assert((a + b).drop_last() =~= a + b.drop_last());
        lemma_headers_text(a, b.drop_last());
        assert(session::headers_text(a + b) =~= session::headers_text(a) + session::headers_text(b));
    }
}

/// One header line.
proof fn lemma_header_text(h: (Seq<char>, Seq<char>))
    ensures
        session::headers_text(seq![h]) == h.0 + ": "@ + h.1 + "\r\n"@,
{
    assert(seq![h].drop_last() =~= Seq::<(Seq<char>, Seq<char>)>::empty());
    reveal_with_fuel(session::headers_text, 2);
    assert(session::headers_text(seq![h]) =~= h.0 + ": "@ + h.1 + "\r\n"@);
}

/// A start line with header lines behind it, as joined lines.
proof fn lemma_joined_headers(start: Seq<char>, headers: Seq<(Seq<char>, Seq<char>)>)
    ensures
        joined(seq![start] + header_lines(headers)) + "\r\n"@ == start + "\r\n"@
            + session::headers_text(headers),
    decreases headers.len(),
{
    if headers.len() == 0 {
        assert(seq![start] + header_lines(headers) =~= seq![start]);
        assert(start + "\r\n"@ + session::headers_text(headers) =~= start + "\r\n"@);
    } else {
        let before = seq![start] + header_lines(headers.drop_last());
        let last = headers.last().0 + ": "@ + headers.last().1;
        assert(seq![start] + header_lines(headers) =~= before.push(last));
        lemma_joined_push(before, last);
        lemma_joined_headers(start, headers.drop_last());
        assert(joined(before) + "\r\n"@ + last + "\r\n"@ =~= start + "\r\n"@
            + session::headers_text(headers));
    }
}

// ---------------------------------------------------------------------------
// Messages
// ---------------------------------------------------------------------------

/// All headers of a message: the sequence number, those that are given and those of the body.
pub open spec fn all_headers(
    sequence: int,
    headers: Seq<(Seq<char>, Seq<char>)>,
    body: Seq<char>,
) -> Seq<(Seq<char>, Seq<char>)> {
    seq![("CSeq"@, number::decimal(sequence))] + headers + (if body.len() == 0 {
        seq![]
    } else {
        seq![("Content-Type"@, "text/parameters"@)]
    }) + seq![
        ("Content-Length"@, number::decimal(vstd::utf8::encode_utf8(body).len() as int)),
    ]
}

/// The message that a reader finds.
pub open spec fn message_of(
    start: Seq<char>,
    sequence: int,
    headers: Seq<(Seq<char>, Seq<char>)>,
    body: Seq<char>,
) -> MessageModel {
    MessageModel { start, headers: header_fields(all_headers(sequence, headers, body)), body }
}

/// The literals of a message.
proof fn lemma_literals()
    ensures
        " RTSP/1.0\r\nCSeq: "@ == " RTSP/1.0"@ + "\r\n"@ + "CSeq"@ + ": "@,
        "\r\nCSeq: "@ == "\r\n"@ + "CSeq"@ + ": "@,
        "Content-Type: text/parameters\r\n"@ == "Content-Type"@ + ": "@ + "text/parameters"@
            + "\r\n"@,
        "Content-Length: "@ == "Content-Length"@ + ": "@,
        "\r\n\r\n"@ == "\r\n"@ + "\r\n"@,
{
    reveal_strlit(" RTSP/1.0\r\nCSeq: ");
    reveal_strlit("\r\nCSeq: ");
    reveal_strlit(" RTSP/1.0");
    reveal_strlit("\r\n");
    reveal_strlit("CSeq");
    reveal_strlit(": ");
    reveal_strlit("Content-Type: text/parameters\r\n");
    reveal_strlit("Content-Type");
    reveal_strlit("text/parameters");
    reveal_strlit("Content-Length: ");
    reveal_strlit("Content-Length");
    reveal_strlit("\r\n\r\n");
    assert(" RTSP/1.0\r\nCSeq: "@ =~= " RTSP/1.0"@ + "\r\n"@ + "CSeq"@ + ": "@);
    assert("\r\nCSeq: "@ =~= "\r\n"@ + "CSeq"@ + ": "@);
    assert("Content-Type: text/parameters\r\n"@ =~= "Content-Type"@ + ": "@ + "text/parameters"@
        + "\r\n"@);
    assert("Content-Length: "@ =~= "Content-Length"@ + ": "@);
    assert("\r\n\r\n"@ =~= "\r\n"@ + "\r\n"@);
}

/// What follows the start line, in one piece.
proof fn lemma_rest_text(sequence: int, headers: Seq<(Seq<char>, Seq<char>)>, body: Seq<char>)
    ensures
        "CSeq"@ + ": "@ + number::decimal(sequence) + "\r\n"@ + session::headers_text(headers)
            + session::body_text(body) == session::headers_text(
            all_headers(sequence, headers, body),
        ) + "\r\n"@ + body,
{
    let cseq = ("CSeq"@, number::decimal(sequence));
    let kind = ("Content-Type"@, "text/parameters"@);
    let length = (
        "Content-Length"@,
        number::decimal(vstd::utf8::encode_utf8(body).len() as int),
    );
    let none = Seq::<(Seq<char>, Seq<char>)>::empty();
    lemma_literals();
    lemma_header_text(cseq);
    lemma_header_text(kind);
    lemma_header_text(length);
    let kinds = if body.len() == 0 {
        none
    } else {
        seq![kind]
    };
    lemma_headers_text(seq![cseq], headers);
    lemma_headers_text(seq![cseq] + headers, kinds);
    lemma_headers_text(seq![cseq] + headers + kinds, seq![length]);
    assert(session::headers_text(none) == Seq::<char>::empty());
    let all = all_headers(sequence, headers, body);
    assert(all =~= seq![cseq] + headers + kinds + seq![length]);
    assert("CSeq"@ + ": "@ + number::decimal(sequence) + "\r\n"@ + session::headers_text(headers)
        + session::body_text(body) =~= session::headers_text(all) + "\r\n"@ + body);
}

/// What neither starts nor ends with white space is trimmed.
proof fn lemma_trimmed(s: Seq<char>)
    requires
        s.len() > 0 ==> !text::is_space(s[0]) && !text::is_space(s.last()),
    ensures
        text::trim(s) == s,
{
}

/// Decimal numbers are lines without white space.
proof fn lemma_decimal_line(n: int)
    requires
        0 <= n,
    ensures
        is_line(number::decimal(n)),
        forall|i: int|
            0 <= i < number::decimal(n).len() ==> !text::is_space(#[trigger] number::decimal(n)[i]),
        number::decimal(n).len() > 0,
        text::trim(number::decimal(n)) == number::decimal(n),
{
    let s = number::decimal(n);
    number::lemma_decimal(n);
    assert forall|i: int| 0 <= i < s.len() implies #[trigger] s[i] != '\r' && !text::is_space(
        s[i],
    ) by {
        assert(number::digit_value(s[i]) < 10);
    }
    lemma_trimmed(s);
}

/// The names of the headers that every message has, and their values.
proof fn lemma_own_headers(sequence: int, length: int)
    requires
        0 <= sequence,
        0 <= length,
    ensures
        is_header(("CSeq"@, number::decimal(sequence))),
        is_header(("Content-Type"@, "text/parameters"@)),
        is_header(("Content-Length"@, number::decimal(length))),
        text::lowercase("CSeq"@) == "cseq"@,
        text::lowercase("Content-Type"@) == "content-type"@,
        text::lowercase("Content-Length"@) == "content-length"@,
        "cseq"@ != "content-type"@,
        "cseq"@ != "content-length"@,
        "content-type"@ != "content-length"@,
{
    reveal_strlit("CSeq");
    reveal_strlit("cseq");
    reveal_strlit("Content-Type");
    reveal_strlit("content-type");
    reveal_strlit("text/parameters");
    reveal_strlit("Content-Length");
    reveal_strlit("content-length");
    lemma_decimal_line(sequence);
    lemma_decimal_line(length);
    lemma_trimmed("CSeq"@);
    lemma_trimmed("Content-Type"@);
    lemma_trimmed("text/parameters"@);
    lemma_trimmed("Content-Length"@);
    assert(text::lowercase("CSeq"@) =~= "cseq"@);
    assert(text::lowercase("Content-Type"@) =~= "content-type"@);
    assert(text::lowercase("Content-Length"@) =~= "content-length"@);
    assert("cseq"@.len() == 4);
    assert("content-type"@.len() == 12);
    assert("content-length"@.len() == 14);
}

/// Headers that may stand beside those that every message has: of their form, each once.
pub open spec fn are_additional(headers: Seq<(Seq<char>, Seq<char>)>) -> bool {
    &&& are_headers(headers)
    &&& are_distinct(headers)
    &&& forall|i: int|
        0 <= i < headers.len() ==> text::lowercase(#[trigger] headers[i].0) != "cseq"@
            && text::lowercase(headers[i].0) != "content-type"@ && text::lowercase(headers[i].0)
            != "content-length"@
}

/// With additional headers, all headers are of their form, each once.
proof fn lemma_all_headers(sequence: int, headers: Seq<(Seq<char>, Seq<char>)>, body: Seq<char>)
    requires
        0 <= sequence,
        are_additional(headers),
    ensures
        are_headers(all_headers(sequence, headers, body)),
        are_distinct(all_headers(sequence, headers, body)),
        all_headers(sequence, headers, body)[0] == ("CSeq"@, number::decimal(sequence)),
        all_headers(sequence, headers, body).last() == (
            "Content-Length"@,
            number::decimal(vstd::utf8::encode_utf8(body).len() as int),
        ),
        all_headers(sequence, headers, body).len() >= 2,
{
    let all = all_headers(sequence, headers, body);
    let n = headers.len() as int;
    let length = vstd::utf8::encode_utf8(body).len() as int;
    lemma_own_headers(sequence, length);
    assert forall|i: int| 0 <= i < all.len() implies is_header(#[trigger] all[i]) by {
        if 1 <= i <= n {
            assert(all[i] == headers[i - 1]);
        }
    }
    assert forall|i: int, j: int| 0 <= i < j < all.len() implies text::lowercase(
        #[trigger] all[i].0,
    ) != text::lowercase(#[trigger] all[j].0) by {
        if 1 <= i <= n {
            assert(all[i] == headers[i - 1]);
        }
        if 1 <= j <= n {
            assert(all[j] == headers[j - 1]);
        }
    }
}

/// A message of a start line and headers reads back.
proof fn lemma_message(
    start: Seq<char>,
    sequence: int,
    headers: Seq<(Seq<char>, Seq<char>)>,
    body: Seq<char>,
    tail: Seq<u8>,
)
    requires
        is_line(start),
        text::starts_with(start, "RTSP/1.0 "@) || text::ends_with(start, " RTSP/1.0"@),
        0 <= sequence <= 0xffff_ffff,
        are_additional(headers),
        vstd::utf8::encode_utf8(
            start + "\r\n"@ + session::headers_text(all_headers(sequence, headers, body)) + "\r\n"@
                + body,
        ).len() <= rtsp::MAX_MESSAGE,
    ensures
        rtsp::decoded(
            vstd::utf8::encode_utf8(
                start + "\r\n"@ + session::headers_text(all_headers(sequence, headers, body))
                    + "\r\n"@ + body,
            ) + tail,
        ) == Ok::<Option<(MessageModel, Seq<u8>)>, RtspError<Seq<char>>>(
            Some((message_of(start, sequence, headers, body), tail)),
        ),
        message_of(start, sequence, headers, body).cseq() == Ok::<int, RtspError<Seq<char>>>(
            sequence,
        ),
{
    let all = all_headers(sequence, headers, body);
    let lines = seq![start] + header_lines(all);
    let head = joined(lines);
    let content = vstd::utf8::encode_utf8(body);
    let ends = seq![13u8, 10u8, 13u8, 10u8];
    let whole = start + "\r\n"@ + session::headers_text(all) + "\r\n"@ + body;
    let bytes = vstd::utf8::encode_utf8(whole) + tail;
    let front = vstd::utf8::encode_utf8(head);
    lemma_all_headers(sequence, headers, body);
    lemma_own_headers(sequence, content.len() as int);
    // The start line is not empty.
    reveal_strlit("RTSP/1.0 ");
    reveal_strlit(" RTSP/1.0");
    assert(start.len() > 0);
    assert(are_lines(lines)) by {
        assert forall|i: int| 0 <= i < lines.len() implies is_line(#[trigger] lines[i])
            && lines[i].len() > 0 by {
            if i > 0 {
                lemma_header_line(all[i - 1]);
            }
        }
    }
    // The text in its three parts.
    lemma_joined_headers(start, all);
    assert(whole =~= head + ("\r\n"@ + "\r\n"@) + body);
    lemma_encode_concat(head + ("\r\n"@ + "\r\n"@), body);
    lemma_encode_concat(head, "\r\n"@ + "\r\n"@);
    lemma_encode_concat("\r\n"@, "\r\n"@);
    lemma_line_end_bytes();
    assert(vstd::utf8::encode_utf8("\r\n"@ + "\r\n"@) =~= ends);
    assert(bytes =~= front + ends + (content + tail));
    // The head.
    lemma_head_end_joined(lines, content + tail);
    let end = rtsp::head_end(bytes);
    assert(bytes.take(end) =~= front);
    vstd::utf8::encode_utf8_valid_utf8(head);
    vstd::utf8::encode_utf8_decode_utf8(head);
    lemma_split_joined(lines);
    assert(lines.drop_first() =~= header_lines(all));
    lemma_header_map(all);
    // The length and the body.
    lemma_header_value(all, all.len() - 1);
    number::law_decimal_reads_back(content.len() as int, usize::MAX as int);
    let total = end + 4 + content.len();
    assert(bytes.take(total).skip(end + 4) =~= content);
    vstd::utf8::encode_utf8_valid_utf8(body);
    vstd::utf8::encode_utf8_decode_utf8(body);
    assert(bytes.skip(total) =~= tail);
    // The sequence number.
    lemma_header_value(all, 0);
    number::law_decimal_reads_back(sequence, 0xffff_ffff);
}

/// The first word stands before the first white space.
proof fn lemma_first_word(word: Seq<char>, rest: Seq<char>)
    requires
        word.len() > 0,
        forall|i: int| 0 <= i < word.len() ==> !text::is_space(#[trigger] word[i]),
        rest.len() > 0,
        text::is_space(rest[0]),
    ensures
        text::fields(word + rest).len() > 0,
        text::fields(word + rest)[0] == word,
{
    let s = word + rest;
    lemma_word_end(word, rest);
    assert(s[0] == word[0]);
    assert(s.take(word.len() as int) =~= word);
}

/// The first white space stands behind a word.
proof fn lemma_word_end(word: Seq<char>, rest: Seq<char>)
    requires
        forall|i: int| 0 <= i < word.len() ==> !text::is_space(#[trigger] word[i]),
        rest.len() > 0,
        text::is_space(rest[0]),
    ensures
        text::find_space(word + rest) == word.len(),
    decreases word.len(),
{
    let s = word + rest;
    if word.len() == 0 {
        assert(s =~= rest);
    } else {
        assert(s[0] == word[0]);
        assert(s.skip(1) =~= word.skip(1) + rest);
        assert forall|i: int| 0 <= i < word.skip(1).len() implies !text::is_space(
            #[trigger] word.skip(1)[i],
        ) by {
            assert(word.skip(1)[i] == word[i + 1]);
        }
        lemma_word_end(word.skip(1), rest);
    }
}

// ---------------------------------------------------------------------------
// Laws
// ---------------------------------------------------------------------------

/// A request that is written reads back: its start line, its sequence number, its headers and
/// its body, whatever follows it on the stream.
pub proof fn law_requests_read_back(
    method: Seq<char>,
    uri: Seq<char>,
    sequence: u32,
    headers: Seq<(Seq<char>, Seq<char>)>,
    body: Seq<char>,
    tail: Seq<u8>,
)
    requires
        method.len() > 0,
        forall|i: int| 0 <= i < method.len() ==> !text::is_space(#[trigger] method[i]),
        is_line(uri),
        are_additional(headers),
        vstd::utf8::encode_utf8(
            session::request_text(method, uri, sequence as int, headers, body),
        ).len() <= rtsp::MAX_MESSAGE,
    ensures
        ({
            let message = message_of(
                method + " "@ + uri + " RTSP/1.0"@,
                sequence as int,
                headers,
                body,
            );
            &&& rtsp::decoded(
                vstd::utf8::encode_utf8(
                    session::request_text(method, uri, sequence as int, headers, body),
                ) + tail,
            ) == Ok::<Option<(MessageModel, Seq<u8>)>, RtspError<Seq<char>>>(
                Some((message, tail)),
            )
            &&& message.cseq() == Ok::<int, RtspError<Seq<char>>>(sequence as int)
            &&& message.method() == method
        }),
{
    let n = sequence as int;
    let start = method + " "@ + uri + " RTSP/1.0"@;
    let all = all_headers(n, headers, body);
    reveal_strlit(" ");
    reveal_strlit(" RTSP/1.0");
    lemma_literals();
    lemma_rest_text(n, headers, body);
    let rest = "CSeq"@ + ": "@ + number::decimal(n) + "\r\n"@ + session::headers_text(headers)
        + session::body_text(body);
    assert(session::request_text(method, uri, n, headers, body) =~= start + "\r\n"@ + rest);
    assert(start + "\r\n"@ + rest =~= start + "\r\n"@ + session::headers_text(all) + "\r\n"@
        + body);
    assert(start.skip(start.len() - " RTSP/1.0"@.len()) =~= " RTSP/1.0"@);
    assert(is_line(start)) by {
        assert forall|i: int| 0 <= i < start.len() implies #[trigger] start[i] != '\r' by {
            if i < method.len() {
                assert(start[i] == method[i]);
            } else if i > method.len() && i < method.len() + 1 + uri.len() {
                assert(start[i] == uri[i - method.len() - 1]);
            }
        }
    }
    lemma_message(start, n, headers, body, tail);
    assert(start =~= method + (" "@ + uri + " RTSP/1.0"@));
    lemma_first_word(method, " "@ + uri + " RTSP/1.0"@);
}

/// The words for a status are a line.
proof fn lemma_reason_line(status: int)
    ensures
        is_line(session::reason(status)),
{
    reveal_strlit("OK");
    reveal_strlit("Bad Request");
    reveal_strlit("Session Not Found");
    reveal_strlit("Method Not Valid in This State");
    reveal_strlit("Unsupported Transport");
    reveal_strlit("Not Implemented");
}

/// The first line of a response.
pub open spec fn status_line(status: int) -> Seq<char> {
    "RTSP/1.0 "@ + number::decimal(status) + " "@ + session::reason(status)
}

/// The first line of a response is one line, which begins with the version.
proof fn lemma_status_line(status: int)
    requires
        0 <= status <= 65535,
    ensures
        is_line(status_line(status)),
        text::starts_with(status_line(status), "RTSP/1.0 "@),
{
    let code = number::decimal(status);
    let words = session::reason(status);
    let start = status_line(status);
    reveal_strlit(" ");
    reveal_strlit("RTSP/1.0 ");
    lemma_decimal_line(status);
    lemma_reason_line(status);
    assert(start.take("RTSP/1.0 "@.len() as int) =~= "RTSP/1.0 "@);
    assert forall|i: int| 0 <= i < start.len() implies #[trigger] start[i] != '\r' by {
        if i >= 9 && i < 9 + code.len() {
            assert(start[i] == code[i - 9]);
        } else if i > 9 + code.len() {
            assert(start[i] == words[i - 10 - code.len()]);
        }
    }
}

/// The status of a response is read from its first line.
proof fn lemma_status_read(message: MessageModel, status: int)
    requires
        0 <= status <= 65535,
        message.start == status_line(status),
    ensures
        message.status() == Some(status),
{
    let code = number::decimal(status);
    let words = session::reason(status);
    reveal_strlit(" ");
    lemma_status_line(status);
    lemma_decimal_line(status);
    assert(message.start.skip("RTSP/1.0 "@.len() as int) =~= code + (" "@ + words));
    lemma_first_word(code, " "@ + words);
    number::law_decimal_reads_back(status, 65535);
}

/// The text of a response is its first line, its headers and its body.
proof fn lemma_reply_text(
    status: int,
    sequence: int,
    headers: Seq<(Seq<char>, Seq<char>)>,
    body: Seq<char>,
)
    ensures
        session::reply_text(status, sequence, headers, body) == status_line(status) + "\r\n"@
            + session::headers_text(all_headers(sequence, headers, body)) + "\r\n"@ + body,
{
    let start = status_line(status);
    let all = all_headers(sequence, headers, body);
    let rest = "CSeq"@ + ": "@ + number::decimal(sequence) + "\r\n"@ + session::headers_text(
        headers,
    ) + session::body_text(body);
    lemma_literals();
    lemma_rest_text(sequence, headers, body);
    assert(session::reply_text(status, sequence, headers, body) =~= start + "\r\n"@ + rest);
    assert(start + "\r\n"@ + rest =~= start + "\r\n"@ + session::headers_text(all) + "\r\n"@
        + body);
}

/// A response that is written reads back: its status, its sequence number, its headers and
/// its body, whatever follows it on the stream.
pub proof fn law_replies_read_back(
    status: u16,
    sequence: u32,
    headers: Seq<(Seq<char>, Seq<char>)>,
    body: Seq<char>,
    tail: Seq<u8>,
)
    requires
        are_additional(headers),
        vstd::utf8::encode_utf8(
            session::reply_text(status as int, sequence as int, headers, body),
        ).len() <= rtsp::MAX_MESSAGE,
    ensures
        ({
            let message = message_of(
                status_line(status as int),
                sequence as int,
                headers,
                body,
            );
            &&& rtsp::decoded(
                vstd::utf8::encode_utf8(
                    session::reply_text(status as int, sequence as int, headers, body),
                ) + tail,
            ) == Ok::<Option<(MessageModel, Seq<u8>)>, RtspError<Seq<char>>>(
                Some((message, tail)),
            )
            &&& message.cseq() == Ok::<int, RtspError<Seq<char>>>(sequence as int)
            &&& message.status() == Some(status as int)
        }),
{
    let start = status_line(status as int);
    lemma_status_line(status as int);
    lemma_reply_text(status as int, sequence as int, headers, body);
    lemma_message(start, sequence as int, headers, body, tail);
    lemma_status_read(message_of(start, sequence as int, headers, body), status as int);
}

} // verus!
