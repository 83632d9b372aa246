//! A check of the stream that is sent, packet by packet: the grouping into RTP packets, the
//! streams of the program, and the lead of the pictures before their clock.
use crate::measure;
use crate::number;
use crate::transport_clock;
use crate::wfd::Profile;
use vstd::prelude::*;

verus! {

/// Why a stream is not as it should be.
#[derive(Clone, Copy, Debug, PartialEq, Eq, Structural)]
pub enum StreamError {
    /// Too short, too long or of another payload type.
    BadGrouping,
    /// Another header, or a part of a transport packet.
    BadPacket,
    /// A transport packet without its sync byte.
    BadSync,
    /// A lead other than the one that was asked for, in ticks of 90 kHz.
    BadLead(u64),
    /// The encoder was not given the longest interval.
    BadInterval,
    /// No RTP packet was full.
    NoFullPackets,
    /// The key frame that was asked for did not come.
    NoRecoveryFrame,
    /// Key frames that were not asked for.
    PeriodicFrames(u64),
    /// Too few frames.
    TooFewFrames,
    /// Too few starts of pictures or sound, or sound that should not be there.
    BadCounts,
    /// Another kind of video.
    BadVideoType(Option<u8>),
    /// Another kind of sound.
    BadAudioType(Option<u8>),
    /// No pair of timestamp and clock.
    NoLead,
}

/// A kind of stream, if it is known.
pub open spec fn kind_text(kind: Option<u8>) -> Seq<char> {
    match kind {
        Some(k) => "Some("@ + number::decimal(k as int) + ")"@,
        None => "None"@,
    }
}

/// A kind of stream, if it is known.
fn write_kind(kind: Option<u8>) -> (r: String)
    ensures
        r@ == kind_text(kind),
{
    match kind {
        Some(k) => "Some(".to_owned().concat(number::decimal_text(k as u64).as_str()).concat(")"),
        None => "None".to_owned(),
    }
}

impl StreamError {
    /// The text of each error.
    pub open spec fn message(self) -> Seq<char> {
        match self {
            StreamError::BadGrouping => {
                "RTP output must group up to seven TS packets below the MTU"@
            },
            StreamError::BadPacket => "Unexpected RTP header or partial TS packet"@,
            StreamError::BadSync => "Invalid MPEG-TS sync byte"@,
            StreamError::BadLead(lead) => "Unexpected PES/PCR lead: "@ + number::decimal(
                lead as int,
            ) + " ticks"@,
            StreamError::BadInterval => {
                "Receiver IDR capability did not configure the longest GOP"@
            },
            StreamError::NoFullPackets => "TS batches were not aggregated into full RTP packets"@,
            StreamError::NoRecoveryFrame => "Requested recovery IDR was not emitted"@,
            StreamError::PeriodicFrames(keys) => "Unexpected periodic keyframes: "@
                + number::decimal(keys as int),
            StreamError::TooFewFrames => "Media did not produce enough live frames"@,
            StreamError::BadCounts => "Unexpected video/audio PES counts"@,
            StreamError::BadVideoType(kind) => "Unexpected video PMT stream type: "@ + kind_text(
                kind,
            ),
            StreamError::BadAudioType(kind) => "Unexpected audio PMT stream type: "@ + kind_text(
                kind,
            ),
            StreamError::NoLead => "No PES/PCR playback lead observed"@,
        }
    }

    /// The message shown to the user.
    pub fn text(self) -> (r: String)
        ensures
            r@ == self.message(),
    {
        match self {
            StreamError::BadGrouping => {
                "RTP output must group up to seven TS packets below the MTU".to_owned()
            },
            StreamError::BadPacket => "Unexpected RTP header or partial TS packet".to_owned(),
            StreamError::BadSync => "Invalid MPEG-TS sync byte".to_owned(),
            StreamError::BadLead(lead) => "Unexpected PES/PCR lead: ".to_owned().concat(
                number::decimal_text(lead).as_str(),
            ).concat(" ticks"),
            StreamError::BadInterval => {
                "Receiver IDR capability did not configure the longest GOP".to_owned()
            },
            StreamError::NoFullPackets => {
                "TS batches were not aggregated into full RTP packets".to_owned()
            },
            StreamError::NoRecoveryFrame => "Requested recovery IDR was not emitted".to_owned(),
            StreamError::PeriodicFrames(keys) => "Unexpected periodic keyframes: ".to_owned().concat(
                number::decimal_text(keys).as_str(),
            ),
            StreamError::TooFewFrames => "Media did not produce enough live frames".to_owned(),
            StreamError::BadCounts => "Unexpected video/audio PES counts".to_owned(),
            StreamError::BadVideoType(kind) => "Unexpected video PMT stream type: ".to_owned().concat(
                write_kind(kind).as_str(),
            ),
            StreamError::BadAudioType(kind) => "Unexpected audio PMT stream type: ".to_owned().concat(
                write_kind(kind).as_str(),
            ),
            StreamError::NoLead => "No PES/PCR playback lead observed".to_owned(),
        }
    }
}

/// What was counted.
#[derive(Clone, Copy, Debug, PartialEq, Eq, Structural)]
pub struct StreamCheck {
    pub packets: u32,
    pub full_packets: u32,
    pub video_pes: u32,
    pub audio_pes: u32,
    pub clock_lead_checks: u32,
    pub video_type: Option<u8>,
    pub audio_type: Option<u8>,
}

/// No counter is near its limit: a packet adds at most seven.
pub open spec fn has_room(c: StreamCheck) -> bool {
    c.packets < 0x7fff_fff0 && c.full_packets < 0x7fff_fff0 && c.video_pes < 0x7fff_fff0
        && c.audio_pes < 0x7fff_fff0 && c.clock_lead_checks < 0x7fff_fff0
}

// ---------------------------------------------------------------------------
// Model
// ---------------------------------------------------------------------------

/// The packet identifier in two bytes.
pub open spec fn pid_of(high: u8, low: u8) -> int {
    (high as int % 32) * 256 + low
}

/// A length of twelve bits in two bytes.
pub open spec fn length_of(high: u8, low: u8) -> int {
    (high as int % 16) * 256 + low
}

/// Where the payload of a transport packet starts.
pub open spec fn payload_offset(ts: Seq<u8>) -> int {
    4 + if ts[3] as int / 32 % 2 == 1 {
        1 + ts[4]
    } else {
        0
    }
}

/// Whether something starts in the payload of a transport packet.
pub open spec fn starts_payload(ts: Seq<u8>) -> bool {
    ts[1] as int / 64 % 2 == 1 && ts[3] as int / 16 % 2 == 1 && payload_offset(ts) < 188
}

/// Whether a payload is the start of a picture or of sound.
pub open spec fn starts_pes(payload: Seq<u8>) -> bool {
    payload.len() >= 3 && payload[0] == 0 && payload[1] == 0 && payload[2] == 1
}

/// Whether a transport packet has a timestamp and a clock reference.
pub open spec fn has_lead(ts: Seq<u8>, payload: Seq<u8>) -> bool {
    let pid = pid_of(ts[1], ts[2]);
    &&& pid == 4113 || pid == 4352
    &&& payload.len() >= 14
    &&& payload[7] as int / 128 == 1
    &&& ts[3] as int / 32 % 2 == 1
    &&& ts[4] >= 7
    &&& ts[5] as int / 16 % 2 == 1
}

/// From the clock reference to the timestamp, in ticks.
pub open spec fn lead_of(ts: Seq<u8>, payload: Seq<u8>) -> int {
    (measure::timestamp(payload.subrange(9, 14)) - transport_clock::pcr_base(ts)) % 8_589_934_592
}

/// The program map in a payload, behind its pointer.
pub open spec fn program_map(payload: Seq<u8>) -> Seq<u8> {
    let at = 1 + payload[0];
    if at <= payload.len() {
        payload.skip(at)
    } else {
        Seq::empty()
    }
}

/// Whether a payload holds a program map.
pub open spec fn is_program_map(ts: Seq<u8>, payload: Seq<u8>) -> bool {
    &&& pid_of(ts[1], ts[2]) == 32
    &&& payload.len() > 1
    &&& program_map(payload).len() >= 12
    &&& program_map(payload)[0] == 2
}

/// The end of the streams in a program map, before its checksum.
pub open spec fn streams_end(pmt: Seq<u8>) -> int {
    let end = length_of(pmt[1], pmt[2]) - 1;
    if end < pmt.len() {
        end
    } else {
        pmt.len() as int
    }
}

/// The kinds of the video and of the sound in the streams from `offset`: a later entry
/// takes the place of an earlier one.
pub open spec fn stream_types(
    pmt: Seq<u8>,
    offset: int,
    types: (Option<u8>, Option<u8>),
) -> (Option<u8>, Option<u8>)
    decreases pmt.len() + 4096 - offset,
{
    if offset < 0 || offset + 5 > streams_end(pmt) || offset + 5 > pmt.len() {
        types
    } else {
        let pid = pid_of(pmt[offset + 1], pmt[offset + 2]);
        let next = (
            if pid == 4113 {
                Some(pmt[offset])
            } else {
                types.0
            },
            if pid == 4352 {
                Some(pmt[offset])
            } else {
                types.1
            },
        );
        stream_types(pmt, offset + 5 + length_of(pmt[offset + 3], pmt[offset + 4]), next)
    }
}

/// What is wrong with a transport packet, if anything is.
pub open spec fn ts_error(ts: Seq<u8>, lead_ms: int) -> Option<StreamError> {
    let payload = ts.skip(payload_offset(ts));
    if ts[0] != 0x47 {
        Some(StreamError::BadSync)
    } else if starts_payload(ts) && starts_pes(payload) && has_lead(ts, payload) && lead_of(
        ts,
        payload,
    ) != lead_ms * 90 {
        Some(StreamError::BadLead(lead_of(ts, payload) as u64))
    } else {
        None
    }
}

/// What a transport packet adds with which nothing is wrong.
pub open spec fn with_ts(c: StreamCheck, ts: Seq<u8>) -> StreamCheck {
    let payload = ts.skip(payload_offset(ts));
    let pid = pid_of(ts[1], ts[2]);
    if !starts_payload(ts) {
        c
    } else {
        let counted = if starts_pes(payload) {
            StreamCheck {
                clock_lead_checks: if has_lead(ts, payload) {
                    (c.clock_lead_checks + 1) as u32
                } else {
                    c.clock_lead_checks
                },
                video_pes: if pid == 4113 {
                    (c.video_pes + 1) as u32
                } else {
                    c.video_pes
                },
                audio_pes: if pid == 4352 {
                    (c.audio_pes + 1) as u32
                } else {
                    c.audio_pes
                },
                ..c
            }
        } else {
            c
        };
        if is_program_map(ts, payload) {
            let pmt = program_map(payload);
            let types = stream_types(
                pmt,
                12 + length_of(pmt[10], pmt[11]),
                (counted.video_type, counted.audio_type),
            );
            StreamCheck { video_type: types.0, audio_type: types.1, ..counted }
        } else {
            counted
        }
    }
}

/// What was counted, and what is wrong, if anything is.
pub ghost struct Taken {
    pub counts: StreamCheck,
    pub result: Result<(), StreamError>,
}

/// What one transport packet leads to: one that is wrong adds nothing.
pub open spec fn after_ts(c: StreamCheck, ts: Seq<u8>, lead_ms: int) -> Taken {
    match ts_error(ts, lead_ms) {
        Some(e) => Taken { counts: c, result: Err(e) },
        None => Taken { counts: with_ts(c, ts), result: Ok(()) },
    }
}

/// Transport packet `k` of an RTP packet.
pub open spec fn ts_at(data: Seq<u8>, k: int) -> Seq<u8> {
    data.subrange(12 + k * 188, 12 + k * 188 + 188)
}

/// What the first `k` transport packets lead to. The first that is wrong ends the count.
pub open spec fn after_packets(c: StreamCheck, data: Seq<u8>, k: int, lead_ms: int) -> Taken
    decreases k,
{
    if k <= 0 {
        Taken { counts: c, result: Ok(()) }
    } else {
        let before = after_packets(c, data, k - 1, lead_ms);
        if before.result is Err {
            before
        } else {
            after_ts(before.counts, ts_at(data, k - 1), lead_ms)
        }
    }
}

/// Whether an RTP packet is one of transport packets, up to seven.
pub open spec fn is_grouped(data: Seq<u8>) -> bool {
    200 <= data.len() <= 1328 && data[1] as int % 128 == 33
}

/// Whether an RTP packet has a plain header and whole transport packets.
pub open spec fn is_whole(data: Seq<u8>) -> bool {
    data[0] == 0x80 && (data.len() - 12) % 188 == 0
}

/// One more RTP packet.
pub open spec fn with_rtp(c: StreamCheck, data: Seq<u8>) -> StreamCheck {
    StreamCheck {
        packets: (c.packets + 1) as u32,
        full_packets: if data.len() == 1328 {
            (c.full_packets + 1) as u32
        } else {
            c.full_packets
        },
        ..c
    }
}

/// What one RTP packet leads to.
pub open spec fn after_rtp(c: StreamCheck, data: Seq<u8>, lead_ms: int) -> Taken {
    if !is_grouped(data) {
        Taken { counts: c, result: Err(StreamError::BadGrouping) }
    } else if !is_whole(data) {
        Taken { counts: with_rtp(c, data), result: Err(StreamError::BadPacket) }
    } else {
        after_packets(with_rtp(c, data), data, (data.len() - 12) / 188, lead_ms)
    }
}

/// Whether the check comes to the program map of transport packet `k`: nothing is wrong with
/// this one and those in front of it.
pub open spec fn is_reached(data: Seq<u8>, k: int, lead_ms: int) -> bool {
    &&& is_grouped(data) && is_whole(data)
    &&& 0 <= k < (data.len() - 12) / 188
    &&& forall|j: int| 0 <= j <= k ==> ts_error(#[trigger] ts_at(data, j), lead_ms) is None
}

/// Whether every program map in an RTP packet that the check comes to gives a length for its
/// streams.
pub open spec fn maps_have_length(data: Seq<u8>, lead_ms: int) -> bool {
    forall|k: int| #[trigger] is_reached(data, k, lead_ms) ==> map_has_length(ts_at(data, k))
}

/// Whether the program map in a transport packet, if there is one, gives a length.
pub open spec fn map_has_length(ts: Seq<u8>) -> bool {
    let payload = ts.skip(payload_offset(ts));
    let pmt = program_map(payload);
    starts_payload(ts) && is_program_map(ts, payload) ==> length_of(pmt[1], pmt[2]) >= 1
}

// ---------------------------------------------------------------------------
// Executed
// ---------------------------------------------------------------------------

/// The packet identifier in two bytes.
fn read_pid(data: &[u8], at: usize) -> (r: u32)
    requires
        at + 2 <= data@.len(),
    ensures
        r == pid_of(data@[at as int], data@[at + 1]),
{
    (data[at] % 32) as u32 * 256 + data[at + 1] as u32
}

/// A length of twelve bits in two bytes.
fn read_length(data: &[u8], at: usize) -> (r: usize)
    requires
        at + 2 <= data@.len(),
    ensures
        r == length_of(data@[at as int], data@[at + 1]),
        r <= 4095,
{
    (data[at] % 16) as usize * 256 + data[at + 1] as usize
}

/// Where the payload of a transport packet starts.
fn read_offset(ts: &[u8]) -> (r: usize)
    requires
        ts@.len() == 188,
    ensures
        r == payload_offset(ts@),
{
    if ts[3] / 32 % 2 == 1 {
        5 + ts[4] as usize
    } else {
        4
    }
}

/// Whether a transport packet has a timestamp and a clock reference.
fn check_lead(ts: &[u8], payload: &[u8]) -> (r: bool)
    requires
        ts@.len() == 188,
    ensures
        r == has_lead(ts@, payload@),
{
    let pid: u32 = read_pid(ts, 1);
    (pid == 4113 || pid == 4352) && payload.len() >= 14 && payload[7] / 128 == 1 && ts[3] / 32 % 2
        == 1 && ts[4] >= 7 && ts[5] / 16 % 2 == 1
}

/// From the clock reference to the timestamp, in ticks.
fn read_lead(ts: &[u8], payload: &[u8]) -> (r: u64)
    requires
        ts@.len() == 188,
        payload@.len() >= 14,
    ensures
        r == lead_of(ts@, payload@),
{
    let pts: u64 = measure::timestamp_at(payload, 9);
    let pcr: u64 = ts[6] as u64 * 33_554_432 + ts[7] as u64 * 131_072 + ts[8] as u64 * 512
        + ts[9] as u64 * 2 + ts[10] as u64 / 128;
    let lead: u64 = (pts + 8_589_934_592 - pcr) % 8_589_934_592;
    proof {
        assert((pts - pcr) % 8_589_934_592 == lead);
    }
    lead
}

/// The kinds of the streams in a program map.
fn read_types(pmt: &[u8], types: (Option<u8>, Option<u8>)) -> (r: (Option<u8>, Option<u8>))
    requires
        12 <= pmt@.len() <= 188,
        length_of(pmt@[1], pmt@[2]) >= 1,
    ensures
        r == stream_types(pmt@, 12 + length_of(pmt@[10], pmt@[11]), types),
{
    let section: usize = read_length(pmt, 1);
    let mut end: usize = section - 1;
    if end > pmt.len() {
        end = pmt.len();
    }
    let mut offset: usize = 12 + read_length(pmt, 10);
    let mut found = types;
    while offset + 5 <= end
        invariant
            12 <= pmt@.len() <= 188,
            end == streams_end(pmt@),
            end <= pmt@.len(),
            offset <= 8192,
            stream_types(pmt@, 12 + length_of(pmt@[10], pmt@[11]), types) == stream_types(
                pmt@,
                offset as int,
                found,
            ),
        decreases 8192 - offset,
    {
        let pid: u32 = read_pid(pmt, offset + 1);
        if pid == 4113 {
            found = (Some(pmt[offset]), found.1);
        }
        if pid == 4352 {
            found = (found.0, Some(pmt[offset]));
        }
        offset = offset + 5 + read_length(pmt, offset + 3);
    }
    found
}

/// Whether a payload is the start of a picture or of sound.
fn check_pes(payload: &[u8]) -> (r: bool)
    ensures
        r == starts_pes(payload@),
{
    payload.len() >= 3 && payload[0] == 0 && payload[1] == 0 && payload[2] == 1
}

/// Where the program map of a payload starts, if there is one.
fn find_map(payload: &[u8]) -> (r: usize)
    requires
        payload@.len() > 1,
    ensures
        r <= payload@.len(),
        payload@.skip(r as int) == program_map(payload@),
{
    let at: usize = 1 + payload[0] as usize;
    if at <= payload.len() {
        at
    } else {
        proof {
            assert(payload@.skip(payload@.len() as int) =~= Seq::<u8>::empty());
        }
        payload.len()
    }
}

/// Whether the program map in a transport packet gives a length.
fn check_map_length(ts: &[u8]) -> (r: bool)
    requires
        ts@.len() == 188,
    ensures
        r == map_has_length(ts@),
{
    let offset: usize = read_offset(ts);
    if ts[1] / 64 % 2 == 0 || ts[3] / 16 % 2 == 0 || offset >= 188 {
        return true;
    }
    let payload = &ts[offset..ts.len()];
    proof {
        assert(payload@ =~= ts@.skip(offset as int));
    }
    if read_pid(ts, 1) != 32 || payload.len() <= 1 {
        return true;
    }
    let at: usize = find_map(payload);
    let pmt = &payload[at..payload.len()];
    proof {
        assert(pmt@ =~= payload@.skip(at as int));
    }
    if pmt.len() < 12 || pmt[0] != 2 {
        return true;
    }
    read_length(pmt, 1) >= 1
}

/// What is wrong with a transport packet, if anything is.
fn find_error(ts: &[u8], lead_ms: u32) -> (r: Option<StreamError>)
    requires
        ts@.len() == 188,
    ensures
        r == ts_error(ts@, lead_ms as int),
{
    if ts[0] != 0x47 {
        return Some(StreamError::BadSync);
    }
    let offset: usize = read_offset(ts);
    if ts[1] / 64 % 2 == 0 || ts[3] / 16 % 2 == 0 || offset >= 188 {
        return None;
    }
    let payload = &ts[offset..ts.len()];
    proof {
        assert(payload@ =~= ts@.skip(offset as int));
    }
    if check_pes(payload) && check_lead(ts, payload) {
        let lead: u64 = read_lead(ts, payload);
        if lead != lead_ms as u64 * 90 {
            return Some(StreamError::BadLead(lead));
        }
    }
    None
}

/// Whether every program map in an RTP packet that the check comes to gives a length for its
/// streams.
pub fn check_maps(data: &[u8], lead_ms: u32) -> (r: bool)
    ensures
        r == maps_have_length(data@, lead_ms as int),
{
    let size: usize = data.len();
    if size < 200 || size > 1328 || data[1] % 128 != 33 || data[0] != 0x80 || (size - 12) % 188
        != 0 {
        return true;
    }
    let count: usize = (size - 12) / 188;
    let mut k: usize = 0;
    while k < count
        invariant
            k <= count,
            size == data@.len(),
            is_grouped(data@),
            is_whole(data@),
            count == (size - 12) / 188,
            forall|j: int|
                0 <= j < k ==> ts_error(#[trigger] ts_at(data@, j), lead_ms as int) is None,
            forall|j: int| 0 <= j < k ==> map_has_length(#[trigger] ts_at(data@, j)),
        decreases count - k,
    {
        let ts = &data[12 + k * 188..12 + k * 188 + 188];
        proof {
            assert(ts@ =~= ts_at(data@, k as int));
        }
        if find_error(ts, lead_ms).is_some() {
            return true;
        }
        if !check_map_length(ts) {
            proof {
                assert(is_reached(data@, k as int, lead_ms as int));
            }
            return false;
        }
        k = k + 1;
    }
    true
}

impl Default for StreamCheck {
    fn default() -> (r: StreamCheck)
        ensures
            r == (StreamCheck {
                packets: 0,
                full_packets: 0,
                video_pes: 0,
                audio_pes: 0,
                clock_lead_checks: 0,
                video_type: None,
                audio_type: None,
            }),
            has_room(r),
    {
        StreamCheck {
            packets: 0,
            full_packets: 0,
            video_pes: 0,
            audio_pes: 0,
            clock_lead_checks: 0,
            video_type: None,
            audio_type: None,
        }
    }
}

/// An error among the first packets is the error of them all.
proof fn lemma_first_wrong(c: StreamCheck, data: Seq<u8>, k: int, n: int, lead_ms: int)
    requires
        0 <= k <= n,
        after_packets(c, data, k, lead_ms).result is Err,
    ensures
        after_packets(c, data, n, lead_ms) == after_packets(c, data, k, lead_ms),
    decreases n,
{
    if k < n {
        lemma_first_wrong(c, data, k, n - 1, lead_ms);
    }
}

impl StreamCheck {
    /// Whether a packet can still be counted.
    pub fn can_count(&self) -> (r: bool)
        ensures
            r == has_room(*self),
    {
        self.packets < 0x7fff_fff0 && self.full_packets < 0x7fff_fff0 && self.video_pes
            < 0x7fff_fff0 && self.audio_pes < 0x7fff_fff0 && self.clock_lead_checks < 0x7fff_fff0
    }

    /// Takes over the kinds of the streams in a program map.
    fn read_map(&mut self, ts: &[u8], payload: &[u8])
        requires
            ts@.len() == 188,
            payload@.len() <= 188,
            is_program_map(ts@, payload@) ==> length_of(
                program_map(payload@)[1],
                program_map(payload@)[2],
            ) >= 1,
        ensures
            *final(self) == if is_program_map(ts@, payload@) {
                let pmt = program_map(payload@);
                let types = stream_types(
                    pmt,
                    12 + length_of(pmt[10], pmt[11]),
                    (old(self).video_type, old(self).audio_type),
                );
                StreamCheck { video_type: types.0, audio_type: types.1, ..*old(self) }
            } else {
                *old(self)
            },
    {
        if read_pid(ts, 1) != 32 || payload.len() <= 1 {
            return ;
        }
        let at: usize = find_map(payload);
        let pmt = &payload[at..payload.len()];
        proof {
            assert(pmt@ =~= payload@.skip(at as int));
        }
        if pmt.len() < 12 || pmt[0] != 2 {
            return ;
        }
        let (video, audio) = read_types(pmt, (self.video_type, self.audio_type));
        self.video_type = video;
        self.audio_type = audio;
    }

    /// One transport packet.
    fn transport_packet(&mut self, ts: &[u8], lead_ms: u32) -> (r: Result<(), StreamError>)
        requires
            ts@.len() == 188,
            ts_error(ts@, lead_ms as int) is None ==> map_has_length(ts@),
            old(self).clock_lead_checks < u32::MAX,
            old(self).video_pes < u32::MAX,
            old(self).audio_pes < u32::MAX,
        ensures
            *final(self) == after_ts(*old(self), ts@, lead_ms as int).counts,
            r == after_ts(*old(self), ts@, lead_ms as int).result,
    {
        if let Some(e) = find_error(ts, lead_ms) {
            return Err(e);
        }
        let offset: usize = read_offset(ts);
        if ts[1] / 64 % 2 == 0 || ts[3] / 16 % 2 == 0 || offset >= 188 {
            return Ok(());
        }
        let payload = &ts[offset..ts.len()];
        proof {
            assert(payload@ =~= ts@.skip(offset as int));
        }
        if check_pes(payload) {
            if check_lead(ts, payload) {
                self.clock_lead_checks = self.clock_lead_checks + 1;
            }
            let pid: u32 = read_pid(ts, 1);
            if pid == 4113 {
                self.video_pes = self.video_pes + 1;
            }
            if pid == 4352 {
                self.audio_pes = self.audio_pes + 1;
            }
        }
        self.read_map(ts, payload);
        Ok(())
    }

    /// One RTP packet as it was received. Where something is wrong, what came before it is
    /// counted.
    pub fn packet(&mut self, data: &[u8], lead_ms: u32) -> (r: Result<(), StreamError>)
        requires
            has_room(*old(self)),
            maps_have_length(data@, lead_ms as int),
        ensures
            *final(self) == after_rtp(*old(self), data@, lead_ms as int).counts,
            r == after_rtp(*old(self), data@, lead_ms as int).result,
    {
        if data.len() < 200 || data.len() > 1328 || data[1] % 128 != 33 {
            return Err(StreamError::BadGrouping);
        }
        let size: usize = data.len();
        self.packets = self.packets + 1;
        if size == 1328 {
            self.full_packets = self.full_packets + 1;
        }
        if data[0] != 0x80 || (size - 12) % 188 != 0 {
            return Err(StreamError::BadPacket);
        }
        let ghost counted = *self;
        let count: usize = (size - 12) / 188;
        let mut k: usize = 0;
        while k < count
            invariant
                k <= count,
                count <= 7,
                size == data@.len(),
                12 <= size <= 1328,
                count == (size - 12) / 188,
                is_grouped(data@),
                is_whole(data@),
                maps_have_length(data@, lead_ms as int),
                forall|j: int|
                    0 <= j < k ==> ts_error(#[trigger] ts_at(data@, j), lead_ms as int) is None,
                after_packets(counted, data@, k as int, lead_ms as int) == (Taken {
                    counts: *self,
                    result: Ok(()),
                }),
                after_rtp(*old(self), data@, lead_ms as int) == after_packets(
                    counted,
                    data@,
                    count as int,
                    lead_ms as int,
                ),
                self.clock_lead_checks <= 0x7fff_fff0 + k,
                self.video_pes <= 0x7fff_fff0 + k,
                self.audio_pes <= 0x7fff_fff0 + k,
            decreases count - k,
        {
            let ts = &data[12 + k * 188..12 + k * 188 + 188];
            proof {
                assert(ts@ =~= ts_at(data@, k as int));
                if ts_error(ts@, lead_ms as int) is None {
                    assert(is_reached(data@, k as int, lead_ms as int));
                }
            }
            match self.transport_packet(ts, lead_ms) {
                Ok(()) => {},
                Err(e) => {
                    proof {
                        lemma_first_wrong(
                            counted,
                            data@,
                            k + 1,
                            count as int,
                            lead_ms as int,
                        );
                    }
                    return Err(e);
                },
            }
            k = k + 1;
        }
        Ok(())
    }
}

// ---------------------------------------------------------------------------
// The verdict
// ---------------------------------------------------------------------------

/// What is known at the end of a check.
#[derive(Clone, Copy, Debug, PartialEq, Eq, Structural)]
pub struct Observed {
    pub profile: Profile,
    pub fps: u32,
    pub seconds: u64,
    pub audio: bool,
    /// A key frame was asked for.
    pub requested: bool,
    /// The key frames that came.
    pub keys: u64,
    /// The frames that were encoded.
    pub frames: u64,
    /// The interval that the encoder was given.
    pub interval: u32,
}

/// Whether a stream was as it should be.
pub open spec fn verdict_of(c: StreamCheck, o: Observed) -> Result<(), StreamError> {
    let video: u8 = if o.profile == Profile::Hevc {
        0x24
    } else {
        0x1b
    };
    let audio: Option<u8> = if o.audio {
        Some(0x0f)
    } else {
        None
    };
    if c.full_packets == 0 {
        Err(StreamError::NoFullPackets)
    } else if o.requested && o.keys < 2 {
        Err(StreamError::NoRecoveryFrame)
    } else if o.requested && o.keys > 2 + o.frames as int / o.interval as int {
        Err(StreamError::PeriodicFrames(o.keys))
    } else if o.frames <= o.fps * o.seconds / 2 || c.packets == 0 {
        Err(StreamError::TooFewFrames)
    } else if c.video_pes <= 10 || (o.audio && c.audio_pes <= 10) || (!o.audio && c.audio_pes != 0) {
        Err(StreamError::BadCounts)
    } else if c.video_type != Some(video) {
        Err(StreamError::BadVideoType(c.video_type))
    } else if c.audio_type != audio {
        Err(StreamError::BadAudioType(c.audio_type))
    } else if c.clock_lead_checks == 0 {
        Err(StreamError::NoLead)
    } else {
        Ok(())
    }
}

impl StreamCheck {
    /// Whether the stream was as it should be.
    pub fn verdict(&self, o: &Observed) -> (r: Result<(), StreamError>)
        requires
            o.requested ==> o.interval > 0,
            o.fps * o.seconds <= u64::MAX,
            o.frames <= u64::MAX - 2,
        ensures
            r == verdict_of(*self, *o),
    {
        let video: u8 = match o.profile {
            Profile::Hevc => 0x24,
            _ => 0x1b,
        };
        let audio: Option<u8> = if o.audio {
            Some(0x0f)
        } else {
            None
        };
        if self.full_packets == 0 {
            return Err(StreamError::NoFullPackets);
        }
        if o.requested {
            if o.keys < 2 {
                return Err(StreamError::NoRecoveryFrame);
            }
            proof {
                vstd::arithmetic::div_mod::lemma_div_is_ordered_by_denominator(
                    o.frames as int,
                    1,
                    o.interval as int,
                );
            }
            let periods: u64 = o.frames / o.interval as u64;
            if o.keys > 2 + periods {
                return Err(StreamError::PeriodicFrames(o.keys));
            }
        }
        if o.frames <= o.fps as u64 * o.seconds / 2 || self.packets == 0 {
            return Err(StreamError::TooFewFrames);
        }
        if self.video_pes <= 10 || (o.audio && self.audio_pes <= 10) || (!o.audio && self.audio_pes
            != 0) {
            return Err(StreamError::BadCounts);
        }
        if self.video_type != Some(video) {
            return Err(StreamError::BadVideoType(self.video_type));
        }
        if self.audio_type != audio {
            return Err(StreamError::BadAudioType(self.audio_type));
        }
        if self.clock_lead_checks == 0 {
            return Err(StreamError::NoLead);
        }
        Ok(())
    }
}

/// Whether it is time to ask for a key frame: once, after one second, in a check of three
/// seconds or more.
pub fn keyframe_due(seconds: u64, requested: bool, elapsed_ms: u64) -> (r: bool)
    ensures
        r == (seconds >= 3 && !requested && elapsed_ms >= 1000),
{
    seconds >= 3 && !requested && elapsed_ms >= 1000
}

/// Whether the encoder was given the longest interval that it takes.
pub fn check_interval(interval: u32, software: bool) -> (r: Result<(), StreamError>)
    ensures
        r is Ok <==> interval == if software {
            2_147_483_647int
        } else {
            1024int
        },
        r is Err ==> r->Err_0 == StreamError::BadInterval,
{
    if interval == crate::media::gop_frames(true, !software, 0) {
        Ok(())
    } else {
        Err(StreamError::BadInterval)
    }
}

// ---------------------------------------------------------------------------
// Laws
// ---------------------------------------------------------------------------

/// Every packet that is accepted is counted, and holds one to seven transport packets.
pub proof fn law_accepted_packets_are_counted(c: StreamCheck, data: Seq<u8>, lead_ms: int)
    requires
        has_room(c),
        after_rtp(c, data, lead_ms).result is Ok,
    ensures
        after_rtp(c, data, lead_ms).counts.packets == c.packets + 1,
        1 <= (data.len() - 12) / 188 <= 7,
        after_rtp(c, data, lead_ms).counts.full_packets == c.full_packets + if (data.len() - 12)
            / 188 == 7 {
            1int
        } else {
            0int
        },
{
    lemma_packets_kept(with_rtp(c, data), data, (data.len() - 12) / 188, lead_ms);
}

/// Transport packets do not change the count of RTP packets.
proof fn lemma_packets_kept(c: StreamCheck, data: Seq<u8>, k: int, lead_ms: int)
    ensures
        after_packets(c, data, k, lead_ms).counts.packets == c.packets,
        after_packets(c, data, k, lead_ms).counts.full_packets == c.full_packets,
    decreases k,
{
    if k > 0 {
        lemma_packets_kept(c, data, k - 1, lead_ms);
    }
}

/// A stream is accepted exactly where everything about it is right: full packets, pictures and
/// the sound that was asked for and no other, in the kinds of the profile, with a clock in front
/// of the pictures, more than half of the frames and, where a key frame was asked for, this one
/// and no more than the interval gives.
pub proof fn law_right_streams_are_accepted(c: StreamCheck, o: Observed)
    ensures
        verdict_of(c, o) is Ok <==> {
            &&& c.packets >= 1 && c.full_packets >= 1 && c.clock_lead_checks >= 1
            &&& c.video_pes >= 11
            &&& o.audio ==> c.audio_pes >= 11 && c.audio_type == Some(0x0fu8)
            &&& !o.audio ==> c.audio_pes == 0 && c.audio_type is None
            &&& o.profile == Profile::Hevc ==> c.video_type == Some(0x24u8)
            &&& o.profile == Profile::Baseline ==> c.video_type == Some(0x1bu8)
            &&& o.profile == Profile::Rhp2 ==> c.video_type == Some(0x1bu8)
            &&& o.frames > o.fps * o.seconds / 2
            &&& o.requested ==> 2 <= o.keys <= 2 + o.frames as int / o.interval as int
        },
{
}

/// A stream in which only the kind of the pictures is left to decide is accepted exactly with
/// H.264 for the two profiles of H.264, and exactly with HEVC for that of HEVC. What is refused
/// is the kind that was seen.
pub proof fn law_kinds_of_video(c: StreamCheck, o: Observed, kind: Option<u8>, profile: Profile)
    requires
        verdict_of(c, o) is Ok,
    ensures
        ({
            let verdict = verdict_of(
                StreamCheck { video_type: kind, ..c },
                Observed { profile, ..o },
            );
            &&& profile == Profile::Hevc ==> (verdict is Ok <==> kind == Some(0x24u8))
            &&& profile == Profile::Baseline ==> (verdict is Ok <==> kind == Some(0x1bu8))
            &&& profile == Profile::Rhp2 ==> (verdict is Ok <==> kind == Some(0x1bu8))
            &&& verdict is Err ==> verdict->Err_0 == StreamError::BadVideoType(kind)
        }),
{
}

/// What is wrong with a stream in one thing alone is what is said of it.
pub proof fn law_a_single_fault_is_named(c: StreamCheck, o: Observed, n: u32, kind: Option<u8>)
    requires
        verdict_of(c, o) is Ok,
    ensures
        verdict_of(StreamCheck { full_packets: 0, ..c }, o) == Err::<(), StreamError>(
            StreamError::NoFullPackets,
        ),
        verdict_of(StreamCheck { packets: 0, ..c }, o) == Err::<(), StreamError>(
            StreamError::TooFewFrames,
        ),
        verdict_of(StreamCheck { clock_lead_checks: 0, ..c }, o) == Err::<(), StreamError>(
            StreamError::NoLead,
        ),
        n <= 10 ==> verdict_of(StreamCheck { video_pes: n, ..c }, o) == Err::<(), StreamError>(
            StreamError::BadCounts,
        ),
        n > 10 ==> verdict_of(StreamCheck { video_pes: n, ..c }, o) is Ok,
        o.audio && n <= 10 ==> verdict_of(StreamCheck { audio_pes: n, ..c }, o) == Err::<
            (),
            StreamError,
        >(StreamError::BadCounts),
        o.audio && n > 10 ==> verdict_of(StreamCheck { audio_pes: n, ..c }, o) is Ok,
        !o.audio && n > 0 ==> verdict_of(StreamCheck { audio_pes: n, ..c }, o) == Err::<
            (),
            StreamError,
        >(StreamError::BadCounts),
        kind != c.audio_type ==> verdict_of(StreamCheck { audio_type: kind, ..c }, o) == Err::<
            (),
            StreamError,
        >(StreamError::BadAudioType(kind)),
        o.requested ==> verdict_of(c, Observed { keys: 1, ..o }) == Err::<(), StreamError>(
            StreamError::NoRecoveryFrame,
        ),
{
}

/// An RTP packet with a plain header whose transport packets are `a`.
pub open spec fn holds(data: Seq<u8>, a: Seq<u8>) -> bool {
    &&& data.len() == 12 + a.len()
    &&& data[0] == 0x80
    &&& data[1] == 33 || data[1] == 161
    &&& data.skip(12) == a
}

/// The packets in the front of a packet.
proof fn lemma_front(c: StreamCheck, whole: Seq<u8>, front: Seq<u8>, a: Seq<u8>, b: Seq<u8>, k: int, lead_ms: int)
    requires
        holds(whole, a + b),
        holds(front, a),
        0 <= k,
        k * 188 <= a.len(),
    ensures
        after_packets(c, whole, k, lead_ms) == after_packets(c, front, k, lead_ms),
    decreases k,
{
    if k > 0 {
        lemma_front(c, whole, front, a, b, k - 1, lead_ms);
        assert(ts_at(whole, k - 1) =~= (a + b).subrange((k - 1) * 188, k * 188)) by {
            assert(whole.skip(12) =~= a + b);
            assert forall|i: int| 0 <= i < 188 implies ts_at(whole, k - 1)[i] == #[trigger] (a
                + b).subrange((k - 1) * 188, k * 188)[i] by {
                assert(whole.skip(12)[(k - 1) * 188 + i] == whole[12 + (k - 1) * 188 + i]);
            }
        }
        assert(ts_at(front, k - 1) =~= a.subrange((k - 1) * 188, k * 188)) by {
            assert forall|i: int| 0 <= i < 188 implies ts_at(front, k - 1)[i] == #[trigger] a.subrange(
                (k - 1) * 188,
                k * 188,
            )[i] by {
                assert(front.skip(12)[(k - 1) * 188 + i] == front[12 + (k - 1) * 188 + i]);
            }
        }
        assert((a + b).subrange((k - 1) * 188, k * 188) =~= a.subrange((k - 1) * 188, k * 188));
    }
}

/// The packets in the back of a packet.
proof fn lemma_back(
    c: StreamCheck,
    whole: Seq<u8>,
    back: Seq<u8>,
    a: Seq<u8>,
    b: Seq<u8>,
    m: int,
    k: int,
    lead_ms: int,
)
    requires
        holds(whole, a + b),
        holds(back, b),
        a.len() == m * 188,
        m >= 0,
        0 <= k,
        k * 188 <= b.len(),
        after_packets(c, whole, m, lead_ms).result is Ok,
    ensures
        after_packets(c, whole, m + k, lead_ms) == after_packets(
            after_packets(c, whole, m, lead_ms).counts,
            back,
            k,
            lead_ms,
        ),
    decreases k,
{
    if k > 0 {
        lemma_back(c, whole, back, a, b, m, k - 1, lead_ms);
        assert(ts_at(whole, m + k - 1) =~= ts_at(back, k - 1)) by {
            assert forall|i: int| 0 <= i < 188 implies #[trigger] ts_at(whole, m + k - 1)[i]
                == ts_at(back, k - 1)[i] by {
                assert(whole.skip(12)[(m + k - 1) * 188 + i] == (a + b)[(m + k - 1) * 188 + i]);
                assert(back.skip(12)[(k - 1) * 188 + i] == b[(k - 1) * 188 + i]);
            }
        }
    } else {
        let before = after_packets(c, whole, m, lead_ms);
        assert(before == (Taken { counts: before.counts, result: Ok::<(), StreamError>(()) }));
    }
}

/// Every transport packet of an RTP packet is looked at: one RTP packet with the transport
/// packets of two counts what the two count one after the other, but for the RTP packets.
pub proof fn law_transport_packets_are_counted_one_by_one(
    c: StreamCheck,
    whole: Seq<u8>,
    front: Seq<u8>,
    a: Seq<u8>,
    back: Seq<u8>,
    b: Seq<u8>,
    lead_ms: int,
)
    requires
        has_room(c),
        holds(whole, a + b),
        holds(front, a),
        holds(back, b),
        a.len() % 188 == 0,
        b.len() % 188 == 0,
        a.len() >= 188,
        b.len() >= 188,
        a.len() + b.len() <= 1316,
    ensures
        ({
            let first = after_rtp(c, front, lead_ms);
            let second = after_rtp(first.counts, back, lead_ms);
            let both = after_rtp(c, whole, lead_ms);
            &&& both.result is Ok <==> first.result is Ok && second.result is Ok
            &&& first.result is Err ==> both.result == first.result
            &&& first.result is Ok ==> both.result == second.result
            &&& both.result is Ok ==> {
                &&& both.counts.video_pes == second.counts.video_pes
                &&& both.counts.audio_pes == second.counts.audio_pes
                &&& both.counts.clock_lead_checks == second.counts.clock_lead_checks
                &&& both.counts.video_type == second.counts.video_type
                &&& both.counts.audio_type == second.counts.audio_type
            }
        }),
{
    let m = a.len() as int / 188;
    let k = b.len() as int / 188;
    let counted = with_rtp(c, whole);
    let one = with_rtp(c, front);
    let first = after_packets(one, front, m, lead_ms);
    assert((whole.len() - 12) / 188 == m + k && (whole.len() - 12) % 188 == 0);
    assert((front.len() - 12) / 188 == m && (back.len() - 12) / 188 == k);
    lemma_front(counted, whole, front, a, b, m, lead_ms);
    lemma_same_counts(counted, one, front, m, lead_ms);
    let before = after_packets(counted, whole, m, lead_ms);
    if before.result is Ok {
        lemma_back(counted, whole, back, a, b, m, k, lead_ms);
        lemma_same_counts(before.counts, with_rtp(first.counts, back), back, k, lead_ms);
    } else {
        lemma_first_wrong(counted, whole, m, m + k, lead_ms);
    }
}

/// What transport packets lead to does not depend on the RTP packets that came before.
proof fn lemma_same_counts(c: StreamCheck, d: StreamCheck, data: Seq<u8>, k: int, lead_ms: int)
    requires
        c.video_pes == d.video_pes,
        c.audio_pes == d.audio_pes,
        c.clock_lead_checks == d.clock_lead_checks,
        c.video_type == d.video_type,
        c.audio_type == d.audio_type,
    ensures
        ({
            let x = after_packets(c, data, k, lead_ms);
            let y = after_packets(d, data, k, lead_ms);
            &&& x.result == y.result
            &&& x.counts.video_pes == y.counts.video_pes
            &&& x.counts.audio_pes == y.counts.audio_pes
            &&& x.counts.clock_lead_checks == y.counts.clock_lead_checks
            &&& x.counts.video_type == y.counts.video_type
            &&& x.counts.audio_type == y.counts.audio_type
        }),
    decreases k,
{
    if k > 0 {
        lemma_same_counts(c, d, data, k - 1, lead_ms);
    }
}

/// What an RTP packet with one transport packet leads to.
proof fn lemma_single(c: StreamCheck, data: Seq<u8>, ts: Seq<u8>, lead_ms: int)
    requires
        ts.len() == 188,
        holds(data, ts),
    ensures
        after_rtp(c, data, lead_ms) == after_ts(
            StreamCheck { packets: (c.packets + 1) as u32, ..c },
            ts,
            lead_ms,
        ),
{
    assert(ts_at(data, 0) =~= data.skip(12));
    assert((data.len() - 12) / 188 == 1);
    assert(after_packets(with_rtp(c, data), data, 0, lead_ms) == (Taken {
        counts: with_rtp(c, data),
        result: Ok::<(), StreamError>(()),
    }));
    assert(after_packets(with_rtp(c, data), data, 1, lead_ms) == after_ts(
        with_rtp(c, data),
        ts_at(data, 0),
        lead_ms,
    ));
}

/// A transport packet needs its sync byte, and counts for nothing where nothing starts in it:
/// without the start flag, without a payload, or with an adaptation field that fills it.
pub proof fn law_packets_without_a_start_count_for_nothing(
    c: StreamCheck,
    data: Seq<u8>,
    ts: Seq<u8>,
    lead_ms: int,
)
    requires
        has_room(c),
        ts.len() == 188,
        holds(data, ts),
    ensures
        ({
            let taken = after_rtp(c, data, lead_ms);
            let counted = StreamCheck { packets: (c.packets + 1) as u32, ..c };
            &&& ts[0] != 0x47 ==> taken.result == Err::<(), StreamError>(StreamError::BadSync)
                && taken.counts == counted
            &&& ts[0] == 0x47 && (ts[1] as int / 64 % 2 == 0 || ts[3] as int / 16 % 2 == 0 || (ts[3] as int
                / 32 % 2 == 1 && ts[4] >= 183)) ==> taken.result is Ok && taken.counts == counted
        }),
{
    lemma_single(c, data, ts, lead_ms);
}

/// The start of a picture or of sound, `at` bytes into a transport packet, is counted: as a
/// picture on packet identifier 0x1011, as sound on 0x1100, else as neither. Its timestamp is
/// held against the clock reference of the packet, if both are there: it has to be the lead
/// behind it, 90 ticks for every millisecond, modulo 33 bits.
pub proof fn law_starts_are_counted_and_lead(
    c: StreamCheck,
    data: Seq<u8>,
    ts: Seq<u8>,
    at: int,
    pts: int,
    base: int,
    lead_ms: int,
)
    requires
        has_room(c),
        ts.len() == 188,
        holds(data, ts),
        ts[0] == 0x47,
        ts[1] as int / 64 % 2 == 1,
        ts[3] as int / 16 % 2 == 1,
        at == if ts[3] as int / 32 % 2 == 1 {
            5 + ts[4]
        } else {
            4int
        },
        at + 14 <= 188,
        ts[at] == 0 && ts[at + 1] == 0 && ts[at + 2] == 1,
        0 <= pts < 8_589_934_592,
        ts[at + 9] as int % 16 == pts / 1_073_741_824 * 2 + 1,
        ts[at + 10] == pts / 4_194_304 % 256,
        ts[at + 11] == pts / 32_768 % 128 * 2 + 1,
        ts[at + 12] == pts / 128 % 256,
        ts[at + 13] == pts % 128 * 2 + 1,
        0 <= base < 8_589_934_592,
        ts[3] as int / 32 % 2 == 1 && ts[4] >= 7 ==> {
            &&& ts[6] == base / 33_554_432
            &&& ts[7] == base / 131_072 % 256
            &&& ts[8] == base / 512 % 256
            &&& ts[9] == base / 2 % 256
            &&& ts[10] as int / 128 == base % 2
        },
    ensures
        ({
            let taken = after_rtp(c, data, lead_ms);
            let video = (ts[1] == 0x50 || ts[1] == 0x70 || ts[1] == 0xd0 || ts[1] == 0xf0) && ts[2]
                == 0x11;
            let audio = (ts[1] == 0x51 || ts[1] == 0x71 || ts[1] == 0xd1 || ts[1] == 0xf1) && ts[2]
                == 0;
            let clocked = ts[3] as int / 32 % 2 == 1 && ts[4] >= 7 && ts[5] as int / 16 % 2 == 1;
            let timed = ts[at + 7] >= 128;
            let checked = (video || audio) && clocked && timed;
            &&& taken.result is Ok <==> (checked ==> (pts - base) % 8_589_934_592 == lead_ms * 90)
            &&& taken.result is Err ==> taken.result->Err_0 == StreamError::BadLead(
                ((pts - base) % 8_589_934_592) as u64,
            )
            &&& taken.result is Ok ==> taken.counts == (StreamCheck {
                packets: (c.packets + 1) as u32,
                video_pes: (c.video_pes + if video {
                    1int
                } else {
                    0
                }) as u32,
                audio_pes: (c.audio_pes + if audio {
                    1int
                } else {
                    0
                }) as u32,
                clock_lead_checks: (c.clock_lead_checks + if checked {
                    1int
                } else {
                    0
                }) as u32,
                ..c
            })
        }),
{
    lemma_single(c, data, ts, lead_ms);
    let payload = ts.skip(at);
    assert(payload_offset(ts) == at);
    assert(payload[0] == ts[at] && payload[1] == ts[at + 1] && payload[2] == ts[at + 2] && payload[7]
        == ts[at + 7]);
    let front = ts[at + 9] as int / 16;
    measure::law_timestamp_reads_back(pts, front);
    assert((front * 16 + (pts / 1_073_741_824) * 2 + 1) as u8 == ts[at + 9]);
    assert(payload.subrange(9, 14) =~= seq![
        (front * 16 + (pts / 1_073_741_824) * 2 + 1) as u8,
        (pts / 4_194_304 % 256) as u8,
        (pts / 32_768 % 128 * 2 + 1) as u8,
        (pts / 128 % 256) as u8,
        (pts % 128 * 2 + 1) as u8,
    ]);
    if ts[3] as int / 32 % 2 == 1 && ts[4] >= 7 {
        lemma_base(ts, base);
    }
    let pid = pid_of(ts[1], ts[2]);
    assert(pid == 4113 <==> ts[1] as int % 32 == 16 && ts[2] == 17);
    assert(pid == 4352 <==> ts[1] as int % 32 == 17 && ts[2] == 0);
    assert(!is_program_map(ts, payload)) by {
        assert(program_map(payload)[0] == payload[1]);
    }
}

/// The clock reference reads back.
proof fn lemma_base(ts: Seq<u8>, base: int)
    requires
        0 <= base < 8_589_934_592,
        ts[6] == base / 33_554_432,
        ts[7] == base / 131_072 % 256,
        ts[8] == base / 512 % 256,
        ts[9] == base / 2 % 256,
        ts[10] as int / 128 == base % 2,
    ensures
        transport_clock::pcr_base(ts) == base,
{
    let a = base / 2;
    let b = a / 256;
    let c = b / 256;
    assert(a / 256 == base / 512);
    assert(b / 256 == base / 131_072);
    assert(c / 256 == base / 33_554_432);
    assert(a == b * 256 + a % 256);
    assert(b == c * 256 + b % 256);
    assert(c == (c / 256) * 256 + c % 256);
}

/// A stream in a program map: its kind, its packet identifier and its descriptors.
pub ghost struct StreamEntry {
    pub kind: u8,
    pub pid: int,
    pub descriptors: Seq<u8>,
}

/// Whether the numbers of a stream fit their bits.
pub open spec fn fits(e: StreamEntry) -> bool {
    0 <= e.pid < 8192 && e.descriptors.len() < 4096
}

/// Streams as a program map writes them.
pub open spec fn written(entries: Seq<StreamEntry>) -> Seq<u8>
    decreases entries.len(),
{
    if entries.len() == 0 {
        Seq::empty()
    } else {
        let e = entries[0];
        let n = e.descriptors.len() as int;
        seq![
            e.kind,
            (224 + e.pid / 256) as u8,
            (e.pid % 256) as u8,
            (240 + n / 256) as u8,
            (n % 256) as u8,
        ] + e.descriptors + written(entries.drop_first())
    }
}

/// The kind of the last stream with the identifier, if there is one, else `before`.
spec fn last_kind(entries: Seq<StreamEntry>, pid: int, before: Option<u8>) -> Option<u8>
    decreases entries.len(),
{
    if entries.len() == 0 {
        before
    } else {
        last_kind(
            entries.drop_first(),
            pid,
            if entries[0].pid == pid {
                Some(entries[0].kind)
            } else {
                before
            },
        )
    }
}

/// The last kind is that of the last stream.
proof fn lemma_last_kind(entries: Seq<StreamEntry>, pid: int, before: Option<u8>)
    ensures
        forall|i: int|
            0 <= i < entries.len() && (#[trigger] entries[i]).pid == pid && (forall|j: int|
                i < j < entries.len() ==> (#[trigger] entries[j]).pid != pid) ==> last_kind(
                entries,
                pid,
                before,
            ) == Some(entries[i].kind),
        (forall|j: int| 0 <= j < entries.len() ==> (#[trigger] entries[j]).pid != pid) ==> last_kind(
            entries,
            pid,
            before,
        ) == before,
    decreases entries.len(),
{
    if entries.len() > 0 {
        let rest = entries.drop_first();
        let next = if entries[0].pid == pid {
            Some(entries[0].kind)
        } else {
            before
        };
        lemma_last_kind(rest, pid, next);
        assert(forall|j: int| 0 <= j < rest.len() ==> #[trigger] rest[j] == entries[j + 1]);
        assert forall|i: int|
            0 <= i < entries.len() && (#[trigger] entries[i]).pid == pid && (forall|j: int|
                i < j < entries.len() ==> (#[trigger] entries[j]).pid != pid) implies last_kind(
            entries,
            pid,
            before,
        ) == Some(entries[i].kind) by {
            if i > 0 {
                assert(rest[i - 1] == entries[i]);
            }
        }
        if forall|j: int| 0 <= j < entries.len() ==> (#[trigger] entries[j]).pid != pid {
            assert(entries[0].pid != pid);
        }
    }
}

/// Streams that are written are read.
proof fn lemma_written(
    pmt: Seq<u8>,
    offset: int,
    entries: Seq<StreamEntry>,
    types: (Option<u8>, Option<u8>),
)
    requires
        0 <= offset,
        streams_end(pmt) == offset + written(entries).len(),
        streams_end(pmt) <= pmt.len(),
        pmt.subrange(offset, streams_end(pmt)) == written(entries),
        forall|i: int| 0 <= i < entries.len() ==> fits(#[trigger] entries[i]),
    ensures
        stream_types(pmt, offset, types) == (
            last_kind(entries, 4113, types.0),
            last_kind(entries, 4352, types.1),
        ),
    decreases entries.len(),
{
    let bytes = written(entries);
    if entries.len() > 0 {
        let e = entries[0];
        let n = e.descriptors.len() as int;
        let rest = entries.drop_first();
        assert(fits(e));
        assert forall|i: int| 0 <= i < rest.len() implies fits(#[trigger] rest[i]) by {
            assert(fits(entries[i + 1]));
        }
        assert forall|i: int| 0 <= i < 5 implies #[trigger] pmt[offset + i] == bytes[i] by {
            assert(pmt.subrange(offset, streams_end(pmt))[i] == bytes[i]);
        }
        assert(pmt[offset + 0] == e.kind);
        assert(pmt[offset + 1] == bytes[1] && pmt[offset + 2] == bytes[2] && pmt[offset + 3]
            == bytes[3] && pmt[offset + 4] == bytes[4]);
        assert(pid_of(bytes[1], bytes[2]) == e.pid);
        assert(length_of(bytes[3], bytes[4]) == n);
        let next = offset + 5 + n;
        assert(bytes.skip(5 + n) =~= written(rest));
        assert(pmt.subrange(next, streams_end(pmt)) =~= pmt.subrange(
            offset,
            streams_end(pmt),
        ).skip(5 + n));
        let found = (
            if e.pid == 4113 {
                Some(e.kind)
            } else {
                types.0
            },
            if e.pid == 4352 {
                Some(e.kind)
            } else {
                types.1
            },
        );
        lemma_written(pmt, next, rest, found);
    }
}

/// The kinds of the streams are read from the program map, which comes on packet identifier
/// 0x20: that of the pictures from the last stream with identifier 0x1011, that of the sound from
/// the last with 0x1100, whatever other streams and descriptors are there. Where the map has no
/// such stream, what was known stays.
pub proof fn law_program_maps_give_the_kinds(
    c: StreamCheck,
    data: Seq<u8>,
    ts: Seq<u8>,
    at: int,
    info: int,
    entries: Seq<StreamEntry>,
    lead_ms: int,
)
    requires
        has_room(c),
        ts.len() == 188,
        holds(data, ts),
        ts[0] == 0x47,
        ts[1] == 0x40 || ts[1] == 0x60,
        ts[2] == 0x20,
        0x10 <= ts[3] <= 0x1f,
        // The table stands behind the pointer.
        at == 5 + ts[4],
        0 <= info < 4096,
        forall|i: int| 0 <= i < entries.len() ==> fits(#[trigger] entries[i]),
        ({
            let streams = written(entries);
            let length = 9 + info + streams.len() + 4;
            &&& at + 12 + info + streams.len() <= 188
            &&& ts[at] == 2
            &&& ts[at + 1] as int % 16 == length / 256
            &&& ts[at + 2] == length % 256
            &&& ts[at + 10] as int % 16 == info / 256
            &&& ts[at + 11] == info % 256
            &&& ts.subrange(at + 12 + info, at + 12 + info + streams.len()) == streams
        }),
    ensures
        ({
            let taken = after_rtp(c, data, lead_ms);
            &&& taken.result is Ok
            &&& forall|i: int|
                0 <= i < entries.len() && (#[trigger] entries[i]).pid == 0x1011 && (forall|j: int|
                    i < j < entries.len() ==> (#[trigger] entries[j]).pid != 0x1011)
                    ==> taken.counts.video_type == Some(entries[i].kind)
            &&& forall|i: int|
                0 <= i < entries.len() && (#[trigger] entries[i]).pid == 0x1100 && (forall|j: int|
                    i < j < entries.len() ==> (#[trigger] entries[j]).pid != 0x1100)
                    ==> taken.counts.audio_type == Some(entries[i].kind)
            &&& (forall|j: int| 0 <= j < entries.len() ==> (#[trigger] entries[j]).pid != 0x1011)
                ==> taken.counts.video_type == c.video_type
            &&& (forall|j: int| 0 <= j < entries.len() ==> (#[trigger] entries[j]).pid != 0x1100)
                ==> taken.counts.audio_type == c.audio_type
            &&& taken.counts == (StreamCheck {
                packets: (c.packets + 1) as u32,
                video_type: taken.counts.video_type,
                audio_type: taken.counts.audio_type,
                ..c
            })
        }),
{
    lemma_single(c, data, ts, lead_ms);
    let streams = written(entries);
    let payload = ts.skip(4);
    assert(payload_offset(ts) == 4);
    let pmt = program_map(payload);
    assert(pmt =~= ts.skip(at));
    assert(pmt[0] == ts[at] && pmt[1] == ts[at + 1] && pmt[2] == ts[at + 2] && pmt[10] == ts[at + 10]
        && pmt[11] == ts[at + 11]);
    assert(length_of(pmt[1], pmt[2]) == 9 + info + streams.len() + 4);
    assert(length_of(pmt[10], pmt[11]) == info);
    assert(payload[0] == ts[4] && payload[1] == ts[5] && payload[2] == ts[6]);
    assert(streams_end(pmt) == 12 + info + streams.len());
    assert(pmt.subrange(12 + info, streams_end(pmt)) =~= ts.subrange(
        at + 12 + info,
        at + 12 + info + streams.len(),
    ));
    lemma_written(pmt, 12 + info, entries, (c.video_type, c.audio_type));
    lemma_last_kind(entries, 4113, c.video_type);
    lemma_last_kind(entries, 4352, c.audio_type);
}

/// An RTP packet is refused that is shorter than one transport packet or longer than seven, of
/// another payload type, or without a plain header and whole transport packets. The last is
/// counted all the same.
pub proof fn law_other_packets_are_refused(c: StreamCheck, data: Seq<u8>, lead_ms: int)
    requires
        has_room(c),
        data.len() >= 2,
    ensures
        ({
            let taken = after_rtp(c, data, lead_ms);
            let small = data.len() < 12 + 188;
            let large = data.len() > 12 + 7 * 188;
            let other = data[1] != 33 && data[1] != 161;
            let n = data.len();
            let plain = data[0] == 0x80 && (n == 200 || n == 388 || n == 576 || n == 764 || n == 952
                || n == 1140 || n == 1328);
            &&& small || large || other ==> taken.result == Err::<(), StreamError>(
                StreamError::BadGrouping,
            ) && taken.counts == c
            &&& !small && !large && !other && !plain ==> taken.result == Err::<(), StreamError>(
                StreamError::BadPacket,
            ) && taken.counts.packets == c.packets + 1
            &&& !small && !large && !other && plain ==> taken.result != Err::<(), StreamError>(
                StreamError::BadGrouping,
            ) && taken.result != Err::<(), StreamError>(StreamError::BadPacket)
        }),
{
    if is_grouped(data) {
        if is_whole(data) {
            lemma_packet_errors(with_rtp(c, data), data, (data.len() - 12) / 188, lead_ms);
        }
    }
}

/// Transport packets lead to no error of the RTP packet.
proof fn lemma_packet_errors(c: StreamCheck, data: Seq<u8>, k: int, lead_ms: int)
    ensures
        after_packets(c, data, k, lead_ms).result != Err::<(), StreamError>(
            StreamError::BadGrouping,
        ),
        after_packets(c, data, k, lead_ms).result != Err::<(), StreamError>(StreamError::BadPacket),
    decreases k,
{
    if k > 0 {
        lemma_packet_errors(c, data, k - 1, lead_ms);
    }
}

} // verus!
