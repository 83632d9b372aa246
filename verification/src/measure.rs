//! Timestamps of the video that leaves the machine, read from captured packets. No payload
//! is kept.
use std::collections::HashSet;
use vstd::prelude::*;

verus! {

/// The port of the receiver.
pub const DESTINATION_PORT: u16 = 53000;

/// The packet identifier of the video.
pub const VIDEO_PID: u16 = 4113;

/// Timestamps count modulo this many ticks of 90 kHz.
pub const PTS_MODULUS: u64 = 8_589_934_592;

/// Why there is no summary.
#[derive(Clone, Copy, Debug, PartialEq, Eq, Structural)]
pub enum MeasureError {
    /// A duration outside of one minute.
    InvalidDuration,
    /// Fewer than two frames.
    NotEnoughFrames,
    /// No time between the first and the last frame.
    NoElapsedTime,
}

impl MeasureError {
    /// The message shown to the user.
    pub fn text(self) -> (r: &'static str)
        ensures
            r@ == self.message(),
    {
        match self {
            MeasureError::InvalidDuration => "Measurement duration must be 1..60 seconds",
            MeasureError::NotEnoughFrames => {
                "Not enough outgoing video PES timestamps; check interface and negotiated UDP port"
            },
            MeasureError::NoElapsedTime => "Not enough elapsed time between video frames",
        }
    }

    /// The text of each error.
    pub open spec fn message(self) -> Seq<char> {
        match self {
            MeasureError::InvalidDuration => "Measurement duration must be 1..60 seconds"@,
            MeasureError::NotEnoughFrames => {
                "Not enough outgoing video PES timestamps; check interface and negotiated UDP port"@
            },
            MeasureError::NoElapsedTime => "Not enough elapsed time between video frames"@,
        }
    }
}

// ---------------------------------------------------------------------------
// Packets
// ---------------------------------------------------------------------------

/// A number of two bytes.
pub open spec fn two_bytes(high: u8, low: u8) -> int {
    high * 256 + low
}

/// The 33-bit timestamp in the five bytes that write it.
pub open spec fn timestamp(p: Seq<u8>) -> int {
    (p[0] as int / 2 % 8) * 1_073_741_824 + p[1] * 4_194_304 + (p[2] as int / 2) * 32_768 + p[3]
        * 128 + p[4] as int / 2
}

/// The 33-bit timestamp in the five bytes from `at`.
pub fn timestamp_at(data: &[u8], at: usize) -> (r: u64)
    requires
        at + 5 <= data@.len(),
    ensures
        r == timestamp(data@.subrange(at as int, at + 5)),
        r < 8_589_934_592,
{
    (data[at] as u64 / 2 % 8) * 1_073_741_824 + data[at + 1] as u64 * 4_194_304 + (data[at
        + 2] as u64 / 2) * 32_768 + data[at + 3] as u64 * 128 + data[at + 4] as u64 / 2
}

/// The RTP packet in an Ethernet frame to the receiver, 192.168.49.1.
pub open spec fn rtp_packet(frame: Seq<u8>) -> Option<Seq<u8>> {
    let ip = frame.skip(14);
    let header = (ip[0] as int % 16) * 4;
    let total = two_bytes(ip[2], ip[3]);
    let udp = ip.subrange(header, total);
    let length = two_bytes(udp[4], udp[5]);
    if frame.len() < 42 || frame[12] != 8 || frame[13] != 0 {
        None
    } else if ip[0] as int / 16 != 4 || header < 20 || total < header + 8 || total > ip.len() || ip[9]
        != 17 || ip[16] != 192 || ip[17] != 168 || ip[18] != 49 || ip[19] != 1 || two_bytes(
        ip[6],
        ip[7],
    ) % 16_384 != 0 {
        // A fragment cannot be read by itself.
        None
    } else if two_bytes(udp[2], udp[3]) != DESTINATION_PORT || length < 20 || length > udp.len() {
        None
    } else {
        Some(udp.subrange(8, length))
    }
}

/// Where the payload of an RTP packet starts, behind the sources and the extension.
pub open spec fn payload_start(rtp: Seq<u8>) -> int {
    let sources = 12 + 4 * (rtp[0] as int % 16);
    if rtp[0] as int / 16 % 2 == 1 {
        sources + 4 + 4 * two_bytes(rtp[sources + 2], rtp[sources + 3])
    } else {
        sources
    }
}

/// Where the payload of an RTP packet ends, before the padding.
pub open spec fn payload_end(rtp: Seq<u8>) -> int {
    if rtp[0] as int / 32 % 2 == 1 {
        rtp.len() - rtp.last()
    } else {
        rtp.len() as int
    }
}

/// The transport packets in an RTP packet.
pub open spec fn transport_packets(rtp: Seq<u8>) -> Option<Seq<u8>> {
    let sources = 12 + 4 * (rtp[0] as int % 16);
    let extended = rtp[0] as int / 16 % 2 == 1;
    let padded = rtp[0] as int / 32 % 2 == 1;
    if rtp[0] as int / 64 != 2 || rtp[1] as int % 128 != 33 {
        None
    } else if sources > rtp.len() || (extended && sources + 4 > rtp.len()) {
        None
    } else if padded && (rtp.last() == 0 || rtp.last() > rtp.len()) {
        None
    } else if payload_start(rtp) > payload_end(rtp) {
        None
    } else {
        Some(rtp.subrange(payload_start(rtp), payload_end(rtp)))
    }
}

/// Where the payload of a transport packet starts, if it has one.
pub open spec fn payload_position(ts: Seq<u8>) -> Option<int> {
    let control = ts[3] as int / 16 % 4;
    if control == 1 {
        Some(4)
    } else if control == 3 {
        Some(5 + ts[4])
    } else {
        None
    }
}

/// The timestamp of the video frame that starts in a transport packet.
pub open spec fn frame_timestamp(ts: Seq<u8>) -> Option<int> {
    let position = payload_position(ts);
    let pes = ts.skip(position->Some_0);
    if ts[0] != 0x47 || ts[1] as int / 64 != 1 || ts[3] as int / 64 != 0 || two_bytes(
        (ts[1] % 32) as u8,
        ts[2],
    ) != VIDEO_PID {
        None
    } else if position is None || position->Some_0 + 14 > ts.len() {
        None
    } else if pes[0] != 0 || pes[1] != 0 || pes[2] != 1 || pes[3] as int / 16 != 14 || pes[6] as int
        / 64 != 2 || pes[7] as int / 128 == 0 || pes[8] < 5 {
        None
    } else if !(pes[9] as int / 16 == 2 || pes[9] as int / 16 == 3) || pes[9] as int % 2 == 0
        || pes[11] as int % 2 == 0 || pes[13] as int % 2 == 0 {
        None
    } else {
        Some(timestamp(pes.subrange(9, 14)))
    }
}

/// The timestamps of the first `n` transport packets.
pub open spec fn frame_timestamps(packets: Seq<u8>, n: int) -> Seq<int>
    decreases n,
{
    if n <= 0 {
        Seq::empty()
    } else {
        let before = frame_timestamps(packets, n - 1);
        match frame_timestamp(packets.subrange((n - 1) * 188, n * 188)) {
            Some(pts) => before.push(pts),
            None => before,
        }
    }
}

/// The timestamps of the video frames that start in an Ethernet frame.
pub open spec fn captured_timestamps(frame: Seq<u8>) -> Seq<int> {
    match rtp_packet(frame) {
        None => Seq::empty(),
        Some(rtp) => match transport_packets(rtp) {
            None => Seq::empty(),
            Some(packets) => frame_timestamps(packets, packets.len() as int / 188),
        },
    }
}

/// A number of two bytes.
fn pair_at(data: &[u8], at: usize) -> (r: usize)
    requires
        at + 2 <= data@.len(),
    ensures
        r == two_bytes(data@[at as int], data@[at + 1]),
        r <= 65535,
{
    data[at] as usize * 256 + data[at + 1] as usize
}

/// The RTP packet in an Ethernet frame to the receiver.
fn find_rtp(frame: &[u8]) -> (r: Option<&[u8]>)
    ensures
        match rtp_packet(frame@) {
            Some(rtp) => r is Some && r->Some_0@ == rtp && rtp.len() >= 12,
            None => r is None,
        },
{
    if frame.len() < 42 || frame[12] != 8 || frame[13] != 0 {
        return None;
    }
    let ip = &frame[14..frame.len()];
    proof {
        assert(ip@ =~= frame@.skip(14));
    }
    let header: usize = (ip[0] % 16) as usize * 4;
    let total: usize = pair_at(ip, 2);
    if ip[0] / 16 != 4 || header < 20 || total < header + 8 || total > ip.len() || ip[9] != 17
        || ip[16] != 192 || ip[17] != 168 || ip[18] != 49 || ip[19] != 1 || pair_at(ip, 6) % 16_384
        != 0 {
        return None;
    }
    let udp = &ip[header..total];
    let length: usize = pair_at(udp, 4);
    if pair_at(udp, 2) != DESTINATION_PORT as usize || length < 20 || length > udp.len() {
        return None;
    }
    Some(&udp[8..length])
}

/// The transport packets in an RTP packet.
fn find_packets(rtp: &[u8]) -> (r: Option<&[u8]>)
    requires
        rtp@.len() >= 12,
    ensures
        match transport_packets(rtp@) {
            Some(packets) => r is Some && r->Some_0@ == packets,
            None => r is None,
        },
{
    if rtp[0] / 64 != 2 || rtp[1] % 128 != 33 {
        return None;
    }
    let mut start: usize = 12 + 4 * (rtp[0] % 16) as usize;
    if start > rtp.len() {
        return None;
    }
    if rtp[0] / 16 % 2 == 1 {
        if rtp.len() - start < 4 {
            return None;
        }
        start = start + 4 + 4 * pair_at(rtp, start + 2);
    }
    let mut end: usize = rtp.len();
    if rtp[0] / 32 % 2 == 1 {
        let padding: usize = rtp[rtp.len() - 1] as usize;
        if padding == 0 || padding > rtp.len() {
            return None;
        }
        end = rtp.len() - padding;
    }
    if start > end {
        return None;
    }
    Some(&rtp[start..end])
}

/// The timestamp of the video frame that starts in a transport packet.
fn read_timestamp(ts: &[u8]) -> (r: Option<u64>)
    requires
        ts@.len() == 188,
    ensures
        match frame_timestamp(ts@) {
            Some(pts) => r is Some && r->Some_0 == pts,
            None => r is None,
        },
{
    if ts[0] != 0x47 || ts[1] / 64 != 1 || ts[3] / 64 != 0 || (ts[1] % 32) as usize * 256
        + ts[2] as usize != VIDEO_PID as usize {
        return None;
    }
    let control: u8 = ts[3] / 16 % 4;
    let position: usize = if control == 1 {
        4
    } else if control == 3 {
        5 + ts[4] as usize
    } else {
        return None;
    };
    if position + 14 > ts.len() {
        return None;
    }
    let pes = &ts[position..ts.len()];
    proof {
        assert(pes@ =~= ts@.skip(position as int));
    }
    if pes[0] != 0 || pes[1] != 0 || pes[2] != 1 || pes[3] / 16 != 14 || pes[6] / 64 != 2 || pes[7]
        / 128 == 0 || pes[8] < 5 {
        return None;
    }
    if !(pes[9] / 16 == 2 || pes[9] / 16 == 3) || pes[9] % 2 == 0 || pes[11] % 2 == 0 || pes[13] % 2
        == 0 {
        return None;
    }
    Some(timestamp_at(pes, 9))
}

/// Numbers as integers.
pub open spec fn values(v: Seq<u64>) -> Seq<int> {
    Seq::new(v.len(), |i: int| v[i] as int)
}

/// The timestamps of the video frames that start in an Ethernet frame.
pub fn video_pts(frame: &[u8]) -> (r: Vec<u64>)
    ensures
        values(r@) == captured_timestamps(frame@),
{
    let mut found: Vec<u64> = Vec::new();
    let rtp = match find_rtp(frame) {
        None => {
            proof {
                assert(values(found@) =~= Seq::<int>::empty());
            }
            return found;
        },
        Some(rtp) => rtp,
    };
    let packets = match find_packets(rtp) {
        None => {
            proof {
                assert(values(found@) =~= Seq::<int>::empty());
            }
            return found;
        },
        Some(packets) => packets,
    };
    let size: usize = packets.len();
    let count: usize = size / 188;
    let mut i: usize = 0;
    proof {
        assert(values(found@) =~= Seq::<int>::empty());
    }
    while i < count
        invariant
            i <= count,
            size == packets@.len(),
            count == size / 188,
            values(found@) == frame_timestamps(packets@, i as int),
        decreases count - i,
    {
        let ghost before = found@;
        match read_timestamp(&packets[i * 188..i * 188 + 188]) {
            Some(pts) => {
                found.push(pts);
                proof {
                    assert(values(found@) =~= values(before).push(pts as int));
                }
            },
            None => {},
        }
        i = i + 1;
    }
    found
}

// ---------------------------------------------------------------------------
// Statistics
// ---------------------------------------------------------------------------

/// What was seen of a video: its timestamps, and the first and the last new one with the
/// time at which it came, in nanoseconds.
pub struct Statistics {
    pub seen: HashSet<u64>,
    pub first: Option<(u64, u64)>,
    pub last: Option<(u64, u64)>,
}

/// Frames, the time between the first and the last of them, and the ticks between their
/// timestamps.
#[derive(Clone, Copy, Debug, PartialEq, Eq, Structural)]
pub struct Summary {
    pub frames: usize,
    pub wall_ns: u64,
    pub span: u64,
}

impl Default for Statistics {
    fn default() -> (r: Statistics)
        ensures
            r.seen@ == Set::<u64>::empty(),
            r.first is None,
            r.last is None,
            r.wf(),
    {
        Statistics { seen: HashSet::new(), first: None, last: None }
    }
}

/// The ticks from one timestamp to another, which may have wrapped.
pub open spec fn ticks_between(first: u64, last: u64) -> int {
    (last - first) % 8_589_934_592
}

impl Statistics {
    /// The first and the last frame are there as soon as one was seen.
    pub open spec fn wf(&self) -> bool {
        &&& self.seen@.finite()
        &&& self.seen@.len() > 0 ==> self.first is Some && self.last is Some
    }

    /// A frame at a time. A timestamp that was seen before changes nothing.
    pub fn record(&mut self, pts: u64, arrival_ns: u64)
        requires
            old(self).wf(),
        ensures
            final(self).wf(),
            old(self).seen@.contains(pts) ==> *final(self) == *old(self),
            !old(self).seen@.contains(pts) ==> {
                &&& final(self).seen@ == old(self).seen@.insert(pts)
                &&& final(self).last == Some((pts, arrival_ns))
                &&& final(self).first == if old(self).first is Some {
                    old(self).first
                } else {
                    Some((pts, arrival_ns))
                }
            },
    {
        if self.seen.contains(&pts) {
            return ;
        }
        self.seen.insert(pts);
        if self.first.is_none() {
            self.first = Some((pts, arrival_ns));
        }
        self.last = Some((pts, arrival_ns));
    }

    /// The frames that were seen, if there are two and time went by between them.
    pub fn summary(&self) -> (r: Result<Summary, MeasureError>)
        requires
            self.wf(),
        ensures
            ({
                let (first_pts, first_ns) = self.first->Some_0;
                let (last_pts, last_ns) = self.last->Some_0;
                let span = ticks_between(first_pts, last_pts);
                if self.seen@.len() < 2 {
                    r == Err::<Summary, MeasureError>(MeasureError::NotEnoughFrames)
                } else if last_ns <= first_ns || span == 0 {
                    r == Err::<Summary, MeasureError>(MeasureError::NoElapsedTime)
                } else {
                    r is Ok && r->Ok_0.frames == self.seen@.len() && r->Ok_0.wall_ns == last_ns
                        - first_ns && r->Ok_0.span == span
                }
            }),
    {
        let frames: usize = self.seen.len();
        if frames < 2 {
            return Err(MeasureError::NotEnoughFrames);
        }
        match (self.first, self.last) {
            (Some((first_pts, first_ns)), Some((last_pts, last_ns))) => {
                if last_ns <= first_ns {
                    return Err(MeasureError::NoElapsedTime);
                }
                let a: u64 = first_pts % PTS_MODULUS;
                let b: u64 = last_pts % PTS_MODULUS;
                let span: u64 = if b >= a {
                    b - a
                } else {
                    b + PTS_MODULUS - a
                };
                proof {
                    assert(span == ticks_between(first_pts, last_pts));
                }
                if span == 0 {
                    return Err(MeasureError::NoElapsedTime);
                }
                Ok(Summary { frames, wall_ns: last_ns - first_ns, span })
            },
            _ => Err(MeasureError::NotEnoughFrames),
        }
    }
}

/// A measurement lasts between one second and one minute.
pub fn check_duration(seconds: u64) -> (r: Result<(), MeasureError>)
    ensures
        r is Ok <==> 1 <= seconds <= 60,
        r is Err ==> r->Err_0 == MeasureError::InvalidDuration,
{
    if 1 <= seconds && seconds <= 60 {
        Ok(())
    } else {
        Err(MeasureError::InvalidDuration)
    }
}

/// Whether a measurement goes on: before its deadline, and until the user gives up.
pub fn goes_on(now_ns: u64, deadline_ns: u64, stop: bool) -> (r: bool)
    ensures
        r == (now_ns < deadline_ns && !stop),
{
    now_ns < deadline_ns && !stop
}

/// How long to wait for a packet: to the deadline, and at most a tenth of a second.
pub fn wait_ms(now_ns: u64, deadline_ns: u64) -> (r: i32)
    ensures
        0 <= r <= 100,
        now_ns >= deadline_ns ==> r == 0,
        now_ns < deadline_ns ==> r == if (deadline_ns - now_ns) / 1_000_000 < 100 {
            (deadline_ns - now_ns) / 1_000_000
        } else {
            100
        },
{
    if now_ns >= deadline_ns {
        return 0;
    }
    let left: u64 = (deadline_ns - now_ns) / 1_000_000;
    if left < 100 {
        left as i32
    } else {
        100
    }
}

/// Whether a measurement was given up before it saw enough.
pub fn was_cancelled(stats: &Statistics, stop: bool) -> (r: bool)
    requires
        stats.wf(),
    ensures
        r == (stats.seen@.len() < 2 && stop),
{
    stats.seen.len() < 2 && stop
}

// ---------------------------------------------------------------------------
// Laws
// ---------------------------------------------------------------------------

/// Every timestamp that is read has 33 bits.
pub proof fn law_timestamps_have_33_bits(p: Seq<u8>)
    ensures
        0 <= timestamp(p) < 8_589_934_592,
{
}

/// The five bytes of a timestamp, with the marker bits and any four bits in front, read
/// back as the timestamp.
pub proof fn law_timestamp_reads_back(pts: int, front: int)
    requires
        0 <= pts < 8_589_934_592,
        0 <= front < 16,
    ensures
        timestamp(
            seq![
                (front * 16 + (pts / 1_073_741_824) * 2 + 1) as u8,
                (pts / 4_194_304 % 256) as u8,
                (pts / 32_768 % 128 * 2 + 1) as u8,
                (pts / 128 % 256) as u8,
                (pts % 128 * 2 + 1) as u8,
            ],
        ) == pts,
{
    let a = pts / 128;
    let b = a / 256;
    let c = b / 128;
    let d = c / 256;
    assert(a / 256 == pts / 32_768);
    assert(b / 128 == pts / 4_194_304);
    assert(c / 256 == pts / 1_073_741_824);
    assert(pts == a * 128 + pts % 128);
    assert(a == b * 256 + a % 256);
    assert(b == c * 128 + b % 128);
    assert(c == d * 256 + c % 256);
    assert(0 <= d < 8);
}

/// Whether an Ethernet frame carries `payload` in an RTP packet of type 33 to port 53000 of
/// 192.168.49.1: an IPv4 header of `words` words, `sources` contributing sources, an
/// extension of `extension` words if that is not negative, and `padding` bytes behind it.
pub open spec fn carries(
    frame: Seq<u8>,
    words: int,
    sources: int,
    extension: int,
    padding: int,
    payload: Seq<u8>,
) -> bool {
    let udp = 14 + 4 * words;
    let rtp = udp + 8;
    let behind_sources = rtp + 12 + 4 * sources;
    let start = behind_sources + if extension >= 0 {
        4 + 4 * extension
    } else {
        0
    };
    let end = start + payload.len() + padding;
    &&& 5 <= words <= 15 && 0 <= sources <= 15 && extension <= 65535 && 0 <= padding <= 255
    &&& end <= frame.len()
    // IPv4, no fragment, UDP.
    &&& frame[12] == 8 && frame[13] == 0
    &&& frame[14] == 64 + words
    &&& frame[16] * 256 + frame[17] == end - 14
    &&& frame[20] % 64 == 0 && frame[21] == 0
    &&& frame[23] == 17
    &&& frame[30] == 192 && frame[31] == 168 && frame[32] == 49 && frame[33] == 1
    &&& frame[udp + 2] * 256 + frame[udp + 3] == 53000
    &&& frame[udp + 4] * 256 + frame[udp + 5] == end - udp
    // RTP.
    &&& frame[rtp] == 128 + sources + (if padding > 0 {
        32int
    } else {
        0
    }) + (if extension >= 0 {
        16int
    } else {
        0
    })
    &&& frame[rtp + 1] == 33 || frame[rtp + 1] == 161
    &&& extension >= 0 ==> frame[behind_sources + 2] * 256 + frame[behind_sources + 3] == extension
    &&& padding > 0 ==> frame[end - 1] == padding
    &&& frame.subrange(start, start + payload.len()) == payload
}

/// The packets of a frame are found.
proof fn lemma_carried(
    frame: Seq<u8>,
    words: int,
    sources: int,
    extension: int,
    padding: int,
    payload: Seq<u8>,
)
    requires
        carries(frame, words, sources, extension, padding, payload),
    ensures
        captured_timestamps(frame) == frame_timestamps(payload, payload.len() as int / 188),
{
    let udp_at = 14 + 4 * words;
    let rtp_at = udp_at + 8;
    let behind = rtp_at + 12 + 4 * sources;
    let start = behind + if extension >= 0 {
        4 + 4 * extension
    } else {
        0
    };
    let end = start + payload.len() + padding;
    let ip = frame.skip(14);
    assert(ip[0] == frame[14] && ip[2] == frame[16] && ip[3] == frame[17] && ip[6] == frame[20]
        && ip[7] == frame[21] && ip[9] == frame[23] && ip[16] == frame[30] && ip[17] == frame[31]
        && ip[18] == frame[32] && ip[19] == frame[33]);
    let header = (ip[0] as int % 16) * 4;
    assert(ip[0] as int % 16 == words);
    let total = two_bytes(ip[2], ip[3]);
    let udp = ip.subrange(header, total);
    assert(udp[2] == frame[udp_at + 2] && udp[3] == frame[udp_at + 3] && udp[4] == frame[udp_at + 4]
        && udp[5] == frame[udp_at + 5]);
    let rtp = udp.subrange(8, two_bytes(udp[4], udp[5]));
    assert(rtp_packet(frame) == Some(rtp));
    assert(rtp =~= frame.subrange(rtp_at, end));
    assert(rtp[0] == frame[rtp_at] && rtp[1] == frame[rtp_at + 1]);
    assert(rtp[0] as int % 16 == sources);
    assert(rtp[0] as int / 16 % 2 == 1 <==> extension >= 0);
    assert(rtp[0] as int / 32 % 2 == 1 <==> padding > 0);
    assert(rtp[0] as int / 64 == 2);
    if extension >= 0 {
        assert(rtp[12 + 4 * sources + 2] == frame[behind + 2]);
        assert(rtp[12 + 4 * sources + 3] == frame[behind + 3]);
    }
    if padding > 0 {
        assert(rtp.last() == frame[end - 1]);
    }
    assert(payload_start(rtp) == start - rtp_at);
    assert(payload_end(rtp) == end - padding - rtp_at);
    assert(rtp.subrange(payload_start(rtp), payload_end(rtp)) =~= frame.subrange(
        start,
        start + payload.len(),
    ));
    assert(transport_packets(rtp) == Some(payload));
}

/// The first packets of a payload are those that are its front.
proof fn lemma_front_timestamps(a: Seq<u8>, b: Seq<u8>, n: int)
    requires
        0 <= n * 188 <= a.len(),
    ensures
        frame_timestamps(a + b, n) == frame_timestamps(a, n),
    decreases n,
{
    if n > 0 {
        lemma_front_timestamps(a, b, n - 1);
        assert((a + b).subrange((n - 1) * 188, n * 188) =~= a.subrange((n - 1) * 188, n * 188));
    }
}

/// The packets behind whole packets are looked at like those in front.
proof fn lemma_later_timestamps(a: Seq<u8>, b: Seq<u8>, m: int, n: int)
    requires
        a.len() == m * 188,
        m >= 0,
        0 <= n * 188 <= b.len(),
    ensures
        frame_timestamps(a + b, m + n) == frame_timestamps(a, m) + frame_timestamps(b, n),
    decreases n,
{
    if n <= 0 {
        lemma_front_timestamps(a, b, m);
        assert(frame_timestamps(a, m) + frame_timestamps(b, n) =~= frame_timestamps(a, m));
    } else {
        lemma_later_timestamps(a, b, m, n - 1);
        assert((a + b).subrange((m + n - 1) * 188, (m + n) * 188) =~= b.subrange(
            (n - 1) * 188,
            n * 188,
        ));
        assert(frame_timestamps(a + b, m + n) =~= frame_timestamps(a, m) + frame_timestamps(b, n));
    }
}

/// Every transport packet of a frame is looked at: the timestamps of two payloads of which
/// the first is of whole packets, one behind the other, are those of the first followed by
/// those of the second. Options, sources, extensions and padding change nothing about it.
pub proof fn law_payloads_are_read_one_behind_the_other(
    frame: Seq<u8>,
    words: int,
    sources: int,
    extension: int,
    padding: int,
    first: Seq<u8>,
    a: Seq<u8>,
    second: Seq<u8>,
    b: Seq<u8>,
)
    requires
        carries(frame, words, sources, extension, padding, a + b),
        carries(first, 5, 0, -1, 0, a),
        carries(second, 5, 0, -1, 0, b),
        a.len() % 188 == 0,
    ensures
        captured_timestamps(frame) == captured_timestamps(first) + captured_timestamps(second),
{
    let m = a.len() as int / 188;
    let n = b.len() as int / 188;
    lemma_carried(frame, words, sources, extension, padding, a + b);
    lemma_carried(first, 5, 0, -1, 0, a);
    lemma_carried(second, 5, 0, -1, 0, b);
    assert((a + b).len() as int / 188 == m + n);
    lemma_later_timestamps(a, b, m, n);
}

/// Whether the timestamp `pts` of a picture stands in a transport packet whose payload is
/// `at` bytes into it: a first packet of the video, then the header of a PES packet with its
/// five bytes of the timestamp.
pub open spec fn starts_picture(ts: Seq<u8>, at: int, pts: int) -> bool {
    // 0x1011, the start of a payload and no error.
    &&& ts[0] == 0x47
    &&& ts[1] == 0x50 || ts[1] == 0x70
    &&& ts[2] == 0x11
    // Not scrambled: a payload alone, or one behind an adaptation field.
    &&& (0x10 <= ts[3] <= 0x1f && at == 4) || (0x30 <= ts[3] <= 0x3f && at == 5 + ts[4])
    &&& at + 14 <= 188
    &&& ts[at] == 0 && ts[at + 1] == 0 && ts[at + 2] == 1
    &&& 0xe0 <= ts[at + 3] <= 0xef
    &&& 0x80 <= ts[at + 6] <= 0xbf
    &&& 0x80 <= ts[at + 7]
    &&& 5 <= ts[at + 8]
    // The timestamp with its marker bits.
    &&& 0 <= pts < 8_589_934_592
    &&& ts[at + 9] as int % 16 == pts / 1_073_741_824 * 2 + 1
    &&& ts[at + 9] as int / 16 == 2 || ts[at + 9] as int / 16 == 3
    &&& ts[at + 10] == pts / 4_194_304 % 256
    &&& ts[at + 11] == pts / 32_768 % 128 * 2 + 1
    &&& ts[at + 12] == pts / 128 % 256
    &&& ts[at + 13] == pts % 128 * 2 + 1
}

/// A picture that starts in a transport packet is read.
proof fn lemma_picture(ts: Seq<u8>, at: int, pts: int)
    requires
        ts.len() == 188,
        starts_picture(ts, at, pts),
    ensures
        frame_timestamp(ts) == Some(pts),
{
    let pes = ts.skip(at);
    let front = ts[at + 9] as int / 16;
    let five = pes.subrange(9, 14);
    law_timestamp_reads_back(pts, front);
    assert((front * 16 + (pts / 1_073_741_824) * 2 + 1) as u8 == ts[at + 9]);
    assert(five =~= seq![
        (front * 16 + (pts / 1_073_741_824) * 2 + 1) as u8,
        (pts / 4_194_304 % 256) as u8,
        (pts / 32_768 % 128 * 2 + 1) as u8,
        (pts / 128 % 256) as u8,
        (pts % 128 * 2 + 1) as u8,
    ]);
    assert(payload_position(ts) == Some(at));
    assert(pes[0] == ts[at] && pes[1] == ts[at + 1] && pes[2] == ts[at + 2] && pes[3] == ts[at + 3]
        && pes[6] == ts[at + 6] && pes[7] == ts[at + 7] && pes[8] == ts[at + 8] && pes[9] == ts[at
        + 9] && pes[11] == ts[at + 11] && pes[13] == ts[at + 13]);
}

/// The parts of a timestamp.
proof fn lemma_timestamp_digits(a: int, b: int, c: int, d: int, e: int)
    requires
        0 <= a < 8,
        0 <= b < 256,
        0 <= c < 128,
        0 <= d < 256,
        0 <= e < 128,
    ensures
        ({
            let pts = a * 1_073_741_824 + b * 4_194_304 + c * 32_768 + d * 128 + e;
            &&& pts % 128 == e
            &&& pts / 128 % 256 == d
            &&& pts / 32_768 % 128 == c
            &&& pts / 4_194_304 % 256 == b
            &&& pts / 1_073_741_824 == a
        }),
{
    let pts = a * 1_073_741_824 + b * 4_194_304 + c * 32_768 + d * 128 + e;
    let w = a * 8_388_608 + b * 32_768 + c * 256 + d;
    let x = a * 32_768 + b * 128 + c;
    let y = a * 256 + b;
    assert(pts / 128 == w && pts % 128 == e);
    assert(w / 256 == x && w % 256 == d);
    assert(x / 128 == y && x % 128 == c);
    assert(y / 256 == a && y % 256 == b);
    assert(pts / 32_768 == x);
    assert(pts / 4_194_304 == y);
}

/// What is read from a transport packet is a picture that starts there.
proof fn lemma_read_picture(ts: Seq<u8>)
    requires
        ts.len() == 188,
        frame_timestamp(ts) is Some,
    ensures
        starts_picture(ts, payload_position(ts)->Some_0, frame_timestamp(ts)->Some_0),
{
    let at = payload_position(ts)->Some_0;
    let pes = ts.skip(at);
    let five = pes.subrange(9, 14);
    let pts = frame_timestamp(ts)->Some_0;
    assert(pes[0] == ts[at] && pes[1] == ts[at + 1] && pes[2] == ts[at + 2] && pes[3] == ts[at + 3]
        && pes[6] == ts[at + 6] && pes[7] == ts[at + 7] && pes[8] == ts[at + 8] && pes[9] == ts[at
        + 9] && pes[10] == ts[at + 10] && pes[11] == ts[at + 11] && pes[12] == ts[at + 12]
        && pes[13] == ts[at + 13]);
    let (p0, p1, p2, p3, p4) = (
        ts[at + 9] as int,
        ts[at + 10] as int,
        ts[at + 11] as int,
        ts[at + 12] as int,
        ts[at + 13] as int,
    );
    lemma_timestamp_digits(p0 / 2 % 8, p1, p2 / 2, p3, p4 / 2);
    assert(ts[1] as int == 64 + ts[1] as int % 64);
    assert((ts[1] as int % 32) * 256 + ts[2] == 4113);
    assert(ts[1] as int % 32 == 16 && ts[2] == 17);
}

/// A frame with one transport packet has the timestamp of the picture that starts there, and
/// none if no picture does.
pub proof fn law_a_picture_is_read_where_it_starts(frame: Seq<u8>, ts: Seq<u8>)
    requires
        ts.len() == 188,
        carries(frame, 5, 0, -1, 0, ts),
    ensures
        forall|at: int, pts: int| #[trigger]
            starts_picture(ts, at, pts) ==> captured_timestamps(frame) == seq![pts],
        (forall|at: int, pts: int| !#[trigger] starts_picture(ts, at, pts))
            ==> captured_timestamps(frame).len() == 0,
{
    lemma_carried(frame, 5, 0, -1, 0, ts);
    assert(ts.subrange(0, 188) =~= ts);
    assert(frame_timestamps(ts, 0) =~= Seq::<int>::empty());
    assert(frame_timestamps(ts, 1) == match frame_timestamp(ts) {
        Some(pts) => frame_timestamps(ts, 0).push(pts),
        None => frame_timestamps(ts, 0),
    });
    assert forall|at: int, pts: int| #[trigger] starts_picture(ts, at, pts) implies captured_timestamps(
        frame,
    ) == seq![pts] by {
        lemma_picture(ts, at, pts);
        assert(captured_timestamps(frame) =~= seq![pts]);
    }
    if forall|at: int, pts: int| !#[trigger] starts_picture(ts, at, pts) {
        if frame_timestamp(ts) is Some {
            lemma_read_picture(ts);
        }
    }
}

/// The timestamps of the pictures that start in packets are as many as those packets, and
/// each of them is among the timestamps.
proof fn lemma_all_read(packets: Seq<u8>, n: int)
    requires
        0 <= n * 188 <= packets.len(),
    ensures
        forall|k: int, at: int, pts: int|
            0 <= k < n && #[trigger] starts_picture(
                packets.subrange(k * 188, k * 188 + 188),
                at,
                pts,
            ) ==> frame_timestamps(packets, n).contains(pts),
        frame_timestamps(packets, n).len() <= n,
    decreases n,
{
    if n > 0 {
        lemma_all_read(packets, n - 1);
        let before = frame_timestamps(packets, n - 1);
        let all = frame_timestamps(packets, n);
        assert forall|k: int, at: int, pts: int|
            0 <= k < n && #[trigger] starts_picture(
                packets.subrange(k * 188, k * 188 + 188),
                at,
                pts,
            ) implies all.contains(pts) by {
            if k < n - 1 {
                let i = choose|i: int| 0 <= i < before.len() && before[i] == pts;
                assert(all[i] == pts);
            } else {
                lemma_picture(packets.subrange(k * 188, k * 188 + 188), at, pts);
                assert(all[all.len() - 1] == pts);
            }
        }
    }
}

/// Wherever among the packets of a frame a picture starts, its timestamp is read, and no more
/// timestamps are read than there are packets.
pub proof fn law_every_picture_of_a_frame_is_read(
    frame: Seq<u8>,
    words: int,
    sources: int,
    extension: int,
    padding: int,
    payload: Seq<u8>,
)
    requires
        carries(frame, words, sources, extension, padding, payload),
    ensures
        forall|k: int, at: int, pts: int|
            0 <= k < payload.len() as int / 188 && #[trigger] starts_picture(
                payload.subrange(k * 188, k * 188 + 188),
                at,
                pts,
            ) ==> captured_timestamps(frame).contains(pts),
        captured_timestamps(frame).len() <= payload.len() as int / 188,
{
    lemma_carried(frame, words, sources, extension, padding, payload);
    lemma_all_read(payload, payload.len() as int / 188);
}

/// Nothing is read from a frame that is not an IPv4 packet of UDP, whole, from anywhere to
/// port 53000 of 192.168.49.1.
pub proof fn law_other_traffic_is_passed_over(frame: Seq<u8>)
    requires
        captured_timestamps(frame).len() > 0,
    ensures
        frame.len() >= 42,
        frame[12] == 8 && frame[13] == 0,
        0x45 <= frame[14] <= 0x4f,
        frame[20] % 64 == 0 && frame[21] == 0,
        frame[23] == 17,
        frame[30] == 192 && frame[31] == 168 && frame[32] == 49 && frame[33] == 1,
        ({
            let udp = 14 + 4 * (frame[14] - 64);
            &&& udp + 8 < frame.len()
            &&& frame[udp + 2] * 256 + frame[udp + 3] == 53000
            &&& 0x80 <= frame[udp + 8] <= 0xbf
            &&& frame[udp + 9] == 33 || frame[udp + 9] == 161
        }),
{
    let ip = frame.skip(14);
    assert(rtp_packet(frame) is Some);
    assert(ip[0] == frame[14] && ip[2] == frame[16] && ip[3] == frame[17] && ip[6] == frame[20]
        && ip[7] == frame[21] && ip[9] == frame[23] && ip[16] == frame[30] && ip[17] == frame[31]
        && ip[18] == frame[32] && ip[19] == frame[33]);
    let header = (ip[0] as int % 16) * 4;
    let total = two_bytes(ip[2], ip[3]);
    let udp = ip.subrange(header, total);
    let at = 14 + header;
    assert(udp[2] == frame[at + 2] && udp[3] == frame[at + 3] && udp[4] == frame[at + 4] && udp[5]
        == frame[at + 5]);
    let rtp = rtp_packet(frame)->Some_0;
    assert(rtp[0] == frame[at + 8] && rtp[1] == frame[at + 9]);
    assert(transport_packets(rtp) is Some);
    assert(ip[6] * 256 + ip[7] == two_bytes(ip[6], ip[7]));
    assert(ip[7] == 0 && ip[6] as int % 64 == 0);
}

} // verus!
