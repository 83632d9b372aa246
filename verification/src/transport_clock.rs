//! Program clock references of an MPEG transport stream.
use vstd::prelude::*;

verus! {

/// Size of one transport packet in bytes.
pub const TS_PACKET_SIZE: usize = 188;

/// The program clock counts modulo `2^33 * 300` ticks of 27 MHz.
pub const PCR_MODULUS: u64 = 2_576_980_377_600;

/// Ticks of the program clock in one millisecond.
pub const PCR_TICKS_PER_MS: u64 = 27_000;

/// The largest advance: the lead that the multiplexer itself leaves.
pub const MAX_ADVANCE_MS: u32 = 125;

/// Why a batch of transport packets is refused.
#[derive(Clone, Copy, Debug, PartialEq, Eq, Structural)]
pub enum ClockError {
    /// The advance exceeds the multiplexer's 125 ms.
    AdvanceTooLarge,
    /// The batch is not a whole number of packets.
    TruncatedPacket,
    /// A packet does not start with the sync byte.
    InvalidSync,
    /// The adaptation field control has its reserved value.
    ReservedAdaptation,
    /// The adaptation field is longer than its packet.
    AdaptationTooLong,
    /// The adaptation field is too short for its clock reference.
    TruncatedPcr,
    /// The adaptation field is too short for its original clock reference.
    TruncatedOpcr,
    /// The 27 MHz part of the clock reference is 300 or more.
    InvalidExtension,
}

impl ClockError {
    /// The message shown to the user.
    pub fn text(self) -> (r: &'static str)
        ensures
            r@ == self.message(),
    {
        match self {
            ClockError::AdvanceTooLarge => "PCR advance exceeds the mux's 125 ms offset",
            ClockError::TruncatedPacket => "Truncated TS packet",
            ClockError::InvalidSync => "Invalid TS sync byte",
            ClockError::ReservedAdaptation => "Reserved TS adaptation field control",
            ClockError::AdaptationTooLong => "TS adaptation field exceeds packet",
            ClockError::TruncatedPcr => "Truncated TS PCR field",
            ClockError::TruncatedOpcr => "Truncated TS OPCR field",
            ClockError::InvalidExtension => "Invalid PCR extension",
        }
    }

    /// The text of each error.
    pub open spec fn message(self) -> Seq<char> {
        match self {
            ClockError::AdvanceTooLarge => "PCR advance exceeds the mux's 125 ms offset"@,
            ClockError::TruncatedPacket => "Truncated TS packet"@,
            ClockError::InvalidSync => "Invalid TS sync byte"@,
            ClockError::ReservedAdaptation => "Reserved TS adaptation field control"@,
            ClockError::AdaptationTooLong => "TS adaptation field exceeds packet"@,
            ClockError::TruncatedPcr => "Truncated TS PCR field"@,
            ClockError::TruncatedOpcr => "Truncated TS OPCR field"@,
            ClockError::InvalidExtension => "Invalid PCR extension"@,
        }
    }
}

/// Packet `k` of a batch.
pub open spec fn packet_at(data: Seq<u8>, k: int) -> Seq<u8> {
    data.subrange(k * 188, k * 188 + 188)
}

/// The 33-bit, 90 kHz part of the clock reference of a packet.
pub open spec fn pcr_base(packet: Seq<u8>) -> int {
    packet[6] * 33_554_432 + packet[7] * 131_072 + packet[8] * 512 + packet[9] * 2 + packet[10] as int
        / 128
}

/// The 27 MHz remainder of the clock reference of a packet.
pub open spec fn pcr_extension(packet: Seq<u8>) -> int {
    (packet[10] as int % 2) * 256 + packet[11]
}

/// The clock reference of a packet in 27 MHz ticks.
pub open spec fn pcr_ticks(packet: Seq<u8>) -> int {
    pcr_base(packet) * 300 + pcr_extension(packet)
}

/// Whether a packet is well formed and, if so, whether it carries a clock reference.
pub open spec fn carries_pcr(packet: Seq<u8>) -> Result<bool, ClockError> {
    let adaptation = (packet[3] >> 4) & 3;
    let length = packet[4];
    let flags = packet[5];
    if packet[0] != 0x47 {
        Err(ClockError::InvalidSync)
    } else if adaptation == 0 {
        Err(ClockError::ReservedAdaptation)
    } else if adaptation & 2 == 0 {
        Ok(false)
    } else if length > 183 {
        Err(ClockError::AdaptationTooLong)
    } else if length == 0 || flags & 0x10 == 0 {
        Ok(false)
    } else if length < 7 {
        Err(ClockError::TruncatedPcr)
    } else if flags & 0x08 != 0 && length < 13 {
        Err(ClockError::TruncatedOpcr)
    } else if pcr_extension(packet) >= 300 {
        Err(ClockError::InvalidExtension)
    } else {
        Ok(true)
    }
}

/// The number of clock references in the first `k` packets, or the error of the
/// first malformed one.
pub open spec fn count_pcr(data: Seq<u8>, k: int) -> Result<int, ClockError>
    decreases k,
{
    if k <= 0 {
        Ok(0)
    } else {
        match count_pcr(data, k - 1) {
            Err(e) => Err(e),
            Ok(n) => match carries_pcr(packet_at(data, k - 1)) {
                Err(e) => Err(e),
                Ok(found) => Ok(n + if found { 1int } else { 0int }),
            },
        }
    }
}

/// The number of clock references in a batch, or why the batch is refused.
pub open spec fn check_batch(data: Seq<u8>, advance_ms: u32) -> Result<int, ClockError> {
    if advance_ms > MAX_ADVANCE_MS {
        Err(ClockError::AdvanceTooLarge)
    } else if data.len() % 188 != 0 {
        Err(ClockError::TruncatedPacket)
    } else {
        count_pcr(data, data.len() as int / 188)
    }
}

/// `after` is `before` with its clock reference, and nothing else, set to `ticks`.
pub open spec fn pcr_replaced(before: Seq<u8>, after: Seq<u8>, ticks: int) -> bool {
    &&& after.len() == before.len()
    &&& pcr_ticks(after) == ticks
    &&& pcr_extension(after) < 300
    &&& after[10] as int / 2 % 64 == before[10] as int / 2 % 64
    &&& forall|i: int| 0 <= i < before.len() && !(6 <= i < 12) ==> #[trigger] after[i] == before[i]
}

/// `after` is the well-formed packet `before` with its clock, if it carries one,
/// moved forward by `advance_ms`.
pub open spec fn packet_advanced(before: Seq<u8>, after: Seq<u8>, advance_ms: u32) -> bool {
    if carries_pcr(before) == Ok::<bool, ClockError>(true) {
        pcr_replaced(before, after, (pcr_ticks(before) + advance_ms * 27_000) % 2_576_980_377_600)
    } else {
        after == before
    }
}

/// Every packet of `before` advanced, in place.
pub open spec fn batch_advanced(before: Seq<u8>, after: Seq<u8>, advance_ms: u32) -> bool {
    &&& after.len() == before.len()
    &&& forall|k: int|
        0 <= k < before.len() as int / 188 ==> packet_advanced(
            #[trigger] packet_at(before, k),
            packet_at(after, k),
            advance_ms,
        )
}

/// Where the clock reference of a packet lies.
pub fn pcr_offset(packet: &[u8]) -> (r: Result<Option<usize>, ClockError>)
    requires
        packet@.len() == 188,
    ensures
        match r {
            Err(e) => carries_pcr(packet@) == Err::<bool, ClockError>(e),
            Ok(None) => carries_pcr(packet@) == Ok::<bool, ClockError>(false),
            Ok(Some(offset)) => offset == 6 && carries_pcr(packet@) == Ok::<bool, ClockError>(true),
        },
{
    if packet[0] != 0x47 {
        return Err(ClockError::InvalidSync);
    }
    let adaptation: u8 = (packet[3] >> 4) & 3;
    if adaptation == 0 {
        return Err(ClockError::ReservedAdaptation);
    }
    if adaptation & 2 == 0 {
        return Ok(None);
    }
    let length: u8 = packet[4];
    if length > 183 {
        return Err(ClockError::AdaptationTooLong);
    }
    if length == 0 {
        return Ok(None);
    }
    let flags: u8 = packet[5];
    if flags & 0x10 == 0 {
        return Ok(None);
    }
    if length < 7 {
        return Err(ClockError::TruncatedPcr);
    }
    // The original clock reference is a separate field and keeps its value, but its
    // six bytes have to fit in the adaptation field.
    if flags & 0x08 != 0 && length < 13 {
        return Err(ClockError::TruncatedOpcr);
    }
    let extension: u16 = (packet[10] % 2) as u16 * 256 + packet[11] as u16;
    if extension >= 300 {
        return Err(ClockError::InvalidExtension);
    }
    Ok(Some(6))
}

/// The six bytes at `at` that hold `ticks` and the reserved bits of `middle`.
proof fn lemma_pcr_bytes(ticks: int, reserved: int)
    requires
        0 <= ticks < 2_576_980_377_600,
        0 <= reserved < 64,
    ensures
        ({
            let base = ticks / 300;
            let extension = ticks % 300;
            let middle = base % 2 * 128 + reserved * 2 + extension / 256;
            &&& 0 <= base < 8_589_934_592
            &&& 0 <= base / 33_554_432 < 256
            &&& 0 <= middle < 256
            &&& middle / 128 == base % 2
            &&& middle % 2 == extension / 256
            &&& middle / 2 % 64 == reserved
            &&& base / 33_554_432 * 33_554_432 + base / 131_072 % 256 * 131_072 + base / 512 % 256
                * 512 + base / 2 % 256 * 2 + middle / 128 == base
            &&& middle % 2 * 256 + extension % 256 == extension
            &&& base * 300 + extension == ticks
        }),
{
    let base = ticks / 300;
    let extension = ticks % 300;
    vstd::arithmetic::div_mod::lemma_div_denominator(base, 2, 256);
    vstd::arithmetic::div_mod::lemma_div_denominator(base, 512, 256);
    vstd::arithmetic::div_mod::lemma_div_denominator(base, 131_072, 256);
    assert(0 <= base < 8_589_934_592);
    let a = base / 2;
    let b = a / 256;
    let c = b / 256;
    let d = c / 256;
    assert(base / 512 == b && base / 131_072 == c && base / 33_554_432 == d);
    assert(d < 256);
    assert(0 <= extension / 256 <= 1);
}

/// Moves the clock reference whose six bytes start at `at` forward.
fn move_pcr(data: &mut [u8], at: usize, advance_ms: u32)
    requires
        6 <= at,
        at + 182 <= old(data)@.len(),
        advance_ms <= 125,
    ensures
        final(data)@.len() == old(data)@.len(),
        forall|i: int|
            0 <= i < old(data)@.len() && !(at <= i < at + 6) ==> final(data)@[i] == old(data)@[i],
        pcr_replaced(
            old(data)@.subrange(at - 6, at + 182),
            final(data)@.subrange(at - 6, at + 182),
            (pcr_ticks(old(data)@.subrange(at - 6, at + 182)) + advance_ms * 27_000)
                % 2_576_980_377_600,
        ),
{
    let ghost before = data@.subrange(at - 6, at + 182);
    let base: u64 = data[at] as u64 * 33_554_432 + data[at + 1] as u64 * 131_072 + data[at + 2] as u64
        * 512 + data[at + 3] as u64 * 2 + data[at + 4] as u64 / 128;
    let extension: u64 = (data[at + 4] as u64 % 2) * 256 + data[at + 5] as u64;
    let shifted: u64 = (base * 300 + extension + advance_ms as u64 * PCR_TICKS_PER_MS) % PCR_MODULUS;
    let reserved: u64 = data[at + 4] as u64 / 2 % 64;
    let new_base: u64 = shifted / 300;
    let new_extension: u64 = shifted % 300;
    proof {
        lemma_pcr_bytes(shifted as int, reserved as int);
        assert(base == pcr_base(before));
        assert(extension == pcr_extension(before));
    }
    data[at] = (new_base / 33_554_432) as u8;
    data[at + 1] = (new_base / 131_072 % 256) as u8;
    data[at + 2] = (new_base / 512 % 256) as u8;
    data[at + 3] = (new_base / 2 % 256) as u8;
    data[at + 4] = (new_base % 2 * 128 + reserved * 2 + new_extension / 256) as u8;
    data[at + 5] = (new_extension % 256) as u8;
    proof {
        let after = data@.subrange(at - 6, at + 182);
        assert(pcr_base(after) == new_base);
        assert(pcr_extension(after) == new_extension);
    }
}

/// Moves the clock references of a batch forward and leaves every other byte alone.
/// Returns how many were moved. The whole batch is checked before any byte changes.
pub fn advance_pcr(data: &mut [u8], advance_ms: u32) -> (r: Result<usize, ClockError>)
    ensures
        match r {
            Err(e) => {
                &&& check_batch(old(data)@, advance_ms) == Err::<int, ClockError>(e)
                &&& final(data)@ == old(data)@
            },
            Ok(changed) => {
                &&& check_batch(old(data)@, advance_ms) is Ok
                &&& advance_ms == 0 ==> changed == 0 && final(data)@ == old(data)@
                &&& advance_ms != 0 ==> check_batch(old(data)@, advance_ms) == Ok::<int, ClockError>(
                    changed as int,
                ) && batch_advanced(old(data)@, final(data)@, advance_ms)
            },
        },
{
    if advance_ms > MAX_ADVANCE_MS {
        return Err(ClockError::AdvanceTooLarge);
    }
    if data.len() % TS_PACKET_SIZE != 0 {
        return Err(ClockError::TruncatedPacket);
    }
    let ghost before = data@;
    let count: usize = data.len() / TS_PACKET_SIZE;
    let mut k: usize = 0;
    while k < count
        invariant
            k <= count,
            data@ == before,
            before == old(data)@,
            advance_ms <= 125,
            count == before.len() as int / 188,
            before.len() == count * 188,
            before.len() <= usize::MAX,
            count_pcr(before, k as int) is Ok,
            0 <= count_pcr(before, k as int)->Ok_0 <= k,
        decreases count - k,
    {
        let start: usize = k * TS_PACKET_SIZE;
        let packet: &[u8] = &data[start..start + TS_PACKET_SIZE];
        proof {
            assert(packet@ =~= packet_at(before, k as int));
        }
        match pcr_offset(packet) {
            Err(e) => {
                proof {
                    lemma_first_error(before, k as int + 1, count as int);
                }
                return Err(e);
            },
            Ok(_) => {},
        }
        k = k + 1;
    }
    if advance_ms == 0 {
        return Ok(0);
    }
    let mut changed: usize = 0;
    let mut k: usize = 0;
    while k < count
        invariant
            k <= count,
            before == old(data)@,
            0 < advance_ms <= 125,
            count == before.len() as int / 188,
            before.len() == count * 188,
            data@.len() == before.len(),
            before.len() <= usize::MAX,
            count_pcr(before, count as int) is Ok,
            count_pcr(before, k as int) == Ok::<int, ClockError>(changed as int),
            changed <= k,
            forall|j: int|
                0 <= j < k ==> packet_advanced(
                    #[trigger] packet_at(before, j),
                    packet_at(data@, j),
                    advance_ms,
                ),
            forall|i: int| k * 188 <= i < before.len() ==> data@[i] == before[i],
        decreases count - k,
    {
        let start: usize = k * TS_PACKET_SIZE;
        let ghost current = data@;
        let offset: Option<usize>;
        {
            let packet: &[u8] = &data[start..start + TS_PACKET_SIZE];
            proof {
                assert(packet@ =~= packet_at(before, k as int));
                if carries_pcr(packet@) is Err {
                    lemma_first_error(before, k as int + 1, count as int);
                }
            }
            match pcr_offset(packet) {
                Err(e) => {
                    assert(false);
                    return Err(e);
                },
                Ok(found) => {
                    offset = found;
                },
            }
        }
        if let Some(at) = offset {
            move_pcr(data, start + at, advance_ms);
            changed = changed + 1;
            proof {
                let moved = packet_at(data@, k as int);
                assert(moved =~= data@.subrange(start as int, start + 188));
                assert(packet_at(before, k as int) =~= current.subrange(start as int, start + 188));
            }
        } else {
            proof {
                assert(packet_at(data@, k as int) =~= packet_at(before, k as int));
            }
        }
        proof {
            assert forall|j: int| 0 <= j < k + 1 implies packet_advanced(
                #[trigger] packet_at(before, j),
                packet_at(data@, j),
                advance_ms,
            ) by {
                if j < k {
                    assert(packet_at(data@, j) =~= packet_at(current, j));
                }
            }
        }
        k = k + 1;
    }
    Ok(changed)
}

/// An error among the first `k` packets is the error of the whole batch.
proof fn lemma_first_error(data: Seq<u8>, k: int, n: int)
    requires
        0 <= k <= n,
        count_pcr(data, k) is Err,
    ensures
        count_pcr(data, n) == count_pcr(data, k),
    decreases n,
{
    if k < n {
        lemma_first_error(data, k, n - 1);
    }
}

/// An advanced packet is as well formed, and carries a clock reference exactly when
/// the packet that it came from did.
proof fn lemma_packet_shape(before: Seq<u8>, after: Seq<u8>, advance_ms: u32)
    requires
        before.len() == 188,
        packet_advanced(before, after, advance_ms),
    ensures
        carries_pcr(after) == carries_pcr(before),
{
}

/// Advancing keeps a batch well formed, with as many clock references as before.
pub proof fn law_advanced_batch_stays_valid(before: Seq<u8>, after: Seq<u8>, advance_ms: u32)
    requires
        check_batch(before, advance_ms) is Ok,
        batch_advanced(before, after, advance_ms),
    ensures
        check_batch(after, advance_ms) == check_batch(before, advance_ms),
{
    let n = before.len() as int / 188;
    lemma_count_kept(before, after, advance_ms, n);
}

proof fn lemma_count_kept(before: Seq<u8>, after: Seq<u8>, advance_ms: u32, k: int)
    requires
        batch_advanced(before, after, advance_ms),
        0 <= k <= before.len() as int / 188,
    ensures
        count_pcr(after, k) == count_pcr(before, k),
    decreases k,
{
    if k > 0 {
        lemma_count_kept(before, after, advance_ms, k - 1);
        lemma_packet_shape(packet_at(before, k - 1), packet_at(after, k - 1), advance_ms);
    }
}

/// Advancing a batch twice is advancing it once by the sum.
pub proof fn law_advances_add_up(
    before: Seq<u8>,
    middle: Seq<u8>,
    after: Seq<u8>,
    first_ms: u32,
    second_ms: u32,
)
    requires
        first_ms + second_ms <= MAX_ADVANCE_MS,
        check_batch(before, first_ms) is Ok,
        batch_advanced(before, middle, first_ms),
        batch_advanced(middle, after, second_ms),
    ensures
        batch_advanced(before, after, (first_ms + second_ms) as u32),
{
    let sum = (first_ms + second_ms) as u32;
    assert forall|k: int| 0 <= k < before.len() as int / 188 implies packet_advanced(
        #[trigger] packet_at(before, k),
        packet_at(after, k),
        sum,
    ) by {
        let a = packet_at(before, k);
        let b = packet_at(middle, k);
        let c = packet_at(after, k);
        assert(packet_advanced(a, b, first_ms));
        assert(packet_advanced(b, c, second_ms));
        lemma_packet_shape(a, b, first_ms);
        if carries_pcr(a) == Ok::<bool, ClockError>(true) {
            vstd::arithmetic::div_mod::lemma_add_mod_noop(
                pcr_ticks(a) + first_ms * 27_000,
                second_ms * 27_000,
                2_576_980_377_600,
            );
            vstd::arithmetic::div_mod::lemma_small_mod((second_ms * 27_000) as nat, 2_576_980_377_600);
            assert(pcr_ticks(c) == (pcr_ticks(a) + sum * 27_000) % 2_576_980_377_600);
        }
    }
}

/// An advance moves the 90 kHz part of a clock reference by 90 ticks for every
/// millisecond, modulo its 33 bits, and keeps the 27 MHz remainder.
pub proof fn law_advance_keeps_extension(before: Seq<u8>, after: Seq<u8>, advance_ms: u32)
    requires
        carries_pcr(before) == Ok::<bool, ClockError>(true),
        packet_advanced(before, after, advance_ms),
    ensures
        pcr_base(after) == (pcr_base(before) + advance_ms * 90) % 8_589_934_592,
        pcr_extension(after) == pcr_extension(before),
{
    let base = pcr_base(before) + advance_ms * 90;
    let extension = pcr_extension(before);
    let q = base / 8_589_934_592;
    let m = base % 8_589_934_592;
    assert(pcr_ticks(before) + advance_ms * 27_000 == q * 2_576_980_377_600 + (m * 300 + extension));
    assert(0 <= m * 300 + extension < 2_576_980_377_600);
    vstd::arithmetic::div_mod::lemma_fundamental_div_mod_converse(
        pcr_ticks(before) + advance_ms * 27_000,
        2_576_980_377_600,
        q,
        m * 300 + extension,
    );
    assert(pcr_base(after) * 300 + pcr_extension(after) == m * 300 + extension);
}

/// The six bytes of a clock reference, with any reserved bits, read back as its ticks of
/// 27 MHz: 33 bits that count 300 of them, and nine bits of the rest.
pub proof fn law_clock_reads_back(packet: Seq<u8>, base: int, extension: int, reserved: int)
    requires
        0 <= base < 8_589_934_592,
        0 <= extension < 300,
        0 <= reserved < 64,
        packet.len() == 188,
        packet[6] == base / 33_554_432,
        packet[7] == base / 131_072 % 256,
        packet[8] == base / 512 % 256,
        packet[9] == base / 2 % 256,
        packet[10] == base % 2 * 128 + reserved * 2 + extension / 256,
        packet[11] == extension % 256,
    ensures
        pcr_base(packet) == base,
        pcr_extension(packet) == extension,
        pcr_ticks(packet) == base * 300 + extension,
{
    let a = base / 2;
    let b = a / 256;
    let c = b / 256;
    assert(a / 256 == base / 512);
    assert(b / 256 == base / 131_072);
    assert(c / 256 == base / 33_554_432);
    assert(base == a * 2 + base % 2);
    assert(a == b * 256 + a % 256);
    assert(b == c * 256 + b % 256);
    assert(c == (c / 256) * 256 + c % 256);
    assert(packet[10] as int / 128 == base % 2);
    assert(packet[10] as int % 2 == extension / 256);
}

/// A packet carries a clock reference exactly where it has an adaptation field with one: as
/// long as that takes, its flag set, and in front of it room for the original clock reference
/// if there is one.
pub proof fn law_clocks_are_found(packet: Seq<u8>)
    requires
        packet.len() == 188,
    ensures
        carries_pcr(packet) == Ok::<bool, ClockError>(true) <==> {
            &&& packet[0] == 0x47
            &&& packet[3] as int / 32 % 2 == 1
            &&& 7 <= packet[4] <= 183
            &&& packet[5] as int / 16 % 2 == 1
            &&& packet[5] as int / 8 % 2 == 1 ==> packet[4] >= 13
            &&& (packet[10] as int % 2) * 256 + packet[11] < 300
        },
        carries_pcr(packet) == Ok::<bool, ClockError>(false) <==> {
            &&& packet[0] == 0x47
            &&& packet[3] as int / 16 % 4 == 1 || (packet[3] as int / 32 % 2 == 1 && packet[4] <= 183
                && (packet[4] == 0 || packet[5] as int / 16 % 2 == 0))
        },
{
    let b = packet[3];
    let f = packet[5];
    assert((b >> 4) & 3 == b / 16 % 4) by (bit_vector);
    assert(((b >> 4) & 3) & 2 == 0 <==> b / 32 % 2 == 0) by (bit_vector);
    assert(f & 0x10 == 0 <==> f / 16 % 2 == 0) by (bit_vector);
    assert(f & 0x08 != 0 <==> f / 8 % 2 == 1) by (bit_vector);
    assert(b / 16 % 4 == 0 ==> b / 32 % 2 == 0) by (bit_vector);
    assert(b / 32 % 2 == 0 && b / 16 % 4 != 0 ==> b / 16 % 4 == 1) by (bit_vector);
    assert(b / 16 % 4 == 1 ==> b / 32 % 2 == 0) by (bit_vector);
}

/// In an advanced batch every packet with a clock reference has it moved by 90 ticks of
/// 90 kHz for every millisecond, wherever in the batch it stands, and every byte that is not
/// one of a clock reference is as it was.
pub proof fn law_every_clock_of_a_batch_moves(before: Seq<u8>, after: Seq<u8>, ms: u32, k: int)
    requires
        check_batch(before, ms) is Ok,
        batch_advanced(before, after, ms),
        0 <= k,
        k * 188 + 188 <= before.len(),
    ensures
        after.len() == before.len(),
        ms <= 125,
        ({
            let p = k * 188;
            let clocked = before[p + 3] as int / 32 % 2 == 1 && before[p + 4] >= 7 && before[p
                + 5] as int / 16 % 2 == 1;
            &&& before[p] == 0x47
            &&& clocked ==> {
                &&& after[p + 6] * 33_554_432 + after[p + 7] * 131_072 + after[p + 8] * 512
                    + after[p + 9] * 2 + after[p + 10] as int / 128 == (before[p + 6] * 33_554_432
                    + before[p + 7] * 131_072 + before[p + 8] * 512 + before[p + 9] * 2 + before[p
                    + 10] as int / 128 + ms * 90) % 8_589_934_592
                &&& after[p + 10] as int % 128 == before[p + 10] as int % 128
                &&& after[p + 11] == before[p + 11]
            }
            &&& forall|i: int|
                p <= i < p + 188 && !(clocked && p + 6 <= i < p + 12) ==> #[trigger] after[i]
                    == before[i]
        }),
{
    let p = k * 188;
    let a = packet_at(before, k);
    let b = packet_at(after, k);
    let n = before.len() as int / 188;
    assert(k < n);
    lemma_no_error(before, n, k);
    law_clocks_are_found(a);
    assert(packet_advanced(a, b, ms));
    assert(forall|j: int| 0 <= j < 188 ==> a[j] == before[p + j] && #[trigger] b[j] == after[p + j]);
    if carries_pcr(a) == Ok::<bool, ClockError>(true) {
        law_advance_keeps_extension(a, b, ms);
        assert(b[10] as int / 2 % 64 == a[10] as int / 2 % 64);
        assert((b[10] as int % 2) * 256 + b[11] == (a[10] as int % 2) * 256 + a[11]);
        assert(b[10] as int % 2 == a[10] as int % 2 && b[11] == a[11]);
    }
    assert(b[6] == after[p + 6] && b[7] == after[p + 7] && b[8] == after[p + 8] && b[9] == after[p + 9]
        && b[10] == after[p + 10] && b[11] == after[p + 11]);
    let clocked = before[p + 3] as int / 32 % 2 == 1 && before[p + 4] >= 7 && before[p + 5] as int
        / 16 % 2 == 1;
    assert(clocked <==> carries_pcr(a) == Ok::<bool, ClockError>(true));
    assert forall|i: int| p <= i < p + 188 && !(clocked && p + 6 <= i < p + 12) implies
        #[trigger] after[i] == before[i] by {
        let j = i - p;
        assert(a[j] == before[p + j] && b[j] == after[p + j]);
    }
}

/// Where nothing is wrong with the first packets, nothing is with any of them.
proof fn lemma_no_error(data: Seq<u8>, n: int, k: int)
    requires
        0 <= k < n,
        count_pcr(data, n) is Ok,
    ensures
        carries_pcr(packet_at(data, k)) is Ok,
    decreases n,
{
    if k < n - 1 {
        lemma_no_error(data, n - 1, k);
    }
}

} // verus!
