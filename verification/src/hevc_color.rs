//! BT.709 limited-range colour description of HEVC Annex B access units.
//!
//! Sequence parameter sets with features that the encoder does not emit are refused
//! rather than guessed at. Slice data and other units are never rewritten.
use vstd::prelude::*;

verus! {

/// Why an access unit cannot be given its colour description.
#[derive(Clone, Copy, Debug, PartialEq, Eq, Structural)]
pub enum HevcError {
    /// No start code at all.
    NotAnnexB,
    /// A unit shorter than its header.
    TruncatedUnit,
    /// A parameter set of another layer or temporal sublayer.
    UnsupportedLayer,
    /// An empty or oversized parameter set.
    InvalidSize,
    /// An emulation prevention byte that prevents nothing.
    InvalidEmulation,
    /// A start code pattern that was not escaped.
    UnescapedPattern,
    /// The parameter set ends too early.
    Truncated,
    /// An Exp-Golomb code of more than 31 zeros.
    InvalidExpGolomb,
    /// More than six temporal sublayers.
    InvalidSublayers,
    /// A chroma format above three.
    InvalidChroma,
    /// A picture order count field of more than sixteen bits.
    InvalidPictureOrder,
    /// Explicit scaling lists.
    UnsupportedScalingList,
    /// PCM coding.
    UnsupportedPcm,
    /// Short-term reference sets.
    UnsupportedShortTerm,
    /// More than 32 long-term references.
    InvalidLongTerm,
    /// Hypothetical decoder parameters.
    UnsupportedHrd,
    /// A parameter set extension.
    UnsupportedExtension,
    /// No stop bit.
    MissingStopBit,
    /// Something other than zero padding after the stop bit.
    InvalidTrailing,
}

impl HevcError {
    /// The message shown to the user.
    pub fn text(self) -> (r: &'static str)
        ensures
            r@ == self.message(),
    {
        match self {
            HevcError::NotAnnexB => "HEVC access unit is not Annex B",
            HevcError::TruncatedUnit => "Truncated HEVC NAL header",
            HevcError::UnsupportedLayer => "Unsupported HEVC SPS layer or temporal identifier",
            HevcError::InvalidSize => "Invalid HEVC SPS size",
            HevcError::InvalidEmulation => "Invalid SPS emulation prevention",
            HevcError::UnescapedPattern => "Unescaped HEVC SPS start-code pattern",
            HevcError::Truncated => "Truncated HEVC SPS",
            HevcError::InvalidExpGolomb => "Invalid SPS Exp-Golomb value",
            HevcError::InvalidSublayers => "Invalid HEVC sublayer count",
            HevcError::InvalidChroma => "Invalid HEVC chroma format",
            HevcError::InvalidPictureOrder => "Invalid HEVC POC width",
            HevcError::UnsupportedScalingList => "Unsupported SPS scaling-list data",
            HevcError::UnsupportedPcm => "Unsupported SPS PCM",
            HevcError::UnsupportedShortTerm => "Unsupported SPS short-term reference sets",
            HevcError::InvalidLongTerm => "Invalid SPS long-term reference count",
            HevcError::UnsupportedHrd => "Unsupported SPS HRD parameters",
            HevcError::UnsupportedExtension => "Unsupported SPS extension",
            HevcError::MissingStopBit => "Missing SPS RBSP stop bit",
            HevcError::InvalidTrailing => "Invalid SPS RBSP trailing bits",
        }
    }

    /// The text of each error.
    pub open spec fn message(self) -> Seq<char> {
        match self {
            HevcError::NotAnnexB => "HEVC access unit is not Annex B"@,
            HevcError::TruncatedUnit => "Truncated HEVC NAL header"@,
            HevcError::UnsupportedLayer => "Unsupported HEVC SPS layer or temporal identifier"@,
            HevcError::InvalidSize => "Invalid HEVC SPS size"@,
            HevcError::InvalidEmulation => "Invalid SPS emulation prevention"@,
            HevcError::UnescapedPattern => "Unescaped HEVC SPS start-code pattern"@,
            HevcError::Truncated => "Truncated HEVC SPS"@,
            HevcError::InvalidExpGolomb => "Invalid SPS Exp-Golomb value"@,
            HevcError::InvalidSublayers => "Invalid HEVC sublayer count"@,
            HevcError::InvalidChroma => "Invalid HEVC chroma format"@,
            HevcError::InvalidPictureOrder => "Invalid HEVC POC width"@,
            HevcError::UnsupportedScalingList => "Unsupported SPS scaling-list data"@,
            HevcError::UnsupportedPcm => "Unsupported SPS PCM"@,
            HevcError::UnsupportedShortTerm => "Unsupported SPS short-term reference sets"@,
            HevcError::InvalidLongTerm => "Invalid SPS long-term reference count"@,
            HevcError::UnsupportedHrd => "Unsupported SPS HRD parameters"@,
            HevcError::UnsupportedExtension => "Unsupported SPS extension"@,
            HevcError::MissingStopBit => "Missing SPS RBSP stop bit"@,
            HevcError::InvalidTrailing => "Invalid SPS RBSP trailing bits"@,
        }
    }
}

// ---------------------------------------------------------------------------
// Bits of a byte string
// ---------------------------------------------------------------------------

/// Bit `j` of a byte, the most significant first.
pub open spec fn byte_bit(b: u8, j: int) -> bool {
    let v = b as int;
    if j == 0 {
        v / 128 == 1
    } else if j == 1 {
        v / 64 % 2 == 1
    } else if j == 2 {
        v / 32 % 2 == 1
    } else if j == 3 {
        v / 16 % 2 == 1
    } else if j == 4 {
        v / 8 % 2 == 1
    } else if j == 5 {
        v / 4 % 2 == 1
    } else if j == 6 {
        v / 2 % 2 == 1
    } else {
        v % 2 == 1
    }
}

/// One or zero.
pub open spec fn bit_value(b: bool) -> int {
    if b {
        1
    } else {
        0
    }
}

/// The byte with the given bits, the most significant first.
pub open spec fn byte_of(
    b0: bool,
    b1: bool,
    b2: bool,
    b3: bool,
    b4: bool,
    b5: bool,
    b6: bool,
    b7: bool,
) -> u8 {
    (bit_value(b0) * 128 + bit_value(b1) * 64 + bit_value(b2) * 32 + bit_value(b3) * 16 + bit_value(
        b4,
    ) * 8 + bit_value(b5) * 4 + bit_value(b6) * 2 + bit_value(b7)) as u8
}

/// The bits of a byte string.
pub open spec fn unpack(bytes: Seq<u8>) -> Seq<bool> {
    Seq::new(bytes.len() * 8, |k: int| byte_bit(bytes[k / 8], k % 8))
}

/// Bit `k`, or zero past the end.
pub open spec fn padded_bit(bits: Seq<bool>, k: int) -> bool {
    k < bits.len() && bits[k]
}

/// Byte `i` of a bit string that is padded with zeros to whole bytes.
pub open spec fn packed_byte(bits: Seq<bool>, i: int) -> u8 {
    byte_of(
        padded_bit(bits, i * 8),
        padded_bit(bits, i * 8 + 1),
        padded_bit(bits, i * 8 + 2),
        padded_bit(bits, i * 8 + 3),
        padded_bit(bits, i * 8 + 4),
        padded_bit(bits, i * 8 + 5),
        padded_bit(bits, i * 8 + 6),
        padded_bit(bits, i * 8 + 7),
    )
}

/// A bit string as bytes, padded with zeros.
pub open spec fn pack(bits: Seq<bool>) -> Seq<u8> {
    Seq::new(((bits.len() + 7) / 8) as nat, |i: int| packed_byte(bits, i))
}

// ---------------------------------------------------------------------------
// Emulation prevention
// ---------------------------------------------------------------------------

/// The number of zero bytes in a row after `b`, when `zeros` went before it.
pub open spec fn zero_run(zeros: int, b: u8) -> int {
    if b == 0 {
        zeros + 1
    } else {
        0
    }
}

/// `bytes` with emulation prevention, `zeros` zero bytes having gone before.
pub open spec fn escaped(bytes: Seq<u8>, zeros: int) -> Seq<u8>
    decreases bytes.len(),
{
    if bytes.len() == 0 {
        Seq::empty()
    } else {
        let b = bytes[0];
        if zeros == 2 && b <= 3 {
            seq![3u8, b] + escaped(bytes.drop_first(), zero_run(0, b))
        } else {
            seq![b] + escaped(bytes.drop_first(), zero_run(zeros, b))
        }
    }
}

/// The bytes whose escaped form is `data`, `zeros` zero bytes having gone before.
pub open spec fn unescaped(data: Seq<u8>, zeros: int) -> Result<Seq<u8>, HevcError>
    decreases data.len(),
{
    if data.len() == 0 {
        Ok(Seq::empty())
    } else {
        let b = data[0];
        if zeros == 2 && b == 3 {
            if data.len() > 1 && data[1] <= 3 {
                unescaped(data.drop_first(), 0)
            } else {
                Err(HevcError::InvalidEmulation)
            }
        } else if zeros == 2 && b <= 2 {
            Err(HevcError::UnescapedPattern)
        } else {
            match unescaped(data.drop_first(), zero_run(zeros, b)) {
                Ok(rest) => Ok(seq![b] + rest),
                Err(e) => Err(e),
            }
        }
    }
}

/// The raw bytes of a parameter set.
pub open spec fn raw_bytes(data: Seq<u8>) -> Result<Seq<u8>, HevcError> {
    if data.len() == 0 || data.len() > 4096 {
        Err(HevcError::InvalidSize)
    } else {
        unescaped(data, 0)
    }
}

// ---------------------------------------------------------------------------
// Syntax elements; each reads from the front and hands back the rest
// ---------------------------------------------------------------------------

/// The number that a bit string writes, the most significant bit first.
pub open spec fn bits_number(bits: Seq<bool>) -> int
    decreases bits.len(),
{
    if bits.len() == 0 {
        0
    } else {
        bits_number(bits.drop_last()) * 2 + bit_value(bits.last())
    }
}

/// `u(n)` for at most 32 bits.
pub open spec fn read_bits(s: Seq<bool>, n: int) -> Result<(int, Seq<bool>), HevcError> {
    if n > 32 || n > s.len() {
        Err(HevcError::Truncated)
    } else {
        Ok((bits_number(s.take(n)), s.skip(n)))
    }
}

/// `u(1)`.
pub open spec fn read_flag(s: Seq<bool>) -> Result<(bool, Seq<bool>), HevcError> {
    if s.len() == 0 {
        Err(HevcError::Truncated)
    } else {
        Ok((s[0], s.skip(1)))
    }
}

/// Leaves out `n` bits.
pub open spec fn skip_bits(s: Seq<bool>, n: int) -> Result<Seq<bool>, HevcError> {
    if n > s.len() {
        Err(HevcError::Truncated)
    } else {
        Ok(s.skip(n))
    }
}

/// Two to the power of `n`.
pub open spec fn power_of_two(n: int) -> int
    decreases n,
{
    if n <= 0 {
        1
    } else {
        2 * power_of_two(n - 1)
    }
}

/// `ue(v)` of which `zeros` leading zeros have been read.
pub open spec fn read_ue_from(s: Seq<bool>, zeros: int) -> Result<(int, Seq<bool>), HevcError>
    decreases 32 - zeros,
{
    match read_flag(s) {
        Err(e) => Err(e),
        Ok((true, rest)) => match read_bits(rest, zeros) {
            Err(e) => Err(e),
            Ok((low, end)) => Ok((power_of_two(zeros) - 1 + low, end)),
        },
        Ok((false, rest)) => if zeros >= 31 {
            Err(HevcError::InvalidExpGolomb)
        } else {
            read_ue_from(rest, zeros + 1)
        },
    }
}

/// `ue(v)`.
pub open spec fn read_ue(s: Seq<bool>) -> Result<(int, Seq<bool>), HevcError> {
    read_ue_from(s, 0)
}

/// What is left behind `ue(v)`, of which `zeros` leading zeros have been read: where it
/// breaks off, what is left there.
pub open spec fn behind_ue_from(s: Seq<bool>, zeros: int) -> Seq<bool>
    decreases 32 - zeros,
{
    match read_flag(s) {
        Err(_) => s,
        Ok((true, rest)) => match read_bits(rest, zeros) {
            Err(_) => rest,
            Ok((_, end)) => end,
        },
        Ok((false, rest)) => if zeros >= 31 {
            rest
        } else {
            behind_ue_from(rest, zeros + 1)
        },
    }
}

/// What is left behind `ue(v)`, or where it breaks off.
pub open spec fn behind_ue(s: Seq<bool>) -> Seq<bool> {
    behind_ue_from(s, 0)
}

/// What is left behind `n` values `ue(v)`, or where one of them breaks off.
pub open spec fn behind_ues(s: Seq<bool>, n: int) -> Seq<bool>
    decreases n,
{
    if n <= 0 {
        s
    } else if read_ue(s) is Err {
        behind_ue(s)
    } else {
        behind_ues(behind_ue(s), n - 1)
    }
}

/// `n` values `ue(v)`, left out.
pub open spec fn skip_ues(s: Seq<bool>, n: int) -> Result<Seq<bool>, HevcError>
    decreases n,
{
    if n <= 0 {
        Ok(s)
    } else {
        match read_ue(s) {
            Err(e) => Err(e),
            Ok((_, rest)) => skip_ues(rest, n - 1),
        }
    }
}

/// `n` bits left out after what was read before.
pub open spec fn then_skip(r: Result<Seq<bool>, HevcError>, n: int) -> Result<Seq<bool>, HevcError> {
    match r {
        Err(e) => Err(e),
        Ok(s) => skip_bits(s, n),
    }
}

/// `n` values `ue(v)` left out after what was read before.
pub open spec fn then_ues(r: Result<Seq<bool>, HevcError>, n: int) -> Result<Seq<bool>, HevcError> {
    match r {
        Err(e) => Err(e),
        Ok(s) => skip_ues(s, n),
    }
}

/// A flag, and `n` bits when it is set.
pub open spec fn then_optional_skip(r: Result<Seq<bool>, HevcError>, n: int) -> Result<
    Seq<bool>,
    HevcError,
> {
    match r {
        Err(e) => Err(e),
        Ok(s) => match read_flag(s) {
            Err(e) => Err(e),
            Ok((set, rest)) => if set {
                skip_bits(rest, n)
            } else {
                Ok(rest)
            },
        },
    }
}

/// A flag, and `n` values `ue(v)` when it is set.
pub open spec fn then_optional_ues(r: Result<Seq<bool>, HevcError>, n: int) -> Result<
    Seq<bool>,
    HevcError,
> {
    match r {
        Err(e) => Err(e),
        Ok(s) => match read_flag(s) {
            Err(e) => Err(e),
            Ok((set, rest)) => if set {
                skip_ues(rest, n)
            } else {
                Ok(rest)
            },
        },
    }
}

/// A flag that has to be clear.
pub open spec fn then_clear_flag(r: Result<Seq<bool>, HevcError>, error: HevcError) -> Result<
    Seq<bool>,
    HevcError,
> {
    match r {
        Err(e) => Err(e),
        Ok(s) => match read_flag(s) {
            Err(e) => Err(e),
            Ok((set, rest)) => if set {
                Err(error)
            } else {
                Ok(rest)
            },
        },
    }
}

// ---------------------------------------------------------------------------
// The sequence parameter set
// ---------------------------------------------------------------------------

/// Bits of the profile and level of the sublayers whose presence flags are given:
/// 88 for a profile and 8 for a level.
pub open spec fn sublayer_bits(flags: Seq<bool>) -> int
    decreases flags.len(),
{
    if flags.len() < 2 {
        0
    } else {
        sublayer_bits(flags.take(flags.len() - 2)) + bit_value(flags[flags.len() - 2]) * 88
            + bit_value(flags.last()) * 8
    }
}

/// From the video parameter set identifier to the end of `profile_tier_level`:
/// the number of sublayers and the rest.
pub open spec fn profile_tier_level(s: Seq<bool>) -> Result<(int, Seq<bool>), HevcError> {
    match skip_bits(s, 4) {
        Err(e) => Err(e),
        Ok(a) => match read_bits(a, 3) {
            Err(e) => Err(e),
            Ok((sublayers, b)) => if sublayers > 6 {
                Err(HevcError::InvalidSublayers)
            } else {
                match skip_bits(b, 97) {
                    Err(e) => Err(e),
                    Ok(c) => if sublayers == 0 {
                        Ok((0, c))
                    } else {
                        match skip_bits(c, 16) {
                            Err(e) => Err(e),
                            Ok(d) => match skip_bits(d, sublayer_bits(c.take(2 * sublayers))) {
                                Err(e) => Err(e),
                                Ok(rest) => Ok((sublayers, rest)),
                            },
                        }
                    },
                }
            },
        },
    }
}

/// Chroma format, picture size and bit depths.
pub open spec fn picture_format(s: Seq<bool>) -> Result<Seq<bool>, HevcError> {
    match read_ue(s) {
        Err(e) => Err(e),
        Ok((_, a)) => match read_ue(a) {
            Err(e) => Err(e),
            Ok((chroma, b)) => if chroma > 3 {
                Err(HevcError::InvalidChroma)
            } else {
                then_ues(
                    then_optional_ues(
                        then_ues(
                            then_skip(
                                Ok(b),
                                if chroma == 3 {
                                    1
                                } else {
                                    0
                                },
                            ),
                            2,
                        ),
                        4,
                    ),
                    2,
                )
            },
        },
    }
}

/// The width of the picture order count less four, the ordering information and the
/// block sizes.
pub open spec fn ordering_and_blocks(s: Seq<bool>, sublayers: int) -> Result<
    (int, Seq<bool>),
    HevcError,
> {
    match read_ue(s) {
        Err(e) => Err(e),
        Ok((poc, a)) => if poc > 12 {
            Err(HevcError::InvalidPictureOrder)
        } else {
            match read_flag(a) {
                Err(e) => Err(e),
                Ok((all, b)) => match then_ues(
                    skip_ues(
                        b,
                        if all {
                            (sublayers + 1) * 3
                        } else {
                            3
                        },
                    ),
                    6,
                ) {
                    Err(e) => Err(e),
                    Ok(rest) => Ok((poc, rest)),
                },
            }
        },
    }
}

/// Scaling lists, which may be enabled but not written out.
pub open spec fn scaling_lists(s: Seq<bool>) -> Result<Seq<bool>, HevcError> {
    match read_flag(s) {
        Err(e) => Err(e),
        Ok((enabled, a)) => if enabled {
            then_clear_flag(Ok(a), HevcError::UnsupportedScalingList)
        } else {
            Ok(a)
        },
    }
}

/// The number of short-term reference sets, which has to be zero.
pub open spec fn then_no_short_term(r: Result<Seq<bool>, HevcError>) -> Result<
    Seq<bool>,
    HevcError,
> {
    match r {
        Err(e) => Err(e),
        Ok(s) => match read_ue(s) {
            Err(e) => Err(e),
            Ok((sets, rest)) => if sets != 0 {
                Err(HevcError::UnsupportedShortTerm)
            } else {
                Ok(rest)
            },
        },
    }
}

/// The long-term reference pictures, with `poc + 5` bits each.
pub open spec fn then_long_term(r: Result<Seq<bool>, HevcError>, poc: int) -> Result<
    Seq<bool>,
    HevcError,
> {
    match r {
        Err(e) => Err(e),
        Ok(s) => match read_flag(s) {
            Err(e) => Err(e),
            Ok((present, a)) => if !present {
                Ok(a)
            } else {
                match read_ue(a) {
                    Err(e) => Err(e),
                    Ok((count, b)) => if count > 32 {
                        Err(HevcError::InvalidLongTerm)
                    } else {
                        skip_bits(b, count * (poc + 5))
                    },
                }
            },
        },
    }
}

/// Coding tools and reference pictures.
pub open spec fn coding_tools(s: Seq<bool>, poc: int) -> Result<Seq<bool>, HevcError> {
    then_skip(
        then_long_term(
            then_no_short_term(
                then_clear_flag(then_skip(scaling_lists(s), 2), HevcError::UnsupportedPcm),
            ),
            poc,
        ),
        2,
    )
}

/// Everything before `vui_parameters_present_flag`.
#[verifier::opaque]
pub open spec fn before_vui(s: Seq<bool>) -> Result<Seq<bool>, HevcError> {
    match profile_tier_level(s) {
        Err(e) => Err(e),
        Ok((sublayers, a)) => match picture_format(a) {
            Err(e) => Err(e),
            Ok(b) => match ordering_and_blocks(b, sublayers) {
                Err(e) => Err(e),
                Ok((poc, c)) => coding_tools(c, poc),
            },
        },
    }
}

/// Aspect ratio and overscan.
#[verifier::opaque]
pub open spec fn vui_before_color(s: Seq<bool>) -> Result<Seq<bool>, HevcError> {
    match read_flag(s) {
        Err(e) => Err(e),
        Ok((aspect, a)) => if !aspect {
            then_optional_skip(Ok(a), 1)
        } else {
            match read_bits(a, 8) {
                Err(e) => Err(e),
                Ok((ratio, b)) => then_optional_skip(
                    skip_bits(
                        b,
                        if ratio == 255 {
                            32
                        } else {
                            0
                        },
                    ),
                    1,
                ),
            }
        },
    }
}

/// The video signal type with its colour description.
#[verifier::opaque]
pub open spec fn vui_color(s: Seq<bool>) -> Result<Seq<bool>, HevcError> {
    match read_flag(s) {
        Err(e) => Err(e),
        Ok((present, a)) => if !present {
            Ok(a)
        } else {
            then_optional_skip(skip_bits(a, 4), 24)
        },
    }
}

/// Timing information without decoder parameters.
pub open spec fn then_timing(r: Result<Seq<bool>, HevcError>) -> Result<Seq<bool>, HevcError> {
    match r {
        Err(e) => Err(e),
        Ok(s) => match read_flag(s) {
            Err(e) => Err(e),
            Ok((present, a)) => if !present {
                Ok(a)
            } else {
                then_clear_flag(
                    then_optional_ues(skip_bits(a, 64), 1),
                    HevcError::UnsupportedHrd,
                )
            },
        },
    }
}

/// Bitstream restrictions.
pub open spec fn then_restriction(r: Result<Seq<bool>, HevcError>) -> Result<
    Seq<bool>,
    HevcError,
> {
    match r {
        Err(e) => Err(e),
        Ok(s) => match read_flag(s) {
            Err(e) => Err(e),
            Ok((present, a)) => if !present {
                Ok(a)
            } else {
                then_ues(skip_bits(a, 3), 5)
            },
        },
    }
}

/// From the chroma location to the end of the video usability information.
#[verifier::opaque]
pub open spec fn vui_after_color(s: Seq<bool>) -> Result<Seq<bool>, HevcError> {
    then_restriction(
        then_timing(then_optional_ues(then_skip(then_optional_ues(Ok(s), 2), 3), 4)),
    )
}

/// The extension flag, which has to be clear, and the stop bit: the padding.
#[verifier::opaque]
pub open spec fn through_stop_bit(s: Seq<bool>) -> Result<Seq<bool>, HevcError> {
    match then_clear_flag(Ok(s), HevcError::UnsupportedExtension) {
        Err(e) => Err(e),
        Ok(a) => match read_flag(a) {
            Err(e) => Err(e),
            Ok((stop, padding)) => if !stop {
                Err(HevcError::MissingStopBit)
            } else if padding.len() >= 8 || exists|i: int|
                0 <= i < padding.len() && #[trigger] padding[i] {
                Err(HevcError::InvalidTrailing)
            } else {
                Ok(padding)
            },
        },
    }
}

/// What was read of `s` when `rest` is left of it.
pub open spec fn consumed(s: Seq<bool>, rest: Seq<bool>) -> Seq<bool> {
    s.take(s.len() - rest.len())
}

/// The bits of one byte that holds one.
pub open spec fn one_byte() -> Seq<bool> {
    seq![false, false, false, false, false, false, false, true]
}

/// Signal type present, unspecified video format, limited range, description present,
/// and BT.709 primaries, transfer characteristics and matrix coefficients.
pub open spec fn bt709() -> Seq<bool> {
    seq![true, true, false, true, false, true] + one_byte() + one_byte() + one_byte()
}

/// A whole `vui_parameters` of which only the colour description is there, with its
/// presence flag.
pub open spec fn bt709_vui() -> Seq<bool> {
    seq![true, false, false] + bt709() + seq![false, false, false, false, false, false, false]
}

/// The bits of a parameter set, up to and with its stop bit, that has its colour
/// description set; `None` where it has it already.
pub open spec fn recolored(bits: Seq<bool>) -> Result<Option<Seq<bool>>, HevcError> {
    match before_vui(bits) {
        Err(e) => Err(e),
        Ok(at_vui) => match read_flag(at_vui) {
            Err(e) => Err(e),
            Ok((false, after)) => match through_stop_bit(after) {
                Err(e) => Err(e),
                Ok(padding) => Ok(
                    Some(consumed(bits, at_vui) + bt709_vui() + consumed(after, padding)),
                ),
            },
            Ok((true, vui)) => match vui_before_color(vui) {
                Err(e) => Err(e),
                Ok(color) => match vui_color(color) {
                    Err(e) => Err(e),
                    Ok(after) => match vui_after_color(after) {
                        Err(e) => Err(e),
                        Ok(end) => match through_stop_bit(end) {
                            Err(e) => Err(e),
                            Ok(padding) => if consumed(color, after) == bt709() {
                                Ok(None)
                            } else {
                                Ok(
                                    Some(
                                        consumed(bits, color) + bt709() + consumed(after, padding),
                                    ),
                                )
                            },
                        },
                    },
                },
            },
        },
    }
}

/// The escaped payload of a parameter set with its colour description set; `None`
/// where it has it already.
pub open spec fn recolored_payload(data: Seq<u8>) -> Result<Option<Seq<u8>>, HevcError> {
    match raw_bytes(data) {
        Err(e) => Err(e),
        Ok(raw) => match recolored(unpack(raw)) {
            Err(e) => Err(e),
            Ok(None) => Ok(None),
            Ok(Some(bits)) => Ok(Some(escaped(pack(bits), 0))),
        },
    }
}

// ---------------------------------------------------------------------------
// The access unit
// ---------------------------------------------------------------------------

/// A start code at `i`.
pub open spec fn code_at(s: Seq<u8>, i: int) -> bool {
    0 <= i && i + 3 <= s.len() && s[i] == 0 && s[i + 1] == 0 && s[i + 2] == 1
}

/// The first start code at or after `i`, or the length where there is none.
pub open spec fn next_code(s: Seq<u8>, i: int) -> int
    decreases s.len() - i,
{
    if i >= s.len() {
        s.len() as int
    } else if code_at(s, i) {
        i
    } else {
        next_code(s, i + 1)
    }
}

/// The units of what follows a start code.
pub open spec fn units_after_code(s: Seq<u8>) -> Seq<Seq<u8>>
    decreases s.len(),
{
    let j = next_code(s, 0);
    if j < 0 || j >= s.len() || s.len() < j + 3 {
        seq![s]
    } else {
        seq![s.take(j)] + units_after_code(s.skip(j + 3))
    }
}

/// The units of an access unit: what stands between its start codes.
pub open spec fn units(data: Seq<u8>) -> Seq<Seq<u8>> {
    let j = next_code(data, 0);
    if j >= data.len() {
        Seq::empty()
    } else {
        units_after_code(data.skip(j + 3))
    }
}

/// What goes before the first start code.
pub open spec fn lead(data: Seq<u8>) -> Seq<u8> {
    data.take(next_code(data, 0))
}

/// Units, each with a start code before it.
pub open spec fn joined(us: Seq<Seq<u8>>) -> Seq<u8>
    decreases us.len(),
{
    if us.len() == 0 {
        Seq::empty()
    } else {
        joined(us.drop_last()) + seq![0u8, 0u8, 1u8] + us.last()
    }
}

/// Without its trailing zero bytes, which belong to the byte stream.
pub open spec fn trimmed(s: Seq<u8>) -> Seq<u8>
    decreases s.len(),
{
    if s.len() > 0 && s.last() == 0 {
        trimmed(s.drop_last())
    } else {
        s
    }
}

/// A sequence parameter set, by the type in its header.
pub open spec fn is_sps(unit: Seq<u8>) -> bool {
    (unit[0] >> 1) & 63 == 33
}

/// A unit with its colour description set; `None` where nothing is to be changed.
pub open spec fn recolored_unit(unit: Seq<u8>) -> Result<Option<Seq<u8>>, HevcError> {
    if unit.len() < 2 {
        Err(HevcError::TruncatedUnit)
    } else if !is_sps(unit) {
        Ok(None)
    } else if unit[0] & 0x81 != 0 || unit[1] != 1 {
        Err(HevcError::UnsupportedLayer)
    } else {
        let payload = trimmed(unit.skip(2));
        match recolored_payload(payload) {
            Err(e) => Err(e),
            Ok(None) => Ok(None),
            Ok(Some(new)) => Ok(Some(unit.take(2) + new + unit.skip(2 + payload.len() as int))),
        }
    }
}

/// The units with their colour descriptions set, or the error of the first that
/// cannot be read.
pub open spec fn recolored_units(us: Seq<Seq<u8>>) -> Result<Seq<Seq<u8>>, HevcError>
    decreases us.len(),
{
    if us.len() == 0 {
        Ok(Seq::empty())
    } else {
        match recolored_units(us.drop_last()) {
            Err(e) => Err(e),
            Ok(done) => match recolored_unit(us.last()) {
                Err(e) => Err(e),
                Ok(None) => Ok(done.push(us.last())),
                Ok(Some(new)) => Ok(done.push(new)),
            },
        }
    }
}

/// Whether any unit is to be changed.
pub open spec fn any_recolored(us: Seq<Seq<u8>>) -> bool {
    exists|k: int|
        0 <= k < us.len() && (#[trigger] recolored_unit(us[k])) matches Ok(Some(_))
}

/// The access unit with its colour descriptions set; `None` where it has them already.
pub open spec fn recolored_access_unit(data: Seq<u8>) -> Result<Option<Seq<u8>>, HevcError> {
    if units(data).len() == 0 {
        Err(HevcError::NotAnnexB)
    } else {
        match recolored_units(units(data)) {
            Err(e) => Err(e),
            Ok(done) => if any_recolored(units(data)) {
                Ok(Some(lead(data) + joined(done)))
            } else {
                Ok(None)
            },
        }
    }
}

// ---------------------------------------------------------------------------
// Reading
// ---------------------------------------------------------------------------

/// A cursor over the bits of a parameter set.
pub struct Bits {
    bits: Vec<bool>,
    pos: usize,
}

impl Bits {
    /// The cursor stands within the bits.
    pub closed spec fn wf(&self) -> bool {
        self.pos <= self.bits@.len()
    }

    /// All bits.
    pub closed spec fn all(&self) -> Seq<bool> {
        self.bits@
    }

    /// What is still to be read.
    pub closed spec fn rest(&self) -> Seq<bool> {
        self.bits@.skip(self.pos as int)
    }

    /// A cursor in front of the first bit.
    pub fn new(bits: Vec<bool>) -> (r: Bits)
        ensures
            r.wf(),
            r.all() == bits@,
            r.rest() == bits@,
    {
        proof {
            assert(bits@.skip(0) =~= bits@);
        }
        Bits { bits, pos: 0 }
    }

    /// The place of the cursor.
    pub fn position(&self) -> (r: usize)
        requires
            self.wf(),
        ensures
            r == self.all().len() - self.rest().len(),
            self.rest() == self.all().skip(r as int),
            r <= self.all().len(),
    {
        self.pos
    }

    /// A number of `n` bits, at most 32.
    pub fn take(&mut self, n: usize) -> (r: Result<u32, HevcError>)
        requires
            old(self).wf(),
        ensures
            final(self).wf(),
            final(self).all() == old(self).all(),
            final(self).rest().len() <= old(self).rest().len(),
            match read_bits(old(self).rest(), n as int) {
                Ok((v, rest)) => r == Ok::<u32, HevcError>(v as u32) && r->Ok_0 == v
                    && final(self).rest() == rest,
                Err(e) => r == Err::<u32, HevcError>(e) && final(self).rest() == old(
                    self,
                ).rest(),
            },
    {
        let total: usize = self.bits.len();
        if n > 32 || n > total - self.pos {
            return Err(HevcError::Truncated);
        }
        let mut v: u32 = 0;
        let mut i: usize = 0;
        let ghost s = self.rest();
        proof {
            assert(s.take(0) =~= Seq::<bool>::empty());
        }
        while i < n
            invariant
                i <= n,
                n <= 32,
                self.wf(),
                *self == *old(self),
                s == self.rest(),
                total == self.bits@.len(),
                n <= total - self.pos,
                v == bits_number(s.take(i as int)),
                v < power_of_two(i as int),
            decreases n - i,
        {
            proof {
                assert(s.take(i + 1).drop_last() =~= s.take(i as int));
                lemma_power_small(i as int);
            }
            let bit: u32 = if self.bits[self.pos + i] {
                1
            } else {
                0
            };
            v = v * 2 + bit;
            i = i + 1;
        }
        self.pos = self.pos + n;
        proof {
            assert(self.rest() =~= s.skip(n as int));
        }
        Ok(v)
    }

    /// One bit.
    pub fn flag(&mut self) -> (r: Result<bool, HevcError>)
        requires
            old(self).wf(),
        ensures
            final(self).wf(),
            final(self).all() == old(self).all(),
            final(self).rest().len() <= old(self).rest().len(),
            match read_flag(old(self).rest()) {
                Ok((v, rest)) => r == Ok::<bool, HevcError>(v) && final(self).rest() == rest,
                Err(e) => r == Err::<bool, HevcError>(e) && final(self).rest() == old(
                    self,
                ).rest(),
            },
    {
        proof {
            lemma_single_bit(self.rest());
        }
        Ok(self.take(1)? != 0)
    }

    /// Leaves out `n` bits.
    pub fn skip(&mut self, n: usize) -> (r: Result<(), HevcError>)
        requires
            old(self).wf(),
        ensures
            final(self).wf(),
            final(self).all() == old(self).all(),
            final(self).rest().len() <= old(self).rest().len(),
            match skip_bits(old(self).rest(), n as int) {
                Ok(rest) => r is Ok && final(self).rest() == rest,
                Err(e) => r == Err::<(), HevcError>(e) && final(self).rest() == old(
                    self,
                ).rest(),
            },
    {
        let ghost s = self.rest();
        if n > self.bits.len() - self.pos {
            return Err(HevcError::Truncated);
        }
        self.pos = self.pos + n;
        proof {
            assert(self.rest() =~= s.skip(n as int));
        }
        Ok(())
    }

    /// An unsigned Exp-Golomb code. Where it breaks off, the cursor stays there.
    pub fn ue(&mut self) -> (r: Result<u32, HevcError>)
        requires
            old(self).wf(),
        ensures
            final(self).wf(),
            final(self).all() == old(self).all(),
            final(self).rest().len() <= old(self).rest().len(),
            match read_ue(old(self).rest()) {
                Ok((v, rest)) => r == Ok::<u32, HevcError>(v as u32) && r->Ok_0 == v
                    && final(self).rest() == rest,
                Err(e) => r == Err::<u32, HevcError>(e),
            },
            final(self).rest() == behind_ue(old(self).rest()),
    {
        let mut zeros: usize = 0;
        let mut base: u32 = 1;
        loop
            invariant_except_break
                self.wf(),
                self.all() == old(self).all(),
                self.rest().len() <= old(self).rest().len(),
                zeros <= 31,
                base == power_of_two(zeros as int),
                read_ue(old(self).rest()) == read_ue_from(self.rest(), zeros as int),
                behind_ue(old(self).rest()) == behind_ue_from(self.rest(), zeros as int),
            ensures
                self.wf(),
                self.all() == old(self).all(),
                self.rest().len() <= old(self).rest().len(),
                zeros <= 31,
                base == power_of_two(zeros as int),
                read_ue(old(self).rest()) == match read_bits(self.rest(), zeros as int) {
                    Err(e) => Err::<(int, Seq<bool>), HevcError>(e),
                    Ok((low, end)) => Ok((power_of_two(zeros as int) - 1 + low, end)),
                },
                behind_ue(old(self).rest()) == match read_bits(self.rest(), zeros as int) {
                    Err(_) => self.rest(),
                    Ok((_, end)) => end,
                },
            decreases 32 - zeros,
        {
            if self.flag()? {
                break;
            }
            if zeros == 31 {
                return Err(HevcError::InvalidExpGolomb);
            }
            proof {
                lemma_power_small(zeros as int);
                lemma_power_small(zeros + 1);
            }
            zeros = zeros + 1;
            base = base * 2;
        }
        let ghost s = self.rest();
        let low: u32 = self.take(zeros)?;
        proof {
            lemma_number_small(s.take(zeros as int));
            lemma_power_small(zeros as int);
        }
        Ok((base - 1) + low)
    }

    /// `n` unsigned Exp-Golomb codes, left out. Where one breaks off, the cursor stays there.
    pub fn ues(&mut self, n: usize) -> (r: Result<(), HevcError>)
        requires
            old(self).wf(),
        ensures
            final(self).wf(),
            final(self).all() == old(self).all(),
            final(self).rest().len() <= old(self).rest().len(),
            match skip_ues(old(self).rest(), n as int) {
                Ok(rest) => r is Ok && final(self).rest() == rest,
                Err(e) => r == Err::<(), HevcError>(e),
            },
            final(self).rest() == behind_ues(old(self).rest(), n as int),
    {
        let mut left: usize = n;
        while left > 0
            invariant
                self.wf(),
                self.all() == old(self).all(),
                self.rest().len() <= old(self).rest().len(),
                skip_ues(old(self).rest(), n as int) == skip_ues(self.rest(), left as int),
                behind_ues(old(self).rest(), n as int) == behind_ues(self.rest(), left as int),
            decreases left,
        {
            self.ue()?;
            left = left - 1;
        }
        Ok(())
    }
}

/// A power of two of at most 31 fits an unsigned 32-bit number, doubled as well.
proof fn lemma_power_small(n: int)
    requires
        0 <= n <= 32,
    ensures
        1 <= power_of_two(n) <= 4_294_967_296,
        n <= 31 ==> power_of_two(n) <= 2_147_483_648,
        power_of_two(n + 1) == 2 * power_of_two(n),
    decreases n,
{
    if n > 0 {
        lemma_power_small(n - 1);
        if n > 1 {
            lemma_power_small(n - 2);
        }
    }
    assert(n <= 31 ==> power_of_two(n) <= 2_147_483_648) by {
        if n <= 31 {
            lemma_power_monotone(n, 31);
            assert(power_of_two(31) == 2_147_483_648) by {
                reveal_with_fuel(power_of_two, 33);
            }
        }
    }
    assert(power_of_two(n) <= 4_294_967_296) by {
        lemma_power_monotone(n, 32);
        assert(power_of_two(32) == 4_294_967_296) by {
            reveal_with_fuel(power_of_two, 34);
        }
    }
}

proof fn lemma_power_monotone(a: int, b: int)
    requires
        0 <= a <= b,
    ensures
        1 <= power_of_two(a) <= power_of_two(b),
    decreases b,
{
    if b > a {
        lemma_power_monotone(a, b - 1);
    } else if a > 0 {
        lemma_power_monotone(a - 1, b - 1);
    }
}

/// A number of `n` bits lies below the `n`-th power of two.
proof fn lemma_number_small(bits: Seq<bool>)
    ensures
        0 <= bits_number(bits) < power_of_two(bits.len() as int),
    decreases bits.len(),
{
    if bits.len() > 0 {
        lemma_number_small(bits.drop_last());
    }
}

proof fn lemma_single_bit(s: Seq<bool>)
    ensures
        s.len() > 0 ==> bits_number(s.take(1)) == bit_value(s[0]),
{
    if s.len() > 0 {
        assert(s.take(1).drop_last() =~= Seq::<bool>::empty());
        reveal_with_fuel(bits_number, 3);
    }
}

// ---------------------------------------------------------------------------
// Bytes and bits
// ---------------------------------------------------------------------------

/// The bits of a byte string.
pub fn unpack_bits(bytes: &[u8]) -> (out: Vec<bool>)
    ensures
        out@ == unpack(bytes@),
{
    let mut out: Vec<bool> = Vec::new();
    let mut i: usize = 0;
    while i < bytes.len()
        invariant
            i <= bytes@.len(),
            out@ == unpack(bytes@.take(i as int)),
        decreases bytes@.len() - i,
    {
        let b: u8 = bytes[i];
        let ghost before = out@;
        out.push(b / 128 == 1);
        out.push(b / 64 % 2 == 1);
        out.push(b / 32 % 2 == 1);
        out.push(b / 16 % 2 == 1);
        out.push(b / 8 % 2 == 1);
        out.push(b / 4 % 2 == 1);
        out.push(b / 2 % 2 == 1);
        out.push(b % 2 == 1);
        proof {
            let next = unpack(bytes@.take(i + 1));
            assert(next.len() == before.len() + 8);
            assert forall|k: int| 0 <= k < next.len() implies out@[k] == next[k] by {
                if k < i * 8 {
                    assert(before[k] == byte_bit(bytes@.take(i as int)[k / 8], k % 8));
                    assert(k / 8 < i);
                } else {
                    assert(k / 8 == i);
                    assert(k % 8 == k - i * 8);
                }
            }
            assert(out@ =~= next);
        }
        i = i + 1;
    }
    proof {
        assert(bytes@.take(i as int) =~= bytes@);
    }
    out
}

/// Bit `k`, or zero past the end, as a number.
fn bit_at(bits: &[bool], k: usize) -> (r: u8)
    ensures
        r == bit_value(padded_bit(bits@, k as int)),
{
    if k < bits.len() && bits[k] {
        1
    } else {
        0
    }
}

/// Byte `i` of the padded bits.
fn pack_byte(bits: &[bool], i: usize) -> (r: u8)
    requires
        i * 8 + 7 <= usize::MAX,
    ensures
        r == packed_byte(bits@, i as int),
{
    let b0: u8 = bit_at(bits, i * 8);
    let b1: u8 = bit_at(bits, i * 8 + 1);
    let b2: u8 = bit_at(bits, i * 8 + 2);
    let b3: u8 = bit_at(bits, i * 8 + 3);
    let b4: u8 = bit_at(bits, i * 8 + 4);
    let b5: u8 = bit_at(bits, i * 8 + 5);
    let b6: u8 = bit_at(bits, i * 8 + 6);
    let b7: u8 = bit_at(bits, i * 8 + 7);
    b0 * 128 + b1 * 64 + b2 * 32 + b3 * 16 + b4 * 8 + b5 * 4 + b6 * 2 + b7
}

/// The payload bytes of a bit string: padded with zeros to whole bytes, with
/// emulation prevention.
pub fn escape(bits: &[bool]) -> (out: Vec<u8>)
    requires
        bits@.len() + 7 <= usize::MAX,
    ensures
        out@ == escaped(pack(bits@), 0),
{
    let mut out: Vec<u8> = Vec::new();
    let mut zeros: u8 = 0;
    let total: usize = (bits.len() + 7) / 8;
    let mut i: usize = 0;
    let ghost bytes = pack(bits@);
    proof {
        assert(bytes.skip(0) =~= bytes);
    }
    while i < total
        invariant
            i <= total,
            total == (bits@.len() + 7) / 8,
            bits@.len() + 7 <= usize::MAX,
            bytes == pack(bits@),
            zeros <= 2,
            escaped(bytes, 0) == out@ + escaped(bytes.skip(i as int), zeros as int),
        decreases total - i,
    {
        let byte: u8 = pack_byte(bits, i);
        let ghost rest = bytes.skip(i as int);
        let ghost before = out@;
        proof {
            assert(rest[0] == byte);
            assert(rest.drop_first() =~= bytes.skip(i + 1));
        }
        if zeros == 2 && byte <= 3 {
            out.push(3);
            zeros = 0;
        }
        out.push(byte);
        zeros = if byte == 0 {
            zeros + 1
        } else {
            0
        };
        i = i + 1;
        proof {
            let end = escaped(bytes.skip(i as int), zeros as int);
            assert(before + (seq![3u8, byte] + end) =~= before.push(3).push(byte) + end);
            assert(before + (seq![byte] + end) =~= before.push(byte) + end);
        }
    }
    proof {
        assert(bytes.skip(i as int) =~= Seq::<u8>::empty());
        assert(out@ + Seq::<u8>::empty() =~= out@);
    }
    out
}

/// The raw bytes of a payload.
pub fn unescape(data: &[u8]) -> (r: Result<Vec<u8>, HevcError>)
    ensures
        match raw_bytes(data@) {
            Ok(raw) => r is Ok && r->Ok_0@ == raw,
            Err(e) => r == Err::<Vec<u8>, HevcError>(e),
        },
{
    if data.len() == 0 || data.len() > 4096 {
        return Err(HevcError::InvalidSize);
    }
    let mut out: Vec<u8> = Vec::new();
    let mut zeros: u8 = 0;
    let mut i: usize = 0;
    proof {
        assert(data@.skip(0) =~= data@);
    }
    while i < data.len()
        invariant
            0 < data@.len() <= 4096,
            i <= data@.len(),
            zeros <= 2,
            unescaped(data@, 0) == with_front(out@, unescaped(data@.skip(i as int), zeros as int)),
        decreases data@.len() - i,
    {
        let byte: u8 = data[i];
        let ghost rest = data@.skip(i as int);
        let ghost before = out@;
        proof {
            assert(rest[0] == byte);
            assert(rest.drop_first() =~= data@.skip(i + 1));
        }
        if zeros == 2 && byte == 3 {
            if i + 1 < data.len() && data[i + 1] <= 3 {
                zeros = 0;
                i = i + 1;
                continue;
            }
            return Err(HevcError::InvalidEmulation);
        }
        if zeros == 2 && byte <= 2 {
            return Err(HevcError::UnescapedPattern);
        }
        out.push(byte);
        zeros = if byte == 0 {
            zeros + 1
        } else {
            0
        };
        i = i + 1;
        proof {
            match unescaped(data@.skip(i as int), zeros as int) {
                Ok(end) => {
                    assert(before + (seq![byte] + end) =~= out@ + end);
                },
                Err(_) => {},
            }
        }
    }
    proof {
        assert(data@.skip(i as int) =~= Seq::<u8>::empty());
        assert(out@ + Seq::<u8>::empty() =~= out@);
    }
    Ok(out)
}

/// What follows a front that was already read.
spec fn with_front(front: Seq<u8>, r: Result<Seq<u8>, HevcError>) -> Result<Seq<u8>, HevcError> {
    match r {
        Ok(rest) => Ok(front + rest),
        Err(e) => Err(e),
    }
}

// ---------------------------------------------------------------------------
// The parameter set
// ---------------------------------------------------------------------------

/// BT.709 limited-range signal type with its description.
pub fn color_bits() -> (bits: Vec<bool>)
    ensures
        bits@ == bt709(),
{
    let mut bits: Vec<bool> = vec![true, true, false, true, false, true];
    let mut i: usize = 0;
    while i < 3
        invariant
            i <= 3,
            bits@.len() == 6 + 8 * i,
            forall|k: int| 0 <= k < bits@.len() ==> bits@[k] == bt709()[k],
        decreases 3 - i,
    {
        bits.push(false);
        bits.push(false);
        bits.push(false);
        bits.push(false);
        bits.push(false);
        bits.push(false);
        bits.push(false);
        bits.push(true);
        i = i + 1;
    }
    proof {
        assert(bits@ =~= bt709());
    }
    bits
}

/// What a step of the reader owes when `read` is what it stands for.
spec fn stepped(before: Bits, after: Bits, r: Result<(), HevcError>, read: Result<Seq<bool>, HevcError>) -> bool {
    &&& after.wf()
    &&& after.all() == before.all()
    &&& after.rest().len() <= before.rest().len()
    &&& match read {
        Ok(rest) => r is Ok && after.rest() == rest,
        Err(e) => r == Err::<(), HevcError>(e),
    }
}

/// A flag, and `n` bits when it is set.
fn read_optional_skip(r: &mut Bits, n: usize) -> (out: Result<(), HevcError>)
    requires
        old(r).wf(),
    ensures
        stepped(*old(r), *final(r), out, then_optional_skip(Ok(old(r).rest()), n as int)),
{
    if r.flag()? {
        r.skip(n)?;
    }
    Ok(())
}

/// A flag, and `n` Exp-Golomb codes when it is set.
fn read_optional_ues(r: &mut Bits, n: usize) -> (out: Result<(), HevcError>)
    requires
        old(r).wf(),
    ensures
        stepped(*old(r), *final(r), out, then_optional_ues(Ok(old(r).rest()), n as int)),
{
    if r.flag()? {
        r.ues(n)?;
    }
    Ok(())
}

/// A flag that has to be clear.
fn read_clear_flag(r: &mut Bits, error: HevcError) -> (out: Result<(), HevcError>)
    requires
        old(r).wf(),
    ensures
        stepped(*old(r), *final(r), out, then_clear_flag(Ok(old(r).rest()), error)),
{
    if r.flag()? {
        return Err(error);
    }
    Ok(())
}

/// The number of sublayers, with their profiles and levels left out.
fn read_profile_tier_level(r: &mut Bits) -> (out: Result<usize, HevcError>)
    requires
        old(r).wf(),
    ensures
        final(r).wf(),
        final(r).all() == old(r).all(),
        final(r).rest().len() <= old(r).rest().len(),
        match profile_tier_level(old(r).rest()) {
            Ok((n, rest)) => out is Ok && out->Ok_0 == n && n <= 6 && final(r).rest() == rest,
            Err(e) => out == Err::<usize, HevcError>(e),
        },
{
    r.skip(4)?;
    let sublayers: usize = r.take(3)? as usize;
    if sublayers > 6 {
        return Err(HevcError::InvalidSublayers);
    }
    r.skip(97)?;
    if sublayers == 0 {
        return Ok(0);
    }
    let ghost c = r.rest();
    let mut layers: usize = 0;
    let mut i: usize = 0;
    proof {
        assert(c.take(0) =~= Seq::<bool>::empty());
        assert(c.skip(0) =~= c);
    }
    while i < sublayers
        invariant
            0 < sublayers <= 6,
            i <= sublayers,
            r.wf(),
            r.all() == old(r).all(),
            r.rest().len() <= old(r).rest().len(),
            2 * i <= c.len(),
            r.rest() == c.skip(2 * i),
            layers == sublayer_bits(c.take(2 * i)),
            layers <= 96 * i,
            profile_tier_level(old(r).rest()) == match skip_bits(c, 16) {
                Err(e) => Err::<(int, Seq<bool>), HevcError>(e),
                Ok(d) => match skip_bits(d, sublayer_bits(c.take(2 * sublayers))) {
                    Err(e) => Err(e),
                    Ok(rest) => Ok((sublayers as int, rest)),
                },
            },
        decreases sublayers - i,
    {
        let profile = r.flag()?;
        let level = r.flag()?;
        proof {
            assert(c.skip(2 * i).skip(1).skip(1) =~= c.skip(2 * (i + 1)));
            assert(c.take(2 * (i + 1)).take(2 * i) =~= c.take(2 * i));
        }
        if profile {
            layers = layers + 88;
        }
        if level {
            layers = layers + 8;
        }
        i = i + 1;
    }
    r.skip((8 - sublayers) * 2)?;
    proof {
        assert(c.skip(2 * sublayers).skip((8 - sublayers) * 2) =~= c.skip(16));
    }
    r.skip(layers)?;
    Ok(sublayers)
}

/// Chroma format, picture size and bit depths.
fn read_picture_format(r: &mut Bits) -> (out: Result<(), HevcError>)
    requires
        old(r).wf(),
    ensures
        stepped(*old(r), *final(r), out, picture_format(old(r).rest())),
{
    r.ue()?;
    let chroma: u32 = r.ue()?;
    if chroma > 3 {
        return Err(HevcError::InvalidChroma);
    }
    let plane: usize = if chroma == 3 {
        1
    } else {
        0
    };
    r.skip(plane)?;
    r.ues(2)?;
    read_optional_ues(r, 4)?;
    r.ues(2)
}

/// The width of the picture order count less four, with the ordering information and
/// the block sizes left out.
fn read_ordering_and_blocks(r: &mut Bits, sublayers: usize) -> (out: Result<usize, HevcError>)
    requires
        old(r).wf(),
        sublayers <= 6,
    ensures
        final(r).wf(),
        final(r).all() == old(r).all(),
        final(r).rest().len() <= old(r).rest().len(),
        match ordering_and_blocks(old(r).rest(), sublayers as int) {
            Ok((poc, rest)) => out is Ok && out->Ok_0 == poc && poc <= 12 && final(r).rest() == rest,
            Err(e) => out == Err::<usize, HevcError>(e),
        },
{
    let poc: u32 = r.ue()?;
    if poc > 12 {
        return Err(HevcError::InvalidPictureOrder);
    }
    let all = r.flag()?;
    let count: usize = if all {
        (sublayers + 1) * 3
    } else {
        3
    };
    r.ues(count)?;
    r.ues(6)?;
    Ok(poc as usize)
}

/// Scaling lists that are not written out.
fn read_scaling_lists(r: &mut Bits) -> (out: Result<(), HevcError>)
    requires
        old(r).wf(),
    ensures
        stepped(*old(r), *final(r), out, scaling_lists(old(r).rest())),
{
    if r.flag()? {
        read_clear_flag(r, HevcError::UnsupportedScalingList)?;
    }
    Ok(())
}

/// The long-term reference pictures.
fn read_long_term(r: &mut Bits, poc: usize) -> (out: Result<(), HevcError>)
    requires
        old(r).wf(),
        poc <= 12,
    ensures
        stepped(*old(r), *final(r), out, then_long_term(Ok(old(r).rest()), poc as int)),
{
    if r.flag()? {
        let count: u32 = r.ue()?;
        if count > 32 {
            return Err(HevcError::InvalidLongTerm);
        }
        proof {
            assert(count * (poc + 5) <= 32 * 17) by (nonlinear_arith)
                requires
                    0 <= count <= 32,
                    0 <= poc <= 12,
            ;
            assert(count * (poc + 5) >= 0) by (nonlinear_arith)
                requires
                    0 <= count <= 32,
                    0 <= poc <= 12,
            ;
        }
        r.skip(count as usize * (poc + 5))?;
    }
    Ok(())
}

/// Coding tools and reference pictures.
fn read_coding_tools(r: &mut Bits, poc: usize) -> (out: Result<(), HevcError>)
    requires
        old(r).wf(),
        poc <= 12,
    ensures
        stepped(*old(r), *final(r), out, coding_tools(old(r).rest(), poc as int)),
{
    read_scaling_lists(r)?;
    r.skip(2)?;
    read_clear_flag(r, HevcError::UnsupportedPcm)?;
    if r.ue()? != 0 {
        return Err(HevcError::UnsupportedShortTerm);
    }
    read_long_term(r, poc)?;
    r.skip(2)
}

/// Everything before the video usability information.
fn read_before_vui(r: &mut Bits) -> (out: Result<(), HevcError>)
    requires
        old(r).wf(),
    ensures
        stepped(*old(r), *final(r), out, before_vui(old(r).rest())),
{
    reveal(before_vui);
    let sublayers: usize = read_profile_tier_level(r)?;
    read_picture_format(r)?;
    let poc: usize = read_ordering_and_blocks(r, sublayers)?;
    read_coding_tools(r, poc)
}

/// Aspect ratio and overscan.
fn read_vui_before_color(r: &mut Bits) -> (out: Result<(), HevcError>)
    requires
        old(r).wf(),
    ensures
        stepped(*old(r), *final(r), out, vui_before_color(old(r).rest())),
{
    reveal(vui_before_color);
    if r.flag()? {
        let ratio: u32 = r.take(8)?;
        let extended: usize = if ratio == 255 {
            32
        } else {
            0
        };
        r.skip(extended)?;
    }
    read_optional_skip(r, 1)
}

/// The video signal type.
fn read_vui_color(r: &mut Bits) -> (out: Result<(), HevcError>)
    requires
        old(r).wf(),
    ensures
        stepped(*old(r), *final(r), out, vui_color(old(r).rest())),
{
    reveal(vui_color);
    if r.flag()? {
        r.skip(4)?;
        read_optional_skip(r, 24)?;
    }
    Ok(())
}

/// From the chroma location to the end of the video usability information.
fn read_vui_after_color(r: &mut Bits) -> (out: Result<(), HevcError>)
    requires
        old(r).wf(),
    ensures
        stepped(*old(r), *final(r), out, vui_after_color(old(r).rest())),
{
    reveal(vui_after_color);
    read_optional_ues(r, 2)?;
    r.skip(3)?;
    read_optional_ues(r, 4)?;
    if r.flag()? {
        r.skip(64)?;
        read_optional_ues(r, 1)?;
        read_clear_flag(r, HevcError::UnsupportedHrd)?;
    }
    if r.flag()? {
        r.skip(3)?;
        r.ues(5)?;
    }
    Ok(())
}

/// The end of the parameter set.
fn read_through_stop_bit(r: &mut Bits) -> (out: Result<(), HevcError>)
    requires
        old(r).wf(),
    ensures
        stepped(*old(r), *final(r), out, through_stop_bit(old(r).rest())),
{
    reveal(through_stop_bit);
    read_clear_flag(r, HevcError::UnsupportedExtension)?;
    if !r.flag()? {
        return Err(HevcError::MissingStopBit);
    }
    let ghost padding = r.rest();
    let end: usize = r.position();
    if r.bits.len() - end >= 8 {
        return Err(HevcError::InvalidTrailing);
    }
    let mut i: usize = end;
    while i < r.bits.len()
        invariant
            r.wf(),
            r.all() == old(r).all(),
            r.rest().len() <= old(r).rest().len(),
            r.rest() == padding,
            end <= i <= r.bits@.len(),
            padding == r.bits@.skip(end as int),
            padding.len() < 8,
            forall|k: int| 0 <= k < i - end ==> !#[trigger] padding[k],
            through_stop_bit(old(r).rest()) == (if padding.len() >= 8 || exists|k: int|
                0 <= k < padding.len() && #[trigger] padding[k] {
                Err::<Seq<bool>, HevcError>(HevcError::InvalidTrailing)
            } else {
                Ok(padding)
            }),
        decreases r.bits@.len() - i,
    {
        if r.bits[i] {
            proof {
                assert(padding[i - end]);
            }
            return Err(HevcError::InvalidTrailing);
        }
        i = i + 1;
    }
    Ok(())
}

/// The bits from `a` to `b` behind `out`.
fn copy_bits(out: &mut Vec<bool>, bits: &Vec<bool>, a: usize, b: usize)
    requires
        a <= b <= bits@.len(),
    ensures
        final(out)@ == old(out)@ + bits@.subrange(a as int, b as int),
{
    let mut i: usize = a;
    while i < b
        invariant
            a <= i <= b <= bits@.len(),
            out@ == old(out)@ + bits@.subrange(a as int, i as int),
        decreases b - i,
    {
        out.push(bits[i]);
        i = i + 1;
        proof {
            assert(old(out)@ + bits@.subrange(a as int, i as int) =~= (old(out)@ + bits@.subrange(
                a as int,
                i - 1,
            )).push(bits@[i - 1]));
        }
    }
}

/// Whether the bits from `a` to `b` are those of `other`.
fn bits_equal(bits: &Vec<bool>, a: usize, b: usize, other: &Vec<bool>) -> (r: bool)
    requires
        a <= b <= bits@.len(),
    ensures
        r == (bits@.subrange(a as int, b as int) == other@),
{
    if b - a != other.len() {
        return false;
    }
    let mut i: usize = 0;
    while i < other.len()
        invariant
            a <= b <= bits@.len(),
            b - a == other@.len(),
            i <= other@.len(),
            forall|k: int| 0 <= k < i ==> bits@[a + k] == #[trigger] other@[k],
        decreases other@.len() - i,
    {
        if bits[a + i] != other[i] {
            proof {
                assert(bits@.subrange(a as int, b as int)[i as int] != other@[i as int]);
            }
            return false;
        }
        i = i + 1;
    }
    proof {
        assert(bits@.subrange(a as int, b as int) =~= other@);
    }
    true
}

/// The bits with `middle` in place of those from `a` to `b`, up to `end`.
fn replace_bits(bits: &Vec<bool>, a: usize, b: usize, end: usize, middle: &Vec<bool>) -> (out: Vec<
    bool,
>)
    requires
        a <= b <= end <= bits@.len(),
    ensures
        out@ == bits@.take(a as int) + middle@ + bits@.skip(b as int).take(end - b),
{
    let mut out: Vec<bool> = Vec::new();
    copy_bits(&mut out, bits, 0, a);
    copy_bits(&mut out, middle, 0, middle.len());
    copy_bits(&mut out, bits, b, end);
    proof {
        assert(out@ =~= bits@.take(a as int) + middle@ + bits@.skip(b as int).take(end - b));
    }
    out
}

/// A whole video usability information that holds only the colour description.
fn vui_bits() -> (bits: Vec<bool>)
    ensures
        bits@ == bt709_vui(),
{
    let mut bits: Vec<bool> = vec![true, false, false];
    let color = color_bits();
    copy_bits(&mut bits, &color, 0, color.len());
    bits.push(false);
    bits.push(false);
    bits.push(false);
    bits.push(false);
    bits.push(false);
    bits.push(false);
    bits.push(false);
    proof {
        assert(color@.subrange(0, 30) =~= color@);
        assert(bits@ =~= bt709_vui());
    }
    bits
}

/// The bits of a parameter set with its colour description set; `None` where it has it
/// already.
fn recolor(bits: Vec<bool>) -> (out: Result<Option<Vec<bool>>, HevcError>)
    ensures
        match recolored(bits@) {
            Err(e) => out == Err::<Option<Vec<bool>>, HevcError>(e),
            Ok(None) => out == Ok::<Option<Vec<bool>>, HevcError>(None),
            Ok(Some(new)) => out is Ok && out->Ok_0 is Some && out->Ok_0->Some_0@ == new
                && new.len() <= bits@.len() + 40,
        },
{
    let ghost s = bits@;
    let mut r = Bits::new(bits);
    read_before_vui(&mut r)?;
    let vui_start: usize = r.position();
    if r.flag()? {
        read_vui_before_color(&mut r)?;
        let start: usize = r.position();
        read_vui_color(&mut r)?;
        let end: usize = r.position();
        read_vui_after_color(&mut r)?;
        read_through_stop_bit(&mut r)?;
        let content_end: usize = r.position();
        let replacement = color_bits();
        proof {
            assert(s.skip(start as int).take(end - start) =~= s.subrange(start as int, end as int));
        }
        if bits_equal(&r.bits, start, end, &replacement) {
            return Ok(None);
        }
        Ok(Some(replace_bits(&r.bits, start, end, content_end, &replacement)))
    } else {
        let end: usize = r.position();
        read_through_stop_bit(&mut r)?;
        let content_end: usize = r.position();
        let replacement = vui_bits();
        Ok(Some(replace_bits(&r.bits, vui_start, end, content_end, &replacement)))
    }
}

/// The payload of a parameter set with its colour description set; `None` where it has
/// it already.
pub fn patch_sps(data: &[u8]) -> (out: Result<Option<Vec<u8>>, HevcError>)
    ensures
        match recolored_payload(data@) {
            Err(e) => out == Err::<Option<Vec<u8>>, HevcError>(e),
            Ok(None) => out == Ok::<Option<Vec<u8>>, HevcError>(None),
            Ok(Some(new)) => out is Ok && out->Ok_0 is Some && out->Ok_0->Some_0@ == new,
        },
{
    let raw = unescape(data)?;
    proof {
        lemma_unescaped_len(data@, 0);
    }
    let bits = unpack_bits(raw.as_slice());
    match recolor(bits)? {
        None => Ok(None),
        Some(patched) => Ok(Some(escape(patched.as_slice()))),
    }
}

/// Removing emulation prevention makes nothing longer.
proof fn lemma_unescaped_len(data: Seq<u8>, zeros: int)
    ensures
        unescaped(data, zeros) is Ok ==> unescaped(data, zeros)->Ok_0.len() <= data.len(),
    decreases data.len(),
{
    if data.len() > 0 {
        let b = data[0];
        lemma_unescaped_len(data.drop_first(), 0);
        lemma_unescaped_len(data.drop_first(), zero_run(zeros, b));
    }
}

// ---------------------------------------------------------------------------
// The access unit, executed
// ---------------------------------------------------------------------------

/// The first start code at or after `from`, or the length.
fn find_code(data: &[u8], from: usize) -> (r: usize)
    requires
        from <= data@.len(),
    ensures
        r == next_code(data@, from as int),
        from <= r <= data@.len(),
        r < data@.len() ==> code_at(data@, r as int),
{
    let mut i: usize = from;
    while i < data.len()
        invariant
            from <= i <= data@.len(),
            next_code(data@, from as int) == next_code(data@, i as int),
        decreases data@.len() - i,
    {
        if data.len() - i >= 3 && data[i] == 0 && data[i + 1] == 0 && data[i + 2] == 1 {
            return i;
        }
        i = i + 1;
    }
    i
}

/// A unit with its colour description set; `None` where nothing is to be changed.
fn patch_unit(unit: &[u8]) -> (out: Result<Option<Vec<u8>>, HevcError>)
    ensures
        match recolored_unit(unit@) {
            Err(e) => out == Err::<Option<Vec<u8>>, HevcError>(e),
            Ok(None) => out == Ok::<Option<Vec<u8>>, HevcError>(None),
            Ok(Some(new)) => out is Ok && out->Ok_0 is Some && out->Ok_0->Some_0@ == new,
        },
{
    if unit.len() < 2 {
        return Err(HevcError::TruncatedUnit);
    }
    if (unit[0] >> 1) & 63 != 33 {
        return Ok(None);
    }
    if unit[0] & 0x81 != 0 || unit[1] != 1 {
        return Err(HevcError::UnsupportedLayer);
    }
    // Zero bytes before the next start code belong to the byte stream.
    let mut end: usize = unit.len();
    proof {
        assert(unit@.subrange(2, end as int) =~= unit@.skip(2));
    }
    while end > 2 && unit[end - 1] == 0
        invariant
            2 <= end <= unit@.len(),
            trimmed(unit@.skip(2)) == trimmed(unit@.subrange(2, end as int)),
        decreases end,
    {
        proof {
            assert(unit@.subrange(2, end as int).drop_last() =~= unit@.subrange(2, end - 1));
        }
        end = end - 1;
    }
    match patch_sps(&unit[2..end])? {
        None => Ok(None),
        Some(sps) => {
            let mut new: Vec<u8> = Vec::new();
            new.extend_from_slice(&unit[0..2]);
            new.extend_from_slice(sps.as_slice());
            new.extend_from_slice(&unit[end..unit.len()]);
            proof {
                assert(new@ =~= unit@.take(2) + sps@ + unit@.skip(end as int));
            }
            Ok(Some(new))
        },
    }
}

/// A replacement for an access unit, where one of its parameter sets needs another
/// colour description.
pub fn patch_access_unit(data: &[u8]) -> (out: Result<Option<Vec<u8>>, HevcError>)
    ensures
        match recolored_access_unit(data@) {
            Err(e) => out == Err::<Option<Vec<u8>>, HevcError>(e),
            Ok(None) => out == Ok::<Option<Vec<u8>>, HevcError>(None),
            Ok(Some(new)) => out is Ok && out->Ok_0 is Some && out->Ok_0->Some_0@ == new,
        },
{
    let first: usize = find_code(data, 0);
    if first == data.len() {
        return Err(HevcError::NotAnnexB);
    }
    let mut output: Vec<u8> = Vec::new();
    output.extend_from_slice(&data[0..first]);
    let mut changed = false;
    let mut start: usize = first + 3;
    let mut more = true;
    let ghost all = units(data@);
    let ghost mut seen: Seq<Seq<u8>> = Seq::empty();
    let ghost mut done: Seq<Seq<u8>> = Seq::empty();
    proof {
        assert(output@ =~= lead(data@) + joined(done));
        assert(seen + units_after_code(data@.skip(start as int)) =~= all);
    }
    while more
        invariant
            more ==> start <= data@.len(),
            all == units(data@),
            recolored_units(seen) == Ok::<Seq<Seq<u8>>, HevcError>(done),
            more ==> all == seen + units_after_code(data@.skip(start as int)),
            !more ==> all == seen,
            output@ == lead(data@) + joined(done),
            changed == any_recolored(seen),
        decreases
            if more {
                data@.len() - start + 1
            } else {
                0
            },
    {
        let end: usize = find_code(data, start);
        let ghost unit = data@.subrange(start as int, end as int);
        let ghost later = if end < data@.len() {
            units_after_code(data@.skip(end + 3))
        } else {
            Seq::empty()
        };
        proof {
            lemma_next_unit(data@, start as int);
            assert(all =~= seen.push(unit) + later);
            assert(seen.push(unit).drop_last() =~= seen);
        }
        let patched = match patch_unit(&data[start..end]) {
            Ok(p) => p,
            Err(e) => {
                proof {
                    assert(recolored_units(seen.push(unit)) == Err::<Seq<Seq<u8>>, HevcError>(e));
                    lemma_first_failure(seen.push(unit), later);
                    assert(all.len() > 0);
                }
                return Err(e);
            },
        };
        proof {
            lemma_any_push(seen, unit);
        }
        let ghost before = output@;
        output.push(0);
        output.push(0);
        output.push(1);
        match patched {
            Some(new) => {
                changed = true;
                output.extend_from_slice(new.as_slice());
                proof {
                    lemma_joined_push(lead(data@), done, new@);
                    assert(output@ =~= before + seq![0u8, 0u8, 1u8] + new@);
                    done = done.push(new@);
                }
            },
            None => {
                output.extend_from_slice(&data[start..end]);
                proof {
                    lemma_joined_push(lead(data@), done, unit);
                    assert(output@ =~= before + seq![0u8, 0u8, 1u8] + unit);
                    done = done.push(unit);
                }
            },
        }
        proof {
            seen = seen.push(unit);
        }
        if end == data.len() {
            more = false;
            proof {
                assert(seen + later =~= seen);
            }
        } else {
            start = end + 3;
        }
    }
    if changed {
        Ok(Some(output))
    } else {
        Ok(None)
    }
}

/// What follows a start code begins with what stands before the next one.
proof fn lemma_next_unit(data: Seq<u8>, start: int)
    requires
        0 <= start <= data.len(),
    ensures
        ({
            let end = next_code(data, start);
            &&& start <= end <= data.len()
            &&& units_after_code(data.skip(start)) == seq![data.subrange(start, end)] + if end
                < data.len() {
                units_after_code(data.skip(end + 3))
            } else {
                Seq::empty()
            }
        }),
{
    let end = next_code(data, start);
    let tail = data.skip(start);
    lemma_next_code_within(data, start);
    lemma_next_code_shift(data, start, 0);
    assert(tail.take(end - start) =~= data.subrange(start, end));
    if end < data.len() {
        assert(tail.skip(end - start + 3) =~= data.skip(end + 3));
    } else {
        assert(tail =~= data.subrange(start, end));
    }
    assert(units_after_code(tail) =~= seq![data.subrange(start, end)] + if end < data.len() {
        units_after_code(data.skip(end + 3))
    } else {
        Seq::empty()
    });
}

/// A start code that is looked for is found where one is, or not within the bytes.
proof fn lemma_next_code_within(s: Seq<u8>, i: int)
    requires
        0 <= i <= s.len(),
    ensures
        i <= next_code(s, i) <= s.len(),
        next_code(s, i) < s.len() ==> code_at(s, next_code(s, i)),
    decreases s.len() - i,
{
    if i < s.len() && !code_at(s, i) {
        lemma_next_code_within(s, i + 1);
    }
}

/// One more unit stands behind its start code.
proof fn lemma_joined_push(before: Seq<u8>, us: Seq<Seq<u8>>, u: Seq<u8>)
    ensures
        before + joined(us.push(u)) == before + joined(us) + seq![0u8, 0u8, 1u8] + u,
{
    assert(us.push(u).drop_last() =~= us);
    assert(before + joined(us.push(u)) =~= before + joined(us) + seq![0u8, 0u8, 1u8] + u);
}

/// Looking for a start code in a tail finds what looking from its place finds.
proof fn lemma_next_code_shift(s: Seq<u8>, start: int, i: int)
    requires
        0 <= start <= s.len(),
        0 <= i,
    ensures
        next_code(s.skip(start), i) + start == next_code(s, start + i) || start + i > s.len(),
    decreases s.len() - start - i,
{
    let t = s.skip(start);
    if start + i < s.len() {
        assert(code_at(t, i) == code_at(s, start + i));
        lemma_next_code_shift(s, start, i + 1);
    }
}

/// An error among the first units is the error of them all.
proof fn lemma_first_failure(us: Seq<Seq<u8>>, later: Seq<Seq<u8>>)
    requires
        recolored_units(us) is Err,
    ensures
        recolored_units(us + later) == recolored_units(us),
    decreases later.len(),
{
    if later.len() == 0 {
        assert(us + later =~= us);
    } else {
        assert((us + later).drop_last() =~= us + later.drop_last());
        lemma_first_failure(us, later.drop_last());
    }
}

/// One more unit.
proof fn lemma_any_push(us: Seq<Seq<u8>>, unit: Seq<u8>)
    ensures
        any_recolored(us.push(unit)) == (any_recolored(us) || recolored_unit(unit) matches Ok(
            Some(_),
        )),
{
    let next = us.push(unit);
    if any_recolored(us) {
        let k = choose|k: int|
            0 <= k < us.len() && (#[trigger] recolored_unit(us[k])) matches Ok(Some(_));
        assert(next[k] == us[k]);
        assert(recolored_unit(next[k]) matches Ok(Some(_)));
    }
    if recolored_unit(unit) matches Ok(Some(_)) {
        assert(recolored_unit(next[us.len() as int]) matches Ok(Some(_)));
    }
    if any_recolored(next) {
        let k = choose|k: int|
            0 <= k < next.len() && (#[trigger] recolored_unit(next[k])) matches Ok(Some(_));
        if k < us.len() {
            assert(recolored_unit(us[k]) matches Ok(Some(_)));
        }
    }
}

// ---------------------------------------------------------------------------
// Laws of bytes and bits
// ---------------------------------------------------------------------------

/// Removing emulation prevention gives back the bytes to which it was added.
pub proof fn law_unescape_after_escape(bytes: Seq<u8>, zeros: int)
    requires
        0 <= zeros <= 2,
    ensures
        unescaped(escaped(bytes, zeros), zeros) == Ok::<Seq<u8>, HevcError>(bytes),
    decreases bytes.len(),
{
    if bytes.len() > 0 {
        let b = bytes[0];
        let rest = bytes.drop_first();
        let out = escaped(bytes, zeros);
        if zeros == 2 && b <= 3 {
            let end = escaped(rest, zero_run(0, b));
            law_unescape_after_escape(rest, zero_run(0, b));
            assert(out.drop_first() =~= seq![b] + end);
            assert((seq![b] + end).drop_first() =~= end);
            assert(unescaped(seq![b] + end, 0) == Ok::<Seq<u8>, HevcError>(seq![b] + rest));
        } else {
            let end = escaped(rest, zero_run(zeros, b));
            law_unescape_after_escape(rest, zero_run(zeros, b));
            assert(out.drop_first() =~= end);
        }
        assert(seq![b] + rest =~= bytes);
    } else {
        assert(bytes =~= Seq::<u8>::empty());
    }
}

/// Adding emulation prevention gives back the payload from which it was removed.
pub proof fn law_escape_after_unescape(data: Seq<u8>, zeros: int)
    requires
        0 <= zeros <= 2,
        unescaped(data, zeros) is Ok,
    ensures
        escaped(unescaped(data, zeros)->Ok_0, zeros) == data,
    decreases data.len(),
{
    if data.len() > 0 {
        let b = data[0];
        let rest = data.drop_first();
        let raw = unescaped(data, zeros)->Ok_0;
        if zeros == 2 && b == 3 {
            law_escape_after_unescape(rest, 0);
            let n = rest[0];
            let end = unescaped(rest.drop_first(), zero_run(0, n))->Ok_0;
            assert(raw == seq![n] + end);
            assert(raw.drop_first() =~= end);
            assert(escaped(raw, 0) == seq![n] + escaped(end, zero_run(0, n)));
            assert(escaped(raw, 2) == seq![3u8, n] + escaped(end, zero_run(0, n)));
            assert(data =~= seq![3u8] + rest);
        } else {
            law_escape_after_unescape(rest, zero_run(zeros, b));
            let end = unescaped(rest, zero_run(zeros, b))->Ok_0;
            assert(raw.drop_first() =~= end);
            assert(data =~= seq![b] + rest);
        }
    } else {
        assert(data =~= Seq::<u8>::empty());
    }
}

/// No start code within.
pub open spec fn no_code(s: Seq<u8>) -> bool {
    forall|i: int| !code_at(s, i)
}

/// That many zero bytes.
pub open spec fn zero_bytes(n: int) -> Seq<u8> {
    Seq::new(n as nat, |i: int| 0u8)
}

/// What has emulation prevention holds no start code, whatever zeros went before it.
pub proof fn law_escaped_has_no_start_code(bytes: Seq<u8>, zeros: int)
    requires
        0 <= zeros <= 2,
    ensures
        no_code(zero_bytes(zeros) + escaped(bytes, zeros)),
    decreases bytes.len(),
{
    let out = zero_bytes(zeros) + escaped(bytes, zeros);
    if bytes.len() > 0 {
        let b = bytes[0];
        let rest = bytes.drop_first();
        if zeros == 2 && b <= 3 {
            let z = zero_run(0, b);
            law_escaped_has_no_start_code(rest, z);
            let inner = zero_bytes(z) + escaped(rest, z);
            assert forall|i: int| !code_at(out, i) by {
                if code_at(out, i) {
                    if b == 0 {
                        if i >= 3 {
                            assert(code_at(inner, i - 3));
                        }
                    } else if i >= 4 {
                        assert(code_at(inner, i - 4));
                    }
                }
            }
        } else {
            let z = zero_run(zeros, b);
            law_escaped_has_no_start_code(rest, z);
            let inner = zero_bytes(z) + escaped(rest, z);
            if b == 0 {
                assert(out =~= inner);
            } else {
                assert forall|i: int| !code_at(out, i) by {
                    if code_at(out, i) && i >= zeros + 1 {
                        assert(code_at(inner, i - zeros - 1));
                    }
                }
            }
        }
    }
}

/// The last byte is kept by emulation prevention.
proof fn lemma_escaped_last(bytes: Seq<u8>, zeros: int)
    requires
        bytes.len() > 0,
    ensures
        escaped(bytes, zeros).len() > 0,
        escaped(bytes, zeros).last() == bytes.last(),
    decreases bytes.len(),
{
    let b = bytes[0];
    let rest = bytes.drop_first();
    if rest.len() > 0 {
        lemma_escaped_last(rest, zero_run(0, b));
        lemma_escaped_last(rest, zero_run(zeros, b));
        assert(rest.last() == bytes.last());
    } else {
        assert(escaped(rest, zero_run(0, b)) =~= Seq::<u8>::empty());
        assert(escaped(rest, zero_run(zeros, b)) =~= Seq::<u8>::empty());
    }
}

/// Emulation prevention adds at most a byte for every byte.
proof fn lemma_escaped_len(bytes: Seq<u8>, zeros: int)
    ensures
        bytes.len() <= escaped(bytes, zeros).len() <= 2 * bytes.len(),
    decreases bytes.len(),
{
    if bytes.len() > 0 {
        lemma_escaped_len(bytes.drop_first(), zero_run(0, bytes[0]));
        lemma_escaped_len(bytes.drop_first(), zero_run(zeros, bytes[0]));
    }
}

/// That many zero bits.
pub open spec fn zero_bits(n: int) -> Seq<bool> {
    Seq::new(n as nat, |i: int| false)
}

/// The digits of a sum of weighted digits.
proof fn lemma_digits(v0: int, v1: int, v2: int, v3: int, v4: int, v5: int, v6: int, v7: int)
    requires
        0 <= v0 <= 1,
        0 <= v1 <= 1,
        0 <= v2 <= 1,
        0 <= v3 <= 1,
        0 <= v4 <= 1,
        0 <= v5 <= 1,
        0 <= v6 <= 1,
        0 <= v7 <= 1,
    ensures
        ({
            let v = v0 * 128 + v1 * 64 + v2 * 32 + v3 * 16 + v4 * 8 + v5 * 4 + v6 * 2 + v7;
            v / 128 == v0 && v / 64 % 2 == v1 && v / 32 % 2 == v2 && v / 16 % 2 == v3 && v / 8 % 2
                == v4 && v / 4 % 2 == v5 && v / 2 % 2 == v6 && v % 2 == v7
        }),
{
}

/// The bits of the byte that was made of them.
proof fn lemma_byte_bits(
    b0: bool,
    b1: bool,
    b2: bool,
    b3: bool,
    b4: bool,
    b5: bool,
    b6: bool,
    b7: bool,
)
    ensures
        ({
            let b = byte_of(b0, b1, b2, b3, b4, b5, b6, b7);
            byte_bit(b, 0) == b0 && byte_bit(b, 1) == b1 && byte_bit(b, 2) == b2 && byte_bit(b, 3)
                == b3 && byte_bit(b, 4) == b4 && byte_bit(b, 5) == b5 && byte_bit(b, 6) == b6
                && byte_bit(b, 7) == b7
        }),
{
    lemma_digits(
        bit_value(b0),
        bit_value(b1),
        bit_value(b2),
        bit_value(b3),
        bit_value(b4),
        bit_value(b5),
        bit_value(b6),
        bit_value(b7),
    );
}

/// The bits of the bytes of a bit string are that string with zero padding of less than
/// a byte.
pub proof fn law_unpack_after_pack(bits: Seq<bool>)
    ensures
        unpack(pack(bits)) == bits + zero_bits(unpack(pack(bits)).len() - bits.len()),
        bits.len() <= unpack(pack(bits)).len() < bits.len() + 8,
{
    let out = unpack(pack(bits));
    assert(out.len() == (bits.len() + 7) / 8 * 8);
    let padded = bits + zero_bits(out.len() - bits.len());
    assert forall|k: int| 0 <= k < out.len() implies out[k] == padded[k] by {
        let i = k / 8;
        lemma_byte_bits(
            padded_bit(bits, i * 8),
            padded_bit(bits, i * 8 + 1),
            padded_bit(bits, i * 8 + 2),
            padded_bit(bits, i * 8 + 3),
            padded_bit(bits, i * 8 + 4),
            padded_bit(bits, i * 8 + 5),
            padded_bit(bits, i * 8 + 6),
            padded_bit(bits, i * 8 + 7),
        );
        assert(pack(bits)[i] == packed_byte(bits, i));
        assert(k % 8 == k - i * 8);
        assert(out[k] == byte_bit(packed_byte(bits, i), k % 8));
        assert(out[k] == padded_bit(bits, k));
    }
    assert(out =~= padded);
}

/// A bit string that ends in a one fills a last byte that is not zero.
proof fn lemma_pack_last(bits: Seq<bool>)
    requires
        bits.len() > 0,
        bits.last(),
    ensures
        pack(bits).len() > 0,
        pack(bits).last() != 0,
{
    let n = bits.len() - 1;
    let i = n / 8;
    assert(pack(bits).len() == i + 1);
    lemma_byte_bits(
        padded_bit(bits, i * 8),
        padded_bit(bits, i * 8 + 1),
        padded_bit(bits, i * 8 + 2),
        padded_bit(bits, i * 8 + 3),
        padded_bit(bits, i * 8 + 4),
        padded_bit(bits, i * 8 + 5),
        padded_bit(bits, i * 8 + 6),
        padded_bit(bits, i * 8 + 7),
    );
    assert(padded_bit(bits, n));
    assert(byte_bit(packed_byte(bits, i), n % 8));
}

// ---------------------------------------------------------------------------
// What is read does not depend on what follows
// ---------------------------------------------------------------------------

/// `rest` is the end of `s`, at most `bound` bits from its start.
pub open spec fn splits(s: Seq<bool>, rest: Seq<bool>, bound: int) -> bool {
    &&& rest.len() <= s.len() <= rest.len() + bound
    &&& s == consumed(s, rest) + rest
}

/// Two steps, with another end behind them.
proof fn lemma_join(s: Seq<bool>, a: Seq<bool>, b: Seq<bool>, u: Seq<bool>, n: int, m: int)
    requires
        splits(s, a, n),
        splits(a, b, m),
    ensures
        splits(s, b, n + m),
        consumed(s, b) + u == consumed(s, a) + (consumed(a, b) + u),
        consumed(s, b) == consumed(s, a) + consumed(a, b),
{
    let c = consumed(s, a) + consumed(a, b);
    assert(s =~= c + b);
    assert(consumed(s, b) =~= c);
    assert(consumed(s, b) + u =~= consumed(s, a) + (consumed(a, b) + u));
}

proof fn lemma_skip_bits(s: Seq<bool>, n: int, u: Seq<bool>)
    requires
        0 <= n,
        skip_bits(s, n) is Ok,
    ensures
        splits(s, skip_bits(s, n)->Ok_0, n),
        skip_bits(consumed(s, skip_bits(s, n)->Ok_0) + u, n) == Ok::<Seq<bool>, HevcError>(u),
{
    let rest = s.skip(n);
    assert(s =~= consumed(s, rest) + rest);
    assert((consumed(s, rest) + u).skip(n) =~= u);
}

proof fn lemma_read_flag(s: Seq<bool>, u: Seq<bool>)
    requires
        read_flag(s) is Ok,
    ensures
        splits(s, read_flag(s)->Ok_0.1, 1),
        read_flag(consumed(s, read_flag(s)->Ok_0.1) + u) == Ok::<(bool, Seq<bool>), HevcError>(
            (read_flag(s)->Ok_0.0, u),
        ),
{
    let rest = s.skip(1);
    assert(s =~= consumed(s, rest) + rest);
    assert((consumed(s, rest) + u).skip(1) =~= u);
}

proof fn lemma_read_bits(s: Seq<bool>, n: int, u: Seq<bool>)
    requires
        0 <= n,
        read_bits(s, n) is Ok,
    ensures
        splits(s, read_bits(s, n)->Ok_0.1, n),
        read_bits(consumed(s, read_bits(s, n)->Ok_0.1) + u, n) == Ok::<
            (int, Seq<bool>),
            HevcError,
        >((read_bits(s, n)->Ok_0.0, u)),
{
    let rest = s.skip(n);
    assert(s =~= consumed(s, rest) + rest);
    assert((consumed(s, rest) + u).skip(n) =~= u);
    assert((consumed(s, rest) + u).take(n) =~= s.take(n));
}

proof fn lemma_read_ue_from(s: Seq<bool>, zeros: int, u: Seq<bool>)
    requires
        0 <= zeros <= 31,
        read_ue_from(s, zeros) is Ok,
    ensures
        splits(s, read_ue_from(s, zeros)->Ok_0.1, 63 - zeros),
        read_ue_from(consumed(s, read_ue_from(s, zeros)->Ok_0.1) + u, zeros) == Ok::<
            (int, Seq<bool>),
            HevcError,
        >((read_ue_from(s, zeros)->Ok_0.0, u)),
    decreases 32 - zeros,
{
    let (_, end) = read_ue_from(s, zeros)->Ok_0;
    let (set, a) = read_flag(s)->Ok_0;
    lemma_read_flag(s, u);
    if set {
        lemma_read_bits(a, zeros, u);
        lemma_join(s, a, end, u, 1, zeros);
        lemma_read_flag(s, consumed(a, end) + u);
    } else {
        lemma_read_ue_from(a, zeros + 1, u);
        lemma_join(s, a, end, u, 1, 63 - zeros - 1);
        lemma_read_flag(s, consumed(a, end) + u);
    }
}

proof fn lemma_read_ue(s: Seq<bool>, u: Seq<bool>)
    requires
        read_ue(s) is Ok,
    ensures
        splits(s, read_ue(s)->Ok_0.1, 63),
        read_ue(consumed(s, read_ue(s)->Ok_0.1) + u) == Ok::<(int, Seq<bool>), HevcError>(
            (read_ue(s)->Ok_0.0, u),
        ),
{
    lemma_read_ue_from(s, 0, u);
}

proof fn lemma_skip_ues(s: Seq<bool>, n: int, u: Seq<bool>)
    requires
        0 <= n,
        skip_ues(s, n) is Ok,
    ensures
        splits(s, skip_ues(s, n)->Ok_0, 63 * n),
        skip_ues(consumed(s, skip_ues(s, n)->Ok_0) + u, n) == Ok::<Seq<bool>, HevcError>(u),
    decreases n,
{
    if n == 0 {
        assert(s =~= consumed(s, s) + s);
        assert(consumed(s, s) + u =~= u);
    } else {
        let (_, a) = read_ue(s)->Ok_0;
        let end = skip_ues(s, n)->Ok_0;
        lemma_skip_ues(a, n - 1, u);
        lemma_read_ue(s, consumed(a, end) + u);
        lemma_join(s, a, end, u, 63, 63 * (n - 1));
    }
}

proof fn lemma_optional_skip(s: Seq<bool>, n: int, u: Seq<bool>)
    requires
        0 <= n,
        then_optional_skip(Ok(s), n) is Ok,
    ensures
        splits(s, then_optional_skip(Ok(s), n)->Ok_0, 1 + n),
        then_optional_skip(Ok(consumed(s, then_optional_skip(Ok(s), n)->Ok_0) + u), n) == Ok::<
            Seq<bool>,
            HevcError,
        >(u),
{
    let (set, a) = read_flag(s)->Ok_0;
    let end = then_optional_skip(Ok(s), n)->Ok_0;
    lemma_read_flag(s, u);
    if set {
        lemma_skip_bits(a, n, u);
        lemma_join(s, a, end, u, 1, n);
        lemma_read_flag(s, consumed(a, end) + u);
    }
}

proof fn lemma_optional_ues(s: Seq<bool>, n: int, u: Seq<bool>)
    requires
        0 <= n,
        then_optional_ues(Ok(s), n) is Ok,
    ensures
        splits(s, then_optional_ues(Ok(s), n)->Ok_0, 1 + 63 * n),
        then_optional_ues(Ok(consumed(s, then_optional_ues(Ok(s), n)->Ok_0) + u), n) == Ok::<
            Seq<bool>,
            HevcError,
        >(u),
{
    let (set, a) = read_flag(s)->Ok_0;
    let end = then_optional_ues(Ok(s), n)->Ok_0;
    lemma_read_flag(s, u);
    if set {
        lemma_skip_ues(a, n, u);
        lemma_join(s, a, end, u, 1, 63 * n);
        lemma_read_flag(s, consumed(a, end) + u);
    }
}

proof fn lemma_clear_flag(s: Seq<bool>, error: HevcError, u: Seq<bool>)
    requires
        then_clear_flag(Ok(s), error) is Ok,
    ensures
        splits(s, then_clear_flag(Ok(s), error)->Ok_0, 1),
        then_clear_flag(Ok(consumed(s, then_clear_flag(Ok(s), error)->Ok_0) + u), error) == Ok::<
            Seq<bool>,
            HevcError,
        >(u),
{
    lemma_read_flag(s, u);
}

/// Sublayers take at most 96 bits each.
proof fn lemma_sublayer_bits(flags: Seq<bool>)
    ensures
        0 <= sublayer_bits(flags) <= 48 * flags.len(),
    decreases flags.len(),
{
    if flags.len() >= 2 {
        lemma_sublayer_bits(flags.take(flags.len() - 2));
    }
}

proof fn lemma_profile_tier_level(s: Seq<bool>, u: Seq<bool>)
    requires
        profile_tier_level(s) is Ok,
    ensures
        splits(s, profile_tier_level(s)->Ok_0.1, 696),
        0 <= profile_tier_level(s)->Ok_0.0 <= 6,
        profile_tier_level(consumed(s, profile_tier_level(s)->Ok_0.1) + u) == Ok::<
            (int, Seq<bool>),
            HevcError,
        >((profile_tier_level(s)->Ok_0.0, u)),
{
    let (n, end) = profile_tier_level(s)->Ok_0;
    let a = skip_bits(s, 4)->Ok_0;
    let b = read_bits(a, 3)->Ok_0.1;
    let c = skip_bits(b, 97)->Ok_0;
    lemma_number_small(a.take(3));
    lemma_skip_bits(s, 4, u);
    lemma_read_bits(a, 3, u);
    lemma_skip_bits(b, 97, u);
    if n == 0 {
        lemma_join(b, c, c, u, 97, 0);
        lemma_join(a, b, c, u, 3, 97);
        lemma_join(s, a, c, u, 4, 100);
        lemma_read_bits(a, 3, consumed(b, c) + u);
        lemma_skip_bits(s, 4, consumed(a, c) + u);
    } else {
        let d = skip_bits(c, 16)->Ok_0;
        let layers = sublayer_bits(c.take(2 * n));
        lemma_sublayer_bits(c.take(2 * n));
        lemma_skip_bits(c, 16, u);
        lemma_skip_bits(d, layers, u);
        lemma_join(c, d, end, u, 16, layers);
        lemma_join(b, c, end, u, 97, 16 + layers);
        lemma_join(a, b, end, u, 3, 113 + layers);
        lemma_join(s, a, end, u, 4, 116 + layers);
        lemma_skip_bits(c, 16, consumed(d, end) + u);
        lemma_skip_bits(b, 97, consumed(c, end) + u);
        lemma_read_bits(a, 3, consumed(b, end) + u);
        lemma_skip_bits(s, 4, consumed(a, end) + u);
        assert((consumed(c, end) + u).take(2 * n) =~= c.take(2 * n));
    }
}

proof fn lemma_picture_format(s: Seq<bool>, u: Seq<bool>)
    requires
        picture_format(s) is Ok,
    ensures
        splits(s, picture_format(s)->Ok_0, 632),
        picture_format(consumed(s, picture_format(s)->Ok_0) + u) == Ok::<Seq<bool>, HevcError>(u),
{
    let end = picture_format(s)->Ok_0;
    let a = read_ue(s)->Ok_0.1;
    let (chroma, b) = read_ue(a)->Ok_0;
    let plane: int = if chroma == 3 {
        1
    } else {
        0
    };
    let c = skip_bits(b, plane)->Ok_0;
    let d = skip_ues(c, 2)->Ok_0;
    let e = then_optional_ues(Ok(d), 4)->Ok_0;
    lemma_skip_ues(e, 2, u);
    let u4 = consumed(e, end) + u;
    lemma_optional_ues(d, 4, u4);
    lemma_join(d, e, end, u, 253, 126);
    let u3 = consumed(d, end) + u;
    lemma_skip_ues(c, 2, u3);
    lemma_join(c, d, end, u, 126, 379);
    let u2 = consumed(c, end) + u;
    lemma_skip_bits(b, plane, u2);
    lemma_join(b, c, end, u, plane, 505);
    let u1 = consumed(b, end) + u;
    lemma_read_ue(a, u1);
    lemma_join(a, b, end, u, 63, 505 + plane);
    lemma_read_ue(s, consumed(a, end) + u);
    lemma_join(s, a, end, u, 63, 568 + plane);
}

proof fn lemma_ordering_and_blocks(s: Seq<bool>, sublayers: int, u: Seq<bool>)
    requires
        0 <= sublayers <= 6,
        ordering_and_blocks(s, sublayers) is Ok,
    ensures
        splits(s, ordering_and_blocks(s, sublayers)->Ok_0.1, 1765),
        0 <= ordering_and_blocks(s, sublayers)->Ok_0.0 <= 12,
        ordering_and_blocks(consumed(s, ordering_and_blocks(s, sublayers)->Ok_0.1) + u, sublayers)
            == Ok::<(int, Seq<bool>), HevcError>(
            (ordering_and_blocks(s, sublayers)->Ok_0.0, u),
        ),
{
    let end = ordering_and_blocks(s, sublayers)->Ok_0.1;
    let (poc, a) = read_ue(s)->Ok_0;
    let (all, b) = read_flag(a)->Ok_0;
    let count: int = if all {
        (sublayers + 1) * 3
    } else {
        3
    };
    let c = skip_ues(b, count)->Ok_0;
    lemma_ue_value(s, 0);
    lemma_skip_ues(c, 6, u);
    lemma_skip_ues(b, count, consumed(c, end) + u);
    lemma_join(b, c, end, u, 63 * count, 378);
    lemma_read_flag(a, consumed(b, end) + u);
    lemma_join(a, b, end, u, 1, 63 * count + 378);
    lemma_read_ue(s, consumed(a, end) + u);
    lemma_join(s, a, end, u, 63, 63 * count + 379);
}

/// An Exp-Golomb value is not negative.
proof fn lemma_ue_value(s: Seq<bool>, zeros: int)
    requires
        0 <= zeros <= 31,
        read_ue_from(s, zeros) is Ok,
    ensures
        0 <= read_ue_from(s, zeros)->Ok_0.0,
    decreases 32 - zeros,
{
    let (set, a) = read_flag(s)->Ok_0;
    if set {
        lemma_number_small(a.take(zeros));
        lemma_power_small(zeros);
    } else {
        lemma_ue_value(a, zeros + 1);
    }
}

proof fn lemma_scaling_lists(s: Seq<bool>, u: Seq<bool>)
    requires
        scaling_lists(s) is Ok,
    ensures
        splits(s, scaling_lists(s)->Ok_0, 2),
        scaling_lists(consumed(s, scaling_lists(s)->Ok_0) + u) == Ok::<Seq<bool>, HevcError>(u),
{
    let end = scaling_lists(s)->Ok_0;
    let (set, a) = read_flag(s)->Ok_0;
    lemma_read_flag(s, u);
    if set {
        lemma_clear_flag(a, HevcError::UnsupportedScalingList, u);
        lemma_read_flag(s, consumed(a, end) + u);
        lemma_join(s, a, end, u, 1, 1);
    }
}

proof fn lemma_no_short_term(s: Seq<bool>, u: Seq<bool>)
    requires
        then_no_short_term(Ok(s)) is Ok,
    ensures
        splits(s, then_no_short_term(Ok(s))->Ok_0, 63),
        then_no_short_term(Ok(consumed(s, then_no_short_term(Ok(s))->Ok_0) + u)) == Ok::<
            Seq<bool>,
            HevcError,
        >(u),
{
    lemma_read_ue(s, u);
}

proof fn lemma_long_term(s: Seq<bool>, poc: int, u: Seq<bool>)
    requires
        0 <= poc <= 12,
        then_long_term(Ok(s), poc) is Ok,
    ensures
        splits(s, then_long_term(Ok(s), poc)->Ok_0, 608),
        then_long_term(Ok(consumed(s, then_long_term(Ok(s), poc)->Ok_0) + u), poc) == Ok::<
            Seq<bool>,
            HevcError,
        >(u),
{
    let end = then_long_term(Ok(s), poc)->Ok_0;
    let (set, a) = read_flag(s)->Ok_0;
    lemma_read_flag(s, u);
    if set {
        let (count, b) = read_ue(a)->Ok_0;
        lemma_ue_value(a, 0);
        assert(0 <= count * (poc + 5) <= 544) by (nonlinear_arith)
            requires
                0 <= count <= 32,
                0 <= poc <= 12,
        ;
        lemma_skip_bits(b, count * (poc + 5), u);
        lemma_read_ue(a, consumed(b, end) + u);
        lemma_join(a, b, end, u, 63, 544);
        lemma_read_flag(s, consumed(a, end) + u);
        lemma_join(s, a, end, u, 1, 607);
    }
}

proof fn lemma_coding_tools(s: Seq<bool>, poc: int, u: Seq<bool>)
    requires
        0 <= poc <= 12,
        coding_tools(s, poc) is Ok,
    ensures
        splits(s, coding_tools(s, poc)->Ok_0, 678),
        coding_tools(consumed(s, coding_tools(s, poc)->Ok_0) + u, poc) == Ok::<
            Seq<bool>,
            HevcError,
        >(u),
{
    let end = coding_tools(s, poc)->Ok_0;
    let a = scaling_lists(s)->Ok_0;
    let b = skip_bits(a, 2)->Ok_0;
    let c = then_clear_flag(Ok(b), HevcError::UnsupportedPcm)->Ok_0;
    let d = then_no_short_term(Ok(c))->Ok_0;
    let e = then_long_term(Ok(d), poc)->Ok_0;
    lemma_skip_bits(e, 2, u);
    lemma_long_term(d, poc, consumed(e, end) + u);
    lemma_join(d, e, end, u, 608, 2);
    lemma_no_short_term(c, consumed(d, end) + u);
    lemma_join(c, d, end, u, 63, 610);
    lemma_clear_flag(b, HevcError::UnsupportedPcm, consumed(c, end) + u);
    lemma_join(b, c, end, u, 1, 673);
    lemma_skip_bits(a, 2, consumed(b, end) + u);
    lemma_join(a, b, end, u, 2, 674);
    lemma_scaling_lists(s, consumed(a, end) + u);
    lemma_join(s, a, end, u, 2, 676);
}

proof fn lemma_before_vui(s: Seq<bool>, u: Seq<bool>)
    requires
        before_vui(s) is Ok,
    ensures
        splits(s, before_vui(s)->Ok_0, 3771),
        before_vui(consumed(s, before_vui(s)->Ok_0) + u) == Ok::<Seq<bool>, HevcError>(u),
{
    reveal(before_vui);
    let end = before_vui(s)->Ok_0;
    let (sublayers, a) = profile_tier_level(s)->Ok_0;
    lemma_profile_tier_level(s, u);
    let b = picture_format(a)->Ok_0;
    lemma_picture_format(a, u);
    let (poc, c) = ordering_and_blocks(b, sublayers)->Ok_0;
    lemma_ordering_and_blocks(b, sublayers, u);
    lemma_coding_tools(c, poc, u);
    lemma_ordering_and_blocks(b, sublayers, consumed(c, end) + u);
    lemma_join(b, c, end, u, 1765, 678);
    lemma_picture_format(a, consumed(b, end) + u);
    lemma_join(a, b, end, u, 632, 2443);
    lemma_profile_tier_level(s, consumed(a, end) + u);
    lemma_join(s, a, end, u, 696, 3075);
}

proof fn lemma_vui_before_color(s: Seq<bool>, u: Seq<bool>)
    requires
        vui_before_color(s) is Ok,
    ensures
        splits(s, vui_before_color(s)->Ok_0, 43),
        vui_before_color(consumed(s, vui_before_color(s)->Ok_0) + u) == Ok::<
            Seq<bool>,
            HevcError,
        >(u),
{
    reveal(vui_before_color);
    let end = vui_before_color(s)->Ok_0;
    let (aspect, a) = read_flag(s)->Ok_0;
    lemma_read_flag(s, u);
    if aspect {
        let (ratio, b) = read_bits(a, 8)->Ok_0;
        let extended: int = if ratio == 255 {
            32
        } else {
            0
        };
        let c = skip_bits(b, extended)->Ok_0;
        lemma_optional_skip(c, 1, u);
        lemma_skip_bits(b, extended, consumed(c, end) + u);
        lemma_join(b, c, end, u, extended, 2);
        lemma_read_bits(a, 8, consumed(b, end) + u);
        lemma_join(a, b, end, u, 8, 2 + extended);
        lemma_read_flag(s, consumed(a, end) + u);
        lemma_join(s, a, end, u, 1, 10 + extended);
    } else {
        lemma_optional_skip(a, 1, u);
        lemma_read_flag(s, consumed(a, end) + u);
        lemma_join(s, a, end, u, 1, 2);
    }
}

proof fn lemma_vui_color(s: Seq<bool>, u: Seq<bool>)
    requires
        vui_color(s) is Ok,
    ensures
        splits(s, vui_color(s)->Ok_0, 30),
        vui_color(consumed(s, vui_color(s)->Ok_0) + u) == Ok::<Seq<bool>, HevcError>(u),
{
    reveal(vui_color);
    let end = vui_color(s)->Ok_0;
    let (present, a) = read_flag(s)->Ok_0;
    lemma_read_flag(s, u);
    if present {
        let b = skip_bits(a, 4)->Ok_0;
        lemma_optional_skip(b, 24, u);
        lemma_skip_bits(a, 4, consumed(b, end) + u);
        lemma_join(a, b, end, u, 4, 25);
        lemma_read_flag(s, consumed(a, end) + u);
        lemma_join(s, a, end, u, 1, 29);
    }
}

proof fn lemma_timing(s: Seq<bool>, u: Seq<bool>)
    requires
        then_timing(Ok(s)) is Ok,
    ensures
        splits(s, then_timing(Ok(s))->Ok_0, 130),
        then_timing(Ok(consumed(s, then_timing(Ok(s))->Ok_0) + u)) == Ok::<Seq<bool>, HevcError>(u),
{
    let end = then_timing(Ok(s))->Ok_0;
    let (present, a) = read_flag(s)->Ok_0;
    lemma_read_flag(s, u);
    if present {
        let b = skip_bits(a, 64)->Ok_0;
        let c = then_optional_ues(Ok(b), 1)->Ok_0;
        lemma_clear_flag(c, HevcError::UnsupportedHrd, u);
        lemma_optional_ues(b, 1, consumed(c, end) + u);
        lemma_join(b, c, end, u, 64, 1);
        lemma_skip_bits(a, 64, consumed(b, end) + u);
        lemma_join(a, b, end, u, 64, 65);
        lemma_read_flag(s, consumed(a, end) + u);
        lemma_join(s, a, end, u, 1, 129);
    }
}

proof fn lemma_restriction(s: Seq<bool>, u: Seq<bool>)
    requires
        then_restriction(Ok(s)) is Ok,
    ensures
        splits(s, then_restriction(Ok(s))->Ok_0, 319),
        then_restriction(Ok(consumed(s, then_restriction(Ok(s))->Ok_0) + u)) == Ok::<
            Seq<bool>,
            HevcError,
        >(u),
{
    let end = then_restriction(Ok(s))->Ok_0;
    let (present, a) = read_flag(s)->Ok_0;
    lemma_read_flag(s, u);
    if present {
        let b = skip_bits(a, 3)->Ok_0;
        lemma_skip_ues(b, 5, u);
        lemma_skip_bits(a, 3, consumed(b, end) + u);
        lemma_join(a, b, end, u, 3, 315);
        lemma_read_flag(s, consumed(a, end) + u);
        lemma_join(s, a, end, u, 1, 318);
    }
}

proof fn lemma_vui_after_color(s: Seq<bool>, u: Seq<bool>)
    requires
        vui_after_color(s) is Ok,
    ensures
        splits(s, vui_after_color(s)->Ok_0, 832),
        vui_after_color(consumed(s, vui_after_color(s)->Ok_0) + u) == Ok::<Seq<bool>, HevcError>(u),
{
    reveal(vui_after_color);
    let end = vui_after_color(s)->Ok_0;
    let a = then_optional_ues(Ok(s), 2)->Ok_0;
    let b = skip_bits(a, 3)->Ok_0;
    let c = then_optional_ues(Ok(b), 4)->Ok_0;
    let d = then_timing(Ok(c))->Ok_0;
    lemma_restriction(d, u);
    lemma_timing(c, consumed(d, end) + u);
    lemma_join(c, d, end, u, 130, 319);
    lemma_optional_ues(b, 4, consumed(c, end) + u);
    lemma_join(b, c, end, u, 253, 449);
    lemma_skip_bits(a, 3, consumed(b, end) + u);
    lemma_join(a, b, end, u, 3, 702);
    lemma_optional_ues(s, 2, consumed(a, end) + u);
    lemma_join(s, a, end, u, 127, 705);
}

/// The end of a parameter set, with other padding.
proof fn lemma_through_stop_bit(s: Seq<bool>, n: int)
    requires
        through_stop_bit(s) is Ok,
        0 <= n < 8,
    ensures
        splits(s, through_stop_bit(s)->Ok_0, 2),
        consumed(s, through_stop_bit(s)->Ok_0).len() == 2,
        consumed(s, through_stop_bit(s)->Ok_0)[1],
        through_stop_bit(consumed(s, through_stop_bit(s)->Ok_0) + zero_bits(n)) == Ok::<
            Seq<bool>,
            HevcError,
        >(zero_bits(n)),
{
    reveal(through_stop_bit);
    let padding = through_stop_bit(s)->Ok_0;
    assert(s =~= consumed(s, padding) + padding);
    let t = consumed(s, padding) + zero_bits(n);
    assert(t.skip(1).skip(1) =~= zero_bits(n));
}

// ---------------------------------------------------------------------------
// Laws of the parameter set and of the access unit
// ---------------------------------------------------------------------------

/// What follows a colour description of BT.709.
proof fn lemma_bt709_color(u: Seq<bool>)
    ensures
        vui_color(bt709() + u) == Ok::<Seq<bool>, HevcError>(u),
        consumed(bt709() + u, u) == bt709(),
{
    reveal(vui_color);
    let s = bt709() + u;
    assert(s[0] && s[5]);
    assert(s.skip(1).skip(4)[0]);
    assert(s.skip(1).skip(4).skip(1).skip(24) =~= u);
    assert(consumed(s, u) =~= bt709());
}

/// What follows a usability information that holds only the colour description.
proof fn lemma_bt709_vui(u: Seq<bool>)
    ensures
        ({
            let s = bt709_vui() + u;
            let seven = seq![false, false, false, false, false, false, false];
            &&& read_flag(s) is Ok
            &&& read_flag(s)->Ok_0.0
            &&& vui_before_color(read_flag(s)->Ok_0.1) == Ok::<Seq<bool>, HevcError>(
                bt709() + (seven + u),
            )
            &&& vui_after_color(seven + u) == Ok::<Seq<bool>, HevcError>(u)
        }),
{
    let s = bt709_vui() + u;
    let seven = seq![false, false, false, false, false, false, false];
    assert(s[0] && !s[1] && !s[2]);
    let vui = s.skip(1);
    assert(vui_before_color(vui) == Ok::<Seq<bool>, HevcError>(bt709() + (seven + u))) by {
        reveal(vui_before_color);
        assert(vui.skip(1).skip(1) =~= bt709() + (seven + u));
    }
    assert(vui_after_color(seven + u) == Ok::<Seq<bool>, HevcError>(u)) by {
        reveal(vui_after_color);
        let t = seven + u;
        let a = t.skip(1);
        let b = a.skip(3);
        let c = b.skip(1);
        let d = c.skip(1);
        assert(then_optional_ues(Ok(t), 2) == Ok::<Seq<bool>, HevcError>(a));
        assert(then_optional_ues(Ok(b), 4) == Ok::<Seq<bool>, HevcError>(c));
        assert(then_timing(Ok(c)) == Ok::<Seq<bool>, HevcError>(d));
        assert(then_restriction(Ok(d)) == Ok::<Seq<bool>, HevcError>(d.skip(1)));
        assert(d.skip(1) =~= u);
    }
}

/// The bits of a changed parameter set, padded with less than a byte of zeros, need no
/// other change. They end with the stop bit.
pub proof fn law_recolored_bits_are_final(bits: Seq<bool>, n: int)
    requires
        recolored(bits) matches Ok(Some(_)),
        0 <= n < 8,
    ensures
        recolored(recolored(bits)->Ok_0->Some_0 + zero_bits(n)) == Ok::<
            Option<Seq<bool>>,
            HevcError,
        >(None),
        recolored(bits)->Ok_0->Some_0.len() <= 4700,
        recolored(bits)->Ok_0->Some_0.len() > 0,
        recolored(bits)->Ok_0->Some_0.last(),
{
    let new = recolored(bits)->Ok_0->Some_0;
    let pad = zero_bits(n);
    let at_vui = before_vui(bits)->Ok_0;
    let (present, vui) = read_flag(at_vui)->Ok_0;
    lemma_before_vui(bits, pad);
    lemma_read_flag(at_vui, pad);
    if present {
        let color = vui_before_color(vui)->Ok_0;
        let after = vui_color(color)->Ok_0;
        let end = vui_after_color(after)->Ok_0;
        let padding = through_stop_bit(end)->Ok_0;
        lemma_vui_before_color(vui, pad);
        lemma_vui_color(color, pad);
        lemma_vui_after_color(after, pad);
        lemma_through_stop_bit(end, n);
        let tail = consumed(end, padding) + pad;
        lemma_join(after, end, padding, pad, 832, 2);
        let later = consumed(after, padding) + pad;
        lemma_vui_after_color(after, tail);
        lemma_bt709_color(later);
        let front = bt709() + later;
        lemma_join(at_vui, vui, color, front, 1, 43);
        lemma_join(bits, at_vui, color, front, 3771, 44);
        assert(new + pad =~= consumed(bits, color) + front);
        lemma_vui_before_color(vui, front);
        lemma_read_flag(at_vui, consumed(vui, color) + front);
        lemma_before_vui(bits, consumed(at_vui, color) + front);
        assert(new.last() == consumed(after, padding).last());
        assert(consumed(after, padding) == consumed(after, end) + consumed(end, padding));
        assert(consumed(after, padding).last() == consumed(end, padding)[1]);
    } else {
        let padding = through_stop_bit(vui)->Ok_0;
        lemma_through_stop_bit(vui, n);
        let tail = consumed(vui, padding) + pad;
        let seven = seq![false, false, false, false, false, false, false];
        lemma_bt709_vui(tail);
        lemma_bt709_color(seven + tail);
        lemma_before_vui(bits, bt709_vui() + tail);
        assert(new + pad =~= consumed(bits, at_vui) + (bt709_vui() + tail));
        assert(new.last() == consumed(vui, padding)[1]);
    }
}

/// A changed payload needs no other change, and neither start codes nor trailing zero
/// bytes come into it.
pub proof fn law_recolored_payload_is_final(data: Seq<u8>)
    requires
        recolored_payload(data) matches Ok(Some(_)),
    ensures
        recolored_payload(recolored_payload(data)->Ok_0->Some_0) == Ok::<
            Option<Seq<u8>>,
            HevcError,
        >(None),
        no_code(recolored_payload(data)->Ok_0->Some_0),
        recolored_payload(data)->Ok_0->Some_0.len() > 0,
        recolored_payload(data)->Ok_0->Some_0.last() != 0,
{
    let raw = raw_bytes(data)->Ok_0;
    let bits = recolored(unpack(raw))->Ok_0->Some_0;
    let new = recolored_payload(data)->Ok_0->Some_0;
    law_recolored_bits_are_final(unpack(raw), 0);
    law_unpack_after_pack(bits);
    law_recolored_bits_are_final(unpack(raw), unpack(pack(bits)).len() - bits.len());
    law_unescape_after_escape(pack(bits), 0);
    lemma_pack_last(bits);
    lemma_escaped_last(pack(bits), 0);
    lemma_escaped_len(pack(bits), 0);
    law_escaped_has_no_start_code(pack(bits), 0);
    assert(zero_bytes(0) + new =~= new);
}

/// The bits up to the last one that is set: without the padding.
pub open spec fn without_padding(bits: Seq<bool>) -> Seq<bool>
    decreases bits.len(),
{
    if bits.len() == 0 || bits.last() {
        bits
    } else {
        without_padding(bits.drop_last())
    }
}

/// Whether a parameter set has usability information.
pub open spec fn has_vui(bits: Seq<bool>) -> bool {
    match before_vui(bits) {
        Ok(at_vui) => at_vui.len() > 0 && at_vui[0],
        Err(_) => false,
    }
}

/// Where the colour description of a parameter set belongs: in place of the one in its
/// usability information, or else in place of the flag that says that it has none.
pub open spec fn color_range(bits: Seq<bool>) -> (int, int) {
    let at_vui = before_vui(bits)->Ok_0;
    if has_vui(bits) {
        let color = vui_before_color(at_vui.skip(1))->Ok_0;
        let after = vui_color(color)->Ok_0;
        (bits.len() - color.len(), bits.len() - after.len())
    } else {
        (bits.len() - at_vui.len(), bits.len() - at_vui.len() + 1)
    }
}

/// What belongs there: the colour description, or a whole `vui_parameters` with it.
pub open spec fn right_color(bits: Seq<bool>) -> Seq<bool> {
    if has_vui(bits) {
        bt709()
    } else {
        bt709_vui()
    }
}

/// Zeros behind a bit that is set are padding.
proof fn lemma_without_padding(bits: Seq<bool>, n: int)
    requires
        bits.len() > 0,
        bits.last(),
        n >= 0,
    ensures
        without_padding(bits + zero_bits(n)) == bits,
    decreases n,
{
    if n == 0 {
        assert(bits + zero_bits(n) =~= bits);
    } else {
        assert((bits + zero_bits(n)).drop_last() =~= bits + zero_bits(n - 1));
        lemma_without_padding(bits, n - 1);
    }
}

/// A parameter set is changed exactly where it has another colour description than the right
/// one. Then its bits are the old ones, without the padding, with the right one in place: of
/// the colour description alone where there is usability information, else of the one clear
/// flag that says that there is none.
pub proof fn law_only_the_color_changes(bits: Seq<bool>)
    requires
        recolored(bits) is Ok,
    ensures
        ({
            let old = without_padding(bits);
            let (from, to) = color_range(bits);
            &&& 0 <= from <= to <= old.len()
            &&& !has_vui(bits) ==> to == from + 1 && !old[from]
            &&& recolored(bits)->Ok_0 is Some <==> old.subrange(from, to) != right_color(bits)
            &&& recolored(bits)->Ok_0 is Some ==> recolored(bits)->Ok_0->Some_0 == old.take(from)
                + right_color(bits) + old.skip(to)
        }),
{
    let none = Seq::<bool>::empty();
    let at_vui = before_vui(bits)->Ok_0;
    let (present, vui) = read_flag(at_vui)->Ok_0;
    lemma_before_vui(bits, none);
    lemma_read_flag(at_vui, none);
    lemma_join(bits, at_vui, vui, none, 3771, 1);
    let (from, to) = color_range(bits);
    if present {
        let color = vui_before_color(vui)->Ok_0;
        let after = vui_color(color)->Ok_0;
        let end = vui_after_color(after)->Ok_0;
        let padding = through_stop_bit(end)->Ok_0;
        lemma_vui_before_color(vui, none);
        lemma_vui_color(color, none);
        lemma_vui_after_color(after, none);
        lemma_through_stop_bit(end, 0);
        lemma_join(bits, vui, color, none, 3772, 43);
        lemma_join(bits, color, after, none, 3815, 30);
        lemma_join(after, end, padding, none, 832, 2);
        lemma_join(bits, after, padding, none, 3845, 834);
        let old = consumed(bits, padding);
        lemma_padding(end);
        assert(old.last() == consumed(end, padding)[1]);
        assert(bits =~= old + zero_bits(padding.len() as int));
        lemma_without_padding(old, padding.len() as int);
        assert(old.take(from) =~= consumed(bits, color));
        assert(old.subrange(from, to) =~= consumed(color, after));
        assert(old.skip(to) =~= consumed(after, padding));
    } else {
        let padding = through_stop_bit(vui)->Ok_0;
        lemma_through_stop_bit(vui, 0);
        lemma_join(bits, vui, padding, none, 3772, 2);
        let old = consumed(bits, padding);
        lemma_padding(vui);
        assert(old.last() == consumed(vui, padding)[1]);
        assert(bits =~= old + zero_bits(padding.len() as int));
        lemma_without_padding(old, padding.len() as int);
        assert(old.take(from) =~= consumed(bits, at_vui));
        assert(old.skip(to) =~= consumed(vui, padding));
        assert(old[from] == at_vui[0]);
        assert(old.subrange(from, to).len() == 1 && bt709_vui().len() == 40);
    }
}

/// The padding behind the stop bit is zero.
proof fn lemma_padding(s: Seq<bool>)
    requires
        through_stop_bit(s) is Ok,
    ensures
        through_stop_bit(s)->Ok_0 == zero_bits(through_stop_bit(s)->Ok_0.len() as int),
{
    reveal(through_stop_bit);
    assert(through_stop_bit(s)->Ok_0 =~= zero_bits(through_stop_bit(s)->Ok_0.len() as int));
}

/// A payload is changed exactly where it has another colour description than the right one.
/// Then it holds the old bits, without the padding, with the right one in place, and a second
/// pass changes nothing.
pub proof fn law_only_the_color_of_a_payload_changes(data: Seq<u8>)
    requires
        recolored_payload(data) is Ok,
    ensures
        raw_bytes(data) is Ok,
        ({
            let bits = unpack(raw_bytes(data)->Ok_0);
            let old = without_padding(bits);
            let (from, to) = color_range(bits);
            &&& 0 <= from <= to <= old.len()
            &&& !has_vui(bits) ==> to == from + 1 && !old[from]
            &&& recolored_payload(data)->Ok_0 is Some <==> old.subrange(from, to) != right_color(
                bits,
            )
            &&& recolored_payload(data) matches Ok(Some(out)) ==> {
                &&& raw_bytes(out) is Ok
                &&& without_padding(unpack(raw_bytes(out)->Ok_0)) == old.take(from) + right_color(
                    bits,
                ) + old.skip(to)
                &&& recolored_payload(out) == Ok::<Option<Seq<u8>>, HevcError>(None)
            }
        }),
{
    let bits = unpack(raw_bytes(data)->Ok_0);
    law_only_the_color_changes(bits);
    if recolored_payload(data)->Ok_0 is Some {
        let new = recolored(bits)->Ok_0->Some_0;
        let out = recolored_payload(data)->Ok_0->Some_0;
        law_recolored_payload_is_final(data);
        law_recolored_bits_are_final(bits, 0);
        law_unpack_after_pack(new);
        law_unescape_after_escape(pack(new), 0);
        lemma_pack_last(new);
        lemma_escaped_len(pack(new), 0);
        lemma_without_padding(new, unpack(pack(new)).len() - new.len());
        assert(unpack(raw_bytes(out)->Ok_0) == unpack(pack(new)));
    }
}

/// Trailing zero bytes behind a last byte that is not zero.
proof fn lemma_trimmed(s: Seq<u8>, zeros: Seq<u8>)
    requires
        s.len() > 0,
        s.last() != 0,
        forall|i: int| 0 <= i < zeros.len() ==> zeros[i] == 0,
    ensures
        trimmed(s + zeros) == s,
    decreases zeros.len(),
{
    if zeros.len() == 0 {
        assert(s + zeros =~= s);
    } else {
        assert((s + zeros).drop_last() =~= s + zeros.drop_last());
        lemma_trimmed(s, zeros.drop_last());
    }
}

/// What trimming leaves out is zero.
proof fn lemma_trimmed_rest(s: Seq<u8>)
    ensures
        trimmed(s).len() <= s.len(),
        trimmed(s) == s.take(trimmed(s).len() as int),
        forall|i: int| trimmed(s).len() <= i < s.len() ==> s[i] == 0,
    decreases s.len(),
{
    if s.len() > 0 && s.last() == 0 {
        lemma_trimmed_rest(s.drop_last());
        assert(s.drop_last().take(trimmed(s).len() as int) =~= s.take(trimmed(s).len() as int));
        assert forall|i: int| trimmed(s).len() <= i < s.len() implies s[i] == 0 by {
            if i < s.len() - 1 {
                assert(s.drop_last()[i] == 0);
            }
        }
    } else {
        assert(s.take(s.len() as int) =~= s);
    }
}

/// The unit in place of `unit`.
pub open spec fn unit_after(unit: Seq<u8>) -> Seq<u8> {
    match recolored_unit(unit) {
        Ok(Some(new)) => new,
        _ => unit,
    }
}

/// A unit that was looked at needs no other change, and holds no start code if it held
/// none. Its header stays.
pub proof fn law_recolored_unit_is_final(unit: Seq<u8>)
    requires
        recolored_unit(unit) is Ok,
        no_code(unit),
    ensures
        recolored_unit(unit_after(unit)) == Ok::<Option<Seq<u8>>, HevcError>(None),
        no_code(unit_after(unit)),
        unit_after(unit).take(2) == unit.take(2),
        !is_sps(unit) ==> unit_after(unit) == unit,
{
    if recolored_unit(unit) matches Ok(Some(_)) {
        let new = recolored_unit(unit)->Ok_0->Some_0;
        let payload = trimmed(unit.skip(2));
        let fresh = recolored_payload(payload)->Ok_0->Some_0;
        let zeros = unit.skip(2 + payload.len() as int);
        law_recolored_payload_is_final(payload);
        lemma_trimmed_rest(unit.skip(2));
        assert forall|i: int| 0 <= i < zeros.len() implies zeros[i] == 0 by {
            assert(unit.skip(2)[payload.len() + i] == 0);
        }
        lemma_trimmed(fresh, zeros);
        assert(new.skip(2) =~= fresh + zeros);
        assert(new.take(2) =~= unit.take(2));
        assert(new[0] == unit[0] && new[1] == unit[1]);
        assert forall|i: int| !code_at(new, i) by {
            if code_at(new, i) {
                if i >= 2 && i + 3 <= 2 + fresh.len() {
                    assert(code_at(fresh, i - 2));
                } else if i >= 2 {
                    assert(new[i + 2] == zeros[i - fresh.len()]);
                } else if i == 0 {
                    assert(new[1] == 1);
                } else {
                    assert(new[1] == 1);
                }
            }
        }
    }
}

/// The replaced units, one for one.
proof fn lemma_recolored_units(us: Seq<Seq<u8>>)
    requires
        recolored_units(us) is Ok,
    ensures
        recolored_units(us)->Ok_0.len() == us.len(),
        forall|k: int|
            0 <= k < us.len() ==> #[trigger] recolored_units(us)->Ok_0[k] == unit_after(us[k]),
        forall|k: int| 0 <= k < us.len() ==> (#[trigger] recolored_unit(us[k])) is Ok,
    decreases us.len(),
{
    if us.len() > 0 {
        lemma_recolored_units(us.drop_last());
        let done = recolored_units(us)->Ok_0;
        assert forall|k: int| 0 <= k < us.len() implies #[trigger] done[k] == unit_after(us[k]) by {
            if k < us.len() - 1 {
                assert(us.drop_last()[k] == us[k]);
                assert(done[k] == recolored_units(us.drop_last())->Ok_0[k]);
            }
        }
        assert forall|k: int| 0 <= k < us.len() implies (#[trigger] recolored_unit(us[k])) is Ok by {
            if k < us.len() - 1 {
                assert(recolored_unit(us.drop_last()[k]) is Ok);
            }
        }
    }
}

/// Units that need no change.
proof fn lemma_nothing_to_do(us: Seq<Seq<u8>>)
    requires
        forall|k: int|
            0 <= k < us.len() ==> (#[trigger] recolored_unit(us[k])) == Ok::<
                Option<Seq<u8>>,
                HevcError,
            >(None),
    ensures
        recolored_units(us) == Ok::<Seq<Seq<u8>>, HevcError>(us),
        !any_recolored(us),
    decreases us.len(),
{
    if us.len() > 0 {
        let front = us.drop_last();
        assert forall|k: int| 0 <= k < front.len() implies (#[trigger] recolored_unit(front[k]))
            == Ok::<Option<Seq<u8>>, HevcError>(None) by {
            assert(recolored_unit(us[k]) == Ok::<Option<Seq<u8>>, HevcError>(None));
        }
        lemma_nothing_to_do(front);
        assert(recolored_unit(us[us.len() - 1]) == Ok::<Option<Seq<u8>>, HevcError>(None));
        assert(front.push(us.last()) =~= us);
    } else {
        assert(us =~= Seq::<Seq<u8>>::empty());
    }
}

/// The search for a start code passes what holds none.
proof fn lemma_next_code(s: Seq<u8>, i: int, j: int)
    requires
        0 <= i <= j <= s.len(),
        forall|k: int| i <= k < j ==> !code_at(s, k),
        j < s.len() ==> code_at(s, j),
    ensures
        next_code(s, i) == j,
    decreases j - i,
{
    if i < j {
        lemma_next_code(s, i + 1, j);
    }
}

/// No start code goes before the one that is found.
proof fn lemma_next_code_first(s: Seq<u8>, i: int)
    requires
        0 <= i <= s.len(),
    ensures
        i <= next_code(s, i) <= s.len(),
        forall|k: int| i <= k < next_code(s, i) ==> !code_at(s, k),
        next_code(s, i) < s.len() ==> code_at(s, next_code(s, i)),
    decreases s.len() - i,
{
    if i < s.len() && !code_at(s, i) {
        lemma_next_code_first(s, i + 1);
    }
}

/// The units of units that were put together, with `front` before them.
proof fn lemma_front_code(front: Seq<u8>, rest: Seq<u8>)
    requires
        no_code(front),
    ensures
        next_code(front + seq![0u8, 0u8, 1u8] + rest, 0) == front.len(),
{
    let s = front + seq![0u8, 0u8, 1u8] + rest;
    let n = front.len() as int;
    assert forall|k: int| 0 <= k < n implies !code_at(s, k) by {
        if code_at(s, k) {
            if k + 3 <= n {
                assert(code_at(front, k));
            } else {
                assert(s[n] == 0 && s[n + 1] == 0);
            }
        }
    }
    assert(code_at(s, n));
    lemma_next_code(s, 0, n);
}

/// The joined units from the front.
proof fn lemma_joined_front(us: Seq<Seq<u8>>)
    requires
        us.len() > 0,
    ensures
        joined(us) == seq![0u8, 0u8, 1u8] + us[0] + joined(us.drop_first()),
    decreases us.len(),
{
    if us.len() == 1 {
        assert(us.drop_last() =~= Seq::<Seq<u8>>::empty());
        assert(us.drop_first() =~= Seq::<Seq<u8>>::empty());
        assert(joined(us) =~= seq![0u8, 0u8, 1u8] + us[0] + joined(us.drop_first()));
    } else {
        lemma_joined_front(us.drop_last());
        assert(us.drop_last().drop_first() =~= us.drop_first().drop_last());
        assert(us.drop_first().last() == us.last());
        assert(joined(us) =~= seq![0u8, 0u8, 1u8] + us[0] + joined(us.drop_first()));
    }
}

/// Putting units together and taking them apart gives them back.
proof fn lemma_units_of_joined(us: Seq<Seq<u8>>)
    requires
        us.len() > 0,
        forall|k: int| 0 <= k < us.len() ==> no_code(#[trigger] us[k]),
    ensures
        units_after_code(us[0] + joined(us.drop_first())) == us,
    decreases us.len(),
{
    let rest = us.drop_first();
    assert(no_code(us[0]));
    if rest.len() == 0 {
        let s = us[0];
        assert(us[0] + joined(rest) =~= s);
        lemma_next_code(s, 0, s.len() as int);
        assert(units_after_code(s) =~= us);
    } else {
        assert forall|k: int| 0 <= k < rest.len() implies no_code(#[trigger] rest[k]) by {
            assert(no_code(us[k + 1]));
        }
        lemma_units_of_joined(rest);
        lemma_joined_front(rest);
        let tail = rest[0] + joined(rest.drop_first());
        let s = us[0] + joined(rest);
        assert(s =~= us[0] + seq![0u8, 0u8, 1u8] + tail);
        lemma_front_code(us[0], tail);
        let j = us[0].len() as int;
        assert(s.take(j) =~= us[0]);
        assert(s.skip(j + 3) =~= tail);
        assert(units_after_code(s) =~= seq![us[0]] + rest);
        assert(seq![us[0]] + rest =~= us);
    }
}

/// Units hold no start code.
proof fn lemma_units_have_no_code(s: Seq<u8>)
    ensures
        units_after_code(s).len() > 0,
        forall|k: int|
            0 <= k < units_after_code(s).len() ==> no_code(#[trigger] units_after_code(s)[k]),
    decreases s.len(),
{
    let us = units_after_code(s);
    lemma_next_code_first(s, 0);
    let j = next_code(s, 0);
    if j < s.len() {
        lemma_units_have_no_code(s.skip(j + 3));
        let rest = units_after_code(s.skip(j + 3));
        assert forall|k: int| 0 <= k < us.len() implies no_code(#[trigger] us[k]) by {
            if k == 0 {
                assert forall|i: int| !code_at(s.take(j), i) by {
                    if code_at(s.take(j), i) {
                        assert(code_at(s, i));
                    }
                }
            } else {
                assert(us[k] == rest[k - 1]);
            }
        }
    } else {
        assert forall|k: int| 0 <= k < us.len() implies no_code(#[trigger] us[k]) by {
            assert forall|i: int| !code_at(s, i) by {
                if code_at(s, i) {
                    assert(i < j);
                }
            }
        }
    }
}

/// A changed access unit has the units of the one before it, each that is not a
/// sequence parameter set as it was, and what went before the first start code.
pub proof fn law_other_units_are_kept(data: Seq<u8>)
    requires
        recolored_access_unit(data) matches Ok(Some(_)),
    ensures
        ({
            let new = recolored_access_unit(data)->Ok_0->Some_0;
            &&& lead(new) == lead(data)
            &&& units(new).len() == units(data).len()
            &&& forall|k: int|
                0 <= k < units(data).len() ==> {
                    &&& #[trigger] units(new)[k] == unit_after(units(data)[k])
                    &&& !is_sps(units(data)[k]) ==> units(new)[k] == units(data)[k]
                }
        }),
{
    lemma_after(data);
    let us = units(data);
    lemma_recolored_units(us);
    assert forall|k: int| 0 <= k < us.len() && !is_sps(us[k]) implies unit_after(us[k]) == us[k] by {
        assert(recolored_unit(us[k]) is Ok);
    }
}

/// Putting the replaced units together.
proof fn lemma_after(data: Seq<u8>)
    requires
        recolored_access_unit(data) matches Ok(Some(_)),
    ensures
        ({
            let new = recolored_access_unit(data)->Ok_0->Some_0;
            let us = units(data);
            &&& lead(new) == lead(data)
            &&& units(new) == recolored_units(us)->Ok_0
            &&& us.len() > 0
            &&& forall|k: int| 0 <= k < us.len() ==> no_code(#[trigger] us[k])
        }),
{
    let new = recolored_access_unit(data)->Ok_0->Some_0;
    let us = units(data);
    let done = recolored_units(us)->Ok_0;
    let j = next_code(data, 0);
    lemma_next_code_first(data, 0);
    lemma_units_have_no_code(data.skip(j + 3));
    lemma_recolored_units(us);
    assert forall|k: int| 0 <= k < done.len() implies no_code(#[trigger] done[k]) by {
        assert(no_code(us[k]));
        assert(recolored_unit(us[k]) is Ok);
        law_recolored_unit_is_final(us[k]);
    }
    lemma_joined_front(done);
    let tail = done[0] + joined(done.drop_first());
    assert(new =~= lead(data) + seq![0u8, 0u8, 1u8] + tail);
    assert forall|i: int| !code_at(lead(data), i) by {
        if code_at(lead(data), i) {
            assert(code_at(data, i));
        }
    }
    lemma_front_code(lead(data), tail);
    assert(new.take(j) =~= lead(data));
    assert(new.skip(j + 3) =~= tail);
    lemma_units_of_joined(done);
}

/// A second pass over a changed access unit changes nothing.
pub proof fn law_second_pass_changes_nothing(data: Seq<u8>)
    requires
        recolored_access_unit(data) matches Ok(Some(_)),
    ensures
        recolored_access_unit(recolored_access_unit(data)->Ok_0->Some_0) == Ok::<
            Option<Seq<u8>>,
            HevcError,
        >(None),
{
    let us = units(data);
    let done = recolored_units(us)->Ok_0;
    lemma_after(data);
    lemma_recolored_units(us);
    assert forall|k: int| 0 <= k < done.len() implies (#[trigger] recolored_unit(done[k])) == Ok::<
        Option<Seq<u8>>,
        HevcError,
    >(None) by {
        assert(no_code(us[k]));
        assert(recolored_unit(us[k]) is Ok);
        law_recolored_unit_is_final(us[k]);
        assert(done[k] == unit_after(us[k]));
    }
    lemma_nothing_to_do(done);
}

/// What a colour description is when it needs no change.
proof fn lemma_right_description(color: Seq<bool>)
    requires
        vui_color(color) is Ok,
    ensures
        consumed(color, vui_color(color)->Ok_0) == bt709() <==> {
            &&& color.len() >= 30
            &&& color[0]
            &&& bits_number(color.subrange(1, 4)) == 5
            &&& !color[4]
            &&& color[5]
            &&& bits_number(color.subrange(6, 14)) == 1
            &&& bits_number(color.subrange(14, 22)) == 1
            &&& bits_number(color.subrange(22, 30)) == 1
        },
{
    let after = vui_color(color)->Ok_0;
    let got = consumed(color, after);
    reveal(vui_color);
    if color[0] {
        let a = color.skip(1);
        let b = a.skip(4);
        assert(b.len() > 0);
        assert(b[0] == color[5]);
        if color[5] {
            assert(color.len() >= 30 && after.len() == color.len() - 30);
            assert(got =~= color.take(30));
            lemma_byte_number(color, 6);
            lemma_byte_number(color, 14);
            lemma_byte_number(color, 22);
            lemma_three_bits_number(color.subrange(1, 4));
            assert forall|i: int| 0 <= i < 30 implies got[i] == #[trigger] color[i] by {}
            if got == bt709() {
                assert(color[0] == got[0] && color[1] == got[1] && color[2] == got[2] && color[3]
                    == got[3] && color[4] == got[4] && color[5] == got[5]);
                assert forall|i: int| 6 <= i < 30 implies #[trigger] color[i] == bt709()[i] by {
                    assert(got[i] == color[i]);
                }
            } else if bits_number(color.subrange(1, 4)) == 5 && !color[4] && bits_number(
                color.subrange(6, 14),
            ) == 1 && bits_number(color.subrange(14, 22)) == 1 && bits_number(
                color.subrange(22, 30),
            ) == 1 {
                assert(got =~= bt709());
            }
        } else {
            assert(after.len() == color.len() - 6);
            assert(got.len() == 6);
        }
    } else {
        assert(got.len() == 1);
    }
}

/// Three bits as a number.
proof fn lemma_three_bits_number(s: Seq<bool>)
    requires
        s.len() == 3,
    ensures
        bits_number(s) == 5 <==> s[0] && !s[1] && s[2],
{
    let a = s.drop_last();
    let b = a.drop_last();
    let c = b.drop_last();
    assert(bits_number(c) == 0);
    assert(bits_number(b) == bits_number(c) * 2 + bit_value(s[0]));
    assert(bits_number(a) == bits_number(b) * 2 + bit_value(s[1]));
}

/// Eight bits that write one.
proof fn lemma_byte_number(color: Seq<bool>, at: int)
    requires
        0 <= at,
        at + 8 <= color.len(),
    ensures
        bits_number(color.subrange(at, at + 8)) == 1 <==> !color[at] && !color[at + 1] && !color[at
            + 2] && !color[at + 3] && !color[at + 4] && !color[at + 5] && !color[at + 6] && color[at
            + 7],
{
    let s7 = color.subrange(at, at + 8);
    let s6 = s7.drop_last();
    let s5 = s6.drop_last();
    let s4 = s5.drop_last();
    let s3 = s4.drop_last();
    let s2 = s3.drop_last();
    let s1 = s2.drop_last();
    let s0 = s1.drop_last();
    assert(bits_number(s0.drop_last()) == 0);
    assert(bits_number(s0) == bit_value(color[at]));
    assert(bits_number(s1) == bits_number(s0) * 2 + bit_value(color[at + 1]));
    assert(bits_number(s2) == bits_number(s1) * 2 + bit_value(color[at + 2]));
    assert(bits_number(s3) == bits_number(s2) * 2 + bit_value(color[at + 3]));
    assert(bits_number(s4) == bits_number(s3) * 2 + bit_value(color[at + 4]));
    assert(bits_number(s5) == bits_number(s4) * 2 + bit_value(color[at + 5]));
    assert(bits_number(s6) == bits_number(s5) * 2 + bit_value(color[at + 6]));
    assert(bits_number(s7) == bits_number(s6) * 2 + bit_value(color[at + 7]));
}

/// The bits of every parameter set that is accepted, as they are handed on, have usability
/// information that tells the signal type: video format 5, which is unspecified, the limited
/// range, and a description with colour primaries 1, transfer characteristics 1 and matrix
/// coefficients 1, which is BT.709. A parameter set that says so already is left as it is, and
/// no other is.
pub proof fn law_the_color_is_bt709(bits: Seq<bool>)
    requires
        recolored(bits) is Ok,
    ensures
        ({
            let out = match recolored(bits)->Ok_0 {
                Some(new) => new,
                None => bits,
            };
            let vui = before_vui(out)->Ok_0;
            let color = vui_before_color(vui.skip(1))->Ok_0;
            &&& before_vui(out) is Ok && vui.len() > 0 && vui[0]
            &&& vui_before_color(vui.skip(1)) is Ok && color.len() >= 30
            &&& color[0]
            &&& bits_number(color.subrange(1, 4)) == 5
            &&& !color[4]
            &&& color[5]
            &&& bits_number(color.subrange(6, 14)) == 1
            &&& bits_number(color.subrange(14, 22)) == 1
            &&& bits_number(color.subrange(22, 30)) == 1
        }),
        ({
            let vui = before_vui(bits)->Ok_0;
            let color = vui_before_color(vui.skip(1))->Ok_0;
            recolored(bits)->Ok_0 is None <==> {
                &&& vui[0]
                &&& color.len() >= 30
                &&& color[0]
                &&& bits_number(color.subrange(1, 4)) == 5
                &&& !color[4]
                &&& color[5]
                &&& bits_number(color.subrange(6, 14)) == 1
                &&& bits_number(color.subrange(14, 22)) == 1
                &&& bits_number(color.subrange(22, 30)) == 1
            }
        }),
{
    let out = match recolored(bits)->Ok_0 {
        Some(new) => new,
        None => bits,
    };
    if recolored(bits)->Ok_0 is Some {
        law_recolored_bits_are_final(bits, 0);
        assert(out + zero_bits(0) =~= out);
    }
    assert(recolored(out) == Ok::<Option<Seq<bool>>, HevcError>(None));
    let vui = before_vui(out)->Ok_0;
    let color = vui_before_color(vui.skip(1))->Ok_0;
    lemma_right_description(color);
    let old_vui = before_vui(bits)->Ok_0;
    if old_vui[0] {
        lemma_right_description(vui_before_color(old_vui.skip(1))->Ok_0);
    }
}

/// The parameter sets of every access unit that is accepted tell BT.709 in the limited range:
/// the bits of each, without its emulation prevention, have the colour description with the
/// numbers 5, 0, 1, 1 and 1.
pub proof fn law_every_parameter_set_tells_bt709(data: Seq<u8>, k: int)
    requires
        recolored_access_unit(data) is Ok,
        0 <= k < units(data).len(),
        units(data)[k][0] == 0x42,
    ensures
        ({
            let out = match recolored_access_unit(data)->Ok_0 {
                Some(new) => new,
                None => data,
            };
            let unit = units(out)[k];
            let bits = unpack(raw_bytes(trimmed(unit.skip(2)))->Ok_0);
            let vui = before_vui(bits)->Ok_0;
            let color = vui_before_color(vui.skip(1))->Ok_0;
            &&& units(out).len() == units(data).len()
            &&& unit.len() >= 2 && unit[0] == 0x42 && unit[1] == 1
            &&& raw_bytes(trimmed(unit.skip(2))) is Ok
            &&& before_vui(bits) is Ok && vui.len() > 0 && vui[0]
            &&& vui_before_color(vui.skip(1)) is Ok && color.len() >= 30
            &&& color[0]
            &&& bits_number(color.subrange(1, 4)) == 5
            &&& !color[4]
            &&& color[5]
            &&& bits_number(color.subrange(6, 14)) == 1
            &&& bits_number(color.subrange(14, 22)) == 1
            &&& bits_number(color.subrange(22, 30)) == 1
        }),
{
    let us = units(data);
    let j = next_code(data, 0);
    lemma_next_code_first(data, 0);
    lemma_units_have_no_code(data.skip(j + 3));
    lemma_recolored_units(us);
    assert(recolored_unit(us[k]) is Ok);
    assert((0x42u8 >> 1) & 63 == 33) by (bit_vector);
    assert(is_sps(us[k]));
    assert(no_code(us[k]));
    law_recolored_unit_is_final(us[k]);
    let out = match recolored_access_unit(data)->Ok_0 {
        Some(new) => new,
        None => data,
    };
    if recolored_access_unit(data)->Ok_0 is Some {
        law_other_units_are_kept(data);
        assert(units(out)[k] == unit_after(us[k]));
    } else {
        assert(!any_recolored(us));
        assert(recolored_unit(us[k]) == Ok::<Option<Seq<u8>>, HevcError>(None));
    }
    let unit = units(out)[k];
    assert(recolored_unit(unit) == Ok::<Option<Seq<u8>>, HevcError>(None));
    assert(unit.take(2) =~= us[k].take(2));
    assert(unit.take(2).len() == 2);
    assert(unit[0] == unit.take(2)[0] && unit[1] == unit.take(2)[1]);
    assert(us[k].take(2)[0] == us[k][0]);
    let bits = unpack(raw_bytes(trimmed(unit.skip(2)))->Ok_0);
    law_the_color_is_bt709(bits);
}

} // verus!
