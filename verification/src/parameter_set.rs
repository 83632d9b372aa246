//! Sequence parameter sets as the HEVC syntax writes them, and what becomes of their colour.
use crate::hevc_color;
use crate::hevc_color::HevcError;
use vstd::prelude::*;

verus! {

/// An Exp-Golomb code: as many zeros as there are bits behind the first one.
pub open spec fn is_code(e: Seq<bool>) -> bool {
    let k = (e.len() - 1) / 2;
    &&& e.len() == 2 * k + 1
    &&& 0 <= k <= 31
    &&& forall|i: int| 0 <= i < k ==> !#[trigger] e[i]
    &&& e[k]
}

/// The number that a code writes: one less than its bits as a number.
pub open spec fn code_value(e: Seq<bool>) -> int {
    hevc_color::bits_number(e) - 1
}

/// Whether all of `list` are codes.
pub open spec fn are_codes(list: Seq<Seq<bool>>) -> bool {
    forall|i: int| 0 <= i < list.len() ==> is_code(#[trigger] list[i])
}

/// Bit strings, one behind the other.
pub open spec fn flat(list: Seq<Seq<bool>>) -> Seq<bool>
    decreases list.len(),
{
    if list.len() == 0 {
        Seq::empty()
    } else {
        list[0] + flat(list.drop_first())
    }
}

/// A flag, and what follows where it is set.
pub open spec fn optional(part: Option<Seq<bool>>) -> Seq<bool> {
    match part {
        None => seq![false],
        Some(bits) => seq![true] + bits,
    }
}

/// The profile and the level of a sublayer, where they are there: 88 and 8 bits.
pub ghost struct Sublayer {
    pub profile: Option<Seq<bool>>,
    pub level: Option<Seq<bool>>,
}

/// The presence flags of sublayers.
pub open spec fn presence(list: Seq<Sublayer>) -> Seq<bool>
    decreases list.len(),
{
    if list.len() == 0 {
        Seq::empty()
    } else {
        presence(list.drop_last()) + seq![list.last().profile is Some, list.last().level is Some]
    }
}

/// The profiles and levels of sublayers.
pub open spec fn contents(list: Seq<Sublayer>) -> Seq<bool>
    decreases list.len(),
{
    if list.len() == 0 {
        Seq::empty()
    } else {
        contents(list.drop_last()) + (match list.last().profile {
            Some(p) => p,
            None => Seq::empty(),
        }) + (match list.last().level {
            Some(l) => l,
            None => Seq::empty(),
        })
    }
}

/// What a parameter set holds in front of its usability information.
pub ghost struct Front {
    /// The video parameter set: four bits.
    pub video: Seq<bool>,
    /// The number of sublayers: three bits.
    pub count: Seq<bool>,
    /// The nesting flag, and the profile and the level: 97 bits.
    pub general: Seq<bool>,
    pub sublayers: Seq<Sublayer>,
    /// Fills the presence flags up to sixteen bits.
    pub filler: Seq<bool>,
    pub id: Seq<bool>,
    pub chroma: Seq<bool>,
    /// Separate colour planes, where the chroma format is 3.
    pub planes: bool,
    /// Width and height.
    pub size: Seq<Seq<bool>>,
    /// The conformance window.
    pub window: Option<Seq<Seq<bool>>>,
    /// The bit depths.
    pub depths: Seq<Seq<bool>>,
    /// The width of the picture order count, less four.
    pub order: Seq<bool>,
    /// Ordering information for every sublayer, or else for the last.
    pub each: bool,
    pub ordering: Seq<Seq<bool>>,
    pub blocks: Seq<Seq<bool>>,
    /// Scaling lists are enabled, by default.
    pub scaling: bool,
    pub tools: Seq<bool>,
    /// The number of long-term reference pictures and their bits.
    pub long_term: Option<(Seq<bool>, Seq<bool>)>,
    pub filters: Seq<bool>,
}

/// Whether everything has the size that the syntax gives it.
pub open spec fn front_fits(f: Front) -> bool {
    &&& f.video.len() == 4 && f.count.len() == 3 && f.general.len() == 97
    &&& f.sublayers.len() == hevc_color::bits_number(f.count) <= 6
    &&& f.filler.len() == 16 - 2 * f.sublayers.len()
    &&& forall|i: int|
        0 <= i < f.sublayers.len() ==> {
            &&& (#[trigger] f.sublayers[i]).profile matches Some(p) ==> p.len() == 88
            &&& f.sublayers[i].level matches Some(l) ==> l.len() == 8
        }
    &&& is_code(f.id) && is_code(f.chroma) && code_value(f.chroma) <= 3
    &&& f.size.len() == 2 && are_codes(f.size)
    &&& f.window matches Some(w) ==> w.len() == 4 && are_codes(w)
    &&& f.depths.len() == 2 && are_codes(f.depths)
    &&& is_code(f.order) && code_value(f.order) <= 12
    &&& f.ordering.len() == (if f.each {
        3 * (f.sublayers.len() + 1)
    } else {
        3
    }) && are_codes(f.ordering)
    &&& f.blocks.len() == 6 && are_codes(f.blocks)
    &&& f.tools.len() == 2 && f.filters.len() == 2
    &&& f.long_term matches Some((n, bits)) ==> {
        &&& is_code(n) && code_value(n) <= 32
        &&& bits.len() == code_value(n) * (code_value(f.order) + 4 + 1)
    }
}

/// The video parameter set, the sublayers, the profile and the level.
pub open spec fn written_profile(f: Front) -> Seq<bool> {
    f.video + f.count + f.general + if f.sublayers.len() == 0 {
        Seq::empty()
    } else {
        presence(f.sublayers) + f.filler + contents(f.sublayers)
    }
}

/// Chroma format, picture size and bit depths.
pub open spec fn written_picture(f: Front) -> Seq<bool> {
    f.id + f.chroma + (if code_value(f.chroma) == 3 {
        seq![f.planes]
    } else {
        Seq::empty()
    }) + flat(f.size) + optional(
        match f.window {
            Some(w) => Some(flat(w)),
            None => None,
        },
    ) + flat(f.depths)
}

/// Picture order count, ordering information and block sizes.
pub open spec fn written_ordering(f: Front) -> Seq<bool> {
    f.order + seq![f.each] + flat(f.ordering) + flat(f.blocks)
}

/// Coding tools and reference pictures: no PCM and no short-term reference sets.
pub open spec fn written_tools(f: Front) -> Seq<bool> {
    (if f.scaling {
        seq![true, false]
    } else {
        seq![false]
    }) + f.tools + seq![false] + seq![true] + optional(
        match f.long_term {
            Some((n, bits)) => Some(n + bits),
            None => None,
        },
    ) + f.filters
}

/// Everything in front of the usability information.
pub open spec fn written_front(f: Front) -> Seq<bool> {
    written_profile(f) + written_picture(f) + written_ordering(f) + written_tools(f)
}

/// What usability information holds but for the colour.
pub ghost struct Usability {
    /// The aspect ratio: eight bits, and 32 more where they write 255.
    pub aspect: Option<(Seq<bool>, Seq<bool>)>,
    pub overscan: Option<bool>,
    pub chroma_location: Option<Seq<Seq<bool>>>,
    /// Neutral chroma, fields, and frames that are fields.
    pub fields: Seq<bool>,
    pub display_window: Option<Seq<Seq<bool>>>,
    /// Two numbers of 32 bits, and ticks for a difference of the picture order.
    pub timing: Option<(Seq<bool>, Option<Seq<bool>>)>,
    /// Three flags and five codes.
    pub restriction: Option<(Seq<bool>, Seq<Seq<bool>>)>,
}

/// Whether everything has the size that the syntax gives it.
pub open spec fn usability_fits(u: Usability) -> bool {
    &&& u.aspect matches Some((idc, size)) ==> {
        &&& idc.len() == 8
        &&& size.len() == if hevc_color::bits_number(idc) == 255 {
            32int
        } else {
            0
        }
    }
    &&& u.chroma_location matches Some(c) ==> c.len() == 2 && are_codes(c)
    &&& u.fields.len() == 3
    &&& u.display_window matches Some(w) ==> w.len() == 4 && are_codes(w)
    &&& u.timing matches Some((numbers, ticks)) ==> {
        &&& numbers.len() == 64
        &&& ticks matches Some(t) ==> is_code(t)
    }
    &&& u.restriction matches Some((flags, codes)) ==> flags.len() == 3 && codes.len() == 5
        && are_codes(codes)
}

/// Aspect ratio and overscan.
pub open spec fn written_before_color(u: Usability) -> Seq<bool> {
    optional(
        match u.aspect {
            Some((idc, size)) => Some(idc + size),
            None => None,
        },
    ) + optional(
        match u.overscan {
            Some(b) => Some(seq![b]),
            None => None,
        },
    )
}

/// From the chroma location to the end.
pub open spec fn written_after_color(u: Usability) -> Seq<bool> {
    optional(
        match u.chroma_location {
            Some(c) => Some(flat(c)),
            None => None,
        },
    ) + u.fields + optional(
        match u.display_window {
            Some(w) => Some(flat(w)),
            None => None,
        },
    ) + optional(
        match u.timing {
            Some((numbers, ticks)) => Some(numbers + optional(ticks) + seq![false]),
            None => None,
        },
    ) + optional(
        match u.restriction {
            Some((flags, codes)) => Some(flags + flat(codes)),
            None => None,
        },
    )
}

/// A signal type: the video format in three bits, the full range, and primaries, transfer
/// characteristics and matrix coefficients of eight bits each, where they are there.
pub ghost struct Signal {
    pub format: Seq<bool>,
    pub full: bool,
    pub description: Option<Seq<bool>>,
}

/// Whether everything has the size that the syntax gives it.
pub open spec fn signal_fits(s: Option<Signal>) -> bool {
    s matches Some(signal) ==> {
        &&& signal.format.len() == 3
        &&& signal.description matches Some(d) ==> d.len() == 24
    }
}

/// The signal type, if there is one.
pub open spec fn written_color(s: Option<Signal>) -> Seq<bool> {
    match s {
        None => seq![false],
        Some(signal) => seq![true] + signal.format + seq![signal.full] + optional(
            signal.description,
        ),
    }
}

/// The right signal type: video format 5, limited range, and 1, 1, 1.
pub open spec fn bt709_signal() -> Option<Signal> {
    Some(
        Signal {
            format: seq![true, false, true],
            full: false,
            description: Some(
                seq![
                    false, false, false, false, false, false, false, true,
                    false, false, false, false, false, false, false, true,
                    false, false, false, false, false, false, false, true,
                ],
            ),
        },
    )
}

// ---------------------------------------------------------------------------
// Reading
// ---------------------------------------------------------------------------

/// A leading zero changes no number.
proof fn lemma_leading_zero(s: Seq<bool>)
    requires
        s.len() > 0,
        !s[0],
    ensures
        hevc_color::bits_number(s) == hevc_color::bits_number(s.skip(1)),
    decreases s.len(),
{
    if s.len() > 1 {
        lemma_leading_zero(s.drop_last());
        assert(s.drop_last().skip(1) =~= s.skip(1).drop_last());
        assert(s.skip(1).last() == s.last());
    } else {
        assert(hevc_color::bits_number(s.drop_last()) == 0);
        assert(hevc_color::bits_number(s.skip(1)) == 0);
    }
}

/// A leading one counts a power of two.
proof fn lemma_leading_one(s: Seq<bool>)
    requires
        s.len() > 0,
        s[0],
    ensures
        hevc_color::bits_number(s) == hevc_color::power_of_two(s.len() - 1)
            + hevc_color::bits_number(s.skip(1)),
    decreases s.len(),
{
    if s.len() > 1 {
        lemma_leading_one(s.drop_last());
        assert(s.drop_last().skip(1) =~= s.skip(1).drop_last());
        assert(s.skip(1).last() == s.last());
    } else {
        assert(hevc_color::bits_number(s.drop_last()) == 0);
        assert(hevc_color::bits_number(s.skip(1)) == 0);
    }
}

/// A code reads back from any of its zeros.
proof fn lemma_code_from(e: Seq<bool>, rest: Seq<bool>, z: int)
    requires
        is_code(e),
        0 <= z <= (e.len() - 1) / 2,
    ensures
        hevc_color::read_ue_from(e.skip(z) + rest, z) == Ok::<(int, Seq<bool>), HevcError>(
            (hevc_color::bits_number(e.skip(z)) - 1, rest),
        ),
    decreases e.len() - z,
{
    let k = (e.len() - 1) / 2;
    let s = e.skip(z) + rest;
    assert(s[0] == e[z]);
    assert(s.skip(1) =~= e.skip(z + 1) + rest);
    assert(e.skip(z).skip(1) =~= e.skip(z + 1));
    if z < k {
        lemma_code_from(e, rest, z + 1);
        lemma_leading_zero(e.skip(z));
    } else {
        lemma_leading_one(e.skip(z));
        assert((e.skip(z + 1) + rest).take(k) =~= e.skip(z + 1));
        assert((e.skip(z + 1) + rest).skip(k) =~= rest);
    }
}

/// A code reads back.
proof fn lemma_code(e: Seq<bool>, rest: Seq<bool>)
    requires
        is_code(e),
    ensures
        hevc_color::read_ue(e + rest) == Ok::<(int, Seq<bool>), HevcError>((code_value(e), rest)),
{
    lemma_code_from(e, rest, 0);
    assert(e.skip(0) =~= e);
}

/// Codes are passed over.
proof fn lemma_codes(list: Seq<Seq<bool>>, rest: Seq<bool>)
    requires
        are_codes(list),
    ensures
        hevc_color::skip_ues(flat(list) + rest, list.len() as int) == Ok::<Seq<bool>, HevcError>(rest),
    decreases list.len(),
{
    if list.len() == 0 {
        assert(flat(list) + rest =~= rest);
    } else {
        let later = list.drop_first();
        assert(is_code(list[0]));
        assert forall|i: int| 0 <= i < later.len() implies is_code(#[trigger] later[i]) by {
            assert(is_code(list[i + 1]));
        }
        lemma_code(list[0], flat(later) + rest);
        assert(flat(list) + rest =~= list[0] + (flat(later) + rest));
        lemma_codes(later, rest);
    }
}

/// A flag and codes where it is set.
proof fn lemma_optional_codes(codes: Option<Seq<Seq<bool>>>, n: int, rest: Seq<bool>)
    requires
        codes matches Some(c) ==> c.len() == n && are_codes(c),
    ensures
        ({
            let part = match codes {
                Some(c) => Some(flat(c)),
                None => None,
            };
            hevc_color::then_optional_ues(Ok(optional(part) + rest), n) == Ok::<
                Seq<bool>,
                HevcError,
            >(rest)
        }),
{
    match codes {
        None => {
            assert((seq![false] + rest).skip(1) =~= rest);
        },
        Some(c) => {
            assert((seq![true] + flat(c) + rest).skip(1) =~= flat(c) + rest);
            lemma_codes(c, rest);
        },
    }
}

/// The sizes of the sublayers.
proof fn lemma_sublayers(list: Seq<Sublayer>)
    requires
        forall|i: int|
            0 <= i < list.len() ==> {
                &&& (#[trigger] list[i]).profile matches Some(p) ==> p.len() == 88
                &&& list[i].level matches Some(l) ==> l.len() == 8
            },
    ensures
        presence(list).len() == 2 * list.len(),
        hevc_color::sublayer_bits(presence(list)) == contents(list).len(),
    decreases list.len(),
{
    if list.len() > 0 {
        let before = list.drop_last();
        assert forall|i: int| 0 <= i < before.len() implies {
            &&& (#[trigger] before[i]).profile matches Some(p) ==> p.len() == 88
            &&& before[i].level matches Some(l) ==> l.len() == 8
        } by {
            assert(before[i] == list[i]);
        }
        lemma_sublayers(before);
        let flags = presence(list);
        assert(list[list.len() - 1] == list.last());
        assert(flags.take(flags.len() - 2) =~= presence(before));
        assert(flags[flags.len() - 2] == (list.last().profile is Some));
        assert(flags.last() == (list.last().level is Some));
    }
}

/// The profile part is read.
proof fn lemma_profile(f: Front, rest: Seq<bool>)
    requires
        front_fits(f),
    ensures
        hevc_color::profile_tier_level(written_profile(f) + rest) == Ok::<
            (int, Seq<bool>),
            HevcError,
        >((f.sublayers.len() as int, rest)),
{
    let tail = if f.sublayers.len() == 0 {
        Seq::empty()
    } else {
        presence(f.sublayers) + f.filler + contents(f.sublayers)
    };
    let s = written_profile(f) + rest;
    let a = s.skip(4);
    let b = a.skip(3);
    let c = b.skip(97);
    assert(a =~= f.count + f.general + tail + rest);
    assert(a.take(3) =~= f.count);
    assert(b =~= f.general + tail + rest);
    assert(c =~= tail + rest);
    if f.sublayers.len() == 0 {
        assert(c =~= rest);
    } else {
        lemma_sublayers(f.sublayers);
        let d = c.skip(16);
        assert(c.take(2 * f.sublayers.len() as int) =~= presence(f.sublayers));
        assert(d =~= contents(f.sublayers) + rest);
        assert(d.skip(contents(f.sublayers).len() as int) =~= rest);
    }
}

/// The picture part is read.
proof fn lemma_picture(f: Front, rest: Seq<bool>)
    requires
        front_fits(f),
    ensures
        hevc_color::picture_format(written_picture(f) + rest) == Ok::<Seq<bool>, HevcError>(rest),
{
    let planes = if code_value(f.chroma) == 3 {
        seq![f.planes]
    } else {
        Seq::empty()
    };
    let window = optional(
        match f.window {
            Some(w) => Some(flat(w)),
            None => None,
        },
    );
    let r4 = flat(f.depths) + rest;
    let r3 = window + r4;
    let r2 = flat(f.size) + r3;
    let r1 = planes + r2;
    let r0 = f.chroma + r1;
    let front = f.id + f.chroma + planes + flat(f.size) + window;
    assert(front + flat(f.depths) + rest =~= front + r4);
    lemma_five(f.id, f.chroma, planes, flat(f.size), window, r4);
    assert(written_picture(f) + rest == f.id + r0);
    lemma_code(f.id, r0);
    lemma_code(f.chroma, r1);
    let n: int = if code_value(f.chroma) == 3 {
        1
    } else {
        0
    };
    assert(r1.skip(n) =~= r2);
    lemma_codes(f.size, r3);
    lemma_optional_codes(f.window, 4, r4);
    lemma_codes(f.depths, rest);
}

/// The ordering part is read.
proof fn lemma_ordering(f: Front, rest: Seq<bool>)
    requires
        front_fits(f),
    ensures
        hevc_color::ordering_and_blocks(
            written_ordering(f) + rest,
            f.sublayers.len() as int,
        ) == Ok::<(int, Seq<bool>), HevcError>((code_value(f.order), rest)),
{
    let r2 = flat(f.blocks) + rest;
    let r1 = flat(f.ordering) + r2;
    let r0 = seq![f.each] + r1;
    assert(written_ordering(f) + rest =~= f.order + r0);
    lemma_code(f.order, r0);
    assert(r0.skip(1) =~= r1);
    lemma_codes(f.ordering, r2);
    lemma_codes(f.blocks, rest);
}

/// The scaling lists are read.
proof fn lemma_scaling(f: Front, rest: Seq<bool>)
    ensures
        hevc_color::scaling_lists(
            (if f.scaling {
                seq![true, false]
            } else {
                seq![false]
            }) + rest,
        ) == Ok::<Seq<bool>, HevcError>(rest),
{
    if f.scaling {
        let s = seq![true, false] + rest;
        assert(s.skip(1).skip(1) =~= rest);
        assert(s.skip(1)[0] == false);
    } else {
        assert((seq![false] + rest).skip(1) =~= rest);
    }
}

/// The code of zero sets is read.
proof fn lemma_no_sets(rest: Seq<bool>)
    ensures
        hevc_color::then_no_short_term(Ok(seq![true] + rest)) == Ok::<Seq<bool>, HevcError>(rest),
{
    let zero = seq![true];
    assert(is_code(zero));
    lemma_code(zero, rest);
    assert(code_value(zero) == 0) by {
        assert(hevc_color::bits_number(zero.drop_last()) == 0);
    }
}

/// The long-term reference pictures are read.
proof fn lemma_long_term(f: Front, rest: Seq<bool>)
    requires
        front_fits(f),
    ensures
        ({
            let part = match f.long_term {
                Some((n, bits)) => Some(n + bits),
                None => None,
            };
            hevc_color::then_long_term(Ok(optional(part) + rest), code_value(f.order)) == Ok::<
                Seq<bool>,
                HevcError,
            >(rest)
        }),
{
    match f.long_term {
        None => {
            assert((seq![false] + rest).skip(1) =~= rest);
        },
        Some((n, bits)) => {
            let s = seq![true] + (n + bits) + rest;
            assert(s.skip(1) =~= n + (bits + rest));
            lemma_code(n, bits + rest);
            assert((bits + rest).skip(bits.len() as int) =~= rest);
            lemma_code_not_negative(n);
        },
    }
}

/// The coding tools are read.
proof fn lemma_tools(f: Front, rest: Seq<bool>)
    requires
        front_fits(f),
    ensures
        hevc_color::coding_tools(written_tools(f) + rest, code_value(f.order)) == Ok::<
            Seq<bool>,
            HevcError,
        >(rest),
{
    let scaling = if f.scaling {
        seq![true, false]
    } else {
        seq![false]
    };
    let long = optional(
        match f.long_term {
            Some((n, bits)) => Some(n + bits),
            None => None,
        },
    );
    let r4 = f.filters + rest;
    let r3 = long + r4;
    let r2 = seq![true] + r3;
    let r1 = seq![false] + r2;
    let r0 = f.tools + r1;
    let front = scaling + f.tools + seq![false] + seq![true] + long;
    assert(front + f.filters + rest =~= front + r4);
    lemma_five(scaling, f.tools, seq![false], seq![true], long, r4);
    assert(written_tools(f) + rest == scaling + r0);
    lemma_scaling(f, r0);
    assert(r0.skip(2) =~= r1);
    assert(r1.skip(1) =~= r2);
    lemma_no_sets(r3);
    lemma_long_term(f, r4);
    assert(r4.skip(2) =~= rest);
}

/// A code writes no negative number.
proof fn lemma_code_not_negative(e: Seq<bool>)
    requires
        is_code(e),
    ensures
        code_value(e) >= 0,
{
    let k = (e.len() - 1) / 2;
    lemma_number_positive(e, k);
}

/// A number with a bit set is at least one.
proof fn lemma_number_positive(s: Seq<bool>, k: int)
    requires
        0 <= k < s.len(),
        s[k],
    ensures
        hevc_color::bits_number(s) >= 1,
    decreases s.len(),
{
    lemma_number_natural(s.drop_last());
    if k < s.len() - 1 {
        lemma_number_positive(s.drop_last(), k);
    }
}

/// Bits write no negative number.
proof fn lemma_number_natural(s: Seq<bool>)
    ensures
        hevc_color::bits_number(s) >= 0,
    decreases s.len(),
{
    if s.len() > 0 {
        lemma_number_natural(s.drop_last());
    }
}

/// Everything in front of the usability information is read, whatever follows.
pub proof fn law_fronts_are_read(f: Front, rest: Seq<bool>)
    requires
        front_fits(f),
    ensures
        hevc_color::before_vui(written_front(f) + rest) == Ok::<Seq<bool>, HevcError>(rest),
{
    reveal(hevc_color::before_vui);
    let r2 = written_tools(f) + rest;
    let r1 = written_ordering(f) + r2;
    let r0 = written_picture(f) + r1;
    lemma_four(
        written_profile(f),
        written_picture(f),
        written_ordering(f),
        written_tools(f),
        rest,
    );
    lemma_profile(f, r0);
    lemma_picture(f, r1);
    lemma_ordering(f, r2);
    lemma_tools(f, rest);
}

/// Aspect ratio and overscan are read.
proof fn lemma_before_color(u: Usability, rest: Seq<bool>)
    requires
        usability_fits(u),
    ensures
        hevc_color::vui_before_color(written_before_color(u) + rest) == Ok::<
            Seq<bool>,
            HevcError,
        >(rest),
{
    reveal(hevc_color::vui_before_color);
    let over = optional(
        match u.overscan {
            Some(b) => Some(seq![b]),
            None => None,
        },
    );
    let r0 = over + rest;
    match u.overscan {
        Some(b) => {
            assert(r0.skip(1).skip(1) =~= rest);
        },
        None => {
            assert(r0.skip(1) =~= rest);
        },
    }
    assert(hevc_color::then_optional_skip(Ok(r0), 1) == Ok::<Seq<bool>, HevcError>(rest));
    let s = written_before_color(u) + rest;
    match u.aspect {
        None => {
            assert(s.skip(1) =~= r0);
        },
        Some((idc, size)) => {
            let a = s.skip(1);
            assert(a =~= idc + (size + r0));
            assert(a.take(8) =~= idc);
            assert(a.skip(8) =~= size + r0);
            assert((size + r0).skip(size.len() as int) =~= r0);
        },
    }
}

/// The signal type is read.
proof fn lemma_color(s: Option<Signal>, rest: Seq<bool>)
    requires
        signal_fits(s),
    ensures
        hevc_color::vui_color(written_color(s) + rest) == Ok::<Seq<bool>, HevcError>(rest),
{
    reveal(hevc_color::vui_color);
    let bits = written_color(s) + rest;
    match s {
        None => {
            assert(bits.skip(1) =~= rest);
        },
        Some(signal) => {
            let a = bits.skip(1);
            let b = a.skip(4);
            assert(b =~= optional(signal.description) + rest);
            match signal.description {
                None => {
                    assert(b.skip(1) =~= rest);
                },
                Some(d) => {
                    assert(b.skip(1).skip(24) =~= rest);
                },
            }
        },
    }
}

/// The rest of the usability information is read.
proof fn lemma_after_color(u: Usability, rest: Seq<bool>)
    requires
        usability_fits(u),
    ensures
        hevc_color::vui_after_color(written_after_color(u) + rest) == Ok::<
            Seq<bool>,
            HevcError,
        >(rest),
{
    reveal(hevc_color::vui_after_color);
    let chroma = optional(
        match u.chroma_location {
            Some(c) => Some(flat(c)),
            None => None,
        },
    );
    let window = optional(
        match u.display_window {
            Some(w) => Some(flat(w)),
            None => None,
        },
    );
    let timing = optional(
        match u.timing {
            Some((numbers, ticks)) => Some(numbers + optional(ticks) + seq![false]),
            None => None,
        },
    );
    let restriction = optional(
        match u.restriction {
            Some((flags, codes)) => Some(flags + flat(codes)),
            None => None,
        },
    );
    let r3 = restriction + rest;
    let r2 = timing + r3;
    let r1 = window + r2;
    let r0 = u.fields + r1;
    lemma_five(chroma, u.fields, window, timing, restriction, rest);
    lemma_optional_codes(u.chroma_location, 2, r0);
    assert(r0.skip(3) =~= r1);
    lemma_optional_codes(u.display_window, 4, r2);
    lemma_timing(u, r3);
    lemma_restriction(u, rest);
}

/// Four bit strings in front of a rest.
proof fn lemma_four(a: Seq<bool>, b: Seq<bool>, c: Seq<bool>, d: Seq<bool>, rest: Seq<bool>)
    ensures
        a + b + c + d + rest == a + (b + (c + (d + rest))),
{
    assert(a + b + c + d + rest =~= a + (b + (c + (d + rest))));
}

/// Five bit strings in front of a rest.
proof fn lemma_five(
    a: Seq<bool>,
    b: Seq<bool>,
    c: Seq<bool>,
    d: Seq<bool>,
    e: Seq<bool>,
    rest: Seq<bool>,
)
    ensures
        a + b + c + d + e + rest == a + (b + (c + (d + (e + rest)))),
{
    assert(a + b + c + d + e + rest =~= a + (b + (c + (d + (e + rest)))));
}

/// Timing information is read.
proof fn lemma_timing(u: Usability, rest: Seq<bool>)
    requires
        usability_fits(u),
    ensures
        ({
            let part = match u.timing {
                Some((numbers, ticks)) => Some(numbers + optional(ticks) + seq![false]),
                None => None,
            };
            hevc_color::then_timing(Ok(optional(part) + rest)) == Ok::<Seq<bool>, HevcError>(rest)
        }),
{
    match u.timing {
        None => {
            assert((seq![false] + rest).skip(1) =~= rest);
        },
        Some((numbers, ticks)) => {
            let end = seq![false] + rest;
            let s = seq![true] + (numbers + optional(ticks) + seq![false]) + rest;
            let a = s.skip(1);
            assert(a =~= numbers + (optional(ticks) + end));
            assert(a.skip(64) =~= optional(ticks) + end);
            let codes = match ticks {
                Some(t) => Some(seq![t]),
                None => None,
            };
            match ticks {
                Some(t) => {
                    let one = seq![t];
                    assert(one.drop_first() =~= Seq::<Seq<bool>>::empty());
                    assert(flat(one.drop_first()) =~= Seq::<bool>::empty());
                    assert(one[0] + flat(one.drop_first()) =~= t);
                    assert(is_code(one[0]));
                },
                None => {},
            }
            lemma_optional_codes(codes, 1, end);
            assert(end.skip(1) =~= rest);
        },
    }
}

/// Bitstream restrictions are read.
proof fn lemma_restriction(u: Usability, rest: Seq<bool>)
    requires
        usability_fits(u),
    ensures
        ({
            let part = match u.restriction {
                Some((flags, codes)) => Some(flags + flat(codes)),
                None => None,
            };
            hevc_color::then_restriction(Ok(optional(part) + rest)) == Ok::<Seq<bool>, HevcError>(
                rest,
            )
        }),
{
    match u.restriction {
        None => {
            assert((seq![false] + rest).skip(1) =~= rest);
        },
        Some((flags, codes)) => {
            let s = seq![true] + (flags + flat(codes)) + rest;
            let a = s.skip(1);
            assert(a =~= flags + (flat(codes) + rest));
            assert(a.skip(3) =~= flat(codes) + rest);
            lemma_codes(codes, rest);
        },
    }
}

/// The end of a parameter set: no extension, the stop bit, and zeros up to a whole byte.
pub open spec fn written_end(zeros: int) -> Seq<bool> {
    seq![false, true] + Seq::new(zeros as nat, |i: int| false)
}

/// The end is read.
proof fn lemma_end(zeros: int)
    requires
        0 <= zeros < 8,
    ensures
        hevc_color::through_stop_bit(written_end(zeros)) == Ok::<Seq<bool>, HevcError>(
            Seq::new(zeros as nat, |i: int| false),
        ),
{
    reveal(hevc_color::through_stop_bit);
    let s = written_end(zeros);
    assert(s.skip(1).skip(1) =~= Seq::new(zeros as nat, |i: int| false));
    assert(s.skip(1)[0]);
}

/// The right colour, as it is written.
proof fn lemma_bt709()
    ensures
        written_color(bt709_signal()) == hevc_color::bt709(),
{
    assert(written_color(bt709_signal()) =~= hevc_color::bt709());
}

/// A parameter set with usability information, whatever it holds otherwise, gets the right
/// signal type in place of its own, or of none, and keeps every other bit but for the zeros
/// behind its stop bit. With the right one it is left as it is.
pub proof fn law_the_signal_type_is_replaced(
    f: Front,
    u: Usability,
    signal: Option<Signal>,
    zeros: int,
)
    requires
        front_fits(f),
        usability_fits(u),
        signal_fits(signal),
        0 <= zeros < 8,
    ensures
        ({
            let bits = written_front(f) + seq![true] + written_before_color(u) + written_color(signal)
                + written_after_color(u) + written_end(zeros);
            let right = written_front(f) + seq![true] + written_before_color(u) + written_color(
                bt709_signal(),
            ) + written_after_color(u) + written_end(0);
            if written_color(signal) == written_color(bt709_signal()) {
                hevc_color::recolored(bits) == Ok::<Option<Seq<bool>>, HevcError>(None)
            } else {
                hevc_color::recolored(bits) == Ok::<Option<Seq<bool>>, HevcError>(Some(right))
            }
        }),
{
    let end = written_end(zeros);
    let padding = Seq::new(zeros as nat, |i: int| false);
    let after = written_after_color(u) + end;
    let color = written_color(signal) + after;
    let vui = written_before_color(u) + color;
    let at_vui = seq![true] + vui;
    let bits = written_front(f) + seq![true] + written_before_color(u) + written_color(signal)
        + written_after_color(u) + end;
    let right = written_front(f) + seq![true] + written_before_color(u) + written_color(
        bt709_signal(),
    ) + written_after_color(u) + written_end(0);
    assert(end =~= written_end(0) + padding);
    lemma_spliced(
        written_front(f),
        written_before_color(u),
        written_color(signal),
        written_after_color(u),
        written_end(0),
        padding,
        written_color(bt709_signal()),
    );
    law_fronts_are_read(f, at_vui);
    assert(at_vui.skip(1) =~= vui);
    lemma_before_color(u, color);
    lemma_color(signal, after);
    lemma_after_color(u, end);
    lemma_end(zeros);
    lemma_bt709();
}

/// The parts of a parameter set, and one of them replaced.
proof fn lemma_spliced(
    front: Seq<bool>,
    before: Seq<bool>,
    color: Seq<bool>,
    after: Seq<bool>,
    end: Seq<bool>,
    padding: Seq<bool>,
    right: Seq<bool>,
)
    ensures
        ({
            let rest = after + (end + padding);
            let whole = front + seq![true] + before + color + after + (end + padding);
            &&& whole == front + (seq![true] + (before + (color + rest)))
            &&& hevc_color::consumed(color + rest, rest) == color
            &&& hevc_color::consumed(whole, color + rest) == front + seq![true] + before
            &&& hevc_color::consumed(rest, padding) == after + end
            &&& front + seq![true] + before + right + (after + end) == front + seq![true] + before
                + right + after + end
        }),
{
    let rest = after + (end + padding);
    let whole = front + seq![true] + before + color + after + (end + padding);
    assert(whole =~= front + (seq![true] + (before + (color + rest))));
    assert(hevc_color::consumed(color + rest, rest) =~= color);
    assert(hevc_color::consumed(whole, color + rest) =~= front + seq![true] + before);
    assert(hevc_color::consumed(rest, padding) =~= after + end);
    assert(front + seq![true] + before + right + (after + end) =~= front + seq![true] + before
        + right + after + end);
}

/// A parameter set without usability information gets some that holds the right signal type
/// and nothing else.
pub proof fn law_usability_is_added(f: Front, zeros: int)
    requires
        front_fits(f),
        0 <= zeros < 8,
    ensures
        hevc_color::recolored(written_front(f) + seq![false] + written_end(zeros)) == Ok::<
            Option<Seq<bool>>,
            HevcError,
        >(
            Some(
                written_front(f) + seq![true] + written_before_color(bare()) + written_color(
                    bt709_signal(),
                ) + written_after_color(bare()) + written_end(0),
            ),
        ),
{
    let end = written_end(zeros);
    let padding = Seq::new(zeros as nat, |i: int| false);
    let at_vui = seq![false] + end;
    let bits = written_front(f) + seq![false] + end;
    assert(bits =~= written_front(f) + at_vui);
    law_fronts_are_read(f, at_vui);
    assert(at_vui.skip(1) =~= end);
    lemma_end(zeros);
    lemma_bt709();
    assert(hevc_color::consumed(bits, at_vui) =~= written_front(f));
    assert(hevc_color::consumed(end, padding) =~= written_end(0));
    assert(written_before_color(bare()) =~= seq![false, false]);
    assert(written_after_color(bare()) =~= seq![false, false, false, false, false, false, false]);
    assert(hevc_color::consumed(bits, at_vui) + hevc_color::bt709_vui() + hevc_color::consumed(
        end,
        padding,
    ) =~= written_front(f) + seq![true] + written_before_color(bare()) + written_color(
        bt709_signal(),
    ) + written_after_color(bare()) + written_end(0));
}

/// Usability information that tells nothing but the signal type.
pub open spec fn bare() -> Usability {
    Usability {
        aspect: None,
        overscan: None,
        chroma_location: None,
        fields: seq![false, false, false],
        display_window: None,
        timing: None,
        restriction: None,
    }
}

} // verus!
