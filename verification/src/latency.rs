//! Diagnostics of the sender: how old frames are at each stage, by their timestamps. This
//! is not the latency of the display.
use crate::measure;
use std::collections::{BTreeMap, HashSet};
use vstd::prelude::*;

verus! {

/// How many samples make a summary.
pub const WINDOW: usize = 300;

/// The multiplexer adds one hour to the timestamps that it writes.
pub const PES_OFFSET: u64 = 324_000_000;

/// How many frames are kept that have not passed every stage.
pub const MAX_FRAMES: usize = 1024;

/// Timestamps count modulo this many ticks of 90 kHz.
pub const PTS_MODULUS: u64 = 8_589_934_592;

// ---------------------------------------------------------------------------
// Samples
// ---------------------------------------------------------------------------

/// The samples of one measure.
pub struct Samples {
    pub seen: HashSet<u64>,
    pub ages: Vec<i64>,
    pub last_pts: Option<u64>,
}

/// The samples of one measure.
pub ghost struct SamplesModel {
    pub seen: Set<u64>,
    pub ages: Seq<i64>,
    pub last_pts: Option<u64>,
}

impl View for Samples {
    type V = SamplesModel;

    open spec fn view(&self) -> SamplesModel {
        SamplesModel { seen: self.seen@, ages: self.ages@, last_pts: self.last_pts }
    }
}

/// In ascending order.
pub open spec fn ascending(s: Seq<i64>) -> Seq<i64> {
    s.sort_by(|a: i64, b: i64| a <= b)
}

/// The median, the 95th percentile and the maximum of a full window.
pub open spec fn summary_of(ages: Seq<i64>) -> Seq<i64> {
    seq![ascending(ages)[149], ascending(ages)[284], ascending(ages)[299]]
}

/// Whether a sample is one of a frame that was not counted yet.
pub open spec fn is_new(s: SamplesModel, pts: u64) -> bool {
    s.last_pts != Some(pts) && !s.seen.contains(pts)
}

/// The samples behind one more.
pub open spec fn recorded(s: SamplesModel, pts: u64, age: i64) -> SamplesModel {
    if s.last_pts == Some(pts) {
        s
    } else if s.seen.contains(pts) {
        SamplesModel { last_pts: Some(pts), ..s }
    } else if s.ages.len() + 1 < WINDOW {
        SamplesModel { last_pts: Some(pts), seen: s.seen.insert(pts), ages: s.ages.push(age) }
    } else {
        SamplesModel { last_pts: Some(pts), seen: Set::empty(), ages: Seq::empty() }
    }
}

/// The summary with which a sample completes a window.
pub open spec fn completed(s: SamplesModel, pts: u64, age: i64) -> Option<Seq<i64>> {
    if is_new(s, pts) && s.ages.len() + 1 >= WINDOW {
        Some(summary_of(s.ages.push(age)))
    } else {
        None
    }
}

/// Puts a number where it belongs in an ascending list.
fn insert_ascending(v: &mut Vec<i64>, x: i64)
    requires
        forall|i: int, j: int| 0 <= i < j < old(v)@.len() ==> old(v)@[i] <= old(v)@[j],
    ensures
        forall|i: int, j: int| 0 <= i < j < final(v)@.len() ==> final(v)@[i] <= final(v)@[j],
        final(v)@.to_multiset() == old(v)@.to_multiset().insert(x),
        final(v)@.len() == old(v)@.len() + 1,
{
    let mut i: usize = v.len();
    while i > 0 && v[i - 1] > x
        invariant
            i <= v@.len(),
            v@ == old(v)@,
            forall|k: int| i <= k < v@.len() ==> v@[k] > x,
        decreases i,
    {
        i = i - 1;
    }
    let ghost before = v@;
    v.insert(i, x);
    proof {
        let a = before.take(i as int);
        let b = before.skip(i as int);
        broadcast use vstd::seq_lib::group_to_multiset_ensures;

        assert(before =~= a + b);
        assert(v@ =~= a.push(x) + b);
        vstd::seq_lib::lemma_multiset_commutative(a, b);
        vstd::seq_lib::lemma_multiset_commutative(a.push(x), b);
        assert(a.push(x).to_multiset() =~= a.to_multiset().insert(x));
        assert(v@.to_multiset() =~= before.to_multiset().insert(x));
    }
}

/// A copy in ascending order.
fn sorted(v: &Vec<i64>) -> (r: Vec<i64>)
    ensures
        r@ == ascending(v@),
        r@.len() == v@.len(),
{
    let mut out: Vec<i64> = Vec::new();
    let mut i: usize = 0;
    proof {
        broadcast use vstd::seq_lib::group_to_multiset_ensures;

        assert(v@.take(0) =~= out@);
    }
    while i < v.len()
        invariant
            i <= v@.len(),
            out@.len() == i,
            forall|a: int, b: int| 0 <= a < b < out@.len() ==> out@[a] <= out@[b],
            out@.to_multiset() == v@.take(i as int).to_multiset(),
        decreases v@.len() - i,
    {
        insert_ascending(&mut out, v[i]);
        i = i + 1;
        proof {
            broadcast use vstd::seq_lib::group_to_multiset_ensures;

            assert(v@.take(i as int) =~= v@.take(i - 1).push(v@[i - 1]));
        }
    }
    proof {
        let leq = |a: i64, b: i64| a <= b;
        assert(v@.take(i as int) =~= v@);
        v@.lemma_sort_by_ensures(leq);
        vstd::seq_lib::lemma_sorted_unique(out@, ascending(v@), leq);
    }
    out
}

impl Default for Samples {
    fn default() -> (r: Samples)
        ensures
            r.wf(),
            r@.seen == Set::<u64>::empty(),
            r@.ages == Seq::<i64>::empty(),
            r@.last_pts is None,
    {
        Samples { seen: HashSet::new(), ages: Vec::new(), last_pts: None }
    }
}

impl Samples {
    /// Less than a window, with one timestamp for each sample.
    pub open spec fn wf(&self) -> bool {
        &&& self.ages@.len() < WINDOW
        &&& self.seen@.finite()
        &&& self.seen@.len() == self.ages@.len()
    }

    /// A sample of a frame, by its timestamp. A frame counts once; every full window gives
    /// its median, its 95th percentile and its maximum, and nothing of it is kept.
    pub fn record(&mut self, pts: u64, age: i64) -> (r: Option<[i64; 3]>)
        requires
            old(self).wf(),
        ensures
            final(self).wf(),
            final(self)@ == recorded(old(self)@, pts, age),
            match completed(old(self)@, pts, age) {
                Some(summary) => r is Some && r->Some_0@ == summary,
                None => r is None,
            },
    {
        match self.last_pts {
            Some(last) => {
                if last == pts {
                    return None;
                }
            },
            None => {},
        }
        self.last_pts = Some(pts);
        if self.seen.contains(&pts) {
            return None;
        }
        self.seen.insert(pts);
        self.ages.push(age);
        if self.ages.len() < WINDOW {
            return None;
        }
        let ordered = sorted(&self.ages);
        let summary = [ordered[149], ordered[284], ordered[299]];
        proof {
            assert(summary@ =~= summary_of(old(self).ages@.push(age)));
        }
        self.seen.clear();
        self.ages.clear();
        Some(summary)
    }
}

// ---------------------------------------------------------------------------
// The same frame at two stages
// ---------------------------------------------------------------------------

/// The stages of a video frame: capture, encoder input, encoder output, multiplexer input,
/// multiplexer output and network.
pub open spec fn stage_number(label: Seq<char>) -> Option<int> {
    if label == "capture.src"@ {
        Some(0)
    } else if label == "encoder.sink"@ {
        Some(1)
    } else if label == "encoder.src"@ {
        Some(2)
    } else if label == "mux.video-input"@ {
        Some(3)
    } else if label == "mux.src"@ {
        Some(4)
    } else if label == "network.sink"@ {
        Some(5)
    } else {
        None
    }
}

/// The pairs of stages between which time is measured.
pub open spec fn pair(k: int) -> (Seq<char>, int, int) {
    if k == 0 {
        ("capture->encoder-input"@, 0, 1)
    } else if k == 1 {
        ("encoder-input->output"@, 1, 2)
    } else if k == 2 {
        ("encoder-output->mux-input"@, 2, 3)
    } else if k == 3 {
        ("mux-input->video-PES"@, 3, 4)
    } else if k == 4 {
        ("encoder-output->video-PES"@, 2, 4)
    } else if k == 5 {
        ("video-PES->network-sink"@, 4, 5)
    } else {
        ("capture->network-sink"@, 0, 5)
    }
}

/// The number of a stage.
pub fn pair_stage(label: &str) -> (r: Option<usize>)
    ensures
        match stage_number(label@) {
            Some(n) => r is Some && r->Some_0 == n && n < 6,
            None => r is None,
        },
{
    if crate::text::same(label, "capture.src") {
        Some(0)
    } else if crate::text::same(label, "encoder.sink") {
        Some(1)
    } else if crate::text::same(label, "encoder.src") {
        Some(2)
    } else if crate::text::same(label, "mux.video-input") {
        Some(3)
    } else if crate::text::same(label, "mux.src") {
        Some(4)
    } else if crate::text::same(label, "network.sink") {
        Some(5)
    } else {
        None
    }
}

/// The pairs of stages between which time is measured.
fn pair_of(k: usize) -> (r: (&'static str, usize, usize))
    requires
        k < 7,
    ensures
        r.0@ == pair(k as int).0,
        r.1 == pair(k as int).1,
        r.2 == pair(k as int).2,
        r.1 < 6,
        r.2 < 6,
{
    match k {
        0 => ("capture->encoder-input", 0, 1),
        1 => ("encoder-input->output", 1, 2),
        2 => ("encoder-output->mux-input", 2, 3),
        3 => ("mux-input->video-PES", 3, 4),
        4 => ("encoder-output->video-PES", 2, 4),
        5 => ("video-PES->network-sink", 4, 5),
        _ => ("capture->network-sink", 0, 5),
    }
}

/// The time between two stages, where both have it and it fits.
pub open spec fn pair_time(times: Seq<Option<u64>>, start: int, end: int) -> Option<i64> {
    if times[start] is Some && times[end] is Some && times[end]->Some_0 >= times[start]->Some_0
        && times[end]->Some_0 - times[start]->Some_0 <= i64::MAX {
        Some((times[end]->Some_0 - times[start]->Some_0) as i64)
    } else {
        None
    }
}

/// The samples behind the first `k` pairs that end at `stage`.
pub open spec fn pairs_recorded(
    samples: Seq<SamplesModel>,
    times: Seq<Option<u64>>,
    pts: u64,
    stage: int,
    k: int,
) -> Seq<SamplesModel>
    decreases k,
{
    if k <= 0 {
        samples
    } else {
        let before = pairs_recorded(samples, times, pts, stage, k - 1);
        let (_, start, end) = pair(k - 1);
        match pair_time(times, start, end) {
            Some(time) => if end == stage {
                before.update(k - 1, recorded(before[k - 1], pts, time))
            } else {
                before
            },
            None => before,
        }
    }
}

/// The summaries of the first `k` pairs that end at `stage`.
pub open spec fn pair_reports(
    samples: Seq<SamplesModel>,
    times: Seq<Option<u64>>,
    pts: u64,
    stage: int,
    k: int,
) -> Seq<(Seq<char>, Seq<i64>)>
    decreases k,
{
    if k <= 0 {
        Seq::empty()
    } else {
        let before = pair_reports(samples, times, pts, stage, k - 1);
        let (label, start, end) = pair(k - 1);
        match pair_time(times, start, end) {
            Some(time) => if end == stage {
                match completed(samples[k - 1], pts, time) {
                    Some(summary) => before.push((label, summary)),
                    None => before,
                }
            } else {
                before
            },
            None => before,
        }
    }
}

/// The times of a frame, none of them known yet if it is new.
pub open spec fn times_of(frames: Map<u64, Seq<Option<u64>>>, pts: u64) -> Seq<Option<u64>> {
    if frames.contains_key(pts) {
        frames[pts]
    } else {
        seq![None, None, None, None, None, None]
    }
}

/// Without the smallest key, where there are more than the limit.
pub open spec fn bounded(
    before: Map<u64, Seq<Option<u64>>>,
    after: Map<u64, Seq<Option<u64>>>,
) -> bool {
    if before.dom().len() > MAX_FRAMES {
        exists|k: u64|
            {
                &&& #[trigger] before.contains_key(k)
                &&& forall|other: u64| before.contains_key(other) ==> k <= other
                &&& after == before.remove(k)
            }
    } else {
        after == before
    }
}

/// Reports with their labels and values as sequences.
pub open spec fn report_views(v: Seq<(&'static str, [i64; 3])>) -> Seq<(Seq<char>, Seq<i64>)> {
    Seq::new(v.len(), |i: int| (v[i].0@, v[i].1@))
}

/// Samples as models.
pub open spec fn sample_views(v: Seq<Samples>) -> Seq<SamplesModel> {
    Seq::new(v.len(), |i: int| v[i]@)
}

/// Frames with their times as sequences.
pub open spec fn frame_views(m: Map<u64, [Option<u64>; 6]>) -> Map<u64, Seq<Option<u64>>> {
    m.map_values(|t: [Option<u64>; 6]| t@)
}

/// The times of frames at the stages, and the samples of the pairs.
pub struct Paired {
    pub frames: BTreeMap<u64, [Option<u64>; 6]>,
    pub samples: Vec<Samples>,
    pub pes_age: Samples,
    pub mux_offset: Samples,
}

impl Paired {
    /// A sample set for every pair, and no more frames than the limit.
    pub open spec fn wf(&self) -> bool {
        &&& self.samples@.len() == 7
        &&& forall|i: int| 0 <= i < 7 ==> (#[trigger] self.samples@[i]).wf()
        &&& self.frames@.dom().finite()
        &&& self.frames@.dom().len() <= MAX_FRAMES
        &&& self.pes_age.wf()
        &&& self.mux_offset.wf()
    }

    /// The samples of the pairs.
    pub open spec fn pairs(&self) -> Seq<SamplesModel> {
        sample_views(self.samples@)
    }

    /// The samples of the age at the multiplexer output.
    pub open spec fn ages(&self) -> SamplesModel {
        self.pes_age@
    }

    /// The samples of the offset of the multiplexer.
    pub open spec fn offsets(&self) -> SamplesModel {
        self.mux_offset@
    }

    /// The times of the frames.
    pub open spec fn times(&self) -> Map<u64, Seq<Option<u64>>> {
        frame_views(self.frames@)
    }
}

impl Default for Paired {
    fn default() -> (r: Paired)
        ensures
            r.wf(),
            r.times() == Map::<u64, Seq<Option<u64>>>::empty(),
            r.pairs().len() == 7,
            forall|i: int|
                0 <= i < 7 ==> (#[trigger] r.pairs()[i]) == (SamplesModel {
                    seen: Set::empty(),
                    ages: Seq::empty(),
                    last_pts: None,
                }),
            r.ages() == (SamplesModel {
                seen: Set::empty(),
                ages: Seq::empty(),
                last_pts: None,
            }),
            r.offsets() == (SamplesModel {
                seen: Set::empty(),
                ages: Seq::empty(),
                last_pts: None,
            }),
    {
        let mut samples: Vec<Samples> = Vec::new();
        let mut i: usize = 0;
        while i < 7
            invariant
                i <= 7,
                samples@.len() == i,
                forall|k: int|
                    0 <= k < i ==> (#[trigger] samples@[k]).wf() && samples@[k]@ == (SamplesModel {
                        seen: Set::empty(),
                        ages: Seq::empty(),
                        last_pts: None,
                    }),
            decreases 7 - i,
        {
            samples.push(Samples::default());
            i = i + 1;
        }
        let r = Paired {
            frames: BTreeMap::new(),
            samples,
            pes_age: Samples::default(),
            mux_offset: Samples::default(),
        };
        proof {
            assert(r.times() =~= Map::<u64, Seq<Option<u64>>>::empty());
            assert(r.frames@.dom() =~= Set::<u64>::empty());
        }
        r
    }
}

/// The smallest key of a map that is not empty.
fn smallest_key(m: &BTreeMap<u64, [Option<u64>; 6]>) -> (r: u64)
    requires
        m@.dom().finite(),
        m@.dom().len() > 0,
    ensures
        m@.contains_key(r),
        forall|k: u64| m@.contains_key(k) ==> r <= k,
{
    let mut best: Option<u64> = None;
    for key in it: m.keys()
        invariant
            best is None ==> it.index() == 0,
            best is Some ==> m@.contains_key(best->Some_0),
            forall|i: int| 0 <= i < it.index() ==> best is Some && best->Some_0 <= *it.seq()[i],
            it.seq().unref().to_set() == m@.dom(),
    {
        proof {
            assert(it.seq().unref()[it.index() as int] == *key);
            assert(it.seq().unref().to_set().contains(*key));
        }
        match best {
            None => {
                best = Some(*key);
            },
            Some(b) => {
                if *key < b {
                    best = Some(*key);
                }
            },
        }
    }
    match best {
        Some(b) => b,
        None => 0,
    }
}

/// One report behind others.
proof fn lemma_reports_push(v: Seq<(&'static str, [i64; 3])>, r: (&'static str, [i64; 3]))
    ensures
        report_views(v.push(r)) == report_views(v).push((r.0@, r.1@)),
{
    assert(report_views(v.push(r)) =~= report_views(v).push((r.0@, r.1@)));
}

/// The pairs that were not looked at yet are as they were.
proof fn lemma_later_pairs(
    samples: Seq<SamplesModel>,
    times: Seq<Option<u64>>,
    pts: u64,
    stage: int,
    k: int,
)
    requires
        samples.len() == 7,
        0 <= k <= 7,
    ensures
        pairs_recorded(samples, times, pts, stage, k).len() == 7,
        forall|i: int|
            k <= i < 7 ==> #[trigger] pairs_recorded(samples, times, pts, stage, k)[i]
                == samples[i],
    decreases k,
{
    if k > 0 {
        lemma_later_pairs(samples, times, pts, stage, k - 1);
    }
}

impl Paired {
    /// The samples of the pairs that end at a stage.
    fn record_pairs(&mut self, times: &[Option<u64>; 6], pts: u64, stage: usize) -> (r: Vec<
        (&'static str, [i64; 3]),
    >)
        requires
            old(self).wf(),
            stage < 6,
        ensures
            final(self).wf(),
            final(self).frames == old(self).frames,
            final(self).pes_age == old(self).pes_age,
            final(self).mux_offset == old(self).mux_offset,
            final(self).pairs() == pairs_recorded(old(self).pairs(), times@, pts, stage as int, 7),
            report_views(r@) == pair_reports(old(self).pairs(), times@, pts, stage as int, 7),
    {
        let mut reports: Vec<(&'static str, [i64; 3])> = Vec::new();
        let mut k: usize = 0;
        let ghost before = self.pairs();
        proof {
            assert(report_views(reports@) =~= Seq::<(Seq<char>, Seq<i64>)>::empty());
        }
        while k < 7
            invariant
                k <= 7,
                stage < 6,
                self.wf(),
                self.frames == old(self).frames,
                self.pes_age == old(self).pes_age,
                self.mux_offset == old(self).mux_offset,
                before == old(self).pairs(),
                before.len() == 7,
                self.pairs() == pairs_recorded(before, times@, pts, stage as int, k as int),
                report_views(reports@) == pair_reports(before, times@, pts, stage as int, k as int),
            decreases 7 - k,
        {
            let (label, start, end) = pair_of(k);
            let ghost held = self.pairs();
            proof {
                lemma_later_pairs(before, times@, pts, stage as int, k as int);
                assert(held[k as int] == self.samples@[k as int]@);
            }
            if end == stage {
                match (times[start], times[end]) {
                    (Some(a), Some(b)) => {
                        if b >= a && b - a <= i64::MAX as u64 {
                            let time: i64 = (b - a) as i64;
                            let ghost slot = self.samples@[k as int];
                            let summary = self.samples[k].record(pts, time);
                            proof {
                                assert(self.pairs() =~= held.update(
                                    k as int,
                                    recorded(held[k as int], pts, time),
                                ));
                            }
                            match summary {
                                Some(values) => {
                                    proof {
                                        lemma_reports_push(reports@, (label, values));
                                    }
                                    reports.push((label, values));
                                },
                                None => {},
                            }
                        }
                    },
                    _ => {},
                }
            }
            k = k + 1;
        }
        reports
    }

    /// A frame at a stage. Only its first time there counts. Gives the summaries that are
    /// complete, and forgets the oldest frame where there are too many.
    pub fn record(&mut self, pts: u64, stage: usize, now: u64) -> (r: Vec<
        (&'static str, [i64; 3]),
    >)
        requires
            old(self).wf(),
            stage < 6,
        ensures
            final(self).wf(),
            final(self).ages() == old(self).ages(),
            final(self).offsets() == old(self).offsets(),
            ({
                let known = times_of(old(self).times(), pts);
                let times = known.update(stage as int, Some(now));
                if known[stage as int] is Some {
                    r@.len() == 0 && final(self).times() == old(self).times()
                        && final(self).pairs() == old(self).pairs()
                } else {
                    &&& report_views(r@) == pair_reports(
                        old(self).pairs(),
                        times,
                        pts,
                        stage as int,
                        7,
                    )
                    &&& final(self).pairs() == pairs_recorded(
                        old(self).pairs(),
                        times,
                        pts,
                        stage as int,
                        7,
                    )
                    &&& bounded(old(self).times().insert(pts, times), final(self).times())
                }
            }),
    {
        let mut times: [Option<u64>; 6] = match self.frames.get(&pts) {
            Some(times) => *times,
            None => [None, None, None, None, None, None],
        };
        let ghost known = times_of(self.times(), pts);
        proof {
            assert(times@ =~= known);
        }
        if times[stage].is_some() {
            return Vec::new();
        }
        times[stage] = Some(now);
        let reports = self.record_pairs(&times, pts, stage);
        self.frames.insert(pts, times);
        let ghost full = self.times();
        proof {
            assert(full =~= old(self).times().insert(pts, times@));
            assert(times@ =~= known.update(stage as int, Some(now)));
            assert(full.dom() =~= self.frames@.dom());
        }
        if self.frames.len() > MAX_FRAMES {
            let oldest: u64 = smallest_key(&self.frames);
            proof {
                assert(full.contains_key(oldest));
                assert forall|other: u64| full.contains_key(other) implies oldest <= other by {
                    assert(self.frames@.contains_key(other));
                }
            }
            self.frames.remove(&oldest);
            proof {
                assert(self.times() =~= full.remove(oldest));
            }
        }
        reports
    }
}

// ---------------------------------------------------------------------------
// Timestamps
// ---------------------------------------------------------------------------

/// Nanoseconds in ticks of 90 kHz, modulo 33 bits.
pub open spec fn ticks(ns: int) -> int {
    ns * 90_000 / 1_000_000_000 % 8_589_934_592
}

/// Nanoseconds in ticks of 90 kHz, modulo 33 bits.
pub fn pts_90k(ns: u64) -> (r: u64)
    ensures
        r == ticks(ns as int),
{
    let wide: u128 = ns as u128 * 90_000 / 1_000_000_000;
    (wide % 8_589_934_592) as u64
}

/// The distance between two timestamps, the shorter way round, in ticks.
pub open spec fn tick_distance(from: int, to: int) -> int {
    (to - from + 4_294_967_296) % 8_589_934_592 - 4_294_967_296
}

/// Ticks of 90 kHz in nanoseconds, towards zero.
pub open spec fn ticks_to_ns(t: int) -> int {
    if t >= 0 {
        t * 1_000_000_000 / 90_000
    } else {
        -((-t) * 1_000_000_000 / 90_000)
    }
}

/// The time from the timestamp `key` to `now`, in nanoseconds.
pub fn unwrapped_ns(key: u64, now: u64) -> (r: i64)
    requires
        key < 8_589_934_592,
        now < 8_589_934_592,
    ensures
        r == ticks_to_ns(tick_distance(key as int, now as int)),
{
    let shifted: u64 = (now + 8_589_934_592 + 4_294_967_296 - key) % 8_589_934_592;
    proof {
        assert((now - key + 4_294_967_296) % 8_589_934_592 == shifted);
    }
    if shifted >= 4_294_967_296 {
        let t: u64 = shifted - 4_294_967_296;
        (t * 1_000_000_000 / 90_000) as i64
    } else {
        let t: u64 = 4_294_967_296 - shifted;
        -((t * 1_000_000_000 / 90_000) as i64)
    }
}

/// The time from `then` to `now`, where it fits.
pub fn age(then: u64, now: u64) -> (r: Option<i64>)
    ensures
        match r {
            Some(a) => a == now - then,
            None => now - then > i64::MAX || now - then < i64::MIN,
        },
{
    let difference: i128 = now as i128 - then as i128;
    if -9_223_372_036_854_775_808 <= difference && difference <= 9_223_372_036_854_775_807 {
        Some(difference as i64)
    } else {
        None
    }
}

/// The running time of the video frame that starts in a transport packet, in ticks.
pub open spec fn source_timestamp(ts: Seq<u8>) -> Option<int> {
    let offset: int = if ts[3] as int / 32 % 2 == 1 {
        5 + ts[4]
    } else {
        4
    };
    let pes = ts.skip(offset);
    if ts.len() != 188 || ts[0] != 0x47 || ts[1] as int / 64 != 1 || (ts[1] as int % 32) * 256
        + ts[2] != 4113 || ts[3] as int / 16 % 2 == 0 {
        None
    } else if offset > 188 || pes.len() < 14 || pes[0] != 0 || pes[1] != 0 || pes[2] != 1
        || pes[3] as int / 16 != 14 || pes[7] as int / 128 == 0 || pes[8] < 5 {
        None
    } else if pes[9] as int % 2 == 0 || pes[11] as int % 2 == 0 || pes[13] as int % 2 == 0 {
        None
    } else {
        Some((measure::timestamp(pes.subrange(9, 14)) - PES_OFFSET) % 8_589_934_592)
    }
}

/// The running time of the video frame that starts in a transport packet, in ticks.
pub fn video_pts(packet: &[u8]) -> (r: Option<u64>)
    ensures
        match source_timestamp(packet@) {
            Some(pts) => r is Some && r->Some_0 == pts && pts < 8_589_934_592,
            None => r is None,
        },
{
    if packet.len() != 188 || packet[0] != 0x47 || packet[1] / 64 != 1 || (packet[1] % 32) as usize
        * 256 + packet[2] as usize != 4113 || packet[3] / 16 % 2 == 0 {
        return None;
    }
    let offset: usize = if packet[3] / 32 % 2 == 1 {
        5 + packet[4] as usize
    } else {
        4
    };
    if offset > 188 {
        return None;
    }
    let pes = &packet[offset..packet.len()];
    proof {
        assert(pes@ =~= packet@.skip(offset as int));
    }
    if pes.len() < 14 || pes[0] != 0 || pes[1] != 0 || pes[2] != 1 || pes[3] / 16 != 14 || pes[7]
        / 128 == 0 || pes[8] < 5 {
        return None;
    }
    if pes[9] % 2 == 0 || pes[11] % 2 == 0 || pes[13] % 2 == 0 {
        return None;
    }
    let wire: u64 = measure::timestamp_at(pes, 9);
    let shifted: u64 = (wire + 8_589_934_592 - PES_OFFSET) % 8_589_934_592;
    proof {
        assert((wire - PES_OFFSET) % 8_589_934_592 == shifted);
    }
    Some(shifted)
}

/// The payload of an RTP packet that holds transport packets.
pub open spec fn rtp_content(data: Seq<u8>) -> Option<Seq<u8>> {
    let sources = 12 + (data[0] as int % 16) * 4;
    let extended = data[0] as int / 16 % 2 == 1;
    let start = if extended {
        sources + 4 + measure::two_bytes(data[sources + 2], data[sources + 3]) * 4
    } else {
        sources
    };
    let end = if data[0] as int / 32 % 2 == 1 {
        data.len() - data.last()
    } else {
        data.len() as int
    };
    if data.len() < 12 || data[0] as int / 64 != 2 || data[1] as int % 128 != 33 {
        None
    } else if extended && sources + 4 > data.len() {
        None
    } else if end < 0 || start > end {
        None
    } else {
        Some(data.subrange(start, end))
    }
}

/// The payload of an RTP packet that holds transport packets.
pub fn rtp_payload(data: &[u8]) -> (r: Option<&[u8]>)
    ensures
        match rtp_content(data@) {
            Some(content) => r is Some && r->Some_0@ == content,
            None => r is None,
        },
{
    if data.len() < 12 || data[0] / 64 != 2 || data[1] % 128 != 33 {
        return None;
    }
    let mut start: usize = 12 + (data[0] % 16) as usize * 4;
    if data[0] / 16 % 2 == 1 {
        if start > data.len() || data.len() - start < 4 {
            return None;
        }
        start = start + 4 + (data[start + 2] as usize * 256 + data[start + 3] as usize) * 4;
    }
    let mut end: usize = data.len();
    if data[0] / 32 % 2 == 1 {
        let padding: usize = data[data.len() - 1] as usize;
        if padding > data.len() {
            return None;
        }
        end = data.len() - padding;
    }
    if start > end {
        return None;
    }
    Some(&data[start..end])
}

/// The frames that start in the first `n` transport packets.
pub open spec fn source_timestamps(packets: Seq<u8>, n: int) -> Seq<int>
    decreases n,
{
    if n <= 0 {
        Seq::empty()
    } else {
        let before = source_timestamps(packets, n - 1);
        match source_timestamp(packets.subrange((n - 1) * 188, n * 188)) {
            Some(pts) => before.push(pts),
            None => before,
        }
    }
}

/// The frames that start in the data of a stage: transport packets at the output of the
/// multiplexer, and RTP packets of them at the network.
pub open spec fn frame_keys_of(stage: int, data: Seq<u8>) -> Seq<int> {
    if stage == 5 {
        match rtp_content(data) {
            Some(content) => source_timestamps(content, content.len() as int / 188),
            None => Seq::empty(),
        }
    } else {
        source_timestamps(data, data.len() as int / 188)
    }
}

/// The frames that start in transport packets.
fn scan(packets: &[u8]) -> (r: Vec<u64>)
    ensures
        measure::values(r@) == source_timestamps(packets@, packets@.len() as int / 188),
        forall|i: int| 0 <= i < r@.len() ==> #[trigger] r@[i] < 8_589_934_592,
{
    let mut found: Vec<u64> = Vec::new();
    let size: usize = packets.len();
    let count: usize = size / 188;
    let mut i: usize = 0;
    proof {
        assert(measure::values(found@) =~= Seq::<int>::empty());
    }
    while i < count
        invariant
            i <= count,
            size == packets@.len(),
            count == size / 188,
            measure::values(found@) == source_timestamps(packets@, i as int),
            forall|k: int| 0 <= k < found@.len() ==> #[trigger] found@[k] < 8_589_934_592,
        decreases count - i,
    {
        let ghost before = found@;
        match video_pts(&packets[i * 188..i * 188 + 188]) {
            Some(pts) => {
                found.push(pts);
                proof {
                    assert(measure::values(found@) =~= measure::values(before).push(pts as int));
                }
            },
            None => {},
        }
        i = i + 1;
    }
    found
}

/// The frames that start in the data of a stage.
pub fn frame_keys(stage: usize, data: &[u8]) -> (r: Vec<u64>)
    ensures
        measure::values(r@) == frame_keys_of(stage as int, data@),
        forall|i: int| 0 <= i < r@.len() ==> #[trigger] r@[i] < 8_589_934_592,
{
    if stage == 5 {
        match rtp_payload(data) {
            Some(content) => scan(content),
            None => {
                let none: Vec<u64> = Vec::new();
                proof {
                    assert(measure::values(none@) =~= Seq::<int>::empty());
                }
                none
            },
        }
    } else {
        scan(data)
    }
}

/// The reports of one more sample.
pub open spec fn with_summary(
    reports: Seq<(Seq<char>, Seq<i64>)>,
    label: Seq<char>,
    summary: Option<Seq<i64>>,
) -> Seq<(Seq<char>, Seq<i64>)> {
    match summary {
        Some(values) => reports.push((label, values)),
        None => reports,
    }
}

impl Paired {
    /// A video frame at the output of the multiplexer: its age by its own timestamp, and
    /// how far the timestamp of its buffer, where it has one, is from its own.
    pub fn record_output(&mut self, key: u64, now: u64, outer: Option<u64>) -> (r: Vec<
        (&'static str, [i64; 3]),
    >)
        requires
            old(self).wf(),
            key < 8_589_934_592,
        ensures
            final(self).wf(),
            final(self).times() == old(self).times(),
            final(self).pairs() == old(self).pairs(),
            ({
                let age = ticks_to_ns(tick_distance(key as int, ticks(now as int))) as i64;
                let first = with_summary(
                    Seq::empty(),
                    "video-PES.source-PTS-age"@,
                    completed(old(self).ages(), key, age),
                );
                &&& final(self).ages() == recorded(old(self).ages(), key, age)
                &&& match outer {
                    None => final(self).offsets() == old(self).offsets() && report_views(r@)
                        == first,
                    Some(at) => {
                        let offset = ticks_to_ns(
                            tick_distance(key as int, ticks(at as int)),
                        ) as i64;
                        &&& final(self).offsets() == recorded(old(self).offsets(), key, offset)
                        &&& report_views(r@) == with_summary(
                            first,
                            "mux-outer-minus-video-PTS"@,
                            completed(old(self).offsets(), key, offset),
                        )
                    },
                }
            }),
    {
        let mut reports: Vec<(&'static str, [i64; 3])> = Vec::new();
        proof {
            assert(report_views(reports@) =~= Seq::<(Seq<char>, Seq<i64>)>::empty());
        }
        let age: i64 = unwrapped_ns(key, pts_90k(now));
        match self.pes_age.record(key, age) {
            Some(values) => {
                proof {
                    lemma_reports_push(reports@, ("video-PES.source-PTS-age", values));
                }
                reports.push(("video-PES.source-PTS-age", values));
            },
            None => {},
        }
        match outer {
            None => {},
            Some(at) => {
                let offset: i64 = unwrapped_ns(key, pts_90k(at));
                match self.mux_offset.record(key, offset) {
                    Some(values) => {
                        proof {
                            lemma_reports_push(reports@, ("mux-outer-minus-video-PTS", values));
                        }
                        reports.push(("mux-outer-minus-video-PTS", values));
                    },
                    None => {},
                }
            },
        }
        reports
    }
}

// ---------------------------------------------------------------------------
// Buffers
// ---------------------------------------------------------------------------

/// What is known of the frames, in a model.
pub ghost struct PairedModel {
    pub times: Map<u64, Seq<Option<u64>>>,
    pub pairs: Seq<SamplesModel>,
    pub ages: SamplesModel,
    pub offsets: SamplesModel,
}

impl View for Paired {
    type V = PairedModel;

    open spec fn view(&self) -> PairedModel {
        PairedModel {
            times: self.times(),
            pairs: self.pairs(),
            ages: self.ages(),
            offsets: self.offsets(),
        }
    }
}

/// Whether a key is the smallest of a map.
pub open spec fn is_smallest(frames: Map<u64, Seq<Option<u64>>>, key: u64) -> bool {
    &&& frames.contains_key(key)
    &&& forall|other: u64| frames.contains_key(other) ==> key <= other
}

/// Without the smallest key, where there are more than the limit.
pub open spec fn trimmed(frames: Map<u64, Seq<Option<u64>>>) -> Map<u64, Seq<Option<u64>>> {
    if frames.dom().len() > MAX_FRAMES {
        frames.remove(choose|key: u64| is_smallest(frames, key))
    } else {
        frames
    }
}

/// A frame at a stage: what is known then, and the summaries that are complete.
pub open spec fn passed(m: PairedModel, key: u64, stage: int, now: u64) -> (
    PairedModel,
    Seq<(Seq<char>, Seq<i64>)>,
) {
    let known = times_of(m.times, key);
    let times = known.update(stage, Some(now));
    if known[stage] is Some {
        (m, Seq::empty())
    } else {
        (
            PairedModel {
                times: trimmed(m.times.insert(key, times)),
                pairs: pairs_recorded(m.pairs, times, key, stage, 7),
                ..m
            },
            pair_reports(m.pairs, times, key, stage, 7),
        )
    }
}

/// A frame at the output of the multiplexer: what is known then, and the summaries that are
/// complete.
pub open spec fn put_out(m: PairedModel, key: u64, now: u64, outer: Option<u64>) -> (
    PairedModel,
    Seq<(Seq<char>, Seq<i64>)>,
) {
    let age = ticks_to_ns(tick_distance(key as int, ticks(now as int))) as i64;
    let aged = PairedModel { ages: recorded(m.ages, key, age), ..m };
    let first = with_summary(
        Seq::empty(),
        "video-PES.source-PTS-age"@,
        completed(m.ages, key, age),
    );
    match outer {
        None => (aged, first),
        Some(at) => {
            let offset = ticks_to_ns(tick_distance(key as int, ticks(at as int))) as i64;
            (
                PairedModel { offsets: recorded(m.offsets, key, offset), ..aged },
                with_summary(
                    first,
                    "mux-outer-minus-video-PTS"@,
                    completed(m.offsets, key, offset),
                ),
            )
        },
    }
}

/// A frame of a buffer: at the output of the multiplexer it counts for both.
pub open spec fn noticed(
    m: PairedModel,
    key: u64,
    stage: int,
    running: Option<u64>,
    now: u64,
) -> (PairedModel, Seq<(Seq<char>, Seq<i64>)>) {
    let (next, reports) = passed(m, key, stage, now);
    if stage == 4 {
        let (last, more) = put_out(next, key, now, running);
        (last, reports + more)
    } else {
        (next, reports)
    }
}

/// The frames of a buffer at a stage: those that start in its bytes from the multiplexer on,
/// before it the one of its running time.
pub open spec fn keys_at(stage: int, bytes: Seq<u8>, running: Option<u64>) -> Seq<int> {
    if stage >= 4 {
        frame_keys_of(stage, bytes)
    } else {
        match running {
            Some(ns) => seq![ticks(ns as int)],
            None => Seq::empty(),
        }
    }
}

/// Whether the frames of a buffer at a stage are known by its bytes.
pub fn needs_bytes(stage: usize) -> (r: bool)
    ensures
        r == (stage >= 4),
{
    stage >= 4
}

/// Reports with the frame that they came with.
pub open spec fn with_key(key: u64, reports: Seq<(Seq<char>, Seq<i64>)>) -> Seq<
    (u64, Seq<char>, Seq<i64>),
> {
    Seq::new(reports.len(), |i: int| (key, reports[i].0, reports[i].1))
}

/// The first `n` frames of a buffer, one after the other.
pub open spec fn noticed_all(
    m: PairedModel,
    keys: Seq<int>,
    n: int,
    stage: int,
    running: Option<u64>,
    now: u64,
) -> (PairedModel, Seq<(u64, Seq<char>, Seq<i64>)>)
    decreases n,
{
    if n <= 0 {
        (m, Seq::empty())
    } else {
        let (before, reports) = noticed_all(m, keys, n - 1, stage, running, now);
        let key = keys[n - 1] as u64;
        let (next, more) = noticed(before, key, stage, running, now);
        (next, reports + with_key(key, more))
    }
}

/// Reports of frames with their labels and values as sequences.
pub open spec fn frame_report_views(v: Seq<(u64, &'static str, [i64; 3])>) -> Seq<
    (u64, Seq<char>, Seq<i64>),
> {
    Seq::new(v.len(), |i: int| (v[i].0, v[i].1@, v[i].2@))
}

/// Removing the smallest key leaves one map.
proof fn lemma_trimmed(before: Map<u64, Seq<Option<u64>>>, after: Map<u64, Seq<Option<u64>>>)
    requires
        bounded(before, after),
    ensures
        after == trimmed(before),
{
    if before.dom().len() > MAX_FRAMES {
        let k = choose|k: u64|
            {
                &&& #[trigger] before.contains_key(k)
                &&& forall|other: u64| before.contains_key(other) ==> k <= other
                &&& after == before.remove(k)
            };
        assert(is_smallest(before, k));
        let other = choose|key: u64| is_smallest(before, key);
        assert(is_smallest(before, other));
        assert(k == other);
    }
}

impl Paired {
    /// A frame of a buffer.
    fn notice(&mut self, key: u64, stage: usize, running: Option<u64>, now: u64) -> (r: Vec<
        (&'static str, [i64; 3]),
    >)
        requires
            old(self).wf(),
            stage < 6,
            key < 8_589_934_592,
        ensures
            final(self).wf(),
            final(self)@ == noticed(old(self)@, key, stage as int, running, now).0,
            report_views(r@) == noticed(old(self)@, key, stage as int, running, now).1,
    {
        let ghost start = self@;
        let mut reports = self.record(key, stage, now);
        proof {
            let known = times_of(start.times, key);
            if known[stage as int] is None {
                lemma_trimmed(
                    start.times.insert(key, known.update(stage as int, Some(now))),
                    self.times(),
                );
            } else {
                assert(report_views(reports@) =~= Seq::<(Seq<char>, Seq<i64>)>::empty());
            }
            assert(self@ == passed(start, key, stage as int, now).0);
            assert(report_views(reports@) == passed(start, key, stage as int, now).1);
        }
        if stage == 4 {
            let ghost first = reports@;
            let mut more = self.record_output(key, now, running);
            let ghost second = more@;
            reports.append(&mut more);
            proof {
                assert(report_views(reports@) =~= report_views(first) + report_views(second));
            }
        }
        reports
    }

    /// A buffer at a stage, with its bytes and its running time, if it has one. Each of its
    /// frames counts. Gives the summaries that are complete, with the frame that completed
    /// them.
    pub fn observe(
        &mut self,
        stage: usize,
        bytes: &[u8],
        running: Option<u64>,
        now: u64,
    ) -> (r: Vec<(u64, &'static str, [i64; 3])>)
        requires
            old(self).wf(),
            stage < 6,
        ensures
            final(self).wf(),
            ({
                let keys = keys_at(stage as int, bytes@, running);
                let (next, reports) = noticed_all(
                    old(self)@,
                    keys,
                    keys.len() as int,
                    stage as int,
                    running,
                    now,
                );
                final(self)@ == next && frame_report_views(r@) == reports
            }),
    {
        let keys: Vec<u64> = if needs_bytes(stage) {
            frame_keys(stage, bytes)
        } else {
            let mut one: Vec<u64> = Vec::new();
            if let Some(ns) = running {
                one.push(pts_90k(ns));
            }
            proof {
                assert(measure::values(one@) =~= keys_at(stage as int, bytes@, running));
            }
            one
        };
        let ghost all = keys_at(stage as int, bytes@, running);
        let ghost start = self@;
        let mut out: Vec<(u64, &'static str, [i64; 3])> = Vec::new();
        let mut i: usize = 0;
        proof {
            assert(frame_report_views(out@) =~= Seq::<(u64, Seq<char>, Seq<i64>)>::empty());
            assert(all.len() == keys@.len());
        }
        while i < keys.len()
            invariant
                i <= keys@.len(),
                stage < 6,
                self.wf(),
                all == measure::values(keys@),
                forall|k: int| 0 <= k < keys@.len() ==> #[trigger] keys@[k] < 8_589_934_592,
                self@ == noticed_all(start, all, i as int, stage as int, running, now).0,
                frame_report_views(out@) == noticed_all(
                    start,
                    all,
                    i as int,
                    stage as int,
                    running,
                    now,
                ).1,
            decreases keys@.len() - i,
        {
            let key: u64 = keys[i];
            let ghost before = out@;
            let reports = self.notice(key, stage, running, now);
            let mut k: usize = 0;
            proof {
                assert(report_views(reports@).take(0) =~= Seq::<(Seq<char>, Seq<i64>)>::empty());
                assert(frame_report_views(out@) =~= frame_report_views(before) + with_key(
                    key,
                    report_views(reports@).take(0),
                ));
            }
            while k < reports.len()
                invariant
                    k <= reports@.len(),
                    frame_report_views(out@) == frame_report_views(before) + with_key(
                        key,
                        report_views(reports@).take(k as int),
                    ),
                decreases reports@.len() - k,
            {
                let (label, ages) = reports[k];
                let ghost held = out@;
                out.push((key, label, ages));
                proof {
                    assert(frame_report_views(out@) =~= frame_report_views(held).push(
                        (key, label@, ages@),
                    ));
                    assert(frame_report_views(out@) =~= frame_report_views(before) + with_key(
                        key,
                        report_views(reports@).take(k + 1),
                    ));
                }
                k = k + 1;
            }
            proof {
                assert(report_views(reports@).take(k as int) =~= report_views(reports@));
                assert(all[i as int] as u64 == key);
            }
            i = i + 1;
        }
        out
    }
}

// ---------------------------------------------------------------------------
// Laws
// ---------------------------------------------------------------------------

/// A frame that was just counted is not counted again.
pub proof fn law_frames_count_once(s: SamplesModel, pts: u64, age: i64, again: i64)
    ensures
        recorded(recorded(s, pts, age), pts, again) == recorded(s, pts, age),
        completed(recorded(s, pts, age), pts, again) is None,
{
}

/// A window never holds more samples than its size, and nothing of a window is left when
/// its summary is given.
pub proof fn law_windows_are_bounded(s: SamplesModel, pts: u64, age: i64)
    requires
        s.ages.len() < WINDOW,
    ensures
        recorded(s, pts, age).ages.len() < WINDOW,
        completed(s, pts, age) is Some ==> recorded(s, pts, age).ages.len() == 0
            && recorded(s, pts, age).seen == Set::<u64>::empty(),
{
}

/// The three numbers of a summary are samples of the window, in ascending order, and none
/// is above the last.
pub proof fn law_summary_is_ordered(ages: Seq<i64>)
    requires
        ages.len() == WINDOW,
    ensures
        summary_of(ages)[0] <= summary_of(ages)[1] <= summary_of(ages)[2],
        forall|i: int| 0 <= i < 3 ==> ages.contains(#[trigger] summary_of(ages)[i]),
        forall|i: int| 0 <= i < ages.len() ==> #[trigger] ages[i] <= summary_of(ages)[2],
{
    let leq = |a: i64, b: i64| a <= b;
    let s = ascending(ages);
    ages.lemma_sort_by_ensures(leq);
    broadcast use vstd::seq_lib::group_to_multiset_ensures;

    assert(s.len() == 300) by {
        assert(s.to_multiset().len() == ages.to_multiset().len());
    }
    assert(leq(s[149], s[284]));
    assert(leq(s[284], s[299]));
    assert forall|i: int| 0 <= i < 3 implies ages.contains(#[trigger] summary_of(ages)[i]) by {
        let x = summary_of(ages)[i];
        if !ages.contains(x) {
            assert(!s.contains(x));
            assert(s[149] == x || s[284] == x || s[299] == x);
        }
    }
    assert forall|i: int| 0 <= i < ages.len() implies #[trigger] ages[i] <= summary_of(ages)[2] by {
        assert(ages.to_multiset().count(ages[i]) > 0);
        assert(s.to_multiset().count(ages[i]) > 0);
        assert(s.contains(ages[i]));
        let j = choose|j: int| 0 <= j < s.len() && s[j] == ages[i];
        if j < 299 {
            assert(leq(s[j], s[299]));
        }
    }
}

/// The timestamp that the multiplexer writes for a running time, one hour on, is read back
/// as the ticks of that running time.
pub proof fn law_source_time_reads_back(ns: int)
    requires
        0 <= ns,
    ensures
        ((ticks(ns) + PES_OFFSET) % 8_589_934_592 - PES_OFFSET) % 8_589_934_592 == ticks(ns),
{
    let t = ticks(ns);
    assert(0 <= t < 8_589_934_592);
    if t + PES_OFFSET < 8_589_934_592 {
    } else {
        assert((t + PES_OFFSET) % 8_589_934_592 == t + PES_OFFSET - 8_589_934_592);
    }
}

/// Timestamps at most half the clock apart are told apart the right way round, also where
/// the clock wraps in between.
pub proof fn law_distance_survives_the_wrap(from: int, d: int)
    requires
        0 <= from < 8_589_934_592,
        -4_294_967_296 <= d < 4_294_967_296,
    ensures
        tick_distance(from, (from + d) % 8_589_934_592) == d,
{
    let to = (from + d) % 8_589_934_592;
    assert(to == from + d || to == from + d - 8_589_934_592 || to == from + d + 8_589_934_592);
}

/// Every measurement is one between the two stages that its name gives.
pub proof fn law_measurements_are_between_their_stages()
    ensures
        ({
            let capture = stage_number("capture.src"@);
            let input = stage_number("encoder.sink"@);
            let output = stage_number("encoder.src"@);
            let mux = stage_number("mux.video-input"@);
            let pes = stage_number("mux.src"@);
            let network = stage_number("network.sink"@);
            &&& pair(0).0 == "capture->encoder-input"@ && Some(pair(0).1) == capture && Some(pair(0).2)
                == input
            &&& pair(1).0 == "encoder-input->output"@ && Some(pair(1).1) == input && Some(pair(1).2)
                == output
            &&& pair(2).0 == "encoder-output->mux-input"@ && Some(pair(2).1) == output && Some(
                pair(2).2,
            ) == mux
            &&& pair(3).0 == "mux-input->video-PES"@ && Some(pair(3).1) == mux && Some(pair(3).2)
                == pes
            &&& pair(4).0 == "encoder-output->video-PES"@ && Some(pair(4).1) == output && Some(
                pair(4).2,
            ) == pes
            &&& pair(5).0 == "video-PES->network-sink"@ && Some(pair(5).1) == pes && Some(pair(5).2)
                == network
            &&& pair(6).0 == "capture->network-sink"@ && Some(pair(6).1) == capture && Some(pair(6).2)
                == network
        }),
{
    law_stages_are_in_order();
}

/// The stages that a frame passes are in the order of the pipeline, and no two are one.
pub proof fn law_stages_are_in_order()
    ensures
        stage_number("capture.src"@) == Some(0int),
        stage_number("encoder.sink"@) == Some(1int),
        stage_number("encoder.src"@) == Some(2int),
        stage_number("mux.video-input"@) == Some(3int),
        stage_number("mux.src"@) == Some(4int),
        stage_number("network.sink"@) == Some(5int),
{
    reveal_strlit("capture.src");
    reveal_strlit("encoder.sink");
    reveal_strlit("encoder.src");
    reveal_strlit("mux.video-input");
    reveal_strlit("mux.src");
    reveal_strlit("network.sink");
    assert("capture.src"@[0] == 'c' && "encoder.src"@[0] == 'e' && "network.sink"@[0] == 'n');
    assert("encoder.sink"@.len() == 12 && "encoder.src"@.len() == 11);
    assert("encoder.sink"@[0] == 'e' && "mux.src"@[0] == 'm');
    assert("mux.src"@.len() == 7 && "mux.video-input"@.len() == 15);
}

/// What the pairs behind the first ones keep.
proof fn lemma_pairs_recorded(
    samples: Seq<SamplesModel>,
    times: Seq<Option<u64>>,
    pts: u64,
    stage: int,
    n: int,
    k: int,
)
    requires
        samples.len() == 7,
        0 <= n <= 7,
        0 <= k < 7,
    ensures
        pairs_recorded(samples, times, pts, stage, n).len() == 7,
        pairs_recorded(samples, times, pts, stage, n)[k] == if k < n && pair(k).2 == stage && pair_time(
            times,
            pair(k).1,
            pair(k).2,
        ) is Some {
            recorded(samples[k], pts, pair_time(times, pair(k).1, pair(k).2)->Some_0)
        } else {
            samples[k]
        },
    decreases n,
{
    if n > 0 {
        lemma_pairs_recorded(samples, times, pts, stage, n - 1, k);
        lemma_pairs_recorded(samples, times, pts, stage, n - 1, n - 1);
    }
}

/// A frame that comes to a stage adds the time since it passed another one to the samples of
/// every measurement between the two, and to no other. A stage counts once for a frame.
pub proof fn law_times_between_stages_are_counted(
    m: PairedModel,
    key: u64,
    stage: int,
    now: u64,
    k: int,
)
    requires
        m.pairs.len() == 7,
        0 <= k < 7,
        0 <= stage < 6,
        m.times.contains_key(key) ==> m.times[key].len() == 6,
    ensures
        ({
            let (next, reports) = passed(m, key, stage, now);
            let start = pair(k).1;
            let begun = if m.times.contains_key(key) {
                m.times[key][start]
            } else {
                None
            };
            let known = m.times.contains_key(key) && m.times[key][stage] is Some;
            &&& known ==> next == m && reports.len() == 0
            &&& pair(k).2 != stage ==> next.pairs[k] == m.pairs[k]
            &&& begun is None ==> next.pairs[k] == m.pairs[k]
            &&& !known && pair(k).2 == stage && m.pairs[k].last_pts != Some(key)
                && !m.pairs[k].seen.contains(key) && m.pairs[k].ages.len() < 299 ==> (begun matches Some(
                at,
            ) ==> at <= now && now - at < 0x8000_0000_0000_0000 ==> next.pairs[k].ages
                == m.pairs[k].ages.push((now - at) as i64))
        }),
{
    let known = times_of(m.times, key);
    let times = known.update(stage, Some(now));
    assert(known.len() == 6);
    lemma_pairs_recorded(m.pairs, times, key, stage, 7, k);
    assert(pair(k).1 < pair(k).2);
    if pair(k).2 == stage {
        assert(times[pair(k).1] == known[pair(k).1]);
    }
}

/// No more frames are kept than the limit: the one with the lowest timestamp goes.
pub proof fn law_the_oldest_frame_goes(m: PairedModel, key: u64, stage: int, now: u64, lowest: u64)
    requires
        times_of(m.times, key)[stage] is None,
        m.times.insert(key, times_of(m.times, key).update(stage, Some(now))).dom().len() > MAX_FRAMES,
        m.times.contains_key(lowest) || lowest == key,
        lowest <= key,
        forall|other: u64| m.times.contains_key(other) ==> lowest <= other,
    ensures
        passed(m, key, stage, now).0.times == m.times.insert(
            key,
            times_of(m.times, key).update(stage, Some(now)),
        ).remove(lowest),
        MAX_FRAMES == 1024,
{
    let frames = m.times.insert(key, times_of(m.times, key).update(stage, Some(now)));
    assert(is_smallest(frames, lowest));
    let chosen = choose|k: u64| is_smallest(frames, k);
    assert(is_smallest(frames, chosen));
    assert(chosen == lowest);
}

/// Ticks are nine for every tenth of a millisecond.
pub proof fn law_ticks_are_of_90_khz(n: int)
    requires
        0 <= n,
    ensures
        ticks(n * 100_000) == (n * 9) % 8_589_934_592,
        ticks_to_ns(n * 9) == n * 100_000,
        ticks_to_ns(-(n * 9)) == -(n * 100_000),
{
    assert(n * 100_000 * 90_000 == (n * 9) * 1_000_000_000);
    assert((n * 9) * 1_000_000_000 / 90_000 == n * 100_000);
}

/// A picture that starts in a transport packet is known by its running time: the timestamp of
/// the multiplexer less one hour.
pub proof fn law_pictures_are_known_by_their_running_time(ts: Seq<u8>, at: int, pts: int)
    requires
        ts.len() == 188,
        measure::starts_picture(ts, at, pts),
    ensures
        frame_keys_of(4, ts) == seq![(pts - 324_000_000) % 8_589_934_592],
{
    let pes = ts.skip(at);
    let front = ts[at + 9] as int / 16;
    measure::law_timestamp_reads_back(pts, front);
    assert((front * 16 + (pts / 1_073_741_824) * 2 + 1) as u8 == ts[at + 9]);
    assert(pes.subrange(9, 14) =~= seq![
        (front * 16 + (pts / 1_073_741_824) * 2 + 1) as u8,
        (pts / 4_194_304 % 256) as u8,
        (pts / 32_768 % 128 * 2 + 1) as u8,
        (pts / 128 % 256) as u8,
        (pts % 128 * 2 + 1) as u8,
    ]);
    assert(pes[0] == ts[at] && pes[1] == ts[at + 1] && pes[2] == ts[at + 2] && pes[3] == ts[at + 3]
        && pes[6] == ts[at + 6] && pes[7] == ts[at + 7] && pes[8] == ts[at + 8] && pes[9] == ts[at
        + 9] && pes[11] == ts[at + 11] && pes[13] == ts[at + 13]);
    assert(ts.subrange(0, 188) =~= ts);
    assert(source_timestamp(ts) == Some((pts - 324_000_000) % 8_589_934_592));
    assert(source_timestamps(ts, 0) =~= Seq::<int>::empty());
    assert(source_timestamps(ts, 1) =~= seq![(pts - 324_000_000) % 8_589_934_592]);
}

/// What is known by a running time is the start of a picture on packet identifier 0x1011.
pub proof fn law_only_pictures_are_known(ts: Seq<u8>)
    requires
        ts.len() == 188,
        frame_keys_of(4, ts).len() > 0,
    ensures
        ts[0] == 0x47,
        ts[1] == 0x50 || ts[1] == 0x70,
        ts[2] == 0x11,
        ts[3] as int / 16 % 2 == 1,
        ({
            let at = if ts[3] as int / 32 % 2 == 1 {
                5 + ts[4]
            } else {
                4int
            };
            &&& at + 14 <= 188
            &&& ts[at] == 0 && ts[at + 1] == 0 && ts[at + 2] == 1
            &&& 0xe0 <= ts[at + 3] <= 0xef
            &&& ts[at + 7] >= 0x80 && ts[at + 8] >= 5
            &&& ts[at + 9] % 2 == 1 && ts[at + 11] % 2 == 1 && ts[at + 13] % 2 == 1
        }),
{
    assert(ts.subrange(0, 188) =~= ts);
    assert(source_timestamps(ts, 0) =~= Seq::<int>::empty());
    assert(source_timestamp(ts) is Some);
    let at = if ts[3] as int / 32 % 2 == 1 {
        5 + ts[4]
    } else {
        4int
    };
    let pes = ts.skip(at);
    assert(pes[0] == ts[at] && pes[1] == ts[at + 1] && pes[2] == ts[at + 2] && pes[3] == ts[at + 3]
        && pes[7] == ts[at + 7] && pes[8] == ts[at + 8] && pes[9] == ts[at + 9] && pes[11] == ts[at
        + 11] && pes[13] == ts[at + 13]);
    assert((ts[1] as int % 32) * 256 + ts[2] == 4113);
    assert(ts[1] as int % 32 == 16 && ts[2] == 17);
}

/// The packets in front.
proof fn lemma_front_keys(a: Seq<u8>, b: Seq<u8>, n: int)
    requires
        0 <= n * 188 <= a.len(),
    ensures
        source_timestamps(a + b, n) == source_timestamps(a, n),
    decreases n,
{
    if n > 0 {
        lemma_front_keys(a, b, n - 1);
        assert((a + b).subrange((n - 1) * 188, n * 188) =~= a.subrange((n - 1) * 188, n * 188));
    }
}

/// The packets behind.
proof fn lemma_back_keys(a: Seq<u8>, b: Seq<u8>, m: int, n: int)
    requires
        m >= 0,
        a.len() == m * 188,
        0 <= n * 188 <= b.len(),
    ensures
        source_timestamps(a + b, m + n) == source_timestamps(a, m) + source_timestamps(b, n),
    decreases n,
{
    if n <= 0 {
        lemma_front_keys(a, b, m);
        assert(source_timestamps(a, m) + source_timestamps(b, n) =~= source_timestamps(a, m));
    } else {
        lemma_back_keys(a, b, m, n - 1);
        assert((a + b).subrange((m + n - 1) * 188, (m + n) * 188) =~= b.subrange(
            (n - 1) * 188,
            n * 188,
        ));
        assert(source_timestamps(a + b, m + n) =~= source_timestamps(a, m) + source_timestamps(b, n));
    }
}

/// Every transport packet of a buffer is looked at, one behind the other.
pub proof fn law_every_packet_of_a_buffer_is_looked_at(a: Seq<u8>, b: Seq<u8>)
    requires
        a.len() % 188 == 0,
    ensures
        frame_keys_of(4, a + b) == frame_keys_of(4, a) + frame_keys_of(4, b),
{
    let m = a.len() as int / 188;
    let n = b.len() as int / 188;
    assert((a + b).len() as int / 188 == m + n);
    lemma_back_keys(a, b, m, n);
}

/// On the network the transport packets are those of an RTP packet of type 33, behind its
/// sources and its extension, and before its padding.
pub proof fn law_network_packets_are_unwrapped(
    data: Seq<u8>,
    sources: int,
    extension: int,
    padding: int,
    payload: Seq<u8>,
)
    requires
        0 <= sources <= 15,
        extension <= 65535,
        0 <= padding <= 255,
        ({
            let behind = 12 + 4 * sources;
            let start = behind + if extension >= 0 {
                4 + 4 * extension
            } else {
                0
            };
            &&& data.len() == start + payload.len() + padding
            &&& data[0] == 128 + sources + (if padding > 0 {
                32int
            } else {
                0
            }) + (if extension >= 0 {
                16int
            } else {
                0
            })
            &&& data[1] == 33 || data[1] == 161
            &&& extension >= 0 ==> data[behind + 2] * 256 + data[behind + 3] == extension
            &&& padding > 0 ==> data[data.len() - 1] == padding
            &&& data.subrange(start, start + payload.len()) == payload
        }),
    ensures
        frame_keys_of(5, data) == frame_keys_of(4, payload),
{
    let behind = 12 + 4 * sources;
    let start = behind + if extension >= 0 {
        4 + 4 * extension
    } else {
        0
    };
    assert(data[0] as int % 16 == sources);
    assert(data[0] as int / 16 % 2 == 1 <==> extension >= 0);
    assert(data[0] as int / 32 % 2 == 1 <==> padding > 0);
    assert(data[0] as int / 64 == 2);
    assert(rtp_content(data) == Some(data.subrange(start, start + payload.len())));
}

} // verus!
