//! Logged episodes and the chart data derived from them.

use vstd::prelude::*;
use crate::game::{MAX_STEPS, NUM_CHESTS};
use crate::outcome::ScoreType;
use crate::player::{count_of, zero_count, ScoreCount};
use crate::text::{dec, push_dec, string_of};

verus! {

/// Number of most recent episodes that the charts look at.
pub const WINDOW: usize = 100;

/// Every how many episodes the score progress takes a sample.
pub const STRIDE: usize = 5;

/// Most samples the score progress keeps.
pub const MAX_BARS: usize = 5;

/// Fixed part of the estimate chart's value range, in millionths (2.5).
pub const VALUE_RANGE: i64 = 2_500_000;

/// One finished episode, as kept in the log. Estimates and the learning rate
/// are in millionths.
#[derive(Clone, Debug)]
pub struct EpisodeEntry {
    pub episode: u32,
    pub score: i32,
    pub steps: u32,
    pub estimates: Vec<i64>,
    pub breakdown: ScoreCount,
    pub learning_rate: u32,
    pub action_selections: Vec<u8>,
}

impl EpisodeEntry {
    /// The entry that stands in for a missing one: zero counters, zero
    /// estimates and a full episode of zero picks.
    pub fn new() -> (e: EpisodeEntry)
        ensures
            e.episode == 0,
            e.score == 0,
            e.steps == 0,
            e.estimates@ == Seq::new(NUM_CHESTS as nat, |i: int| 0i64),
            e.breakdown == zero_count(),
            e.learning_rate == 100_000,
            e.action_selections@ == Seq::new(MAX_STEPS as nat, |i: int| 0u8),
    {
        let e = EpisodeEntry {
            episode: 0,
            score: 0,
            steps: 0,
            estimates: vec![0i64; NUM_CHESTS],
            breakdown: ScoreCount::new(),
            learning_rate: 100_000,
            action_selections: vec![0u8; MAX_STEPS as usize],
        };
        assert(e.estimates@ =~= Seq::new(NUM_CHESTS as nat, |i: int| 0i64));
        assert(e.action_selections@ =~= Seq::new(MAX_STEPS as nat, |i: int| 0u8));
        e
    }
}

impl Default for EpisodeEntry {
    fn default() -> (e: EpisodeEntry)
        ensures
            e.episode == 0,
            e.score == 0,
            e.steps == 0,
            e.estimates@ == Seq::new(NUM_CHESTS as nat, |i: int| 0i64),
            e.breakdown == zero_count(),
            e.learning_rate == 100_000,
            e.action_selections@ == Seq::new(MAX_STEPS as nat, |i: int| 0u8),
    {
        EpisodeEntry::new()
    }
}

/// The loaded history of one mode's episodes, oldest first.
#[derive(Debug)]
pub struct StatRecords {
    pub has_records: bool,
    pub entries: Vec<EpisodeEntry>,
}

impl Default for StatRecords {
    fn default() -> (r: StatRecords)
        ensures
            !r.has_records,
            r.entries@.len() == 0,
    {
        StatRecords::new()
    }
}

/// The kinds of result in chart order.
pub open spec fn kind_at(i: int) -> ScoreType {
    if i == 0 {
        ScoreType::Jackpot
    } else if i == 1 {
        ScoreType::Treasure
    } else if i == 2 {
        ScoreType::Bust
    } else if i == 3 {
        ScoreType::Loss
    } else {
        ScoreType::Robbed
    }
}

/// Chart label of each kind of result.
pub open spec fn breakdown_label(kind: ScoreType) -> Seq<char> {
    match kind {
        ScoreType::Jackpot => "Jackpot"@,
        ScoreType::Treasure => "Treasure"@,
        ScoreType::Bust => "Bust"@,
        ScoreType::Loss => "Loss"@,
        ScoreType::Robbed => "Robbed"@,
    }
}

/// How many results of `kind` the episodes `s` counted in all.
pub open spec fn kind_total(s: Seq<EpisodeEntry>, kind: ScoreType) -> int
    decreases s.len(),
{
    if s.len() == 0 {
        0
    } else {
        kind_total(s.drop_last(), kind) + count_of(s.last().breakdown, kind)
    }
}

/// How many results of any kind the episodes `s` counted.
pub open spec fn grand_total(s: Seq<EpisodeEntry>) -> int {
    kind_total(s, ScoreType::Jackpot) + kind_total(s, ScoreType::Treasure)
        + kind_total(s, ScoreType::Bust) + kind_total(s, ScoreType::Loss)
        + kind_total(s, ScoreType::Robbed)
}

/// Whole percent that `part` is of `whole`, rounded down.
pub open spec fn percent(part: int, whole: int) -> int {
    100 * part / whole
}

/// First index of the window of most recent episodes.
pub open spec fn window_start(len: int) -> int {
    if len > WINDOW { len - WINDOW } else { 0 }
}

/// Number of samples that the score progress keeps for `len` episodes.
pub open spec fn progress_len(len: int) -> int {
    let picked = (len - window_start(len)) / (STRIDE as int);
    if picked > MAX_BARS { MAX_BARS as int } else { picked }
}

/// Index of the episode behind sample `j` of the score progress: every
/// fifth episode of the window, counting from its start, of which the last
/// `progress_len` are kept.
pub open spec fn progress_index(len: int, j: int) -> int {
    let picked = (len - window_start(len)) / (STRIDE as int);
    window_start(len) + STRIDE * (picked - progress_len(len) + j + 1) - 1
}

/// A score with negatives shown as zero.
pub open spec fn clamped_score(score: i32) -> int {
    if score < 0 { 0 } else { score as int }
}

/// The label of an episode's bar: "Ep " and its number.
pub open spec fn episode_label(episode: u32) -> Seq<char> {
    seq!['E', 'p', ' '] + dec(episode as nat)
}

/// The largest element of `s` (0 when `s` is empty).
pub open spec fn seq_max(s: Seq<u64>) -> int
    decreases s.len(),
{
    if s.len() == 0 {
        0
    } else if s.len() == 1 {
        s[0] as int
    } else {
        let m = seq_max(s.drop_last());
        if s.last() > m { s.last() as int } else { m }
    }
}

/// Smallest of the estimates of the episodes `s` and of `floor`.
pub open spec fn min_estimate(s: Seq<EpisodeEntry>, floor: int) -> int
    decreases s.len(),
{
    if s.len() == 0 {
        floor
    } else {
        let m = min_estimate(s.drop_last(), floor);
        let e = s.last().estimates@;
        seq_min_from(e, m)
    }
}

/// Largest of the estimates of the episodes `s` and of `ceiling`.
pub open spec fn max_estimate(s: Seq<EpisodeEntry>, ceiling: int) -> int
    decreases s.len(),
{
    if s.len() == 0 {
        ceiling
    } else {
        let m = max_estimate(s.drop_last(), ceiling);
        let e = s.last().estimates@;
        seq_max_from(e, m)
    }
}

/// Smallest of the elements of `e` and of `m`.
pub open spec fn seq_min_from(e: Seq<i64>, m: int) -> int
    decreases e.len(),
{
    if e.len() == 0 {
        m
    } else {
        let r = seq_min_from(e.drop_last(), m);
        if (e.last() as int) < r { e.last() as int } else { r }
    }
}

/// Largest of the elements of `e` and of `m`.
pub open spec fn seq_max_from(e: Seq<i64>, m: int) -> int
    decreases e.len(),
{
    if e.len() == 0 {
        m
    } else {
        let r = seq_max_from(e.drop_last(), m);
        if (e.last() as int) > r { e.last() as int } else { r }
    }
}

impl StatRecords {
    /// No history loaded.
    pub fn new() -> (r: StatRecords)
        ensures
            !r.has_records,
            r.entries@.len() == 0,
    {
        StatRecords { has_records: false, entries: Vec::new() }
    }

    /// The history's invariant: every episode has one estimate per chest.
    pub open spec fn wf(&self) -> bool {
        forall|i: int| 0 <= i < self.entries@.len() ==> (#[trigger] self.entries@[i]).estimates@.len() == NUM_CHESTS
    }

    /// Share of each kind of result over all episodes, in whole percent
    /// rounded down, in the order jackpot, treasure, bust, loss, robbed;
    /// empty when no result was counted.
    pub fn normalized_outcome_breakdown(&self) -> (r: Vec<(&'static str, u64)>)
        ensures
            grand_total(self.entries@) == 0 ==> r@.len() == 0,
            grand_total(self.entries@) > 0 ==> r@.len() == 5,
            grand_total(self.entries@) > 0 ==> forall|i: int| 0 <= i < 5 ==> {
                &&& (#[trigger] r@[i]).0@ == breakdown_label(kind_at(i))
                &&& r@[i].1 == percent(kind_total(self.entries@, kind_at(i)), grand_total(self.entries@))
            },
    {
        let mut jackpot: u128 = 0;
        let mut treasure: u128 = 0;
        let mut bust: u128 = 0;
        let mut loss: u128 = 0;
        let mut robbed: u128 = 0;
        let mut i: usize = 0;
        while i < self.entries.len()
            invariant
                i <= self.entries@.len(),
                jackpot == kind_total(self.entries@.subrange(0, i as int), ScoreType::Jackpot),
                treasure == kind_total(self.entries@.subrange(0, i as int), ScoreType::Treasure),
                bust == kind_total(self.entries@.subrange(0, i as int), ScoreType::Bust),
                loss == kind_total(self.entries@.subrange(0, i as int), ScoreType::Loss),
                robbed == kind_total(self.entries@.subrange(0, i as int), ScoreType::Robbed),
                jackpot <= 255 * i,
                treasure <= 255 * i,
                bust <= 255 * i,
                loss <= 255 * i,
                robbed <= 255 * i,
            decreases self.entries@.len() - i,
        {
            let b = self.entries[i].breakdown;
            proof {
                let s = self.entries@.subrange(0, i as int + 1);
                assert(s.drop_last() =~= self.entries@.subrange(0, i as int));
            }
            jackpot = jackpot + b.jackpot as u128;
            treasure = treasure + b.treasure as u128;
            bust = bust + b.bust as u128;
            loss = loss + b.loss as u128;
            robbed = robbed + b.robbed as u128;
            i = i + 1;
        }
        assert(self.entries@.subrange(0, i as int) =~= self.entries@);
        let total: u128 = jackpot + treasure + bust + loss + robbed;
        if total == 0 {
            return Vec::new();
        }
        let mut r: Vec<(&'static str, u64)> = Vec::new();
        r.push(("Jackpot", share(jackpot, total)));
        r.push(("Treasure", share(treasure, total)));
        r.push(("Bust", share(bust, total)));
        r.push(("Loss", share(loss, total)));
        r.push(("Robbed", share(robbed, total)));
        proof {
            reveal_strlit("Jackpot");
            reveal_strlit("Treasure");
            reveal_strlit("Bust");
            reveal_strlit("Loss");
            reveal_strlit("Robbed");
        }
        r
    }

    /// Recent score progress: of the last hundred episodes (or fewer), every
    /// fifth one counting from the first, of which the last five are kept,
    /// each as its label and its score with negatives shown as zero.
    pub fn recent_score_progress(&self) -> (r: Vec<(String, u64)>)
        ensures
            r@.len() == progress_len(self.entries@.len() as int),
            forall|j: int| 0 <= j < r@.len() ==> {
                let e = self.entries@[progress_index(self.entries@.len() as int, j)];
                &&& (#[trigger] r@[j]).0@ == episode_label(e.episode)
                &&& r@[j].1 == clamped_score(e.score)
            },
    {
        let len = self.entries.len();
        let start: usize = if len > WINDOW { len - WINDOW } else { 0 };
        let picked: usize = (len - start) / STRIDE;
        let keep: usize = if picked > MAX_BARS { MAX_BARS } else { picked };
        let mut r: Vec<(String, u64)> = Vec::new();
        let mut j: usize = 0;
        while j < keep
            invariant
                len == self.entries@.len(),
                start as int == window_start(len as int),
                picked as int == (len - start) / (STRIDE as int),
                keep as int == progress_len(len as int),
                j <= keep,
                r@.len() == j,
                forall|k: int| 0 <= k < j ==> {
                    let e = self.entries@[progress_index(len as int, k)];
                    &&& (#[trigger] r@[k]).0@ == episode_label(e.episode)
                    &&& r@[k].1 == clamped_score(e.score)
                },
            decreases keep - j,
        {
            let idx: usize = start + STRIDE * (picked - keep + j + 1) - 1;
            assert(idx as int == progress_index(len as int, j as int));
            let e = &self.entries[idx];
            let mut label: Vec<char> = vec!['E', 'p', ' '];
            push_dec(&mut label, e.episode as u64);
            let score: u64 = if e.score < 0 { 0 } else { e.score as u64 };
            r.push((string_of(&label), score));
            j = j + 1;
        }
        r
    }

    /// Height of the score chart: the largest recent sample, 10 when there is
    /// none, kept between 10 and 500.
    pub fn max_score(&self) -> (r: u64)
        ensures
            ({
                let n = progress_len(self.entries@.len() as int);
                let m = if n == 0 {
                    10
                } else {
                    seq_max(Seq::new(n as nat, |j: int| clamped_score(
                        self.entries@[progress_index(self.entries@.len() as int, j)].score) as u64))
                };
                r == if m < 10 { 10 } else if m > 500 { 500 } else { m }
            }),
    {
        let progress = self.recent_score_progress();
        let ghost samples = Seq::new(progress@.len(), |j: int| progress@[j].1);
        if progress.len() == 0 {
            return 10;
        }
        let mut m: u64 = progress[0].1;
        let mut j: usize = 1;
        while j < progress.len()
            invariant
                1 <= j <= progress@.len(),
                samples == Seq::new(progress@.len(), |k: int| progress@[k].1),
                m == seq_max(samples.subrange(0, j as int)),
            decreases progress@.len() - j,
        {
            proof {
                let s = samples.subrange(0, j as int + 1);
                assert(s.drop_last() =~= samples.subrange(0, j as int));
            }
            if progress[j].1 > m {
                m = progress[j].1;
            }
            j = j + 1;
        }
        proof {
            assert(samples.subrange(0, j as int) =~= samples);
            let n = progress_len(self.entries@.len() as int);
            assert(samples =~= Seq::new(n as nat, |k: int| clamped_score(
                self.entries@[progress_index(self.entries@.len() as int, k)].score) as u64));
        }
        if m < 10 {
            10
        } else if m > 500 {
            500
        } else {
            m
        }
    }
}

impl StatRecords {
    /// Estimate trajectories of the window of recent episodes: for each chest,
    /// `(episode number, estimate)` for each episode of the window in order,
    /// numbered from one over the whole history; with the episode range of the
    /// window and a value range that always covers -2.5 to 2.5 (millionths).
    pub fn value_estimate_series(&self) -> (r: (Vec<Vec<(u64, i64)>>, (u64, u64), (i64, i64)))
        requires
            self.wf(),
        ensures
            ({
                let len = self.entries@.len() as int;
                let start = window_start(len);
                let window = self.entries@.subrange(start, len);
                &&& r.0@.len() == NUM_CHESTS
                &&& forall|a: int| 0 <= a < NUM_CHESTS ==> (#[trigger] r.0@[a])@.len() == len - start
                &&& forall|a: int, i: int| 0 <= a < NUM_CHESTS && 0 <= i < len - start
                    ==> #[trigger] r.0@[a]@[i] == ((start + i + 1) as u64, self.entries@[start + i].estimates@[a])
                &&& r.1 == (start as u64, len as u64)
                &&& r.2.0 == min_estimate(window, -VALUE_RANGE as int)
                &&& r.2.1 == max_estimate(window, VALUE_RANGE as int)
            }),
    {
        let len = self.entries.len();
        let start: usize = if len > WINDOW { len - WINDOW } else { 0 };
        let ghost window = self.entries@.subrange(start as int, len as int);
        let mut series: Vec<Vec<(u64, i64)>> = Vec::new();
        let mut a: usize = 0;
        while a < NUM_CHESTS
            invariant
                self.wf(),
                len == self.entries@.len(),
                start as int == window_start(len as int),
                a <= NUM_CHESTS,
                series@.len() == a,
                forall|b: int| 0 <= b < a ==> (#[trigger] series@[b])@.len() == len - start,
                forall|b: int, i: int| 0 <= b < a && 0 <= i < len - start
                    ==> #[trigger] series@[b]@[i] == ((start + i + 1) as u64, self.entries@[start + i].estimates@[b]),
            decreases NUM_CHESTS - a,
        {
            let mut points: Vec<(u64, i64)> = Vec::new();
            let mut i: usize = start;
            while i < len
                invariant
                    self.wf(),
                    len == self.entries@.len(),
                    start <= i <= len,
                    a < NUM_CHESTS,
                    points@.len() == i - start,
                    forall|k: int| 0 <= k < i - start
                        ==> #[trigger] points@[k] == ((start + k + 1) as u64, self.entries@[start + k].estimates@[a as int]),
                decreases len - i,
            {
                assert(self.entries@[i as int].estimates@.len() == NUM_CHESTS);
                points.push(((i + 1) as u64, self.entries[i].estimates[a]));
                i = i + 1;
            }
            series.push(points);
            a = a + 1;
        }
        let mut lo: i64 = -VALUE_RANGE;
        let mut hi: i64 = VALUE_RANGE;
        let mut i: usize = start;
        while i < len
            invariant
                self.wf(),
                len == self.entries@.len(),
                start <= i <= len,
                window == self.entries@.subrange(start as int, len as int),
                lo == min_estimate(window.subrange(0, i - start), -VALUE_RANGE as int),
                hi == max_estimate(window.subrange(0, i - start), VALUE_RANGE as int),
            decreases len - i,
        {
            let e = &self.entries[i];
            proof {
                let s = window.subrange(0, i - start + 1);
                assert(s.drop_last() =~= window.subrange(0, i - start));
                assert(s.last() == self.entries@[i as int]);
            }
            let ghost lo0 = lo as int;
            let ghost hi0 = hi as int;
            let mut k: usize = 0;
            while k < e.estimates.len()
                invariant
                    k <= e.estimates@.len(),
                    lo == seq_min_from(e.estimates@.subrange(0, k as int), lo0),
                    hi == seq_max_from(e.estimates@.subrange(0, k as int), hi0),
                decreases e.estimates@.len() - k,
            {
                proof {
                    let s = e.estimates@.subrange(0, k as int + 1);
                    assert(s.drop_last() =~= e.estimates@.subrange(0, k as int));
                }
                if e.estimates[k] < lo {
                    lo = e.estimates[k];
                }
                if e.estimates[k] > hi {
                    hi = e.estimates[k];
                }
                k = k + 1;
            }
            assert(e.estimates@.subrange(0, k as int) =~= e.estimates@);
            i = i + 1;
        }
        assert(window.subrange(0, len - start) =~= window);
        (series, (start as u64, len as u64), (lo, hi))
    }
}

/// A history with no episodes counts no result, so its breakdown is empty.
pub proof fn lemma_empty_history_breakdown(r: StatRecords)
    requires
        r.entries@.len() == 0,
    ensures
        grand_total(r.entries@) == 0,
{
}

/// Whole percent that `part` is of `total`, rounded down.
fn share(part: u128, total: u128) -> (r: u64)
    requires
        0 < total,
        part <= total,
        total <= 255 * 5 * 0xffff_ffff_ffff_ffffu128,
    ensures
        r == percent(part as int, total as int),
{
    proof {
        assert(100 * part <= 100 * total) by (nonlinear_arith)
            requires part <= total;
        vstd::arithmetic::div_mod::lemma_div_is_ordered(100 * part as int, 100 * total as int, total as int);
        vstd::arithmetic::div_mod::lemma_div_by_multiple(100, total as int);
        assert(100 * total as int == 100 * total as int);
    }
    (100 * part / total) as u64
}

} // verus!
