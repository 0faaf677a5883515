//! The learning agent: value estimates with a decaying learning rate,
//! epsilon-greedy choice with a decaying exploration rate, score and tally.

use vstd::prelude::*;
use crate::draw::draw_below;
use crate::game::{MAX_STEPS, NUM_CHESTS};
use crate::outcome::{reward_of, ScoreType, SCALE};

verus! {

/// Largest magnitude of a value estimate, in millionths (a million points).
pub const ESTIMATE_BOUND: i64 = 1_000_000_000_000;

/// Whether the chests are picked by a person or by the agent.
#[derive(Clone, Copy, Debug, PartialEq, Eq, Structural)]
pub enum PlayerMode {
    Human,
    Cpu,
}

/// How many times each kind of result came up.
#[derive(Clone, Copy, Debug, PartialEq, Eq, Structural)]
pub struct ScoreCount {
    pub jackpot: u8,
    pub treasure: u8,
    pub bust: u8,
    pub loss: u8,
    pub robbed: u8,
}

/// The tally with every count zero.
pub open spec fn zero_count() -> ScoreCount {
    ScoreCount { jackpot: 0, treasure: 0, bust: 0, loss: 0, robbed: 0 }
}

/// The count that `sc` holds for `kind`.
pub open spec fn count_of(sc: ScoreCount, kind: ScoreType) -> int {
    match kind {
        ScoreType::Jackpot => sc.jackpot as int,
        ScoreType::Treasure => sc.treasure as int,
        ScoreType::Bust => sc.bust as int,
        ScoreType::Loss => sc.loss as int,
        ScoreType::Robbed => sc.robbed as int,
    }
}

/// Sum of the five counts.
pub open spec fn total_of(sc: ScoreCount) -> int {
    sc.jackpot + sc.treasure + sc.bust + sc.loss + sc.robbed
}

impl ScoreCount {
    /// All counts zero.
    pub fn new() -> (r: ScoreCount)
        ensures
            r == zero_count(),
    {
        ScoreCount { jackpot: 0, treasure: 0, bust: 0, loss: 0, robbed: 0 }
    }

    /// The count kept for `kind`.
    pub fn count(&self, kind: ScoreType) -> (r: u8)
        ensures
            r == count_of(*self, kind),
    {
        match kind {
            ScoreType::Jackpot => self.jackpot,
            ScoreType::Treasure => self.treasure,
            ScoreType::Bust => self.bust,
            ScoreType::Loss => self.loss,
            ScoreType::Robbed => self.robbed,
        }
    }

    /// Adds one to the count kept for `kind`.
    pub fn bump(&mut self, kind: ScoreType)
        requires
            count_of(*old(self), kind) < u8::MAX,
        ensures
            forall|k: ScoreType| #[trigger] count_of(*final(self), k)
                == count_of(*old(self), k) + if k == kind { 1int } else { 0int },
            total_of(*final(self)) == total_of(*old(self)) + 1,
    {
        match kind {
            ScoreType::Jackpot => self.jackpot = self.jackpot + 1,
            ScoreType::Treasure => self.treasure = self.treasure + 1,
            ScoreType::Bust => self.bust = self.bust + 1,
            ScoreType::Loss => self.loss = self.loss + 1,
            ScoreType::Robbed => self.robbed = self.robbed + 1,
        }
    }
}

impl Default for ScoreCount {
    fn default() -> (r: ScoreCount)
        ensures
            r == zero_count(),
    {
        ScoreCount::new()
    }
}

/// Moves `q` toward `target` by the fraction `num / den` of the distance
/// between them, rounding the move toward zero.
pub open spec fn step_toward(q: int, target: int, num: int, den: int) -> int {
    if q <= target {
        q + (target - q) * num / den
    } else {
        q - (q - target) * num / den
    }
}

/// The estimate `q` after a result of `kind` in episode `t`, with learning
/// rate `alpha` (millionths) decayed as `alpha / (1 + t / decay)`.
pub open spec fn updated_estimate(q: int, kind: ScoreType, alpha: int, decay: int, t: int) -> int {
    step_toward(q, reward_of(kind) * SCALE, alpha * decay, (decay + t) * SCALE)
}

/// Whether `i` is the first index of a largest element of `s`.
pub open spec fn is_first_max(s: Seq<i64>, i: int) -> bool {
    &&& 0 <= i < s.len()
    &&& forall|j: int| 0 <= j < s.len() ==> s[j] <= s[i]
    &&& forall|j: int| 0 <= j < i ==> s[j] < s[i]
}

/// The first index of a largest element of `s` (0 when `s` is empty).
pub open spec fn first_max_index(s: Seq<i64>) -> int
    decreases s.len(),
{
    if s.len() <= 1 {
        0
    } else {
        let i = first_max_index(s.drop_last());
        if s.last() > s[i] { s.len() - 1 } else { i }
    }
}

/// `first_max_index` picks the first index of a largest element.
pub proof fn lemma_first_max_index(s: Seq<i64>)
    requires
        s.len() > 0,
    ensures
        is_first_max(s, first_max_index(s)),
    decreases s.len(),
{
    if s.len() > 1 {
        let p = s.drop_last();
        lemma_first_max_index(p);
        let i = first_max_index(p);
        assert forall|j: int| 0 <= j < p.len() implies p[j] == s[j] by {}
        if s.last() > s[i] {
            assert forall|j: int| 0 <= j < s.len() implies #[trigger] s[j] <= s[s.len() - 1] by {
                if j < p.len() {
                    assert(p[j] <= p[i]);
                }
            }
        }
    }
}

/// A move of the fraction `num / den` (at most one) of a distance `dist`,
/// rounded down, never exceeds the distance.
proof fn lemma_fraction_le(dist: int, num: int, den: int)
    requires
        dist >= 0,
        0 <= num <= den,
        den > 0,
    ensures
        0 <= dist * num / den <= dist,
{
    assert(dist * num <= dist * den) by (nonlinear_arith)
        requires dist >= 0, num <= den;
    assert(0 <= dist * num) by (nonlinear_arith)
        requires dist >= 0, num >= 0;
    vstd::arithmetic::div_mod::lemma_div_is_ordered(dist * num, dist * den, den);
    vstd::arithmetic::div_mod::lemma_div_by_multiple(dist, den);
    vstd::arithmetic::div_mod::lemma_div_pos_is_pos(dist * num, den);
}

/// A product of bounded non-negative factors is bounded by the product of the bounds.
proof fn lemma_mul_bounded(a: int, b: int, x: int, y: int)
    requires
        0 <= a <= x,
        0 <= b <= y,
    ensures
        0 <= a * b <= x * y,
{
    assert(0 <= a * b <= x * y) by (nonlinear_arith)
        requires 0 <= a <= x, 0 <= b <= y;
}

/// The learning agent, or the human player's running tally.
#[derive(Clone, Debug)]
pub struct Player {
    pub mode: PlayerMode,
    pub score: i32,
    pub value_estimates: Vec<i64>,
    pub alpha: u32,
    pub score_count: ScoreCount,
    pub action_selections: Vec<u8>,
    pub epsilon: u32,
    pub epsilon_decay: u32,
    pub alpha_decay: u32,
}

impl Player {
    /// The agent's invariant: one bounded estimate per chest, a learning rate
    /// of at most one, and positive decay constants.
    pub open spec fn wf(&self) -> bool {
        &&& self.value_estimates@.len() == NUM_CHESTS
        &&& forall|i: int| 0 <= i < self.value_estimates@.len()
            ==> -ESTIMATE_BOUND <= #[trigger] self.value_estimates@[i] <= ESTIMATE_BOUND
        &&& self.alpha <= SCALE
        &&& self.alpha_decay > 0
        &&& self.epsilon_decay > 0
    }

    /// Whether the uniform draw `u` (millionths) falls within the exploration
    /// rate of episode `t`, `epsilon / (1 + t / epsilon_decay)`.
    pub open spec fn explores(&self, u: int, t: int) -> bool {
        u * (self.epsilon_decay + t) <= self.epsilon * self.epsilon_decay
    }

    /// The chest picked for draw `u`: `explore` when the draw falls within the
    /// exploration rate, else the first chest of largest estimate.
    pub open spec fn choice(&self, u: int, explore: int, t: int) -> int {
        if self.explores(u, t) { explore } else { first_max_index(self.value_estimates@) }
    }

    /// A fresh agent: zero estimates, learning rate 0.1 and exploration rate
    /// 0.3, both decaying over 100 episodes.
    pub fn new() -> (p: Player)
        ensures
            p.wf(),
            p.mode == PlayerMode::Human,
            p.score == 0,
            p.value_estimates@ == Seq::new(NUM_CHESTS as nat, |i: int| 0i64),
            p.alpha == 100_000,
            p.alpha_decay == 100,
            p.epsilon == 300_000,
            p.epsilon_decay == 100,
            p.score_count == zero_count(),
            p.action_selections@ == Seq::new(MAX_STEPS as nat, |i: int| 0u8),
    {
        let p = Player {
            mode: PlayerMode::Human,
            score: 0,
            value_estimates: vec![0i64; NUM_CHESTS],
            alpha: 100_000,
            score_count: ScoreCount::new(),
            action_selections: vec![0u8; MAX_STEPS as usize],
            epsilon: 300_000,
            epsilon_decay: 100,
            alpha_decay: 100,
        };
        assert(p.value_estimates@ =~= Seq::new(NUM_CHESTS as nat, |i: int| 0i64));
        assert(p.action_selections@ =~= Seq::new(MAX_STEPS as nat, |i: int| 0u8));
        p
    }
}

impl Player {
    /// Learns from a result of `reward` for chest `selection` in episode
    /// `episode`: the chest's estimate moves toward the reward by the decayed
    /// learning rate, the score gains the reward and the tally counts it.
    pub fn update_estimate(&mut self, selection: usize, reward: ScoreType, episode: u32)
        requires
            old(self).wf(),
            selection < NUM_CHESTS,
            i32::MIN + 2 <= old(self).score <= i32::MAX - 2,
            count_of(old(self).score_count, reward) < u8::MAX,
        ensures
            final(self).wf(),
            final(self).value_estimates@ == old(self).value_estimates@.update(
                selection as int,
                updated_estimate(
                    old(self).value_estimates@[selection as int] as int,
                    reward,
                    old(self).alpha as int,
                    old(self).alpha_decay as int,
                    episode as int,
                ) as i64,
            ),
            final(self).score == old(self).score + reward_of(reward),
            forall|k: ScoreType| #[trigger] count_of(final(self).score_count, k)
                == count_of(old(self).score_count, k) + if k == reward { 1int } else { 0int },
            total_of(final(self).score_count) == total_of(old(self).score_count) + 1,
            final(self).mode == old(self).mode,
            final(self).alpha == old(self).alpha,
            final(self).alpha_decay == old(self).alpha_decay,
            final(self).epsilon == old(self).epsilon,
            final(self).epsilon_decay == old(self).epsilon_decay,
            final(self).action_selections == old(self).action_selections,
    {
        let points = reward.reward();
        let target: i64 = points as i64 * SCALE as i64;
        let old_value = self.value_estimates[selection];
        proof {
            lemma_mul_bounded(self.alpha as int, self.alpha_decay as int, 1_000_000, 0xffff_ffffu32 as int);
            lemma_mul_bounded(self.alpha_decay as int + episode as int, SCALE as int, 8_589_934_590u64 as int, 1_000_000);
        }
        let num: u128 = self.alpha as u128 * self.alpha_decay as u128;
        let den: u128 = (self.alpha_decay as u128 + episode as u128) * SCALE as u128;
        proof {
            assert(self.alpha as int * self.alpha_decay as int <= (self.alpha_decay as int + episode as int) * SCALE as int)
                by (nonlinear_arith)
                requires
                    self.alpha <= SCALE,
                    self.alpha_decay >= 0,
                    episode >= 0;
        }
        let new_value: i64 = if old_value <= target {
            let dist: u128 = (target - old_value) as u128;
            proof {
                lemma_mul_bounded(dist as int, num as int, 3_000_000_000_000u64 as int, 4_294_967_295_000_000u64 as int);
                lemma_fraction_le(dist as int, num as int, den as int);
            }
            let delta: u128 = dist * num / den;
            old_value + delta as i64
        } else {
            let dist: u128 = (old_value - target) as u128;
            proof {
                lemma_mul_bounded(dist as int, num as int, 3_000_000_000_000u64 as int, 4_294_967_295_000_000u64 as int);
                lemma_fraction_le(dist as int, num as int, den as int);
            }
            let delta: u128 = dist * num / den;
            old_value - delta as i64
        };
        self.value_estimates.set(selection, new_value);
        self.score = self.score + points;
        self.update_score_count(reward);
    }

    fn update_score_count(&mut self, reward: ScoreType)
        requires
            count_of(old(self).score_count, reward) < u8::MAX,
        ensures
            forall|k: ScoreType| #[trigger] count_of(final(self).score_count, k)
                == count_of(old(self).score_count, k) + if k == reward { 1int } else { 0int },
            total_of(final(self).score_count) == total_of(old(self).score_count) + 1,
            *final(self) == (Player { score_count: final(self).score_count, ..*old(self) }),
    {
        self.score_count.bump(reward);
    }

    /// Full reset on leaving a game: score, tally and estimates go back to
    /// zero and the record of picks is emptied.
    pub fn zero_out_all(&mut self)
        requires
            old(self).wf(),
        ensures
            final(self).wf(),
            final(self).score == 0,
            final(self).score_count == zero_count(),
            final(self).value_estimates@ == Seq::new(NUM_CHESTS as nat, |i: int| 0i64),
            final(self).action_selections@.len() == 0,
            final(self).mode == old(self).mode,
            final(self).alpha == old(self).alpha,
            final(self).alpha_decay == old(self).alpha_decay,
            final(self).epsilon == old(self).epsilon,
            final(self).epsilon_decay == old(self).epsilon_decay,
    {
        self.score = 0;
        self.score_count = ScoreCount::new();
        self.value_estimates = vec![0i64; NUM_CHESTS];
        self.action_selections.clear();
        assert(self.value_estimates@ =~= Seq::new(NUM_CHESTS as nat, |i: int| 0i64));
    }

    /// Reset between episodes: score and tally go back to zero and the
    /// record of picks to a full episode of zeros; the estimates stay.
    pub fn zero_out(&mut self)
        requires
            old(self).wf(),
        ensures
            final(self).wf(),
            final(self).score == 0,
            final(self).score_count == zero_count(),
            final(self).action_selections@ == Seq::new(MAX_STEPS as nat, |i: int| 0u8),
            final(self).value_estimates == old(self).value_estimates,
            final(self).mode == old(self).mode,
            final(self).alpha == old(self).alpha,
            final(self).alpha_decay == old(self).alpha_decay,
            final(self).epsilon == old(self).epsilon,
            final(self).epsilon_decay == old(self).epsilon_decay,
    {
        self.score = 0;
        self.score_count = ScoreCount::new();
        self.action_selections = vec![0u8; MAX_STEPS as usize];
        assert(self.action_selections@ =~= Seq::new(MAX_STEPS as nat, |i: int| 0u8));
    }

    /// Records `action` as the pick of step `step`; a step past the end of
    /// the record changes nothing.
    pub fn set_action_selection(&mut self, action: u8, step: usize)
        ensures
            step < old(self).action_selections@.len() ==> final(self).action_selections@
                == old(self).action_selections@.update(step as int, action),
            step >= old(self).action_selections@.len() ==> final(self).action_selections
                == old(self).action_selections,
            *final(self) == (Player { action_selections: final(self).action_selections, ..*old(self) }),
    {
        if step < self.action_selections.len() {
            self.action_selections.set(step, action);
        }
    }

    /// The epsilon-greedy pick for the uniform draw `u` (millionths) in episode
    /// `episode`: `explore` when `u` is within the decayed exploration rate,
    /// else the first chest of largest estimate.
    pub fn choose_action(&self, u: u32, explore: u8, episode: u32) -> (r: u8)
        requires
            self.wf(),
            u < SCALE,
            (explore as int) < NUM_CHESTS,
        ensures
            r as int == self.choice(u as int, explore as int, episode as int),
            (r as int) < NUM_CHESTS,
    {
        proof {
            lemma_mul_bounded(u as int, self.epsilon_decay as int + episode as int, 1_000_000, 8_589_934_590u64 as int);
            lemma_mul_bounded(self.epsilon as int, self.epsilon_decay as int, 0xffff_ffffu32 as int, 0xffff_ffffu32 as int);
        }
        let lhs: u128 = u as u128 * (self.epsilon_decay as u128 + episode as u128);
        let rhs: u128 = self.epsilon as u128 * self.epsilon_decay as u128;
        if lhs <= rhs {
            explore
        } else {
            let mut best: usize = 0;
            let mut i: usize = 1;
            while i < self.value_estimates.len()
                invariant
                    self.wf(),
                    1 <= i <= self.value_estimates@.len(),
                    best as int == first_max_index(self.value_estimates@.subrange(0, i as int)),
                    best < i,
                decreases self.value_estimates@.len() - i,
            {
                let ghost s = self.value_estimates@.subrange(0, i as int + 1);
                assert(s.drop_last() =~= self.value_estimates@.subrange(0, i as int));
                if self.value_estimates[i] > self.value_estimates[best] {
                    best = i;
                }
                i = i + 1;
            }
            assert(self.value_estimates@.subrange(0, i as int) =~= self.value_estimates@);
            best as u8
        }
    }

    /// The agent's pick for episode `episode`: draws a uniform value from
    /// `rng` and, when it falls within the exploration rate, a random chest.
    pub fn model_step(&self, rng: &mut rand::rngs::StdRng, episode: u32) -> (r: u8)
        requires
            self.wf(),
        ensures
            (r as int) < NUM_CHESTS,
            exists|u: int, e: int| 0 <= u < SCALE && 0 <= e < NUM_CHESTS
                && r as int == self.choice(u, e, episode as int),
    {
        let u = draw_below(rng, SCALE);
        let explore = draw_below(rng, NUM_CHESTS as u32) as u8;
        self.choose_action(u, explore, episode)
    }
}

impl Player {
    /// Whether one more result can be learned without the score or a tally
    /// count leaving its integer range.
    pub open spec fn has_room(&self) -> bool {
        &&& i32::MIN + 2 <= self.score <= i32::MAX - 2
        &&& self.score_count.jackpot < u8::MAX
        &&& self.score_count.treasure < u8::MAX
        &&& self.score_count.bust < u8::MAX
        &&& self.score_count.loss < u8::MAX
        &&& self.score_count.robbed < u8::MAX
    }

    /// Whether one more result can be learned without the score or a tally
    /// count leaving its integer range.
    pub fn can_update(&self) -> (r: bool)
        ensures
            r == self.has_room(),
    {
        i32::MIN + 2 <= self.score && self.score <= i32::MAX - 2
            && self.score_count.jackpot < u8::MAX
            && self.score_count.treasure < u8::MAX
            && self.score_count.bust < u8::MAX
            && self.score_count.loss < u8::MAX
            && self.score_count.robbed < u8::MAX
    }
}

impl Default for Player {
    fn default() -> (p: Player)
        ensures
            p.wf(),
            p.mode == PlayerMode::Human,
            p.score == 0,
            p.value_estimates@ == Seq::new(NUM_CHESTS as nat, |i: int| 0i64),
            p.alpha == 100_000,
            p.alpha_decay == 100,
            p.epsilon == 300_000,
            p.epsilon_decay == 100,
            p.score_count == zero_count(),
            p.action_selections@ == Seq::new(MAX_STEPS as nat, |i: int| 0u8),
    {
        Player::new()
    }
}

/// The estimate after `n` updates in a row with results of `kind`, all in
/// episode `t`, starting from `q`.
pub open spec fn repeated_estimate(q: int, kind: ScoreType, alpha: int, decay: int, t: int, n: nat) -> int
    decreases n,
{
    if n == 0 {
        q
    } else {
        updated_estimate(repeated_estimate(q, kind, alpha, decay, t, (n - 1) as nat), kind, alpha, decay, t)
    }
}

/// One move of `step_toward` with a fraction of at most one lands between the
/// start and the target, and moves by at least one unit while the distance
/// times the fraction's numerator reaches its denominator.
proof fn lemma_step_toward(q: int, target: int, num: int, den: int)
    requires
        0 <= num <= den,
        den > 0,
    ensures
        q <= target ==> q <= step_toward(q, target, num, den) <= target,
        q >= target ==> target <= step_toward(q, target, num, den) <= q,
        (target - q) * num >= den ==> step_toward(q, target, num, den) > q,
        (q - target) * num >= den ==> step_toward(q, target, num, den) < q,
{
    vstd::arithmetic::div_mod::lemma_div_by_self(den);
    if q <= target {
        assert((q - target) * num <= 0) by (nonlinear_arith)
            requires q - target <= 0, num >= 0;
        lemma_fraction_le(target - q, num, den);
        if (target - q) * num >= den {
            vstd::arithmetic::div_mod::lemma_div_is_ordered(den, (target - q) * num, den);
        }
    } else {
        assert((target - q) * num <= 0) by (nonlinear_arith)
            requires target - q < 0, num >= 0;
        lemma_fraction_le(q - target, num, den);
        if (q - target) * num >= den {
            vstd::arithmetic::div_mod::lemma_div_is_ordered(den, (q - target) * num, den);
        }
    }
}

/// Repeated updates with one kind of result converge monotonically on that
/// result's reward: each update keeps the estimate on the same side of the
/// reward and never farther from it, and strictly closer while the distance,
/// scaled by the decayed learning rate, is at least one millionth.
pub proof fn lemma_repeated_updates_converge(q: int, kind: ScoreType, alpha: int, decay: int, t: int, n: nat)
    requires
        0 <= alpha <= SCALE,
        decay > 0,
        t >= 0,
    ensures
        ({
            let a = repeated_estimate(q, kind, alpha, decay, t, n);
            let b = repeated_estimate(q, kind, alpha, decay, t, n + 1);
            let target = reward_of(kind) * SCALE;
            &&& a <= target ==> a <= b <= target
            &&& a >= target ==> target <= b <= a
            &&& (target - a) * (alpha * decay) >= (decay + t) * SCALE ==> a < b
            &&& (a - target) * (alpha * decay) >= (decay + t) * SCALE ==> b < a
        }),
{
    assert(alpha * decay <= (decay + t) * SCALE) by (nonlinear_arith)
        requires 0 <= alpha <= SCALE, decay > 0, t >= 0;
    assert(0 <= alpha * decay) by (nonlinear_arith)
        requires 0 <= alpha, decay > 0;
    let a = repeated_estimate(q, kind, alpha, decay, t, n);
    lemma_step_toward(a, reward_of(kind) * SCALE, alpha * decay, (decay + t) * SCALE);
}

/// Distance between two integers.
pub open spec fn gap(a: int, b: int) -> int {
    if a >= b { a - b } else { b - a }
}

/// Repeated updates with one kind of result close in on its reward: after `n`
/// updates the estimate is at most `n` millionths closer than it started, or
/// within the rounding floor `(decay + t) * SCALE / (alpha * decay)` of the
/// reward, whichever is farther, so it gets within that floor and stays there.
pub proof fn lemma_repeated_updates_close_in(q: int, kind: ScoreType, alpha: int, decay: int, t: int, n: nat)
    requires
        0 < alpha <= SCALE,
        decay > 0,
        t >= 0,
    ensures
        ({
            let target = reward_of(kind) * SCALE;
            let floor = (decay + t) * SCALE / (alpha * decay);
            let d = gap(repeated_estimate(q, kind, alpha, decay, t, n), target);
            &&& d <= gap(q, target)
            &&& (d <= gap(q, target) - n || d <= floor)
        }),
    decreases n,
{
    let target = reward_of(kind) * SCALE;
    let num = alpha * decay;
    let den = (decay + t) * SCALE;
    assert(alpha * decay > 0) by (nonlinear_arith)
        requires alpha > 0, decay > 0;
    if n > 0 {
        let m = (n - 1) as nat;
        lemma_repeated_updates_close_in(q, kind, alpha, decay, t, m);
        lemma_repeated_updates_converge(q, kind, alpha, decay, t, m);
        let a = repeated_estimate(q, kind, alpha, decay, t, m);
        let da = gap(a, target);
        if da * num < den {
            assert(da * num <= den);
            vstd::arithmetic::div_mod::lemma_div_is_ordered(da * num, den, num);
            vstd::arithmetic::div_mod::lemma_div_by_multiple(da, num);
        }
    }
}

/// With an exploration rate of zero the agent picks the first chest of
/// largest estimate, for every draw above zero.
pub proof fn lemma_greedy_without_exploration(p: Player, u: int, explore: int, t: int)
    requires
        p.wf(),
        p.epsilon == 0,
        0 < u < SCALE,
        t >= 0,
    ensures
        is_first_max(p.value_estimates@, p.choice(u, explore, t)),
{
    assert(u * (p.epsilon_decay + t) > 0) by (nonlinear_arith)
        requires u > 0, p.epsilon_decay + t > 0;
    lemma_first_max_index(p.value_estimates@);
}

} // verus!
