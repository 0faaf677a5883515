//! One opening of a chest by the player or by the agent, and the end of an
//! episode.

use vstd::prelude::*;
use crate::draw::draw_below;
use crate::game::{Game, GameMode, MAX_STEPS, NUM_CHESTS};
use crate::outcome::{outcome_for, reward_of, ScoreType, SCALE};
use crate::player::{count_of, updated_estimate, zero_count, Player};

verus! {

/// Whether `after` is the agent `before` once it has learned the result
/// `kind` for chest `arm` at step `step` of a session that has run
/// `episodes_run` episodes: the estimate moves, the score and the tally take
/// the result, and the pick is recorded at that step.
pub open spec fn learned(before: Player, after: Player, arm: int, kind: ScoreType, step: int, episodes_run: int) -> bool {
    &&& after.wf()
    &&& after.value_estimates@ == before.value_estimates@.update(
        arm,
        updated_estimate(
            before.value_estimates@[arm] as int,
            kind,
            before.alpha as int,
            before.alpha_decay as int,
            episodes_run,
        ) as i64,
    )
    &&& after.score == before.score + reward_of(kind)
    &&& forall|k: ScoreType| #[trigger] count_of(after.score_count, k)
        == count_of(before.score_count, k) + if k == kind { 1int } else { 0int }
    &&& step < before.action_selections@.len()
        ==> after.action_selections@ == before.action_selections@.update(step, arm as u8)
    &&& step >= before.action_selections@.len() ==> after.action_selections == before.action_selections
    &&& after.mode == before.mode
    &&& after.alpha == before.alpha
    &&& after.alpha_decay == before.alpha_decay
    &&& after.epsilon == before.epsilon
    &&& after.epsilon_decay == before.epsilon_decay
}

/// Opens chest `arm` against the draw `draw`: the agent learns the result,
/// records the pick at the current step, and the episode counts the step.
fn open_chest(game: &mut Game, player: &mut Player, arm: u8, draw: u32) -> (r: ScoreType)
    requires
        old(game).wf(),
        old(player).wf(),
        old(player).has_room(),
        !old(game).over(),
        (arm as int) < NUM_CHESTS,
        draw < SCALE,
    ensures
        final(game).wf(),
        r == outcome_for(old(game).tilts()[arm as int], draw as int),
        learned(*old(player), *final(player), arm as int, r, old(game).steps as int, old(game).episodes_run as int),
        *final(game) == (Game { highlighted_chest: arm, steps: (old(game).steps + 1) as u8, ..*old(game) }),
{
    game.select(arm);
    let kind = game.score_for_draw(draw);
    player.update_estimate(arm as usize, kind, game.episodes_run);
    player.set_action_selection(arm, game.steps as usize);
    game.step();
    kind
}

/// One opening in play mode against the draw `draw` (millionths): nothing
/// happens once the episode is over; otherwise the highlighted chest is
/// opened, the player learns the result and the episode counts the step.
pub fn human_step_with(game: &mut Game, player: &mut Player, draw: u32) -> (r: Option<ScoreType>)
    requires
        old(game).wf(),
        old(player).wf(),
        old(player).has_room(),
        draw < SCALE,
    ensures
        final(game).wf(),
        final(player).wf(),
        old(game).over() ==> r is None && *final(game) == *old(game) && *final(player) == *old(player),
        !old(game).over() ==> r == Some(outcome_for(old(game).highlighted_tilt(), draw as int)),
        !old(game).over() ==> learned(*old(player), *final(player), old(game).highlighted_chest as int,
            r->Some_0, old(game).steps as int, old(game).episodes_run as int),
        !old(game).over() ==> *final(game) == (Game { steps: (old(game).steps + 1) as u8, ..*old(game) }),
{
    if game.is_over() {
        return None;
    }
    let arm = game.highlighted_chest;
    Some(open_chest(game, player, arm, draw))
}

/// One opening in play mode, with the threshold drawn from `rng`.
pub fn human_step(game: &mut Game, player: &mut Player, rng: &mut rand::rngs::StdRng) -> (r: Option<ScoreType>)
    requires
        old(game).wf(),
        old(player).wf(),
        old(player).has_room(),
    ensures
        final(game).wf(),
        final(player).wf(),
        old(game).over() ==> r is None && *final(game) == *old(game) && *final(player) == *old(player),
        !old(game).over() ==> exists|d: int| 0 <= d < SCALE
            && r == Some(outcome_for(old(game).highlighted_tilt(), d)),
        !old(game).over() ==> learned(*old(player), *final(player), old(game).highlighted_chest as int,
            r->Some_0, old(game).steps as int, old(game).episodes_run as int),
        !old(game).over() ==> *final(game) == (Game { steps: (old(game).steps + 1) as u8, ..*old(game) }),
{
    let draw = draw_below(rng, SCALE);
    human_step_with(game, player, draw)
}

/// One step of the training agent against the draws `u` (exploration test),
/// `explore` (random chest) and `draw` (threshold): the agent picks a chest
/// for the environment's count of episodes run, the chest is highlighted and
/// opened, and the agent learns the result.
pub fn agent_step_with(game: &mut Game, player: &mut Player, u: u32, explore: u8, draw: u32) -> (r: (u8, ScoreType))
    requires
        old(game).wf(),
        old(player).wf(),
        old(player).has_room(),
        !old(game).over(),
        u < SCALE,
        (explore as int) < NUM_CHESTS,
        draw < SCALE,
    ensures
        final(game).wf(),
        r.0 as int == old(player).choice(u as int, explore as int, old(game).episodes_run as int),
        r.1 == outcome_for(old(game).tilts()[r.0 as int], draw as int),
        learned(*old(player), *final(player), r.0 as int, r.1, old(game).steps as int, old(game).episodes_run as int),
        *final(game) == (Game { highlighted_chest: r.0, steps: (old(game).steps + 1) as u8, ..*old(game) }),
{
    let arm = player.choose_action(u, explore, game.episodes_run);
    let kind = open_chest(game, player, arm, draw);
    (arm, kind)
}

/// One step of the training agent, with its draws taken from `rng`.
pub fn agent_step(game: &mut Game, player: &mut Player, rng: &mut rand::rngs::StdRng) -> (r: (u8, ScoreType))
    requires
        old(game).wf(),
        old(player).wf(),
        old(player).has_room(),
        !old(game).over(),
    ensures
        final(game).wf(),
        (r.0 as int) < NUM_CHESTS,
        exists|u: int, e: int| 0 <= u < SCALE && 0 <= e < NUM_CHESTS
            && r.0 as int == old(player).choice(u, e, old(game).episodes_run as int),
        exists|d: int| 0 <= d < SCALE && r.1 == outcome_for(old(game).tilts()[r.0 as int], d),
        learned(*old(player), *final(player), r.0 as int, r.1, old(game).steps as int, old(game).episodes_run as int),
        *final(game) == (Game { highlighted_chest: r.0, steps: (old(game).steps + 1) as u8, ..*old(game) }),
{
    let u = draw_below(rng, SCALE);
    let explore = draw_below(rng, NUM_CHESTS as u32) as u8;
    let draw = draw_below(rng, SCALE);
    agent_step_with(game, player, u, explore, draw)
}

/// The environment `g` moved on to its next episode: the episode counter
/// (and, for a training agent, the count of episodes run) one higher and the
/// steps back to zero.
pub open spec fn advanced(g: Game) -> Game {
    Game {
        steps: 0,
        episode: (g.episode + 1) as u32,
        episodes_run: if g.mode == GameMode::AgentTrain { (g.episodes_run + 1) as u32 } else { g.episodes_run },
        ..g
    }
}

/// Whether `after` is `before` reset between episodes: score and tally zero,
/// a full episode of zero picks, everything else, the estimates included, kept.
pub open spec fn episode_reset(before: Player, after: Player) -> bool {
    &&& after == (Player { score: 0, score_count: zero_count(), action_selections: after.action_selections, ..before })
    &&& after.action_selections@ == Seq::new(MAX_STEPS as nat, |i: int| 0u8)
}

/// Whether `after` is `before` fully reset: score and tally zero, one zero
/// estimate per chest, no picks, the rates kept.
pub open spec fn fully_reset(before: Player, after: Player) -> bool {
    &&& after == (Player {
        score: 0,
        score_count: zero_count(),
        value_estimates: after.value_estimates,
        action_selections: after.action_selections,
        ..before
    })
    &&& after.value_estimates@ == Seq::new(NUM_CHESTS as nat, |i: int| 0i64)
    &&& after.action_selections@.len() == 0
}

/// Closes a saved episode and starts the next: the environment advances its
/// episode counters and restarts its steps, and the agent clears its score,
/// tally and picks while keeping its estimates.
pub fn finish_episode(game: &mut Game, player: &mut Player)
    requires
        old(game).wf(),
        old(player).wf(),
        old(game).episode < u32::MAX,
        old(game).episodes_run < u32::MAX,
    ensures
        final(game).wf(),
        final(player).wf(),
        *final(game) == advanced(*old(game)),
        episode_reset(*old(player), *final(player)),
{
    game.advance_episode();
    player.zero_out();
}

} // verus!
