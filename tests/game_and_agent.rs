use coins::game::{Game, GameMode, MAX_STEPS, NUM_CHESTS};
use coins::outcome::{outcome_of, ScoreType, SCALE};
use coins::player::{Player, PlayerMode, ScoreCount};
use coins::session::{agent_step, agent_step_with, finish_episode, human_step, human_step_with};
use rand::rngs::StdRng;
use rand::SeedableRng;

#[test]
fn resolve_gap_of_six_tenths_is_jackpot() {
    assert_eq!(outcome_of(800_000, 200_000), ScoreType::Jackpot);
}

#[test]
fn resolve_large_negative_gap_is_robbed() {
    assert_eq!(outcome_of(-900_000, 50_000), ScoreType::Robbed);
}

#[test]
fn resolve_small_positive_gap_is_treasure() {
    assert_eq!(outcome_of(100_000, 50_000), ScoreType::Treasure);
}

#[test]
fn resolve_zero_gap_is_bust() {
    assert_eq!(outcome_of(100_000, 100_000), ScoreType::Bust);
}

#[test]
fn resolve_small_negative_gap_is_loss() {
    assert_eq!(outcome_of(-200_000, 100_000), ScoreType::Loss);
}

#[test]
fn resolve_thresholds_are_inclusive_at_one_half() {
    assert_eq!(outcome_of(500_000, 0), ScoreType::Jackpot);
    assert_eq!(outcome_of(499_999, 0), ScoreType::Treasure);
    assert_eq!(outcome_of(0, 500_000), ScoreType::Robbed);
    assert_eq!(outcome_of(0, 499_999), ScoreType::Loss);
}

#[test]
fn rewards_and_labels() {
    assert_eq!(ScoreType::Jackpot.reward(), 2);
    assert_eq!(ScoreType::Treasure.reward(), 1);
    assert_eq!(ScoreType::Bust.reward(), 0);
    assert_eq!(ScoreType::Loss.reward(), -1);
    assert_eq!(ScoreType::Robbed.reward(), -2);
    assert_eq!(ScoreType::Jackpot.to_string(), "Jackpot 🎰: ");
    assert_eq!(ScoreType::Robbed.to_string(), "Robbed 💀: ");
    assert_eq!(GameMode::AgentTrain.to_string(), "agent_train");
}

#[test]
fn new_game_has_fixed_table() {
    let g = Game::new();
    assert_eq!(g.chests, vec![-200_000, 350_000, 100_000, 650_000, -800_000, 800_000, -300_000, -900_000]);
    assert_eq!(g.max_steps, 20);
    assert_eq!(g.steps, 0);
    assert!(!g.start);
    let d = Game::default();
    assert_eq!(d.chests.len(), NUM_CHESTS);
}

#[test]
fn navigation_wraps_both_ways() {
    let mut g = Game::new();
    g.move_left();
    assert_eq!(g.highlighted_chest, 7);
    g.move_right();
    assert_eq!(g.highlighted_chest, 0);
    g.move_right();
    assert_eq!(g.highlighted_chest, 1);
    g.select(5);
    assert_eq!(g.highlighted_chest, 5);
}

#[test]
fn episode_is_over_exactly_at_twenty_steps() {
    let mut g = Game::new();
    for i in 0..20 {
        assert!(!g.is_over(), "over after {} steps", i);
        g.step();
    }
    assert!(g.is_over());
    assert_eq!(g.steps, MAX_STEPS);
    g.step();
    assert_eq!(g.steps, MAX_STEPS);
}

#[test]
fn advance_episode_restarts_steps() {
    let mut g = Game::new();
    for _ in 0..20 {
        g.step();
    }
    g.advance_episode();
    assert_eq!(g.steps, 0);
    assert_eq!(g.episode, 1);
    assert_eq!(g.episodes_run, 0);
    assert!(!g.is_over());
    g.mode = GameMode::AgentTrain;
    g.advance_episode();
    assert_eq!(g.episode, 2);
    assert_eq!(g.episodes_run, 1);
}

#[test]
fn start_end_and_reset() {
    let mut g = Game::new();
    g.start();
    assert!(g.start);
    g.step();
    g.reset();
    assert!(!g.start);
    assert_eq!(g.steps, 0);
    g.start();
    g.end();
    assert!(!g.start);
}

#[test]
fn chest_with_lowest_tilt_is_always_robbed() {
    let mut g = Game::new();
    g.select(7);
    let mut rng = StdRng::seed_from_u64(11);
    for _ in 0..50 {
        assert_eq!(g.get_chest_score(&mut rng), ScoreType::Robbed);
    }
}

#[test]
fn chest_with_highest_tilt_is_never_robbed() {
    let mut g = Game::new();
    g.select(5);
    let mut rng = StdRng::seed_from_u64(3);
    for _ in 0..50 {
        assert_ne!(g.get_chest_score(&mut rng), ScoreType::Robbed);
    }
}

#[test]
fn score_for_draw_uses_highlighted_chest() {
    let mut g = Game::new();
    g.select(3);
    assert_eq!(g.score_for_draw(100_000), ScoreType::Jackpot);
    assert_eq!(g.score_for_draw(400_000), ScoreType::Treasure);
    assert_eq!(g.score_for_draw(650_000), ScoreType::Bust);
}

#[test]
fn new_player_defaults() {
    let p = Player::new();
    assert_eq!(p.mode, PlayerMode::Human);
    assert_eq!(p.value_estimates, vec![0i64; 8]);
    assert_eq!(p.alpha, 100_000);
    assert_eq!(p.epsilon, 300_000);
    assert_eq!(p.alpha_decay, 100);
    assert_eq!(p.epsilon_decay, 100);
    assert_eq!(p.action_selections, vec![0u8; 20]);
    assert_eq!(p.score_count, ScoreCount::default());
    let d = Player::default();
    assert_eq!(d.score, 0);
}

#[test]
fn update_moves_estimate_by_decayed_rate() {
    let mut p = Player::new();
    p.update_estimate(0, ScoreType::Jackpot, 0);
    assert_eq!(p.value_estimates[0], 200_000);
    assert_eq!(p.score, 2);
    assert_eq!(p.score_count.jackpot, 1);
    p.update_estimate(0, ScoreType::Jackpot, 100);
    assert_eq!(p.value_estimates[0], 290_000);
    assert_eq!(p.score, 4);
    assert_eq!(p.score_count.jackpot, 2);
    p.update_estimate(4, ScoreType::Robbed, 0);
    assert_eq!(p.value_estimates[4], -200_000);
    assert_eq!(p.score, 2);
    assert_eq!(p.score_count.robbed, 1);
    p.update_estimate(2, ScoreType::Bust, 0);
    assert_eq!(p.value_estimates[2], 0);
    assert_eq!(p.score_count.bust, 1);
    assert_eq!(p.score_count.count(ScoreType::Bust), 1);
}

#[test]
fn repeated_updates_converge_monotonically() {
    let mut p = Player::new();
    let mut last = p.value_estimates[1];
    for _ in 0..300 {
        p.update_estimate(1, ScoreType::Treasure, 7);
        p.score = 0;
        p.score_count = ScoreCount::new();
        let now = p.value_estimates[1];
        assert!(now >= last);
        assert!(now <= SCALE as i64);
        last = now;
    }
    assert!(SCALE as i64 - last < 20);
    let mut q = Player::new();
    q.value_estimates[1] = 1_500_000;
    let mut last = q.value_estimates[1];
    for _ in 0..300 {
        q.update_estimate(1, ScoreType::Loss, 0);
        q.score = 0;
        q.score_count = ScoreCount::new();
        let now = q.value_estimates[1];
        assert!(now <= last);
        assert!(now >= -1_000_000);
        last = now;
    }
    assert!(last + 1_000_000 < 20);
}

#[test]
fn greedy_choice_takes_first_maximum_when_exploration_is_zero() {
    let mut p = Player::new();
    p.epsilon = 0;
    p.value_estimates = vec![100, 500, 500, 300, -5, 500, 0, 0];
    for u in [1u32, 500_000, 999_999] {
        assert_eq!(p.choose_action(u, 7, 0), 1);
        assert_eq!(p.choose_action(u, 7, 1000), 1);
    }
    p.value_estimates = vec![0, 0, 0, 0, 0, 0, 0, 0];
    assert_eq!(p.choose_action(10, 6, 0), 0);
    p.value_estimates = vec![-9, -8, -7, -6, -5, -4, -3, -2];
    assert_eq!(p.choose_action(10, 6, 0), 7);
}

#[test]
fn zero_draw_explores_even_without_exploration_rate() {
    let mut p = Player::new();
    p.epsilon = 0;
    assert_eq!(p.choose_action(0, 6, 0), 6);
}

#[test]
fn exploration_rate_decays_with_episodes() {
    let mut p = Player::new();
    p.value_estimates = vec![0, 0, 9, 0, 0, 0, 0, 0];
    assert_eq!(p.choose_action(300_000, 5, 0), 5);
    assert_eq!(p.choose_action(300_001, 5, 0), 2);
    assert_eq!(p.choose_action(150_000, 5, 100), 5);
    assert_eq!(p.choose_action(150_001, 5, 100), 2);
}

#[test]
fn model_step_picks_a_chest() {
    let p = Player::new();
    let mut rng = StdRng::seed_from_u64(5);
    for t in 0..100u32 {
        assert!((p.model_step(&mut rng, t) as usize) < NUM_CHESTS);
    }
}

#[test]
fn action_selection_and_resets() {
    let mut p = Player::new();
    p.set_action_selection(4, 3);
    assert_eq!(p.action_selections[3], 4);
    p.set_action_selection(6, 20);
    assert_eq!(p.action_selections.len(), 20);
    p.update_estimate(1, ScoreType::Treasure, 0);
    p.zero_out();
    assert_eq!(p.score, 0);
    assert_eq!(p.score_count, ScoreCount::new());
    assert_eq!(p.action_selections, vec![0u8; 20]);
    assert_eq!(p.value_estimates[1], 100_000);
    p.zero_out_all();
    assert_eq!(p.value_estimates, vec![0i64; 8]);
    assert!(p.action_selections.is_empty());
    p.set_action_selection(2, 0);
    assert!(p.action_selections.is_empty());
}

#[test]
fn can_update_guards_the_tally() {
    let mut p = Player::new();
    assert!(p.can_update());
    p.score_count.loss = 255;
    assert!(!p.can_update());
}

#[test]
fn human_step_learns_from_the_draw() {
    let mut g = Game::new();
    let mut p = Player::new();
    g.select(5);
    let r = human_step_with(&mut g, &mut p, 200_000);
    assert_eq!(r, Some(ScoreType::Jackpot));
    assert_eq!(g.steps, 1);
    assert_eq!(p.value_estimates[5], 200_000);
    assert_eq!(p.action_selections[0], 5);
    assert_eq!(p.score, 2);
    for _ in 0..19 {
        human_step_with(&mut g, &mut p, 999_999);
    }
    assert!(g.is_over());
    assert_eq!(human_step_with(&mut g, &mut p, 0), None);
    assert_eq!(g.steps, 20);
}

#[test]
fn human_step_with_rng_counts_a_step() {
    let mut g = Game::new();
    let mut p = Player::new();
    g.select(7);
    let mut rng = StdRng::seed_from_u64(1);
    assert_eq!(human_step(&mut g, &mut p, &mut rng), Some(ScoreType::Robbed));
    assert_eq!(g.steps, 1);
    assert_eq!(p.score, -2);
}

#[test]
fn agent_step_is_greedy_above_the_rate() {
    let mut g = Game::new();
    let mut p = Player::new();
    p.value_estimates[3] = 10;
    let (arm, kind) = agent_step_with(&mut g, &mut p, 999_999, 6, 0);
    assert_eq!(arm, 3);
    assert_eq!(kind, ScoreType::Jackpot);
    assert_eq!(g.highlighted_chest, 3);
    let (arm, kind) = agent_step_with(&mut g, &mut p, 0, 7, 0);
    assert_eq!(arm, 7);
    assert_eq!(kind, ScoreType::Robbed);
    assert_eq!(p.action_selections[0], 3);
    assert_eq!(p.action_selections[1], 7);
    assert_eq!(g.steps, 2);
}

#[test]
fn agent_episode_runs_and_finishes() {
    let mut g = Game::new();
    g.mode = GameMode::AgentTrain;
    let mut p = Player::new();
    let mut rng = StdRng::seed_from_u64(9);
    while !g.is_over() {
        let (arm, _) = agent_step(&mut g, &mut p, &mut rng);
        assert!((arm as usize) < NUM_CHESTS);
    }
    let total = p.score_count.jackpot as u32 + p.score_count.treasure as u32 + p.score_count.bust as u32
        + p.score_count.loss as u32 + p.score_count.robbed as u32;
    assert_eq!(total, 20);
    let kept = p.value_estimates.clone();
    finish_episode(&mut g, &mut p);
    assert_eq!(g.steps, 0);
    assert_eq!(g.episode, 1);
    assert_eq!(g.episodes_run, 1);
    assert_eq!(p.score, 0);
    assert_eq!(p.value_estimates, kept);
}
