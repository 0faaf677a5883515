use coins::game::{Game, GameMode};
use coins::menu::{Menu, MenuAction, MenuPage};
use coins::player::{Player, ScoreCount};
use coins::record::{next_episode_id, resume};
use coins::stats::{EpisodeEntry, StatRecords};
use rand::rngs::StdRng;
use rand::SeedableRng;

fn entry(episode: u32, score: i32, breakdown: ScoreCount) -> EpisodeEntry {
    let mut e = EpisodeEntry::new();
    e.episode = episode;
    e.score = score;
    e.breakdown = breakdown;
    e
}

fn history(n: u32) -> StatRecords {
    let mut r = StatRecords::new();
    for i in 1..=n {
        r.entries.push(entry(i, i as i32 * 3, ScoreCount::new()));
    }
    r.has_records = n > 0;
    r
}

fn strings(cells: &[&str]) -> Vec<String> {
    cells.iter().map(|c| c.to_string()).collect()
}

#[test]
fn breakdown_of_empty_history_is_empty() {
    let r = StatRecords::new();
    assert!(r.normalized_outcome_breakdown().is_empty());
    let zero = history(4);
    assert!(zero.normalized_outcome_breakdown().is_empty());
}

#[test]
fn breakdown_of_four_kinds_is_a_quarter_each() {
    let mut r = StatRecords::new();
    r.entries.push(entry(1, 0, ScoreCount { jackpot: 1, treasure: 1, bust: 0, loss: 1, robbed: 1 }));
    let b = r.normalized_outcome_breakdown();
    assert_eq!(b, vec![("Jackpot", 25), ("Treasure", 25), ("Bust", 0), ("Loss", 25), ("Robbed", 25)]);
}

#[test]
fn breakdown_sums_across_episodes_and_rounds_down() {
    let mut r = StatRecords::new();
    r.entries.push(entry(1, 0, ScoreCount { jackpot: 1, treasure: 0, bust: 0, loss: 0, robbed: 0 }));
    r.entries.push(entry(2, 0, ScoreCount { jackpot: 0, treasure: 2, bust: 0, loss: 0, robbed: 0 }));
    let b = r.normalized_outcome_breakdown();
    assert_eq!(b, vec![("Jackpot", 33), ("Treasure", 66), ("Bust", 0), ("Loss", 0), ("Robbed", 0)]);
}

#[test]
fn progress_of_twelve_records_takes_fifth_and_tenth() {
    let r = history(12);
    let p = r.recent_score_progress();
    assert_eq!(p, vec![("Ep 5".to_string(), 15), ("Ep 10".to_string(), 30)]);
}

#[test]
fn progress_keeps_only_five_most_recent_samples() {
    let r = history(40);
    let p = r.recent_score_progress();
    let labels: Vec<String> = p.iter().map(|(l, _)| l.clone()).collect();
    assert_eq!(labels, vec!["Ep 20", "Ep 25", "Ep 30", "Ep 35", "Ep 40"]);
}

#[test]
fn progress_looks_at_last_hundred_episodes() {
    let r = history(153);
    let p = r.recent_score_progress();
    let labels: Vec<String> = p.iter().map(|(l, _)| l.clone()).collect();
    assert_eq!(labels, vec!["Ep 133", "Ep 138", "Ep 143", "Ep 148", "Ep 153"]);
    assert_eq!(p[0].1, 399);
}

#[test]
fn progress_clamps_negative_scores_and_handles_few_records() {
    let mut r = history(5);
    r.entries[4].score = -7;
    assert_eq!(r.recent_score_progress(), vec![("Ep 5".to_string(), 0)]);
    assert!(history(4).recent_score_progress().is_empty());
    assert!(StatRecords::new().recent_score_progress().is_empty());
}

#[test]
fn max_score_is_clamped_between_ten_and_five_hundred() {
    assert_eq!(StatRecords::new().max_score(), 10);
    assert_eq!(history(10).max_score(), 30);
    let mut r = history(10);
    r.entries[9].score = 900;
    assert_eq!(r.max_score(), 500);
    let mut r = history(5);
    r.entries[4].score = 3;
    assert_eq!(r.max_score(), 10);
}

#[test]
fn estimate_series_follows_recent_episodes() {
    let mut r = history(3);
    r.entries[0].estimates[2] = 3_000_000;
    r.entries[2].estimates[7] = -4_000_000;
    let (series, x, y) = r.value_estimate_series();
    assert_eq!(series.len(), 8);
    assert_eq!(series[2], vec![(1, 3_000_000), (2, 0), (3, 0)]);
    assert_eq!(series[7], vec![(1, 0), (2, 0), (3, -4_000_000)]);
    assert_eq!(x, (0, 3));
    assert_eq!(y, (-4_000_000, 3_000_000));
    let (_, x, y) = history(120).value_estimate_series();
    assert_eq!(x, (20, 120));
    assert_eq!(y, (-2_500_000, 2_500_000));
}

#[test]
fn entry_is_written_as_six_cells() {
    let mut e = entry(3, -4, ScoreCount { jackpot: 1, treasure: 2, bust: 0, loss: 13, robbed: 4 });
    e.estimates = vec![350_000, -200_000, 0, 1_234_567, -5, 2_000_000, 999_999, -1_000_000];
    e.action_selections = vec![0, 7, 255];
    let cells = e.encode();
    assert_eq!(cells, strings(&[
        "3",
        "-4",
        "0",
        "[0.350000,-0.200000,0.000000,1.234567,-0.000005,2.000000,0.999999,-1.000000]",
        "{\"jackpot\":1,\"treasure\":2,\"bust\":0,\"loss\":13,\"robbed\":4}",
        "[0,7,255]",
    ]));
}

#[test]
fn entry_round_trips_through_cells() {
    let mut e = entry(41, 17, ScoreCount { jackpot: 3, treasure: 5, bust: 1, loss: 6, robbed: 5 });
    e.steps = 20;
    e.estimates = vec![123, -456_789, 1_999_999, -2_000_000, 0, 7, 1_000_000_000_000, -1_000_000_000_000];
    e.action_selections = (0..20).map(|i| (i % 8) as u8).collect();
    let back = EpisodeEntry::decode(&e.encode());
    assert_eq!(back.episode, 41);
    assert_eq!(back.score, 17);
    assert_eq!(back.steps, 20);
    assert_eq!(back.estimates, e.estimates);
    assert_eq!(back.breakdown, e.breakdown);
    assert_eq!(back.action_selections, e.action_selections);
    assert_eq!(back.learning_rate, 100_000);
    let mut empty = entry(1, i32::MIN, ScoreCount::new());
    empty.action_selections = vec![];
    let back = EpisodeEntry::decode(&empty.encode());
    assert_eq!(back.score, i32::MIN);
    assert!(back.action_selections.is_empty());
}

#[test]
fn short_decimals_are_read_in_millionths() {
    let cells = strings(&["2", "5", "20", "[0.35,-0.2,0.0,1,-1.5,0.000001,3.25,0]", "{\"jackpot\":0,\"treasure\":0,\"bust\":0,\"loss\":0,\"robbed\":0}", "[1,2]"]);
    let e = EpisodeEntry::decode(&cells);
    assert_eq!(e.estimates, vec![350_000, -200_000, 0, 1_000_000, -1_500_000, 1, 3_250_000, 0]);
    assert_eq!(e.action_selections, vec![1, 2]);
}

#[test]
fn json_numbers_with_exponents_and_spaces_are_read() {
    let cells = strings(&[
        "1",
        "1",
        "1",
        " [ 0.5 , -2.5E-1,1e0 ,3.4028235e-7, 0.1234567, -0.0000019, 12e-1, 1E+2 ] ",
        "{\"jackpot\":0,\"treasure\":0,\"bust\":0,\"loss\":0,\"robbed\":0}",
        "[ 1 , 2 ]",
    ]);
    let e = EpisodeEntry::decode(&cells);
    assert_eq!(e.estimates, vec![500_000, -250_000, 1_000_000, 0, 123_456, -1, 1_200_000, 100_000_000]);
    assert_eq!(e.action_selections, vec![1, 2]);
    let empty = strings(&["1", "1", "1", "[0,0,0,0,0,0,0,0]", "{}", " [ ] "]);
    assert!(EpisodeEntry::decode(&empty).action_selections.is_empty());
}

#[test]
fn malformed_cells_fall_back_to_defaults() {
    let cells = strings(&["x", "--3", "7", "[1e7,0,0,0,0,0,0,0]", "{\"jackpot\":1}", "[1,300]"]);
    let e = EpisodeEntry::decode(&cells);
    assert_eq!(e.episode, 0);
    assert_eq!(e.score, 0);
    assert_eq!(e.steps, 7);
    assert_eq!(e.estimates, vec![0i64; 8]);
    assert_eq!(e.breakdown, ScoreCount::new());
    assert_eq!(e.action_selections, vec![0u8; 20]);
    let wrong_count = strings(&["1", "1", "1", "[0.5,0.5]"]);
    let e = EpisodeEntry::decode(&wrong_count);
    assert_eq!(e.estimates, vec![0i64; 8]);
    assert_eq!(e.action_selections, vec![0u8; 20]);
    let e = EpisodeEntry::decode(&Vec::new());
    assert_eq!(e.episode, 0);
    assert_eq!(e.estimates.len(), 8);
    let no_digits = strings(&["1", "1", "1", "[0.,0,0,0,0,0,0,0]"]);
    assert_eq!(EpisodeEntry::decode(&no_digits).estimates, vec![0i64; 8]);
    let bad_exponent = strings(&["1", "1", "1", "[1e,0,0,0,0,0,0,0]"]);
    assert_eq!(EpisodeEntry::decode(&bad_exponent).estimates, vec![0i64; 8]);
    let overflow = strings(&["4294967296", "2147483648"]);
    let e = EpisodeEntry::decode(&overflow);
    assert_eq!(e.episode, 0);
    assert_eq!(e.score, 0);
}

#[test]
fn episode_ids_count_up_from_one() {
    assert_eq!(next_episode_id(None), Some(1));
    assert_eq!(next_episode_id(Some("Episode,Score,Steps,Estimates,BreakDown,Action Selections")), Some(1));
    assert_eq!(next_episode_id(Some("")), Some(1));
    let mut id = next_episode_id(None).unwrap();
    for _ in 0..5 {
        let mut e = EpisodeEntry::new();
        e.episode = id;
        let line = e.encode().join(",");
        let next = next_episode_id(Some(&line)).unwrap();
        assert_eq!(next, id + 1);
        id = next;
    }
    assert_eq!(id, 6);
    assert_eq!(next_episode_id(Some(" 12 ,x")), Some(13));
    assert_eq!(next_episode_id(Some("4294967295,1")), None);
}

#[test]
fn resume_takes_estimates_and_episode_count() {
    let mut p = Player::new();
    let mut g = Game::new();
    let mut e = entry(9, 0, ScoreCount::new());
    e.estimates = vec![1, 2, 3, 4, 5, 6, 7, 8];
    resume(&mut p, &mut g, &e);
    assert_eq!(p.value_estimates, vec![1, 2, 3, 4, 5, 6, 7, 8]);
    assert_eq!(g.episodes_run, 9);
    e.estimates = vec![1, 2];
    resume(&mut p, &mut g, &e);
    assert_eq!(p.value_estimates, vec![1, 2, 3, 4, 5, 6, 7, 8]);
    let row = EpisodeEntry::of_episode(4, &p, &g);
    assert_eq!(row.episode, 4);
    assert_eq!(row.estimates, p.value_estimates);
}

#[test]
fn main_menu_navigation_opens_pages() {
    let mut m = Menu::new();
    assert_eq!(m.page, MenuPage::Main);
    m.up();
    assert_eq!(m.highlighted, 0);
    m.down();
    m.down();
    m.down();
    assert_eq!(m.highlighted, 2);
    assert_eq!(m.select(), MenuAction::LoadAll(GameMode::AgentTrain));
    assert_eq!(m.page, MenuPage::Stats);
    assert_eq!(m.handle_escape(), MenuAction::Idle);
    assert_eq!(m.page, MenuPage::Main);
    m.up();
    assert_eq!(m.select(), MenuAction::LoadLatest(GameMode::AgentTrain));
    assert_eq!(m.page, MenuPage::Model);
    assert_eq!(m.game.mode, GameMode::AgentTrain);
    m.handle_escape();
    assert_eq!(m.handle_escape(), MenuAction::Exit);
}

#[test]
fn play_session_asks_to_save_once_at_episode_end() {
    let mut m = Menu::new();
    let mut rng = StdRng::seed_from_u64(21);
    assert_eq!(m.handle_enter(&mut rng), MenuAction::LoadLatest(GameMode::Human));
    assert_eq!(m.page, MenuPage::Play);
    m.handle_start();
    m.handle_move(true);
    assert_eq!(m.game.highlighted_chest, 1);
    for _ in 0..19 {
        assert_eq!(m.handle_enter(&mut rng), MenuAction::Idle);
    }
    assert_eq!(m.handle_enter(&mut rng), MenuAction::SaveEpisode);
    m.episode_saved(true);
    assert!(m.saved);
    assert_eq!(m.handle_enter(&mut rng), MenuAction::Idle);
    m.handle_quit();
    assert_eq!(m.page, MenuPage::Main);
    assert_eq!(m.player.value_estimates, vec![0i64; 8]);
}

#[test]
fn reset_in_play_starts_the_episode_over() {
    let mut m = Menu::new();
    let mut rng = StdRng::seed_from_u64(2);
    m.select();
    m.handle_enter(&mut rng);
    assert_eq!(m.game.steps, 0);
    m.handle_start();
    m.handle_enter(&mut rng);
    assert_eq!(m.game.steps, 1);
    m.handle_quit();
    assert_eq!(m.page, MenuPage::Play);
    m.handle_reset();
    assert_eq!(m.game.steps, 0);
    assert_eq!(m.player.score, 0);
    assert!(!m.game.start);
}

#[test]
fn training_ticks_until_the_episode_is_saved() {
    let mut m = Menu::new();
    let mut rng = StdRng::seed_from_u64(4);
    m.down();
    m.select();
    assert_eq!(m.model_tick(&mut rng), MenuAction::Idle);
    assert_eq!(m.game.steps, 0);
    m.handle_start();
    let mut ticks = 0;
    while m.model_tick(&mut rng) != MenuAction::SaveEpisode {
        ticks += 1;
    }
    assert_eq!(ticks, 19);
    m.episode_saved(true);
    assert_eq!(m.game.steps, 0);
    assert_eq!(m.game.episodes_run, 1);
    let mut e = EpisodeEntry::new();
    e.episode = 30;
    m.resume_from(&e);
    assert_eq!(m.game.episodes_run, 30);
    m.show_records(vec![EpisodeEntry::new(), EpisodeEntry::new()]);
    assert!(m.records.has_records);
    assert_eq!(m.records.entries.len(), 2);
    m.show_records(Vec::new());
    assert!(!m.records.has_records);
}

#[test]
fn new_log_starts_with_column_names() {
    assert_eq!(coins::record::header_row(), strings(&["Episode", "Score", "Steps", "Estimates", "BreakDown", "Action Selections"]));
    assert_eq!(next_episode_id(Some(&coins::record::header_row().join(","))), Some(1));
    assert!(coins::record::is_header(&coins::record::header_row()));
    assert!(!coins::record::is_header(&EpisodeEntry::new().encode()));
    assert!(!coins::record::is_header(&strings(&["Episode", "Score"])));
}

#[test]
fn defaults_are_empty() {
    let r = StatRecords::default();
    assert!(!r.has_records);
    assert!(r.entries.is_empty());
    let m = Menu::default();
    assert_eq!(m.page, MenuPage::Main);
    assert_eq!(m.mm_options, vec!["Play - Human Mode", "Model", "Stats"]);
    assert_eq!(m.title, " Coins ");
    let e = EpisodeEntry::default();
    assert_eq!(e.learning_rate, 100_000);
    assert_eq!(e.action_selections, vec![0u8; 20]);
}

#[test]
fn show_records_replaces_estimates_of_wrong_length() {
    let mut m = Menu::new();
    let mut bad = entry(2, 5, ScoreCount::new());
    bad.estimates = vec![1, 2, 3];
    let mut good = entry(3, 6, ScoreCount::new());
    good.estimates = vec![9, 9, 9, 9, 9, 9, 9, 9];
    m.show_records(vec![bad, good]);
    assert!(m.records.has_records);
    assert_eq!(m.records.entries[0].estimates, vec![0i64; 8]);
    assert_eq!(m.records.entries[0].score, 5);
    assert_eq!(m.records.entries[1].estimates, vec![9i64; 8]);
}

#[test]
fn entry_round_trips_through_a_log_line() {
    let mut e = entry(12, -3, ScoreCount { jackpot: 2, treasure: 0, bust: 1, loss: 4, robbed: 0 });
    e.estimates = vec![350_000, -200_000, 0, 1, 2, 3, 4, 5];
    let line = e.to_line().unwrap();
    assert!(line.starts_with("12,-3,0,\"[0.350000,-0.200000,"));
    assert!(line.contains("\"{\"\"jackpot\"\":2,"));
    assert!(line.ends_with('\n'));
    let back = EpisodeEntry::from_line(line.trim_end()).unwrap();
    assert_eq!(back.episode, 12);
    assert_eq!(back.score, -3);
    assert_eq!(back.estimates, e.estimates);
    assert_eq!(back.breakdown, e.breakdown);
    assert_eq!(back.action_selections, e.action_selections);
    assert_eq!(next_episode_id(Some(line.trim_end())), Some(13));
}

#[test]
fn header_line_is_no_episode() {
    let header = coins::record::header_line().unwrap();
    assert_eq!(header.trim_end(), "Episode,Score,Steps,Estimates,BreakDown,Action Selections");
    assert!(EpisodeEntry::from_line(header.trim_end()).is_none());
    assert!(EpisodeEntry::from_line("").is_none());
    let old_style = "3,5,20,\"[0.1,-0.2,0.0,0.65,-0.8,0.8,-0.3,-0.9]\",\"{\"\"jackpot\"\":1,\"\"treasure\"\":2,\"\"bust\"\":0,\"\"loss\"\":3,\"\"robbed\"\":4}\",\"[5,5,5]\"";
    let e = EpisodeEntry::from_line(old_style).unwrap();
    assert_eq!(e.episode, 3);
    assert_eq!(e.estimates, vec![100_000, -200_000, 0, 650_000, -800_000, 800_000, -300_000, -900_000]);
    assert_eq!(e.breakdown.robbed, 4);
    assert_eq!(e.action_selections, vec![5, 5, 5]);
}
