//! The interactive session as a state machine: each input changes the
//! session and names what its surroundings must do (load, save, exit).

use vstd::prelude::*;
use crate::game::{Game, GameMode, NUM_CHESTS};
use crate::outcome::{outcome_for, ScoreType, SCALE};
use crate::player::Player;
use crate::record::{estimates_fit, resume};
use crate::session::{advanced, agent_step, episode_reset, finish_episode, fully_reset, human_step, learned};
use crate::stats::{EpisodeEntry, StatRecords};
use crate::text::{chars_of, string_of};

verus! {

/// The screens of the game.
#[derive(Clone, Copy, Debug, PartialEq, Eq, Structural)]
pub enum MenuPage {
    Main,
    Play,
    GameOver,
    Model,
    Stats,
}

/// What the session asks of its surroundings after an input.
#[derive(Clone, Copy, Debug, PartialEq, Eq, Structural)]
pub enum MenuAction {
    /// Nothing to do.
    Idle,
    /// Load the latest episode of a mode's log and pass it to `resume_from`.
    LoadLatest(GameMode),
    /// Load every episode of a mode's log and pass them to `show_records`.
    LoadAll(GameMode),
    /// Append the finished episode to the current mode's log and report the
    /// result to `episode_saved`.
    SaveEpisode,
    /// Leave the program.
    Exit,
}

/// The page that main-menu entry `selected` leads to.
pub open spec fn page_of(selected: int) -> MenuPage {
    if selected == 0 {
        MenuPage::Play
    } else if selected == 1 {
        MenuPage::Model
    } else if selected == 2 {
        MenuPage::Stats
    } else {
        MenuPage::Main
    }
}

/// The whole interactive session: the page shown, the main menu's cursor,
/// the environment, the agent and the loaded history.
pub struct Menu {
    pub title: String,
    pub chest: String,
    pub page: MenuPage,
    pub mm_options: Vec<&'static str>,
    pub gm_over_options: Vec<&'static str>,
    pub selected: usize,
    pub highlighted: usize,
    pub game: Game,
    pub player: Player,
    pub saved: bool,
    pub records: StatRecords,
}

impl Menu {
    /// The session's invariant: a valid environment and agent, a cursor on
    /// one of the three main-menu entries, and a well-formed history.
    pub open spec fn wf(&self) -> bool {
        &&& self.game.wf()
        &&& self.player.wf()
        &&& self.mm_options@.len() == 3
        &&& self.highlighted < 3
        &&& self.records.wf()
    }

    /// A session on the main menu, with a fresh environment and agent and no
    /// history loaded.
    pub fn new() -> (m: Menu)
        ensures
            m.wf(),
            m.page == MenuPage::Main,
            m.selected == 0,
            m.highlighted == 0,
            !m.saved,
            m.records.entries@.len() == 0,
    {
        let mut mm: Vec<&'static str> = Vec::new();
        mm.push("Play - Human Mode");
        mm.push("Model");
        mm.push("Stats");
        let mut over: Vec<&'static str> = Vec::new();
        over.push("Continue");
        over.push("Back to Menu");
        Menu {
            title: string_of(&chars_of(" Coins ")),
            chest: string_of(&chars_of(" 💰 ")),
            page: MenuPage::Main,
            mm_options: mm,
            gm_over_options: over,
            selected: 0,
            highlighted: 0,
            game: Game::new(),
            player: Player::new(),
            saved: false,
            records: StatRecords::new(),
        }
    }

    /// Moves the main-menu cursor down, stopping at the last entry.
    pub fn down(&mut self)
        requires
            old(self).wf(),
        ensures
            final(self).wf(),
            *final(self) == (Menu {
                highlighted: if old(self).highlighted < 2 { (old(self).highlighted + 1) as usize } else { 2 },
                ..*old(self)
            }),
    {
        if self.highlighted != self.mm_options.len() - 1 {
            self.highlighted = self.highlighted + 1;
        }
    }

    /// Moves the main-menu cursor up, stopping at the first entry.
    pub fn up(&mut self)
        requires
            old(self).wf(),
        ensures
            final(self).wf(),
            *final(self) == (Menu {
                highlighted: if old(self).highlighted > 0 { (old(self).highlighted - 1) as usize } else { 0 },
                ..*old(self)
            }),
    {
        if self.highlighted > 0 {
            self.highlighted = self.highlighted - 1;
        }
    }

    /// Opens the highlighted main-menu entry.
    pub fn select(&mut self) -> (r: MenuAction)
        requires
            old(self).wf(),
        ensures
            final(self).wf(),
            *final(self) == (Menu {
                page: page_of(old(self).highlighted as int),
                selected: old(self).highlighted,
                saved: false,
                game: Game { mode: mode_of(old(self).highlighted as int), ..old(self).game },
                ..*old(self)
            }),
            r == next_action(old(self).highlighted as int),
    {
        self.selected = self.highlighted;
        let r = self.next_menu();
        self.saved = false;
        r
    }

    /// Moves to the page of the selected entry, sets the environment's mode,
    /// and says which log to load: the latest human or training episode for
    /// play or training, every training episode for the statistics. The agent
    /// and the counters are left as they are until the load comes back.
    pub fn next_menu(&mut self) -> (r: MenuAction)
        requires
            old(self).wf(),
        ensures
            final(self).wf(),
            *final(self) == (Menu {
                page: page_of(old(self).selected as int),
                game: Game { mode: mode_of(old(self).selected as int), ..old(self).game },
                ..*old(self)
            }),
            r == next_action(old(self).selected as int),
    {
        self.page = if self.selected == 0 {
            MenuPage::Play
        } else if self.selected == 1 {
            MenuPage::Model
        } else if self.selected == 2 {
            MenuPage::Stats
        } else {
            MenuPage::Main
        };
        match self.page {
            MenuPage::Play => {
                self.game.mode = GameMode::Human;
                MenuAction::LoadLatest(GameMode::Human)
            },
            MenuPage::Model => {
                self.game.mode = GameMode::AgentTrain;
                MenuAction::LoadLatest(GameMode::AgentTrain)
            },
            MenuPage::Stats => {
                self.game.mode = GameMode::AgentTrain;
                MenuAction::LoadAll(GameMode::AgentTrain)
            },
            _ => {
                self.game.mode = GameMode::Human;
                MenuAction::Idle
            },
        }
    }

    /// Seeds the agent and the count of episodes run from the latest episode
    /// of the current mode's log: the estimates are taken where they are one
    /// in-bound value per chest, and the episode number becomes the count.
    pub fn resume_from(&mut self, latest: &EpisodeEntry)
        requires
            old(self).wf(),
        ensures
            final(self).wf(),
            (latest.estimates@.len() == NUM_CHESTS && estimates_fit(*latest))
                ==> final(self).player.value_estimates@ == latest.estimates@,
            !(latest.estimates@.len() == NUM_CHESTS && estimates_fit(*latest))
                ==> final(self).player.value_estimates == old(self).player.value_estimates,
            final(self).player == (Player { value_estimates: final(self).player.value_estimates, ..old(self).player }),
            *final(self) == (Menu {
                player: final(self).player,
                game: Game { episodes_run: latest.episode, ..old(self).game },
                ..*old(self)
            }),
    {
        resume(&mut self.player, &mut self.game, latest);
    }

    /// Keeps a loaded history for the statistics page, in order, with
    /// estimates that are not one per chest replaced by zeros; the history
    /// counts as present when it holds at least one episode.
    pub fn show_records(&mut self, entries: Vec<EpisodeEntry>)
        requires
            old(self).wf(),
        ensures
            final(self).wf(),
            final(self).records.has_records == (entries@.len() > 0),
            final(self).records.entries@.len() == entries@.len(),
            forall|i: int| 0 <= i < entries@.len() ==> {
                let e = #[trigger] entries@[i];
                let k = final(self).records.entries@[i];
                &&& e.estimates@.len() == NUM_CHESTS ==> k == e
                &&& e.estimates@.len() != NUM_CHESTS ==> k.estimates@ == Seq::new(NUM_CHESTS as nat, |j: int| 0i64)
                    && k.episode == e.episode && k.score == e.score && k.steps == e.steps
                    && k.breakdown == e.breakdown && k.action_selections == e.action_selections
            },
            *final(self) == (Menu { records: final(self).records, ..*old(self) }),
    {
        let ghost given = entries@;
        let mut kept = entries;
        let n = kept.len();
        let mut i: usize = 0;
        while i < n
            invariant
                n == kept@.len(),
                given.len() == n,
                i <= n,
                forall|k: int| 0 <= k < i ==> (#[trigger] kept@[k]).estimates@.len() == NUM_CHESTS,
                forall|k: int| i <= k < n ==> #[trigger] kept@[k] == given[k],
                forall|k: int| 0 <= k < i ==> {
                    let e = #[trigger] given[k];
                    let g = kept@[k];
                    &&& e.estimates@.len() == NUM_CHESTS ==> g == e
                    &&& e.estimates@.len() != NUM_CHESTS ==> g.estimates@ == Seq::new(NUM_CHESTS as nat, |j: int| 0i64)
                        && g.episode == e.episode && g.score == e.score && g.steps == e.steps
                        && g.breakdown == e.breakdown && g.action_selections == e.action_selections
                },
            decreases n - i,
        {
            if kept[i].estimates.len() != NUM_CHESTS {
                let mut e = kept.remove(i);
                e.estimates = vec![0i64; NUM_CHESTS];
                assert(e.estimates@ =~= Seq::new(NUM_CHESTS as nat, |j: int| 0i64));
                kept.insert(i, e);
            }
            i = i + 1;
        }
        let present = n > 0;
        self.records = StatRecords { has_records: present, entries: kept };
    }

    /// Enter: on the main menu opens the highlighted entry. In play, while the
    /// session is started and the episode is not over, opens the highlighted
    /// chest: the agent learns the result, whatever the draw was, the episode
    /// counts the step, and the episode is to be saved once that ends it.
    /// Otherwise nothing changes.
    pub fn handle_enter(&mut self, rng: &mut rand::rngs::StdRng) -> (r: MenuAction)
        requires
            old(self).wf(),
        ensures
            final(self).wf(),
            old(self).page == MenuPage::Main ==> r == next_action(old(self).highlighted as int)
                && *final(self) == (Menu {
                    page: page_of(old(self).highlighted as int),
                    selected: old(self).highlighted,
                    saved: false,
                    game: Game { mode: mode_of(old(self).highlighted as int), ..old(self).game },
                    ..*old(self)
                }),
            old(self).page == MenuPage::Play && !plays(*old(self)) ==> r == MenuAction::Idle
                && *final(self) == *old(self),
            old(self).page == MenuPage::Play && plays(*old(self)) ==> {
                &&& exists|d: int| 0 <= d < SCALE && learned(
                    old(self).player,
                    final(self).player,
                    old(self).game.highlighted_chest as int,
                    outcome_for(old(self).game.highlighted_tilt(), d),
                    old(self).game.steps as int,
                    old(self).game.episodes_run as int,
                )
                &&& final(self).game == (Game { steps: (old(self).game.steps + 1) as u8, ..old(self).game })
                &&& *final(self) == (Menu { game: final(self).game, player: final(self).player, ..*old(self) })
                &&& (r == MenuAction::SaveEpisode <==> (final(self).game.over() && !old(self).saved))
                &&& (r != MenuAction::SaveEpisode ==> r == MenuAction::Idle)
            },
            old(self).page != MenuPage::Main && old(self).page != MenuPage::Play
                ==> r == MenuAction::Idle && *final(self) == *old(self),
    {
        match self.page {
            MenuPage::Main => self.select(),
            MenuPage::Play => {
                if !self.game.start || self.game.is_over() || !self.player.can_update() {
                    return MenuAction::Idle;
                }
                let ghost before = self.player;
                let ghost g0 = self.game;
                let k = human_step(&mut self.game, &mut self.player, rng);
                proof {
                    let d = choose|d: int| 0 <= d < SCALE && k == Some(outcome_for(g0.highlighted_tilt(), d));
                    assert(learned(before, self.player, g0.highlighted_chest as int,
                        outcome_for(g0.highlighted_tilt(), d), g0.steps as int, g0.episodes_run as int));
                }
                if self.game.is_over() && !self.saved {
                    MenuAction::SaveEpisode
                } else {
                    MenuAction::Idle
                }
            },
            _ => MenuAction::Idle,
        }
    }

    /// Records how saving the finished episode went. In play a saved episode
    /// is not saved again. In training a saved episode is closed: the
    /// environment moves on to the next episode and the agent clears its
    /// score, tally and picks, keeping its estimates.
    pub fn episode_saved(&mut self, ok: bool)
        requires
            old(self).wf(),
        ensures
            final(self).wf(),
            old(self).page == MenuPage::Play ==> *final(self) == (Menu { saved: ok, ..*old(self) }),
            old(self).page == MenuPage::Model && ok && old(self).game.episode < u32::MAX
                && old(self).game.episodes_run < u32::MAX ==> {
                &&& final(self).game == advanced(old(self).game)
                &&& episode_reset(old(self).player, final(self).player)
                &&& *final(self) == (Menu { game: final(self).game, player: final(self).player, saved: false, ..*old(self) })
            },
            old(self).page == MenuPage::Model && !(ok && old(self).game.episode < u32::MAX
                && old(self).game.episodes_run < u32::MAX) ==> *final(self) == *old(self),
            old(self).page != MenuPage::Play && old(self).page != MenuPage::Model ==> *final(self) == *old(self),
    {
        match self.page {
            MenuPage::Play => {
                self.saved = ok;
            },
            MenuPage::Model => {
                if ok && self.game.episode < u32::MAX && self.game.episodes_run < u32::MAX {
                    self.saved = false;
                    finish_episode(&mut self.game, &mut self.player);
                }
            },
            _ => {},
        }
    }

    /// One tick of the training page. While the session runs and the episode
    /// is not over, the agent picks a chest, whatever the draws were, the
    /// chest is opened, the agent learns the result and the episode counts
    /// the step; the episode is to be saved once it is over and unsaved.
    /// Otherwise nothing changes.
    pub fn model_tick(&mut self, rng: &mut rand::rngs::StdRng) -> (r: MenuAction)
        requires
            old(self).wf(),
        ensures
            final(self).wf(),
            !trains(*old(self)) ==> *final(self) == *old(self),
            !trains(*old(self)) && !(old(self).page == MenuPage::Model && old(self).game.start
                && old(self).game.over() && !old(self).saved) ==> r == MenuAction::Idle,
            old(self).page == MenuPage::Model && old(self).game.start && old(self).game.over()
                ==> (r == MenuAction::SaveEpisode <==> !old(self).saved),
            trains(*old(self)) ==> {
                &&& exists|a: u8, k: ScoreType| {
                    &&& exists|u: int, e: int| 0 <= u < SCALE && 0 <= e < NUM_CHESTS
                        && a as int == old(self).player.choice(u, e, old(self).game.episodes_run as int)
                    &&& exists|d: int| 0 <= d < SCALE && k == outcome_for(old(self).game.tilts()[a as int], d)
                    &&& learned(old(self).player, final(self).player, a as int, k, old(self).game.steps as int,
                        old(self).game.episodes_run as int)
                    &&& final(self).game == (Game { highlighted_chest: a, steps: (old(self).game.steps + 1) as u8, ..old(self).game })
                }
                &&& *final(self) == (Menu { game: final(self).game, player: final(self).player, ..*old(self) })
                &&& (r == MenuAction::SaveEpisode <==> (final(self).game.over() && !old(self).saved))
                &&& (r != MenuAction::SaveEpisode ==> r == MenuAction::Idle)
            },
    {
        if self.page != MenuPage::Model || !self.game.start {
            return MenuAction::Idle;
        }
        if self.game.is_over() {
            return if self.saved { MenuAction::Idle } else { MenuAction::SaveEpisode };
        }
        if !self.player.can_update() {
            return MenuAction::Idle;
        }
        agent_step(&mut self.game, &mut self.player, rng);
        if self.game.is_over() && !self.saved {
            MenuAction::SaveEpisode
        } else {
            MenuAction::Idle
        }
    }

    /// Escape: leaves the program from the main menu; from play or training
    /// returns to the main menu with the session stopped and fully reset,
    /// discarding an unsaved episode; from the statistics returns to the main
    /// menu.
    pub fn handle_escape(&mut self) -> (r: MenuAction)
        requires
            old(self).wf(),
        ensures
            final(self).wf(),
            old(self).page == MenuPage::Main ==> r == MenuAction::Exit && *final(self) == *old(self),
            (old(self).page == MenuPage::Play || old(self).page == MenuPage::Model) ==> {
                &&& r == MenuAction::Idle
                &&& fully_reset(old(self).player, final(self).player)
                &&& *final(self) == (Menu {
                    page: MenuPage::Main,
                    game: Game { start: false, steps: 0, ..old(self).game },
                    player: final(self).player,
                    ..*old(self)
                })
            },
            old(self).page == MenuPage::Stats ==> r == MenuAction::Idle
                && *final(self) == (Menu { page: MenuPage::Main, ..*old(self) }),
            old(self).page == MenuPage::GameOver ==> r == MenuAction::Idle && *final(self) == *old(self),
    {
        match self.page {
            MenuPage::Main => MenuAction::Exit,
            MenuPage::Play | MenuPage::Model => {
                self.page = MenuPage::Main;
                self.game.reset();
                self.player.zero_out_all();
                MenuAction::Idle
            },
            MenuPage::Stats => {
                self.page = MenuPage::Main;
                MenuAction::Idle
            },
            _ => MenuAction::Idle,
        }
    }

    /// `s`: starts the session on the play and training pages.
    pub fn handle_start(&mut self)
        requires
            old(self).wf(),
        ensures
            final(self).wf(),
            (old(self).page == MenuPage::Play || old(self).page == MenuPage::Model)
                ==> *final(self) == (Menu { game: Game { start: true, ..old(self).game }, ..*old(self) }),
            !(old(self).page == MenuPage::Play || old(self).page == MenuPage::Model) ==> *final(self) == *old(self),
    {
        if self.page == MenuPage::Play || self.page == MenuPage::Model {
            self.game.start();
        }
    }

    /// Left and right arrows: move the highlighted chest in play, wrapping at
    /// either end.
    pub fn handle_move(&mut self, right: bool)
        requires
            old(self).wf(),
        ensures
            final(self).wf(),
            old(self).page == MenuPage::Play ==> *final(self) == (Menu {
                game: Game {
                    highlighted_chest: (if right {
                        (old(self).game.highlighted_chest as int + 1) % (NUM_CHESTS as int)
                    } else {
                        (old(self).game.highlighted_chest as int + NUM_CHESTS - 1) % (NUM_CHESTS as int)
                    }) as u8,
                    ..old(self).game
                },
                ..*old(self)
            }),
            old(self).page != MenuPage::Play ==> *final(self) == *old(self),
    {
        if self.page == MenuPage::Play {
            if right {
                self.game.move_right();
            } else {
                self.game.move_left();
            }
        }
    }

    /// `c`: in play, stops the session and starts the episode over, clearing
    /// the score, tally and picks and keeping the estimates.
    pub fn handle_reset(&mut self)
        requires
            old(self).wf(),
        ensures
            final(self).wf(),
            old(self).page == MenuPage::Play ==> {
                &&& episode_reset(old(self).player, final(self).player)
                &&& *final(self) == (Menu {
                    game: Game { start: false, steps: 0, ..old(self).game },
                    player: final(self).player,
                    saved: false,
                    ..*old(self)
                })
            },
            old(self).page != MenuPage::Play ==> *final(self) == *old(self),
    {
        if self.page == MenuPage::Play {
            self.game.reset();
            self.player.zero_out();
            self.saved = false;
        }
    }

    /// `q`: in play, once the episode is over, returns to the main menu with
    /// the session stopped and fully reset.
    pub fn handle_quit(&mut self)
        requires
            old(self).wf(),
        ensures
            final(self).wf(),
            old(self).page == MenuPage::Play && old(self).game.over() ==> {
                &&& fully_reset(old(self).player, final(self).player)
                &&& *final(self) == (Menu {
                    page: MenuPage::Main,
                    game: Game { start: false, steps: 0, ..old(self).game },
                    player: final(self).player,
                    saved: false,
                    ..*old(self)
                })
            },
            !(old(self).page == MenuPage::Play && old(self).game.over()) ==> *final(self) == *old(self),
    {
        if self.page == MenuPage::Play {
            if !self.game.is_over() {
                return;
            }
            self.page = MenuPage::Main;
            self.game.reset();
            self.player.zero_out_all();
            self.saved = false;
        }
    }
}

/// Whether Enter in play opens a chest: the session is started, the episode
/// is not over, and the agent has room for one more result.
pub open spec fn plays(m: Menu) -> bool {
    m.game.start && !m.game.over() && m.player.has_room()
}

/// Whether a tick of the training page takes a step: on that page, with the
/// session started, the episode not over, and room for one more result.
pub open spec fn trains(m: Menu) -> bool {
    m.page == MenuPage::Model && m.game.start && !m.game.over() && m.player.has_room()
}

/// The mode that opening main-menu entry `selected` plays in.
pub open spec fn mode_of(selected: int) -> GameMode {
    if selected == 0 {
        GameMode::Human
    } else if selected <= 2 {
        GameMode::AgentTrain
    } else {
        GameMode::Human
    }
}

impl Default for Menu {
    fn default() -> (m: Menu)
        ensures
            m.wf(),
            m.page == MenuPage::Main,
            m.selected == 0,
            m.highlighted == 0,
            !m.saved,
            m.records.entries@.len() == 0,
    {
        Menu::new()
    }
}

/// The load that opening main-menu entry `selected` asks for.
pub open spec fn next_action(selected: int) -> MenuAction {
    if selected == 0 {
        MenuAction::LoadLatest(GameMode::Human)
    } else if selected == 1 {
        MenuAction::LoadLatest(GameMode::AgentTrain)
    } else if selected == 2 {
        MenuAction::LoadAll(GameMode::AgentTrain)
    } else {
        MenuAction::Idle
    }
}

} // verus!
