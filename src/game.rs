//! The bandit environment: the chest table, the highlighted chest, and the
//! step and episode counters of a session.

use vstd::prelude::*;
use crate::draw::draw_below;
use crate::outcome::{outcome_for, outcome_of, ScoreType, SCALE};

verus! {

/// Number of chests on the table.
pub const NUM_CHESTS: usize = 8;

/// Number of openings in one episode.
pub const MAX_STEPS: u8 = 20;

/// The fixed tilt of each chest, in millionths.
pub open spec fn chest_table() -> Seq<int> {
    seq![-200_000, 350_000, 100_000, 650_000, -800_000, 800_000, -300_000, -900_000]
}

/// Who is playing, which also decides the log an episode is kept in.
#[derive(Clone, Copy, Debug, PartialEq, Eq, Structural)]
pub enum GameMode {
    Human,
    AgentTrain,
    AgentInfer,
}

impl GameMode {
    /// Short name of the mode, used to name its log.
    pub fn to_string(&self) -> (r: &'static str)
        ensures
            *self == GameMode::Human ==> r@ == "human"@,
            *self == GameMode::AgentTrain ==> r@ == "agent_train"@,
            *self == GameMode::AgentInfer ==> r@ == "agent_infer"@,
    {
        match self {
            GameMode::Human => "human",
            GameMode::AgentTrain => "agent_train",
            GameMode::AgentInfer => "agent_infer",
        }
    }
}

/// The bandit environment: the chests, the highlighted one, and the
/// step and episode counters of the running session.
#[derive(Clone, Debug)]
pub struct Game {
    pub start: bool,
    pub mode: GameMode,
    pub max_steps: u8,
    pub steps: u8,
    pub episode: u32,
    pub episodes_run: u32,
    pub chests: Vec<i32>,
    pub highlighted_chest: u8,
}

impl Game {
    /// The environment's invariant: one tilt per chest, a valid highlighted
    /// chest, and a step count within the episode.
    pub open spec fn wf(&self) -> bool {
        &&& self.chests@.len() == NUM_CHESTS
        &&& (self.highlighted_chest as int) < NUM_CHESTS
        &&& self.steps <= self.max_steps
    }

    /// The chests' tilts, in millionths.
    pub open spec fn tilts(&self) -> Seq<int> {
        self.chests@.map_values(|x: i32| x as int)
    }

    /// Tilt of the highlighted chest.
    pub open spec fn highlighted_tilt(&self) -> int {
        self.chests@[self.highlighted_chest as int] as int
    }

    /// Whether the episode has used all its steps.
    pub open spec fn over(&self) -> bool {
        self.steps >= self.max_steps
    }

    /// A fresh, idle environment over the fixed chest table.
    pub fn new() -> (g: Game)
        ensures
            g.wf(),
            !g.start,
            g.mode == GameMode::Human,
            g.max_steps == MAX_STEPS,
            g.steps == 0,
            g.episode == 0,
            g.episodes_run == 0,
            g.tilts() == chest_table(),
            g.highlighted_chest == 0,
    {
        let mut game = Game {
            start: false,
            mode: GameMode::Human,
            max_steps: MAX_STEPS,
            steps: 0,
            episode: 0,
            episodes_run: 0,
            chests: Vec::new(),
            highlighted_chest: 0,
        };
        game.set_chest_probability();
        game
    }

    /// Sets the chests' fixed tilts: -0.2, 0.35, 0.1, 0.65, -0.8, 0.8, -0.3, -0.9.
    pub fn set_chest_probability(&mut self)
        ensures
            final(self).tilts() == chest_table(),
            final(self).chests@.len() == NUM_CHESTS,
            final(self).start == old(self).start,
            final(self).mode == old(self).mode,
            final(self).max_steps == old(self).max_steps,
            final(self).steps == old(self).steps,
            final(self).episode == old(self).episode,
            final(self).episodes_run == old(self).episodes_run,
            final(self).highlighted_chest == old(self).highlighted_chest,
    {
        self.chests = vec![-200_000, 350_000, 100_000, 650_000, -800_000, 800_000, -300_000, -900_000];
        assert(self.tilts() =~= chest_table());
    }

    /// The result of opening the highlighted chest against the uniform draw
    /// `draw` (in millionths).
    pub fn score_for_draw(&self, draw: u32) -> (r: ScoreType)
        requires
            self.wf(),
            draw < SCALE,
        ensures
            r == outcome_for(self.highlighted_tilt(), draw as int),
    {
        outcome_of(self.chests[self.highlighted_chest as usize], draw)
    }

    /// Opens the highlighted chest: draws a uniform threshold from `rng` and
    /// compares it with the chest's tilt.
    pub fn get_chest_score(&self, rng: &mut rand::rngs::StdRng) -> (r: ScoreType)
        requires
            self.wf(),
        ensures
            exists|d: int| 0 <= d < SCALE && r == outcome_for(self.highlighted_tilt(), d),
    {
        let draw = draw_below(rng, SCALE);
        self.score_for_draw(draw)
    }

    /// Marks the session as running.
    pub fn start(&mut self)
        ensures
            *final(self) == (Game { start: true, ..*old(self) }),
    {
        self.start = true;
    }

    /// Marks the session as stopped.
    pub fn end(&mut self)
        ensures
            *final(self) == (Game { start: false, ..*old(self) }),
    {
        self.start = false;
    }

    /// Highlights the next chest, wrapping from the last to the first.
    pub fn move_right(&mut self)
        requires
            old(self).wf(),
        ensures
            final(self).wf(),
            final(self).highlighted_chest as int == (old(self).highlighted_chest as int + 1) % (NUM_CHESTS as int),
            *final(self) == (Game { highlighted_chest: final(self).highlighted_chest, ..*old(self) }),
    {
        self.highlighted_chest = ((self.highlighted_chest as usize + 1) % self.chests.len()) as u8;
    }

    /// Highlights the previous chest, wrapping from the first to the last.
    pub fn move_left(&mut self)
        requires
            old(self).wf(),
        ensures
            final(self).wf(),
            final(self).highlighted_chest as int == (old(self).highlighted_chest as int + NUM_CHESTS - 1) % (NUM_CHESTS as int),
            *final(self) == (Game { highlighted_chest: final(self).highlighted_chest, ..*old(self) }),
    {
        if self.highlighted_chest == 0 {
            self.highlighted_chest = (self.chests.len() - 1) as u8;
        } else {
            self.highlighted_chest = self.highlighted_chest - 1;
        }
    }

    /// Highlights chest `arm`.
    pub fn select(&mut self, arm: u8)
        requires
            old(self).wf(),
            (arm as int) < NUM_CHESTS,
        ensures
            final(self).wf(),
            *final(self) == (Game { highlighted_chest: arm, ..*old(self) }),
    {
        self.highlighted_chest = arm;
    }

    /// Whether the episode has used all its steps.
    pub fn is_over(&self) -> (r: bool)
        ensures
            r == self.over(),
    {
        self.steps >= self.max_steps
    }

    /// Counts one step of the episode; once the episode is over it does nothing.
    pub fn step(&mut self)
        requires
            old(self).wf(),
        ensures
            final(self).wf(),
            old(self).over() ==> *final(self) == *old(self),
            !old(self).over() ==> *final(self) == (Game { steps: (old(self).steps + 1) as u8, ..*old(self) }),
    {
        if self.steps < self.max_steps {
            self.steps = self.steps + 1;
        }
    }

    /// Moves on to the next episode: the episode counter (and, for a training
    /// agent, the count of episodes run) goes up by one and the steps restart.
    pub fn advance_episode(&mut self)
        requires
            old(self).wf(),
            old(self).episode < u32::MAX,
            old(self).episodes_run < u32::MAX,
        ensures
            final(self).wf(),
            final(self).steps == 0,
            final(self).episode == old(self).episode + 1,
            final(self).episodes_run == if old(self).mode == GameMode::AgentTrain {
                old(self).episodes_run + 1
            } else {
                old(self).episodes_run as int
            },
            final(self).start == old(self).start,
            final(self).mode == old(self).mode,
            final(self).max_steps == old(self).max_steps,
            final(self).chests == old(self).chests,
            final(self).highlighted_chest == old(self).highlighted_chest,
    {
        self.episode = self.episode + 1;
        if self.mode == GameMode::AgentTrain {
            self.episodes_run = self.episodes_run + 1;
        }
        self.steps = 0;
    }

    /// Returns the session to idle: stopped, with the steps restarted.
    pub fn reset(&mut self)
        requires
            old(self).wf(),
        ensures
            final(self).wf(),
            *final(self) == (Game { start: false, steps: 0, ..*old(self) }),
    {
        self.start = false;
        self.steps = 0;
    }
}

impl Default for Game {
    fn default() -> (g: Game)
        ensures
            g.wf(),
            !g.start,
            g.mode == GameMode::Human,
            g.max_steps == MAX_STEPS,
            g.steps == 0,
            g.episode == 0,
            g.episodes_run == 0,
            g.tilts() == chest_table(),
            g.highlighted_chest == 0,
    {
        Game::new()
    }
}

/// An episode is over exactly when its steps reach the limit, never before:
/// a step short of the limit leaves it running, the step that reaches the
/// limit ends it, and moving on to the next episode starts it again at zero
/// steps with the episode number one higher.
pub proof fn lemma_over_exactly_at_limit(g: Game)
    requires
        g.wf(),
    ensures
        g.over() <==> g.steps == g.max_steps,
        !g.over() ==> ((Game { steps: (g.steps + 1) as u8, ..g }).over() <==> g.steps + 1 == g.max_steps),
        g.max_steps > 0 ==> !(Game { steps: 0, episode: (g.episode + 1) as u32, ..g }).over(),
{
}

} // verus!
