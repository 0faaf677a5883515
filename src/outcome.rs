//! The five results of opening a chest, their points, and the rule that
//! turns a chest's tilt and a uniform draw into a result.

use vstd::prelude::*;

verus! {

/// Fixed-point scale: a fraction `x` is held as the integer `x * SCALE`.
pub const SCALE: u32 = 1_000_000;

/// Half of `SCALE`: the gap at which a win becomes a jackpot and a loss a robbery.
pub const HALF: i64 = 500_000;

/// The five kinds of result of opening a chest.
#[derive(Clone, Copy, Debug, PartialEq, Eq, Structural)]
pub enum ScoreType {
    Jackpot,
    Treasure,
    Bust,
    Loss,
    Robbed,
}

/// Points that each kind of result is worth.
pub open spec fn reward_of(kind: ScoreType) -> int {
    match kind {
        ScoreType::Jackpot => 2,
        ScoreType::Treasure => 1,
        ScoreType::Bust => 0,
        ScoreType::Loss => -1,
        ScoreType::Robbed => -2,
    }
}

/// The result for a chest of tilt `prob` against a uniform draw `draw`, both in
/// millionths: the sign and size of the gap `prob - draw` decide it.
pub open spec fn outcome_for(prob: int, draw: int) -> ScoreType {
    let gap = prob - draw;
    if gap > 0 {
        if gap >= HALF { ScoreType::Jackpot } else { ScoreType::Treasure }
    } else if gap < 0 {
        if -gap >= HALF { ScoreType::Robbed } else { ScoreType::Loss }
    } else {
        ScoreType::Bust
    }
}

impl ScoreType {
    /// Points this result is worth.
    pub fn reward(&self) -> (r: i32)
        ensures
            r == reward_of(*self),
    {
        match self {
            ScoreType::Jackpot => 2,
            ScoreType::Treasure => 1,
            ScoreType::Bust => 0,
            ScoreType::Loss => -1,
            ScoreType::Robbed => -2,
        }
    }

    /// Label shown beside the tally of this kind.
    pub fn to_string(&self) -> (r: &'static str)
        ensures
            *self == ScoreType::Jackpot ==> r@ == "Jackpot 🎰: "@,
            *self == ScoreType::Treasure ==> r@ == "Treasure 💰: "@,
            *self == ScoreType::Bust ==> r@ == "Bust ❌: "@,
            *self == ScoreType::Loss ==> r@ == "Loss 😞: "@,
            *self == ScoreType::Robbed ==> r@ == "Robbed 💀: "@,
    {
        match self {
            ScoreType::Jackpot => "Jackpot 🎰: ",
            ScoreType::Treasure => "Treasure 💰: ",
            ScoreType::Bust => "Bust ❌: ",
            ScoreType::Loss => "Loss 😞: ",
            ScoreType::Robbed => "Robbed 💀: ",
        }
    }
}

/// Resolves one opening of a chest of tilt `prob` against the uniform draw
/// `draw`, both in millionths.
pub fn outcome_of(prob: i32, draw: u32) -> (r: ScoreType)
    requires
        draw < SCALE,
    ensures
        r == outcome_for(prob as int, draw as int),
{
    let gap: i64 = prob as i64 - draw as i64;
    if gap > 0 {
        if gap >= HALF {
            ScoreType::Jackpot
        } else {
            ScoreType::Treasure
        }
    } else if gap < 0 {
        if -gap >= HALF {
            ScoreType::Robbed
        } else {
            ScoreType::Loss
        }
    } else {
        ScoreType::Bust
    }
}

} // verus!
