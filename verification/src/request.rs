//! The data model of the dice language: aggregation modes, dice groups,
//! parsed requests, evaluation outcomes, and the error taxonomy.

use vstd::prelude::*;

verus! {

/// How the per-die results of one group are aggregated.
#[derive(Clone, Copy, PartialEq, Eq, Debug, Structural)]
pub enum Mode {
    /// Add every die of the group.
    Sum,
    /// Roll two dice, keep the maximum.
    Advantage,
    /// Roll two dice, keep the minimum.
    Disadvantage,
}

/// The smallest number of dice one group may roll.
pub const MIN_COUNT: u8 = 1;

/// The largest number of dice one group may roll.
pub const MAX_COUNT: u8 = 50;

/// The smallest admissible die size.
pub const MIN_FACES: u16 = 2;

/// The largest admissible die size.
pub const MAX_FACES: u16 = 100;

/// One parsed dice clause, e.g. `3d6` or `+d20`.
#[derive(Clone, Debug)]
pub struct DiceGroup {
    /// Aggregation policy of this group.
    pub mode: Mode,
    /// How many dice the group rolls; fixed at 2 for advantage and
    /// disadvantage.
    pub count: u8,
    /// Number of sides of each die of the group.
    pub faces: u16,
    /// Per-die outcomes in draw order; empty until the group is evaluated.
    pub results: Vec<u16>,
}

impl DiceGroup {
    /// Count and face ranges hold, and advantage/disadvantage groups roll
    /// exactly two dice.
    pub open spec fn ranges_ok(self) -> bool {
        &&& MIN_COUNT <= self.count <= MAX_COUNT
        &&& MIN_FACES <= self.faces <= MAX_FACES
        &&& self.mode != Mode::Sum ==> self.count == 2
    }

    /// A freshly parsed group: ranges hold and no die has been rolled yet.
    pub open spec fn wf_unrolled(self) -> bool {
        &&& self.ranges_ok()
        &&& self.results@.len() == 0
    }

    /// An evaluated group: ranges hold, one result per die, each within
    /// the faces of the die.
    pub open spec fn wf_rolled(self) -> bool {
        &&& self.ranges_ok()
        &&& self.results@.len() == self.count
        &&& forall|i: int|
            0 <= i < self.results@.len() ==> 1 <= #[trigger] self.results@[i] <= self.faces
    }
}

/// A fully parsed command: one or more dice groups, a flat modifier, and
/// an optional trailing comment.
#[derive(Clone, Debug)]
pub struct DiceRequest {
    /// The dice groups in textual order.
    pub groups: Vec<DiceGroup>,
    /// Sum of every modifier token, saturated at the `i64` bounds.
    pub modifier: i64,
    /// Free text following the `!` sentinel token, empty when absent.
    pub comment: String,
}

impl DiceRequest {
    /// A well-formed parsed request: at least one group, all groups
    /// within ranges and not yet rolled.
    pub open spec fn wf(self) -> bool {
        &&& self.groups@.len() >= 1
        &&& forall|i: int| 0 <= i < self.groups@.len() ==> (#[trigger] self.groups@[i]).wf_unrolled()
    }
}

/// The result of evaluating a request.
#[derive(Clone, Debug)]
pub struct RollOutcome {
    /// Modifier plus the contribution of every group.
    pub total: i128,
    /// The request's groups, now carrying their per-die results.
    pub groups: Vec<DiceGroup>,
}

/// Why a token sequence was rejected.
#[derive(Clone, Copy, PartialEq, Eq, Debug, Structural)]
pub enum ParseError {
    /// No token matched the dice-clause grammar.
    NoDiceFound,
    /// A clause asked for fewer than 1 or more than 50 dice.
    CountOutOfRange,
    /// A clause asked for a die with fewer than 2 or more than 100 faces.
    FaceCountOutOfRange,
}

impl ParseError {
    /// A one-line user-facing description of the failure.
    pub fn message(&self) -> (r: String)
        ensures
            r@ == match self {
                ParseError::NoDiceFound => "No suitable dice roll found. See **!help** for the syntax."@,
                ParseError::CountOutOfRange => "Please roll an amount of dice between 1 and 50."@,
                ParseError::FaceCountOutOfRange => "Please use a dice type between 2 and 100."@,
            },
    {
        match self {
            ParseError::NoDiceFound => String::from_str(
                "No suitable dice roll found. See **!help** for the syntax.",
            ),
            ParseError::CountOutOfRange => String::from_str(
                "Please roll an amount of dice between 1 and 50.",
            ),
            ParseError::FaceCountOutOfRange => String::from_str(
                "Please use a dice type between 2 and 100.",
            ),
        }
    }
}

/// Why a self-test request was rejected.
#[derive(Clone, Copy, PartialEq, Eq, Debug, Structural)]
pub enum ValidationError {
    /// The requested die size is not on the allow-list of supported sizes.
    UnsupportedDieType,
}

impl ValidationError {
    /// A one-line user-facing description of the failure.
    pub fn message(&self) -> (r: String)
        ensures
            r@ == "Please use an implemented dice type."@,
    {
        match self {
            ValidationError::UnsupportedDieType => String::from_str(
                "Please use an implemented dice type.",
            ),
        }
    }
}

} // verus!
