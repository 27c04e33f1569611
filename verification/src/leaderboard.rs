//! Difficulty presets and the session leaderboard of best times.

use vstd::prelude::*;

verus! {

/// One of the three fixed difficulty presets.
#[derive(Clone, Copy, PartialEq, Eq, Structural, Debug)]
pub enum Difficulty {
    Beginner,
    Intermediate,
    Expert,
}

impl Difficulty {
    /// The preset's board: (width, height, mines).
    pub open spec fn preset_spec(self) -> (int, int, int) {
        match self {
            Difficulty::Beginner => (8, 8, 10),
            Difficulty::Intermediate => (16, 16, 40),
            Difficulty::Expert => (24, 20, 99),
        }
    }

    /// Returns the preset's width, height and mine count; every preset is a
    /// valid board configuration.
    pub fn preset(self) -> (t: (usize, usize, usize))
        ensures
            (t.0 as int, t.1 as int, t.2 as int) == self.preset_spec(),
            t.0 > 0,
            t.1 > 0,
            t.2 < t.0 * t.1,
            t.0 * t.1 <= usize::MAX,
    {
        match self {
            Difficulty::Beginner => (8, 8, 10),
            Difficulty::Intermediate => (16, 16, 40),
            Difficulty::Expert => (24, 20, 99),
        }
    }
}

/// Best (minimum) elapsed seconds of any victory in each tier this session,
/// or nothing where the tier was never won.
pub struct Leaderboard {
    pub beginner_best: Option<u64>,
    pub intermediate_best: Option<u64>,
    pub expert_best: Option<u64>,
}

impl Leaderboard {
    /// The entry recorded for a tier.
    pub open spec fn best_spec(self, d: Difficulty) -> Option<u64> {
        match d {
            Difficulty::Beginner => self.beginner_best,
            Difficulty::Intermediate => self.intermediate_best,
            Difficulty::Expert => self.expert_best,
        }
    }

    /// An empty leaderboard: no tier has been won yet.
    pub fn new() -> (l: Leaderboard)
        ensures
            forall|d: Difficulty| #[trigger] l.best_spec(d) is None,
    {
        Leaderboard { beginner_best: None, intermediate_best: None, expert_best: None }
    }

    /// Records a victory in `secs` seconds for tier `d`, keeping the minimum
    /// elapsed time seen so far for that tier; other tiers are untouched, so
    /// entries only ever decrease.
    pub fn update(&mut self, d: Difficulty, secs: u64)
        ensures
            final(self).best_spec(d) == (match old(self).best_spec(d) {
                Option::None => Some(secs),
                Option::Some(b) => Some(if secs < b { secs } else { b }),
            }),
            forall|d2: Difficulty|
                d2 != d ==> #[trigger] final(self).best_spec(d2) == old(self).best_spec(d2),
    {
        let entry = self.best(d);
        let newbest: u64 = match entry {
            None => secs,
            Some(b) => if secs < b { secs } else { b },
        };
        match d {
            Difficulty::Beginner => self.beginner_best = Some(newbest),
            Difficulty::Intermediate => self.intermediate_best = Some(newbest),
            Difficulty::Expert => self.expert_best = Some(newbest),
        }
    }

    /// Reads the best time recorded for a tier.
    pub fn best(&self, d: Difficulty) -> (r: Option<u64>)
        ensures
            r == self.best_spec(d),
    {
        match d {
            Difficulty::Beginner => self.beginner_best,
            Difficulty::Intermediate => self.intermediate_best,
            Difficulty::Expert => self.expert_best,
        }
    }
}

} // verus!
