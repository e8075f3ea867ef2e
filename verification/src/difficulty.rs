//! The three fixed board presets.

use vstd::prelude::*;

verus! {

/// A preset of board dimensions and mine count.
#[derive(Debug, Clone, Copy, PartialEq, Eq, Structural)]
pub enum Difficulty {
    Easy,
    Medium,
    Hard,
}

impl Difficulty {
    /// The board parameters of this preset as `(width, height, mines)`.
    pub open spec fn spec_parameters(self) -> (usize, usize, usize) {
        match self {
            Difficulty::Easy => (9, 9, 10),
            Difficulty::Medium => (16, 16, 40),
            Difficulty::Hard => (30, 16, 99),
        }
    }

    /// The preset that follows this one: Easy, Medium, Hard, and Easy again.
    pub open spec fn spec_cycle(self) -> Difficulty {
        match self {
            Difficulty::Easy => Difficulty::Medium,
            Difficulty::Medium => Difficulty::Hard,
            Difficulty::Hard => Difficulty::Easy,
        }
    }

    /// Return the board parameters for this difficulty as (width, height, mines).
    ///
    /// - Easy: 9x9 with 10 mines
    /// - Medium: 16x16 with 40 mines
    /// - Hard: 30x16 with 99 mines
    #[verifier::when_used_as_spec(spec_parameters)]
    pub fn parameters(self) -> (p: (usize, usize, usize))
        ensures
            p == self.spec_parameters(),
    {
        match self {
            Difficulty::Easy => (9, 9, 10),
            Difficulty::Medium => (16, 16, 40),
            Difficulty::Hard => (30, 16, 99),
        }
    }

    /// Cycle to the next difficulty in order: Easy -> Medium -> Hard -> Easy.
    #[verifier::when_used_as_spec(spec_cycle)]
    pub fn cycle(self) -> (next: Difficulty)
        ensures
            next == self.spec_cycle(),
    {
        match self {
            Difficulty::Easy => Difficulty::Medium,
            Difficulty::Medium => Difficulty::Hard,
            Difficulty::Hard => Difficulty::Easy,
        }
    }

    /// Every preset describes a board that can be built: both dimensions are
    /// positive and the mines leave at least one cell free. No preset is wider
    /// than 30 cells, higher than 16, or larger than 480.
    pub proof fn lemma_parameters_valid(self)
        ensures
            self.spec_parameters().0 > 0,
            self.spec_parameters().1 > 0,
            self.spec_parameters().2 < self.spec_parameters().0 * self.spec_parameters().1,
            self.spec_parameters().0 * self.spec_parameters().1 <= 480,
            self.spec_parameters().0 <= 30,
            self.spec_parameters().1 <= 16,
    {
    }

    /// Cycling three times returns to the starting preset.
    pub proof fn lemma_cycle_period(self)
        ensures
            self.spec_cycle().spec_cycle().spec_cycle() == self,
            self.spec_cycle() != self,
    {
    }
}

} // verus!
