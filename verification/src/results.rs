use vstd::prelude::*;
use crate::piece::Piece;

verus! {

/// The tally of a batch of games.
#[derive(PartialEq, Eq, Structural, Clone, Copy, Debug)]
pub struct QResult {
    pub games_played: usize,
    pub p1_win: usize,
    pub p2_win: usize,
    pub draw: usize,
}

impl QResult {
    /// The tally of a batch of `games_played` games before any is counted.
    pub fn new(games_played: usize) -> (result: QResult)
        ensures
            result == (QResult { games_played, p1_win: 0, p2_win: 0, draw: 0 }),
    {
        QResult { games_played, p1_win: 0, p2_win: 0, draw: 0 }
    }

    /// The number of games counted so far.
    pub open spec fn counted(self) -> int {
        self.p1_win + self.p2_win + self.draw
    }

    /// The tally after one more game with the result `winner`: a result that
    /// is neither a seat nor `Draw` counts for nothing.
    pub open spec fn with(self, winner: Piece) -> QResult {
        match winner {
            Piece::P1 => QResult { p1_win: (self.p1_win + 1) as usize, ..self },
            Piece::P2 => QResult { p2_win: (self.p2_win + 1) as usize, ..self },
            Piece::Draw => QResult { draw: (self.draw + 1) as usize, ..self },
            Piece::Empty => self,
        }
    }

    /// Counts one game with the result `winner`.
    pub fn count(&mut self, winner: Piece)
        requires
            old(self).counted() < usize::MAX,
        ensures
            *final(self) == old(self).with(winner),
    {
        match winner {
            Piece::P1 => self.p1_win += 1,
            Piece::P2 => self.p2_win += 1,
            Piece::Draw => self.draw += 1,
            _ => (),
        }
    }
}

} // verus!
