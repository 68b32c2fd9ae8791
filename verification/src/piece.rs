use vstd::prelude::*;
use vstd::string::*;

verus! {

/// What a cell of the board holds, or how a game ended.
///
/// `Draw` is only ever the result of a game; a board never stores it.
#[derive(PartialEq, Eq, Structural, Clone, Copy, Hash, Debug)]
pub enum Piece {
    Draw,
    Empty,
    P1,
    P2,
}

impl Piece {
    /// True for the two seats, false for `Empty` and `Draw`.
    pub open spec fn is_seat(self) -> bool {
        self == Piece::P1 || self == Piece::P2
    }

    /// The seat that moves after `self`; `Empty` where `self` is no seat.
    pub open spec fn other(self) -> Piece {
        match self {
            Piece::P1 => Piece::P2,
            Piece::P2 => Piece::P1,
            _ => Piece::Empty,
        }
    }

    /// The slot of this seat among the two agents: 0 for `P1`, 1 for `P2`,
    /// and 0 for what is no seat.
    pub open spec fn index_of(self) -> nat {
        if self == Piece::P2 {
            1
        } else {
            0
        }
    }

    pub fn to_index(self) -> (i: usize)
        ensures
            i == self.index_of(),
            i < 2,
    {
        match self {
            Piece::P1 => 0,
            Piece::P2 => 1,
            _ => 0,
        }
    }

    /// What the piece is called.
    pub open spec fn name(self) -> Seq<char> {
        match self {
            Piece::Draw => "Draw"@,
            Piece::Empty => "Empty"@,
            Piece::P1 => "Player 1"@,
            Piece::P2 => "Player 2"@,
        }
    }

    pub fn to_string(&self) -> (name: String)
        ensures
            name@ == self.name(),
    {
        String::from_str(
            match *self {
                Piece::Draw => "Draw",
                Piece::Empty => "Empty",
                Piece::P1 => "Player 1",
                Piece::P2 => "Player 2",
            },
        )
    }

    /// Whether the piece is one of the two seats.
    pub fn seat(self) -> (b: bool)
        ensures
            b == self.is_seat(),
    {
        match self {
            Piece::P1 => true,
            Piece::P2 => true,
            _ => false,
        }
    }

    /// The seat that moves after this one.
    pub fn opponent(self) -> (p: Piece)
        ensures
            p == self.other(),
    {
        match self {
            Piece::P1 => Piece::P2,
            Piece::P2 => Piece::P1,
            _ => Piece::Empty,
        }
    }
}

} // verus!
