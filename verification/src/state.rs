use vstd::prelude::*;
use vstd::string::*;
use crate::board::{
    glyph, lemma_blank_shape, lemma_cleared_cell_keeps_valid, lemma_move_keeps_valid,
    lemma_result_tells, line_owner, rendered_cells, rendered_rows, Board,
};
use crate::grid::{grid_rows, Grid};
use crate::piece::Piece;
use crate::vector::Vector2;

verus! {

/// A move: the seat that makes it and the cell it takes.
#[derive(PartialEq, Eq, Structural, Clone, Copy, Hash, Debug)]
pub struct Action {
    pub player: Piece,
    pub position: Vector2,
}

/// The answer to a move whose target is outside the board or already taken.
#[derive(PartialEq, Eq, Structural, Clone, Copy, Debug)]
pub struct IllegalMove;

/// A snapshot of a game: the board and the seat that moves next.
#[derive(Debug, Hash)]
pub struct State {
    map: Grid,
    on_play: Piece,
}

impl View for State {
    type V = Board;

    closed spec fn view(&self) -> Board {
        Board { cells: grid_rows(self.map), on_play: self.on_play }
    }
}

impl PartialEq for State {
    fn eq(&self, other: &State) -> (same: bool) {
        self.same_as(other)
    }
}

impl vstd::std_specs::cmp::PartialEqSpecImpl for State {
    open spec fn obeys_eq_spec() -> bool {
        true
    }

    open spec fn eq_spec(&self, other: &State) -> bool {
        self@ == other@
    }
}

impl Eq for State {

}

impl Clone for State {
    fn clone(&self) -> (copy: State)
        ensures
            copy@ == self@,
    {
        proof {
            use_type_invariant(self);
        }
        State { map: self.map.duplicate(), on_play: self.on_play }
    }
}

impl State {
    #[verifier::type_invariant]
    closed spec fn well_formed(self) -> bool {
        self@.valid()
    }

    /// An empty board of `board_size.x` rows and `board_size.y` columns.
    pub fn new(board_size: Vector2) -> (state: State)
        requires
            board_size.x >= 1,
            board_size.y >= 1,
            board_size.x * board_size.y <= isize::MAX,
        ensures
            state@ == Board::blank(board_size.x as nat, board_size.y as nat),
            state@.valid(),
    {
        let size = board_size.dim();
        let map = Grid::filled(size.0, size.1, Piece::Empty);
        let on_play = Piece::P1;
        proof {
            let blank = Board::blank(board_size.x as nat, board_size.y as nat);
            assert(grid_rows(map) =~~= blank.cells);
            lemma_blank_shape(board_size.x as nat, board_size.y as nat);
        }
        State { map, on_play }
    }

    /// Empties every cell and gives the move to `P1`.
    pub fn reset(&mut self)
        ensures
            final(self)@ == Board::blank(old(self)@.rows(), old(self)@.cols()),
    {
        proof {
            use_type_invariant(&*self);
        }
        let size = self.map.dim();
        let ghost before = self@;
        proof {
            lemma_cleared_cell_keeps_valid(before, 0, 0, Piece::P1);
        }
        self.on_play = Piece::P1;
        let mut i: usize = 0;
        while i < size.0
            invariant
                i <= size.0,
                before.wf(),
                size.0 == before.rows(),
                size.1 == before.cols(),
                self@.valid(),
                self@.rows() == before.rows(),
                self@.cols() == before.cols(),
                self@.on_play == Piece::P1,
                forall|r: int, c: int|
                    0 <= r < i && 0 <= c < size.1 ==> (#[trigger] self@.cells[r][c])
                        == Piece::Empty,
            decreases size.0 - i,
        {
            let mut j: usize = 0;
            while j < size.1
                invariant
                    i < size.0,
                    j <= size.1,
                    before.wf(),
                    size.0 == before.rows(),
                    size.1 == before.cols(),
                    self@.valid(),
                    self@.rows() == before.rows(),
                    self@.cols() == before.cols(),
                    self@.on_play == Piece::P1,
                    forall|r: int, c: int|
                        0 <= r < i && 0 <= c < size.1 ==> (#[trigger] self@.cells[r][c])
                            == Piece::Empty,
                    forall|c: int|
                        0 <= c < j ==> (#[trigger] self@.cells[i as int][c]) == Piece::Empty,
                decreases size.1 - j,
            {
                proof {
                    lemma_cleared_cell_keeps_valid(self@, i as int, j as int, Piece::P1);
                }
                self.map.set(i, j, Piece::Empty);
                j += 1;
            }
            i += 1;
        }
        proof {
            let blank = Board::blank(before.rows(), before.cols());
            assert(self@.cells =~~= blank.cells);
        }
    }

    /// Makes the move if it is legal and says so; an illegal move changes nothing.
    pub fn play_mut(&mut self, action: &Action) -> (done: Result<(), IllegalMove>)
        ensures
            old(self)@.legal(*action) ==> done is Ok && final(self)@ == old(self)@.placed(*action),
            !old(self)@.legal(*action) ==> done is Err && final(self)@ == old(self)@,
    {
        if self.allows(action) {
            self.modify_state(action);
            Ok(())
        } else {
            Err(IllegalMove)
        }
    }

    /// The state after the move, if the move is legal.
    pub fn play(&self, action: &Action) -> (next: Result<State, IllegalMove>)
        ensures
            self@.legal(*action) ==> next is Ok && next->Ok_0@ == self@.placed(*action),
            !self@.legal(*action) ==> next is Err,
    {
        let mut next = self.clone();
        match next.play_mut(action) {
            Ok(()) => Ok(next),
            Err(e) => Err(e),
        }
    }

    /// Checks if this state has no empty cell left.
    pub fn terminal(&self) -> (full: bool)
        ensures
            full == self@.full(),
            self@.valid(),
    {
        proof {
            use_type_invariant(self);
        }
        let size = self.map.dim();
        let mut i: usize = 0;
        while i < size.0
            invariant
                i <= size.0,
                self@.valid(),
                size.0 == self@.rows(),
                size.1 == self@.cols(),
                forall|r: int, c: int|
                    0 <= r < i && 0 <= c < size.1 ==> (#[trigger] self@.at(r, c)) != Piece::Empty,
            decreases size.0 - i,
        {
            let mut j: usize = 0;
            while j < size.1
                invariant
                    i < size.0,
                    j <= size.1,
                    self@.valid(),
                    size.0 == self@.rows(),
                    size.1 == self@.cols(),
                    forall|r: int, c: int|
                        0 <= r < i && 0 <= c < size.1 ==> (#[trigger] self@.at(r, c))
                            != Piece::Empty,
                    forall|c: int| 0 <= c < j ==> (#[trigger] self@.at(i as int, c)) != Piece::Empty,
                decreases size.1 - j,
            {
                if self.map.get(i, j) == Piece::Empty {
                    assert(self@.at(i as int, j as int) == Piece::Empty);
                    return false;
                }
                j += 1;
            }
            i += 1;
        }
        true
    }

    /// Returns the piece at a position of the board.
    pub fn get_piece(&self, position: &Vector2) -> (piece: Piece)
        requires
            self@.in_bounds(*position),
        ensures
            piece == self@.at(position.x as int, position.y as int),
    {
        proof {
            use_type_invariant(self);
        }
        let index = position.index();
        self.map.get(index.0, index.1)
    }

    /// Whether the move is made by a seat and its target is a cell of the
    /// board that is empty.
    pub fn allows(&self, action: &Action) -> (legal: bool)
        ensures
            legal == self@.legal(*action),
    {
        action.player.seat() && self.is_in_bounds(&action.position) && self.is_legal_move(action)
    }

    /// The piece in row `i`, column `j`.
    pub fn cell(&self, i: usize, j: usize) -> (piece: Piece)
        requires
            i < self@.rows(),
            j < self@.cols(),
        ensures
            piece == self@.at(i as int, j as int),
    {
        proof {
            use_type_invariant(self);
        }
        self.map.get(i, j)
    }

    /// Reports the current result of the game: the seat that owns a line, `Draw`
    /// on a full board without one, `Empty` while the game goes on.
    pub fn check_winner(&self) -> (winner: Piece)
        ensures
            winner == self@.winner(),
            self@.valid(),
            winner.is_seat() <==> self@.line_winner() != Piece::Empty,
            winner == Piece::Draw <==> self@.full() && self@.line_winner() == Piece::Empty,
            winner == Piece::Empty <==> !self@.full() && self@.line_winner() == Piece::Empty,
    {
        proof {
            use_type_invariant(self);
            lemma_result_tells(self@);
        }
        let mut winner = self.check_lines();
        if winner == Piece::Empty && self.terminal() {
            winner = Piece::Draw;
        }
        winner
    }

    /// Which player is on the play?
    pub fn on_play(&self) -> (seat: Piece)
        ensures
            seat == self@.on_play,
    {
        self.on_play
    }

    /// The numbers of rows and columns.
    pub fn size(&self) -> (size: (usize, usize))
        ensures
            size.0 == self@.rows(),
            size.1 == self@.cols(),
            self@.valid(),
    {
        proof {
            use_type_invariant(self);
        }
        self.map.dim()
    }

    /// Whether the two states show the same board with the same seat to move.
    pub fn same_as(&self, other: &State) -> (same: bool)
        ensures
            same == (self@ == other@),
    {
        proof {
            use_type_invariant(self);
            use_type_invariant(other);
        }
        let size = self.map.dim();
        let other_size = other.map.dim();
        if size.0 != other_size.0 || size.1 != other_size.1 || self.on_play != other.on_play {
            return false;
        }
        let mut i: usize = 0;
        while i < size.0
            invariant
                i <= size.0,
                self@.wf(),
                other@.wf(),
                size.0 == self@.rows(),
                size.1 == self@.cols(),
                size.0 == other@.rows(),
                size.1 == other@.cols(),
                self@.on_play == other@.on_play,
                forall|r: int, c: int|
                    0 <= r < i && 0 <= c < size.1 ==> (#[trigger] self@.at(r, c)) == other@.at(
                        r,
                        c,
                    ),
            decreases size.0 - i,
        {
            let mut j: usize = 0;
            while j < size.1
                invariant
                    i < size.0,
                    j <= size.1,
                    self@.wf(),
                    other@.wf(),
                    size.0 == self@.rows(),
                    size.1 == self@.cols(),
                    size.0 == other@.rows(),
                    size.1 == other@.cols(),
                    forall|r: int, c: int|
                        0 <= r < i && 0 <= c < size.1 ==> (#[trigger] self@.at(r, c))
                            == other@.at(r, c),
                    forall|c: int|
                        0 <= c < j ==> (#[trigger] self@.at(i as int, c)) == other@.at(
                            i as int,
                            c,
                        ),
                decreases size.1 - j,
            {
                if self.map.get(i, j) != other.map.get(i, j) {
                    assert(self@.at(i as int, j as int) != other@.at(i as int, j as int));
                    return false;
                }
                j += 1;
            }
            i += 1;
        }
        proof {
            assert forall|r: int| 0 <= r < size.0 implies self@.cells[r] =~= other@.cells[r] by {
                assert forall|c: int| 0 <= c < size.1 implies self@.cells[r][c]
                    == other@.cells[r][c] by {
                    assert(self@.at(r, c) == other@.at(r, c));
                }
            }
            assert(self@.cells =~= other@.cells);
        }
        true
    }

    /// Whether the position is a cell of the board.
    pub fn is_in_bounds(&self, vector: &Vector2) -> (inside: bool)
        ensures
            inside == self@.in_bounds(*vector),
    {
        proof {
            use_type_invariant(self);
        }
        let dim = self.map.dim();
        vector.x >= 0 && vector.y >= 0 && (vector.x as usize) < dim.0 && (vector.y as usize)
            < dim.1
    }

    fn is_legal_move(&self, action: &Action) -> (empty: bool)
        requires
            self@.in_bounds(action.position),
        ensures
            empty == (self@.at(action.position.x as int, action.position.y as int)
                == Piece::Empty),
    {
        self.get_piece(&action.position) == Piece::Empty
    }

    /// In-place morphing of the state.
    fn modify_state(&mut self, action: &Action)
        requires
            old(self)@.legal(*action),
        ensures
            final(self)@ == old(self)@.placed(*action),
    {
        proof {
            use_type_invariant(&*self);
        }
        let index = action.position.index();
        let ghost before = self@;
        proof {
            lemma_move_keeps_valid(before, *action);
            let after = before.placed(*action);
            let between = Board { cells: after.cells, on_play: before.on_play };
            assert(between.wf()) by {
                assert(between.cells[0].len() == after.cols());
                assert forall|i: int| 0 <= i < between.rows() implies (
                #[trigger] between.cells[i]).len() == between.cols() by {
                    assert(after.cells[i].len() == after.cols());
                }
            }
            assert(between.seats_only()) by {
                assert forall|i: int, j: int|
                    0 <= i < between.rows() && 0 <= j < between.cols() implies (
                #[trigger] between.at(i, j)) != Piece::Draw by {
                    assert(after.at(i, j) != Piece::Draw);
                }
            }
        }
        self.map.set(index.0, index.1, action.player);
        self.on_play = action.player.opponent();
    }
}

impl State {
    /// The cells of row `i`, from the left.
    fn row(&self, i: usize) -> (line: Vec<Piece>)
        requires
            i < self@.rows(),
        ensures
            line@ == self@.row_line(i as int),
    {
        proof {
            use_type_invariant(self);
        }
        let size = self.map.dim();
        let mut line: Vec<Piece> = Vec::new();
        let mut j: usize = 0;
        while j < size.1
            invariant
                j <= size.1,
                i < self@.rows(),
                self@.wf(),
                size.1 == self@.cols(),
                line@.len() == j,
                forall|c: int| 0 <= c < j ==> line@[c] == self@.cells[i as int][c],
            decreases size.1 - j,
        {
            line.push(self.map.get(i, j));
            j += 1;
        }
        proof {
            assert(line@ =~= self@.row_line(i as int));
        }
        line
    }

    /// The cells of column `j`, from the top.
    fn column(&self, j: usize) -> (line: Vec<Piece>)
        requires
            j < self@.cols(),
        ensures
            line@ == self@.col_line(j as int),
    {
        proof {
            use_type_invariant(self);
        }
        let size = self.map.dim();
        let mut line: Vec<Piece> = Vec::new();
        let mut i: usize = 0;
        while i < size.0
            invariant
                i <= size.0,
                j < self@.cols(),
                self@.wf(),
                size.0 == self@.rows(),
                line@.len() == i,
                forall|r: int| 0 <= r < i ==> line@[r] == self@.cells[r][j as int],
            decreases size.0 - i,
        {
            line.push(self.map.get(i, j));
            i += 1;
        }
        proof {
            assert(line@ =~= self@.col_line(j as int));
        }
        line
    }

    /// The cells of the main diagonal, from the top left.
    fn diagonal(&self) -> (line: Vec<Piece>)
        ensures
            line@ == self@.diag_line(),
    {
        proof {
            use_type_invariant(self);
        }
        let size = self.map.dim();
        let len = if size.0 <= size.1 {
            size.0
        } else {
            size.1
        };
        let mut line: Vec<Piece> = Vec::new();
        let mut i: usize = 0;
        while i < len
            invariant
                i <= len,
                len == self@.diag_len(),
                self@.wf(),
                line@.len() == i,
                forall|r: int| 0 <= r < i ==> line@[r] == self@.cells[r][r],
            decreases len - i,
        {
            line.push(self.map.get(i, i));
            i += 1;
        }
        proof {
            assert(line@ =~= self@.diag_line());
        }
        line
    }

    /// Checks the state to see if any player owns a line yet.
    fn check_lines(&self) -> (owner: Piece)
        ensures
            owner == self@.line_winner(),
    {
        proof {
            use_type_invariant(self);
        }
        let size = self.map.dim();
        // check rows
        let mut i: usize = 0;
        while i < size.0
            invariant
                i <= size.0,
                self@.wf(),
                size.0 == self@.rows(),
                size.1 == self@.cols(),
                self@.line_winner() == self@.first_owner(i as int),
            decreases size.0 - i,
        {
            let line = self.row(i);
            let result = Self::check_line(&line);
            assert(self@.line(i as int) == line@);
            if result != Piece::Empty {
                return result;
            }
            i += 1;
        }
        // check columns
        let mut j: usize = 0;
        while j < size.1
            invariant
                j <= size.1,
                self@.wf(),
                size.0 == self@.rows(),
                size.1 == self@.cols(),
                self@.line_winner() == self@.first_owner(size.0 + j),
            decreases size.1 - j,
        {
            let line = self.column(j);
            let result = Self::check_line(&line);
            assert(self@.line(size.0 + j) == line@);
            if result != Piece::Empty {
                return result;
            }
            j += 1;
        }
        // normal diagonal
        let line = self.diagonal();
        let result = Self::check_line(&line);
        assert(self@.line(size.0 + size.1) == line@);
        if result != Piece::Empty {
            return result;
        }
        // weird diagonal
        let result = self.check_diag();
        assert(self@.line(size.0 + size.1 + 1) == self@.anti_line());
        assert(self@.first_owner(size.0 + size.1 + 2) == Piece::Empty);
        assert(self@.first_owner(size.0 + size.1 + 1) == result);
        if result != Piece::Empty {
            return result;
        }
        Piece::Empty
    }

    /// The owner of one line.
    fn check_line(line: &Vec<Piece>) -> (owner: Piece)
        ensures
            owner == line_owner(line@),
    {
        if line.len() == 0 {
            return Piece::Empty;
        }
        let first = line[0];
        if first == Piece::Empty {
            return Piece::Empty;
        }
        let mut k: usize = 0;
        while k < line.len()
            invariant
                k <= line.len(),
                line.len() > 0,
                first == line@[0],
                forall|n: int| 0 <= n < k ==> line@[n] == first,
            decreases line.len() - k,
        {
            if line[k] != first {
                return Piece::Empty;
            }
            k += 1;
        }
        first
    }

    /// The owner of the anti-diagonal, which runs from the top right.
    fn check_diag(&self) -> (owner: Piece)
        ensures
            owner == line_owner(self@.anti_line()),
    {
        proof {
            use_type_invariant(self);
        }
        let dim = self.map.dim();
        let len = if dim.0 <= dim.1 {
            dim.0
        } else {
            dim.1
        };
        let first = self.map.get(0, dim.1 - 1);
        let ghost line = self@.anti_line();
        assert(line[0] == first);
        if first == Piece::Empty {
            return Piece::Empty;
        }
        let mut j = dim.1;
        let mut i: usize = 0;
        while i < len
            invariant
                i <= len,
                len == self@.diag_len(),
                self@.wf(),
                dim.1 == self@.cols(),
                j == dim.1 - i,
                line == self@.anti_line(),
                first == line[0],
                forall|n: int| 0 <= n < i ==> line[n] == first,
            decreases len - i,
        {
            j -= 1;
            if self.map.get(i, j) != first {
                assert(line[i as int] != first);
                return Piece::Empty;
            }
            assert(line[i as int] == first);
            i += 1;
        }
        first
    }

    /// The board as text, three characters to a cell and one line to a row.
    pub fn to_string(&self) -> (text: String)
        ensures
            text@ == self@.rendered(),
    {
        proof {
            use_type_invariant(self);
        }
        let size = self.map.dim();
        let mut string = String::new();
        let mut i: usize = 0;
        while i < size.0
            invariant
                i <= size.0,
                self@.wf(),
                size.0 == self@.rows(),
                size.1 == self@.cols(),
                string@ == rendered_rows(self@.cells, i as nat),
            decreases size.0 - i,
        {
            let ghost start = string@;
            let mut j: usize = 0;
            while j < size.1
                invariant
                    i < size.0,
                    j <= size.1,
                    self@.wf(),
                    size.0 == self@.rows(),
                    size.1 == self@.cols(),
                    string@ == start + rendered_cells(self@.cells[i as int], j as nat),
                decreases size.1 - j,
            {
                let str = match self.map.get(i, j) {
                    Piece::P1 => "-X-",
                    Piece::P2 => "-O-",
                    Piece::Empty => "|_|",
                    _ => "???",
                };
                assert(str@ == glyph(self@.cells[i as int][j as int]));
                let ghost shown = string@;
                string = string.concat(str);
                proof {
                    let row = self@.cells[i as int];
                    assert(rendered_cells(row, (j + 1) as nat) == rendered_cells(row, j as nat)
                        + glyph(row[j as int]));
                    assert(string@ =~= start + rendered_cells(row, (j + 1) as nat));
                }
                j += 1;
            }
            proof {
                reveal_strlit("\n");
                assert("\n"@ =~= seq!['\n']);
                assert(start + rendered_cells(self@.cells[i as int], size.1 as nat) + seq!['\n']
                    == rendered_rows(self@.cells, (i + 1) as nat));
            }
            string = string.concat("\n");
            i += 1;
        }
        string
    }
}


} // verus!
