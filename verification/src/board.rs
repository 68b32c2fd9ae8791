use vstd::prelude::*;
use crate::piece::Piece;
use crate::state::Action;
use crate::vector::Vector2;

verus! {

/// The mathematical content of a game state: the cells, row by row, and the
/// seat that moves next.
pub struct Board {
    pub cells: Seq<Seq<Piece>>,
    pub on_play: Piece,
}

/// Who owns a line: the piece that fills every cell of it, or `Empty` where
/// the line is empty, starts with an empty cell, or holds two different pieces.
pub open spec fn line_owner(line: Seq<Piece>) -> Piece {
    if line.len() > 0 && line[0] != Piece::Empty && (forall|k: int|
        0 <= k < line.len() ==> #[trigger] line[k] == line[0]) {
        line[0]
    } else {
        Piece::Empty
    }
}

/// The three characters that show a cell.
pub open spec fn glyph(piece: Piece) -> Seq<char> {
    match piece {
        Piece::P1 => "-X-"@,
        Piece::P2 => "-O-"@,
        Piece::Empty => "|_|"@,
        Piece::Draw => "???"@,
    }
}

/// The glyphs of the first `n` cells of a row, side by side.
pub open spec fn rendered_cells(row: Seq<Piece>, n: nat) -> Seq<char>
    decreases n,
{
    if n == 0 {
        Seq::empty()
    } else {
        rendered_cells(row, (n - 1) as nat) + glyph(row[n - 1])
    }
}

/// The first `n` rows as text, each row followed by a line feed.
pub open spec fn rendered_rows(cells: Seq<Seq<Piece>>, n: nat) -> Seq<char>
    decreases n,
{
    if n == 0 {
        Seq::empty()
    } else {
        rendered_rows(cells, (n - 1) as nat) + rendered_cells(
            cells[n - 1],
            cells[n - 1].len(),
        ) + seq!['\n']
    }
}

impl Board {
    pub open spec fn rows(self) -> nat {
        self.cells.len()
    }

    pub open spec fn cols(self) -> nat {
        if self.cells.len() > 0 {
            self.cells[0].len()
        } else {
            0
        }
    }

    /// A board is a rectangle with at least one cell.
    pub open spec fn wf(self) -> bool {
        &&& self.rows() >= 1
        &&& self.cols() >= 1
        &&& forall|i: int| 0 <= i < self.rows() ==> (#[trigger] self.cells[i]).len() == self.cols()
    }

    /// What every state shows: a rectangle with at least one cell, on which
    /// no `Draw` stands, with one of the two seats to move.
    pub open spec fn valid(self) -> bool {
        &&& self.wf()
        &&& self.seats_only()
        &&& self.on_play.is_seat()
    }

    pub open spec fn at(self, i: int, j: int) -> Piece {
        self.cells[i][j]
    }

    pub open spec fn in_bounds(self, position: Vector2) -> bool {
        0 <= position.x < self.rows() && 0 <= position.y < self.cols()
    }

    /// A move is legal where it is made by a seat and its target is a cell of
    /// the board that is empty.
    pub open spec fn legal(self, action: Action) -> bool {
        &&& action.player.is_seat()
        &&& self.in_bounds(action.position)
        &&& self.at(action.position.x as int, action.position.y as int) == Piece::Empty
    }

    /// The board after `action`: its piece stands on its target and the other
    /// seat is to move.
    pub open spec fn placed(self, action: Action) -> Board {
        Board {
            cells: self.cells.update(
                action.position.x as int,
                self.cells[action.position.x as int].update(
                    action.position.y as int,
                    action.player,
                ),
            ),
            on_play: action.player.other(),
        }
    }

    /// The board on which a game starts: every cell empty, `P1` to move.
    pub open spec fn blank(rows: nat, cols: nat) -> Board {
        Board {
            cells: Seq::new(rows, |i: int| Seq::new(cols, |j: int| Piece::Empty)),
            on_play: Piece::P1,
        }
    }

    /// No cell is empty.
    pub open spec fn full(self) -> bool {
        forall|i: int, j: int|
            0 <= i < self.rows() && 0 <= j < self.cols() ==> #[trigger] self.at(i, j)
                != Piece::Empty
    }

    /// How often `piece` stands among the first `n` cells of `row`.
    pub open spec fn count_in(row: Seq<Piece>, piece: Piece, n: nat) -> nat
        decreases n,
    {
        if n == 0 {
            0
        } else {
            Self::count_in(row, piece, (n - 1) as nat) + if row[n - 1] == piece {
                1nat
            } else {
                0nat
            }
        }
    }

    /// How often `piece` stands in the first `n` rows.
    pub open spec fn count_upto(self, piece: Piece, n: nat) -> nat
        decreases n,
    {
        if n == 0 {
            0
        } else {
            self.count_upto(piece, (n - 1) as nat) + Self::count_in(
                self.cells[n - 1],
                piece,
                self.cells[n - 1].len(),
            )
        }
    }

    /// How often `piece` stands on the board.
    pub open spec fn count(self, piece: Piece) -> nat {
        self.count_upto(piece, self.rows())
    }

    /// The number of empty cells.
    pub open spec fn vacancies(self) -> nat {
        self.count(Piece::Empty)
    }

    /// The length of both diagonals.
    pub open spec fn diag_len(self) -> nat {
        if self.rows() <= self.cols() {
            self.rows()
        } else {
            self.cols()
        }
    }

    pub open spec fn row_line(self, i: int) -> Seq<Piece> {
        self.cells[i]
    }

    pub open spec fn col_line(self, j: int) -> Seq<Piece> {
        Seq::new(self.rows(), |i: int| self.cells[i][j])
    }

    /// The cells `(i, i)`.
    pub open spec fn diag_line(self) -> Seq<Piece> {
        Seq::new(self.diag_len(), |i: int| self.cells[i][i])
    }

    /// The cells `(i, cols - 1 - i)`.
    pub open spec fn anti_line(self) -> Seq<Piece> {
        Seq::new(self.diag_len(), |i: int| self.cells[i][self.cols() - 1 - i])
    }

    /// How many lines are scanned: every row, every column, both diagonals.
    pub open spec fn line_count(self) -> int {
        (self.rows() + self.cols() + 2) as int
    }

    /// The lines in the order of the scan: the rows from the top, the columns
    /// from the left, the main diagonal, the anti-diagonal.
    pub open spec fn line(self, k: int) -> Seq<Piece> {
        if k < self.rows() {
            self.row_line(k)
        } else if k < self.rows() + self.cols() {
            self.col_line(k - self.rows())
        } else if k == self.rows() + self.cols() {
            self.diag_line()
        } else {
            self.anti_line()
        }
    }

    /// The owner of the first owned line from line `k` on, `Empty` if there is none.
    pub open spec fn first_owner(self, k: int) -> Piece
        decreases self.line_count() - k,
    {
        if k >= self.line_count() {
            Piece::Empty
        } else if line_owner(self.line(k)) != Piece::Empty {
            line_owner(self.line(k))
        } else {
            self.first_owner(k + 1)
        }
    }

    /// The owner of the first owned line of the scan, `Empty` if no line is owned.
    pub open spec fn line_winner(self) -> Piece {
        self.first_owner(0)
    }

    /// The result of the game so far: the owner of a line if there is one,
    /// else `Draw` on a full board and `Empty` while a cell is free.
    pub open spec fn winner(self) -> Piece {
        if self.line_winner() != Piece::Empty {
            self.line_winner()
        } else if self.full() {
            Piece::Draw
        } else {
            Piece::Empty
        }
    }

    /// No cell holds `Draw`, which is a result and never a piece.
    pub open spec fn seats_only(self) -> bool {
        forall|i: int, j: int|
            0 <= i < self.rows() && 0 <= j < self.cols() ==> #[trigger] self.at(i, j)
                != Piece::Draw
    }

    /// The board as text: a glyph for each cell, a line feed after each row.
    pub open spec fn rendered(self) -> Seq<char> {
        rendered_rows(self.cells, self.rows())
    }
}

/// How a count changes where a piece is put on an empty cell: one more of
/// that piece, one empty cell fewer, as many as before of every other.
pub open spec fn count_shift(counted: Piece, placed: Piece) -> int {
    if counted == placed {
        1
    } else if counted == Piece::Empty {
        -1
    } else {
        0
    }
}

/// Putting a piece on an empty cell of a row shifts the counts over the cells
/// counted, if the cell is among them.
pub proof fn lemma_count_in_after_update(
    row: Seq<Piece>,
    counted: Piece,
    n: nat,
    j: int,
    piece: Piece,
)
    requires
        n <= row.len(),
        0 <= j < row.len(),
        row[j] == Piece::Empty,
        piece != Piece::Empty,
    ensures
        Board::count_in(row.update(j, piece), counted, n) == Board::count_in(row, counted, n) + (
        if j < n {
            count_shift(counted, piece)
        } else {
            0
        }),
    decreases n,
{
    if n > 0 {
        lemma_count_in_after_update(row, counted, (n - 1) as nat, j, piece);
    }
}

proof fn lemma_count_upto_after_move(board: Board, action: Action, counted: Piece, n: nat)
    requires
        board.wf(),
        board.legal(action),
        action.player != Piece::Empty,
        n <= board.rows(),
    ensures
        board.placed(action).count_upto(counted, n) == board.count_upto(counted, n) + (
        if action.position.x < n {
            count_shift(counted, action.player)
        } else {
            0
        }),
    decreases n,
{
    let after = board.placed(action);
    let x = action.position.x as int;
    let y = action.position.y as int;
    if n > 0 {
        lemma_count_upto_after_move(board, action, counted, (n - 1) as nat);
        if n - 1 == x {
            lemma_count_in_after_update(
                board.cells[x],
                counted,
                board.cells[x].len(),
                y,
                action.player,
            );
            assert(after.cells[x] == board.cells[x].update(y, action.player));
        } else {
            assert(after.cells[n - 1] == board.cells[n - 1]);
        }
    }
}

/// A legal move of a seat shifts the counts: one more piece of the seat, one
/// empty cell fewer.
pub proof fn lemma_move_counts(board: Board, action: Action, counted: Piece)
    requires
        board.wf(),
        board.legal(action),
        action.player != Piece::Empty,
    ensures
        board.placed(action).count(counted) == board.count(counted) + count_shift(
            counted,
            action.player,
        ),
{
    lemma_move_keeps_shape(board, action);
    lemma_count_upto_after_move(board, action, counted, board.rows());
}

/// A legal move keeps the board a rectangle of the same size.
pub proof fn lemma_move_keeps_shape(board: Board, action: Action)
    requires
        board.wf(),
        board.legal(action),
    ensures
        board.placed(action).wf(),
        board.placed(action).rows() == board.rows(),
        board.placed(action).cols() == board.cols(),
{
    let after = board.placed(action);
    assert forall|i: int| 0 <= i < after.rows() implies (#[trigger] after.cells[i]).len()
        == board.cols() by {
        assert(board.cells[i].len() == board.cols());
    }
    assert(after.cells[0].len() == board.cols());
}

/// A legal move of a seat takes one of the empty cells.
pub proof fn lemma_move_takes_a_cell(board: Board, action: Action)
    requires
        board.wf(),
        board.legal(action),
        action.player != Piece::Empty,
    ensures
        board.placed(action).vacancies() + 1 == board.vacancies(),
{
    lemma_move_counts(board, action, Piece::Empty);
}

/// A move changes the cell it takes and no other.
pub proof fn lemma_move_cells(board: Board, action: Action, i: int, j: int)
    requires
        board.wf(),
        board.legal(action),
        0 <= i < board.rows(),
        0 <= j < board.cols(),
    ensures
        board.placed(action).at(i, j) == (if i == action.position.x && j == action.position.y {
            action.player
        } else {
            board.at(i, j)
        }),
{
    assert(board.cells[i].len() == board.cols());
    assert(board.cells[action.position.x as int].len() == board.cols());
}

/// A board that is not full has an empty cell.
pub proof fn lemma_free_cell(board: Board) -> (cell: (int, int))
    requires
        !board.full(),
    ensures
        0 <= cell.0 < board.rows(),
        0 <= cell.1 < board.cols(),
        board.at(cell.0, cell.1) == Piece::Empty,
{
    let (i, j) = choose|i: int, j: int|
        0 <= i < board.rows() && 0 <= j < board.cols() && #[trigger] board.at(i, j)
            == Piece::Empty;
    (i, j)
}

/// The board on which a game starts is a rectangle of the size asked for.
pub proof fn lemma_blank_shape(rows: nat, cols: nat)
    requires
        rows >= 1,
        cols >= 1,
    ensures
        Board::blank(rows, cols).wf(),
        Board::blank(rows, cols).rows() == rows,
        Board::blank(rows, cols).cols() == cols,
        Board::blank(rows, cols).on_play == Piece::P1,
        Board::blank(rows, cols).valid(),
{
    let blank = Board::blank(rows, cols);
    assert(blank.cells[0].len() == cols);
}

/// The owner of a line stands in a cell of the board.
pub proof fn lemma_owner_is_on_board(board: Board, k: int)
    requires
        board.wf(),
        0 <= k,
    ensures
        board.first_owner(k) == Piece::Empty || exists|i: int, j: int|
            0 <= i < board.rows() && 0 <= j < board.cols() && #[trigger] board.at(i, j)
                == board.first_owner(k),
    decreases board.line_count() - k,
{
    if k < board.line_count() {
        let line = board.line(k);
        if line_owner(line) != Piece::Empty {
            assert(board.cells[0].len() == board.cols());
            if k < board.rows() {
                assert(board.cells[k].len() == board.cols());
                assert(board.at(k, 0) == line[0]);
            } else if k < board.rows() + board.cols() {
                assert(board.at(0, k - board.rows()) == line[0]);
            } else if k == board.rows() + board.cols() {
                assert(board.at(0, 0) == line[0]);
            } else {
                assert(board.at(0, board.cols() - 1) == line[0]);
            }
        } else {
            lemma_owner_is_on_board(board, k + 1);
        }
    }
}

/// On a board without `Draw` pieces a game has one of four results: it goes
/// on, one of the two seats has won, or it is drawn.
pub proof fn lemma_winner_is_result(board: Board)
    requires
        board.wf(),
        board.seats_only(),
    ensures
        board.line_winner() != Piece::Draw,
        board.winner() != Piece::Empty ==> board.winner() == Piece::P1 || board.winner()
            == Piece::P2 || board.winner() == Piece::Draw,
{
    lemma_owner_is_on_board(board, 0);
}

/// A move of a seat puts no `Draw` on the board.
pub proof fn lemma_move_keeps_seats(board: Board, action: Action)
    requires
        board.wf(),
        board.seats_only(),
        board.legal(action),
        action.player != Piece::Draw,
    ensures
        board.placed(action).seats_only(),
{
    let after = board.placed(action);
    lemma_move_keeps_shape(board, action);
    assert forall|i: int, j: int| 0 <= i < after.rows() && 0 <= j < after.cols() implies (
    #[trigger] after.at(i, j)) != Piece::Draw by {
        lemma_move_cells(board, action, i, j);
        assert(board.at(i, j) != Piece::Draw);
    }
}

/// A line that has an owner decides the game: the result is then the owner
/// of some line, whatever else the board holds.
pub proof fn lemma_owned_line_decides(board: Board, k: int)
    requires
        0 <= k < board.line_count(),
        line_owner(board.line(k)) != Piece::Empty,
    ensures
        board.winner() != Piece::Empty,
        board.winner() == board.line_winner(),
        exists|n: int|
            0 <= n <= k && #[trigger] line_owner(board.line(n)) == board.winner(),
{
    lemma_first_owner_before(board, 0, k);
}

proof fn lemma_first_owner_before(board: Board, from: int, k: int)
    requires
        0 <= from <= k < board.line_count(),
        line_owner(board.line(k)) != Piece::Empty,
    ensures
        board.first_owner(from) != Piece::Empty,
        exists|n: int|
            from <= n <= k && #[trigger] line_owner(board.line(n)) == board.first_owner(from),
    decreases k - from,
{
    if line_owner(board.line(from)) != Piece::Empty {
        assert(line_owner(board.line(from)) == board.first_owner(from));
    } else {
        lemma_first_owner_before(board, from + 1, k);
        let n = choose|n: int|
            from + 1 <= n <= k && #[trigger] line_owner(board.line(n)) == board.first_owner(
                from + 1,
            );
        assert(line_owner(board.line(n)) == board.first_owner(from));
    }
}

/// While a cell is free and no line has an owner, the game is undecided.
pub proof fn lemma_undecided_while_free(board: Board)
    requires
        !board.full(),
        board.line_winner() == Piece::Empty,
    ensures
        board.winner() == Piece::Empty,
{
}

/// A full board on which no line has an owner is a draw.
pub proof fn lemma_full_without_line_is_draw(board: Board)
    requires
        board.full(),
        board.line_winner() == Piece::Empty,
    ensures
        board.winner() == Piece::Draw,
{
}

/// A legal move of the seat on the play passes the turn to the other seat.
pub proof fn lemma_move_passes_the_turn(board: Board, action: Action)
    requires
        board.legal(action),
        action.player == board.on_play,
        board.on_play.is_seat(),
    ensures
        board.placed(action).on_play.is_seat(),
        board.placed(action).on_play != board.on_play,
        board.placed(action).on_play == board.on_play.other(),
{
}

/// Emptying an empty board changes nothing: the board on which a game starts
/// depends on the size alone.
pub proof fn lemma_blank_again(rows: nat, cols: nat)
    requires
        rows >= 1,
        cols >= 1,
    ensures
        Board::blank(Board::blank(rows, cols).rows(), Board::blank(rows, cols).cols())
            == Board::blank(rows, cols),
{
    lemma_blank_shape(rows, cols);
}

/// Every board that is emptied is the board on which a game of its size
/// starts: no trace of what it held is left.
pub proof fn lemma_blank_forgets(a: Board, b: Board)
    requires
        a.rows() == b.rows(),
        a.cols() == b.cols(),
    ensures
        Board::blank(a.rows(), a.cols()) == Board::blank(b.rows(), b.cols()),
{
}

/// On an empty board the game is undecided.
pub proof fn lemma_blank_is_undecided(rows: nat, cols: nat)
    requires
        rows >= 1,
        cols >= 1,
    ensures
        Board::blank(rows, cols).winner() == Piece::Empty,
{
    let blank = Board::blank(rows, cols);
    lemma_blank_shape(rows, cols);
    lemma_no_owner_from(blank, 0);
    assert(blank.at(0, 0) == Piece::Empty);
}

proof fn lemma_no_owner_from(board: Board, k: int)
    requires
        board.wf(),
        0 <= k,
        forall|i: int, j: int|
            0 <= i < board.rows() && 0 <= j < board.cols() ==> board.cells[i][j] == Piece::Empty,
    ensures
        board.first_owner(k) == Piece::Empty,
    decreases board.line_count() - k,
{
    if k < board.line_count() {
        let line = board.line(k);
        assert(board.cells[0].len() == board.cols());
        if k < board.rows() {
            assert(board.cells[k].len() == board.cols());
            assert(line[0] == board.cells[k][0]);
        } else if k < board.rows() + board.cols() {
            assert(line[0] == board.cells[0][k - board.rows()]);
        } else if k == board.rows() + board.cols() {
            assert(line[0] == board.cells[0][0]);
        } else {
            assert(line[0] == board.cells[0][board.cols() - 1]);
        }
        lemma_no_owner_from(board, k + 1);
    }
}

/// Every cell of an empty board is vacant, and no piece stands on it.
pub proof fn lemma_blank_counts(rows: nat, cols: nat, piece: Piece)
    requires
        rows >= 1,
        cols >= 1,
    ensures
        Board::blank(rows, cols).vacancies() == rows * cols,
        piece != Piece::Empty ==> Board::blank(rows, cols).count(piece) == 0,
{
    lemma_blank_shape(rows, cols);
    lemma_blank_count_upto(rows, cols, Piece::Empty, rows);
    lemma_blank_count_upto(rows, cols, piece, rows);
}

proof fn lemma_blank_count_upto(rows: nat, cols: nat, piece: Piece, n: nat)
    requires
        rows >= 1,
        cols >= 1,
        n <= rows,
    ensures
        Board::blank(rows, cols).count_upto(piece, n) == (if piece == Piece::Empty {
            n * cols
        } else {
            0
        }),
    decreases n,
{
    let blank = Board::blank(rows, cols);
    if n > 0 {
        lemma_blank_count_upto(rows, cols, piece, (n - 1) as nat);
        lemma_vacant_row(blank.cells[n - 1], piece, cols);
        assert((n - 1) * cols + cols == n * cols) by (nonlinear_arith);
    } else {
        assert(0 * cols == 0);
    }
}

proof fn lemma_vacant_row(row: Seq<Piece>, piece: Piece, n: nat)
    requires
        n <= row.len(),
        forall|j: int| 0 <= j < row.len() ==> row[j] == Piece::Empty,
    ensures
        Board::count_in(row, piece, n) == (if piece == Piece::Empty {
            n
        } else {
            0
        }),
    decreases n,
{
    if n > 0 {
        lemma_vacant_row(row, piece, (n - 1) as nat);
    }
}

/// A legal move leads from one valid board to another.
pub proof fn lemma_move_keeps_valid(board: Board, action: Action)
    requires
        board.valid(),
        board.legal(action),
    ensures
        board.placed(action).valid(),
{
    lemma_move_keeps_shape(board, action);
    lemma_move_keeps_seats(board, action);
}

/// Emptying a cell of a valid board, or giving the move to a seat, leaves
/// the board valid.
pub proof fn lemma_cleared_cell_keeps_valid(board: Board, i: int, j: int, on_play: Piece)
    requires
        board.valid(),
        0 <= i < board.rows(),
        0 <= j < board.cols(),
        on_play.is_seat(),
    ensures
        (Board { cells: board.cells.update(i, board.cells[i].update(j, Piece::Empty)), on_play })
            .valid(),
        (Board { cells: board.cells, on_play }).valid(),
{
    let after = Board {
        cells: board.cells.update(i, board.cells[i].update(j, Piece::Empty)),
        on_play,
    };
    assert(board.cells[i].len() == board.cols());
    assert(board.cells[0].len() == board.cols());
    assert forall|r: int| 0 <= r < after.rows() implies (#[trigger] after.cells[r]).len()
        == board.cols() by {
        assert(board.cells[r].len() == board.cols());
    }
    assert forall|r: int, c: int| 0 <= r < after.rows() && 0 <= c < after.cols() implies (
    #[trigger] after.at(r, c)) != Piece::Draw by {
        assert(board.cells[r].len() == board.cols());
        assert(board.at(r, c) != Piece::Draw);
    }
    let same = Board { cells: board.cells, on_play };
    assert forall|r: int, c: int| 0 <= r < same.rows() && 0 <= c < same.cols() implies (
    #[trigger] same.at(r, c)) != Piece::Draw by {
        assert(board.at(r, c) != Piece::Draw);
    }
}

/// The owner of a line stands in a cell of the board.
pub proof fn lemma_line_owner_is_cell(board: Board, k: int)
    requires
        board.wf(),
        0 <= k < board.line_count(),
        line_owner(board.line(k)) != Piece::Empty,
    ensures
        exists|i: int, j: int|
            0 <= i < board.rows() && 0 <= j < board.cols() && #[trigger] board.at(i, j)
                == line_owner(board.line(k)),
{
    let line = board.line(k);
    assert(board.cells[0].len() == board.cols());
    if k < board.rows() {
        assert(board.cells[k].len() == board.cols());
        assert(board.at(k, 0) == line[0]);
    } else if k < board.rows() + board.cols() {
        assert(board.at(0, k - board.rows()) == line[0]);
    } else if k == board.rows() + board.cols() {
        assert(board.at(0, 0) == line[0]);
    } else {
        assert(board.at(0, board.cols() - 1) == line[0]);
    }
}

/// The anti-diagonal wins: on a square board whose cells `(i, cols - 1 - i)`
/// all hold the pieces of one seat, that seat is the winner unless a row, a
/// column or the main diagonal belongs to the other seat.
pub proof fn lemma_anti_diagonal_wins(board: Board, seat: Piece)
    requires
        board.valid(),
        board.rows() == board.cols(),
        seat.is_seat(),
        forall|i: int|
            0 <= i < board.rows() ==> (#[trigger] board.cells[i])[board.cols() - 1 - i] == seat,
        forall|k: int|
            0 <= k <= board.rows() + board.cols() ==> #[trigger] line_owner(board.line(k))
                != seat.other(),
    ensures
        board.winner() == seat,
{
    let last = (board.rows() + board.cols() + 1) as int;
    let anti = board.anti_line();
    assert(board.line(last) == anti);
    assert forall|n: int| 0 <= n < anti.len() implies anti[n] == seat by {
        assert(board.cells[n][board.cols() - 1 - n] == seat);
    }
    assert(line_owner(anti) == seat);
    lemma_owned_line_decides(board, last);
    let n = choose|n: int| 0 <= n <= last && #[trigger] line_owner(board.line(n)) == board.winner();
    if n < last {
        lemma_line_owner_is_cell(board, n);
        let (i, j) = choose|i: int, j: int|
            0 <= i < board.rows() && 0 <= j < board.cols() && #[trigger] board.at(i, j)
                == line_owner(board.line(n));
        assert(board.at(i, j) != Piece::Draw);
    }
}

/// Where no line has an owner, no line from `k` on is the first owned one.
pub proof fn lemma_no_line_no_owner(board: Board, k: int)
    requires
        0 <= k,
        forall|n: int|
            0 <= n < board.line_count() ==> #[trigger] line_owner(board.line(n)) == Piece::Empty,
    ensures
        board.first_owner(k) == Piece::Empty,
    decreases board.line_count() - k,
{
    if k < board.line_count() {
        lemma_no_line_no_owner(board, k + 1);
    }
}

/// A diagonal with a gap does not win: where a cell `(i, cols - 1 - i)` is
/// empty and no row, no column and not the main diagonal has an owner, the
/// game is undecided.
pub proof fn lemma_broken_anti_diagonal(board: Board, i: int)
    requires
        board.wf(),
        0 <= i < board.diag_len(),
        board.at(i, board.cols() - 1 - i) == Piece::Empty,
        forall|k: int|
            0 <= k <= board.rows() + board.cols() ==> #[trigger] line_owner(board.line(k))
                == Piece::Empty,
    ensures
        board.winner() == Piece::Empty,
{
    let last = (board.rows() + board.cols() + 1) as int;
    let anti = board.anti_line();
    assert(board.line(last) == anti);
    assert(anti[i] == Piece::Empty);
    assert(line_owner(anti) == Piece::Empty);
    assert forall|n: int| 0 <= n < board.line_count() implies #[trigger] line_owner(
        board.line(n),
    ) == Piece::Empty by {
        if n < last {
            assert(line_owner(board.line(n)) == Piece::Empty);
        }
    }
    lemma_no_line_no_owner(board, 0);
}

/// On a valid board the result tells what decided the game: a seat has won
/// exactly where a line has an owner, and the game is drawn exactly where the
/// board is full and no line has one.
pub proof fn lemma_result_tells(board: Board)
    requires
        board.valid(),
    ensures
        board.winner().is_seat() <==> board.line_winner() != Piece::Empty,
        board.winner() == Piece::Draw <==> board.full() && board.line_winner() == Piece::Empty,
        board.winner() == Piece::Empty <==> !board.full() && board.line_winner() == Piece::Empty,
{
    lemma_owner_is_on_board(board, 0);
}

} // verus!
