use vstd::prelude::*;
use bracket_lib::random::RandomNumberGenerator;
use crate::board::{
    lemma_blank_counts, lemma_blank_is_undecided, lemma_blank_shape, lemma_move_counts,
    lemma_move_keeps_seats, lemma_move_keeps_shape, lemma_move_takes_a_cell,
    lemma_winner_is_result, Board,
};
use crate::piece::Piece;
use crate::q_agent::{
    chosen, full_catalogue, has_legal, learned_step, lemma_catalogue_player,
    lemma_free_cell_is_legal_move, QLearningAgent,
};
use crate::q_table::{QCell, QKey};
use crate::random::fresh_generator;
use crate::seats::{agents_of, Agents};
use crate::state::{Action, State};
use crate::value::{Value, HALF_BITS, MINUS_HALF_BITS, ONE_BITS};
use crate::vector::Vector2;

verus! {

/// The rewards of a game, each a tunable number.
#[derive(PartialEq, Eq, Structural, Clone, Copy, Debug)]
pub struct Rewards {
    /// For the move that wins the game.
    pub win: Value,
    /// For the move that ends the game in a draw.
    pub draw: Value,
    /// For every other move.
    pub other: Value,
    /// For the last move of the seat that did not end a drawn game.
    pub final_draw: Value,
    /// For the last move of the seat that lost.
    pub final_loss: Value,
}

impl Rewards {
    /// The rewards 1 for a win, 0.5 for a draw, 0 for any other move, and at
    /// the end of the game 0.5 for a draw and -0.5 for a loss.
    pub open spec fn standard_spec() -> Rewards {
        Rewards {
            win: Value { bits: ONE_BITS },
            draw: Value { bits: HALF_BITS },
            other: Value { bits: 0 },
            final_draw: Value { bits: HALF_BITS },
            final_loss: Value { bits: MINUS_HALF_BITS },
        }
    }

    /// The rewards of `standard_spec`.
    pub fn standard() -> (rewards: Rewards)
        ensures
            rewards == Self::standard_spec(),
    {
        Rewards {
            win: Value::from_bits(ONE_BITS),
            draw: Value::from_bits(HALF_BITS),
            other: Value::zero(),
            final_draw: Value::from_bits(HALF_BITS),
            final_loss: Value::from_bits(MINUS_HALF_BITS),
        }
    }

    /// The reward of a move by `mover` after which the result is `winner`.
    pub open spec fn for_move(self, winner: Piece, mover: Piece) -> Value {
        if winner == mover {
            self.win
        } else if winner == Piece::Draw {
            self.draw
        } else {
            self.other
        }
    }

    /// The reward at the end of a game whose result is `winner`.
    pub open spec fn for_end(self, winner: Piece) -> Value {
        if winner == Piece::Draw {
            self.final_draw
        } else {
            self.final_loss
        }
    }

    /// The reward of a move by `mover` after which the result is `winner`.
    pub fn of_move(&self, winner: Piece, mover: Piece) -> (reward: Value)
        ensures
            reward == self.for_move(winner, mover),
    {
        if winner == mover {
            self.win
        } else if winner == Piece::Draw {
            self.draw
        } else {
            self.other
        }
    }

    /// The reward at the end of a game whose result is `winner`.
    pub fn of_end(&self, winner: Piece) -> (reward: Value)
        ensures
            reward == self.for_end(winner),
    {
        if winner == Piece::Draw {
            self.final_draw
        } else {
            self.final_loss
        }
    }
}

/// The answer to a record of a game that is too short to correct: fewer than
/// three states or fewer than three moves.
#[derive(PartialEq, Eq, Structural, Clone, Copy, Debug)]
pub struct MalformedTrajectory;

/// The one step of a finished game that is revised with the final reward.
#[derive(Debug)]
pub struct Correction {
    pub prev_state: State,
    pub state: State,
    pub action: Action,
}

/// The record of one game.
#[derive(Debug)]
pub struct GameLog {
    /// The result: `P1`, `P2` or `Draw`.
    pub winner: Piece,
    /// The states from the empty board to the last one.
    pub states: Vec<State>,
    /// The moves, each leading from one state to the next.
    pub actions: Vec<Action>,
    /// Whether the game was long enough for the correction at its end.
    pub corrected: bool,
}

/// The boards that the states show.
pub open spec fn boards(states: Seq<State>) -> Seq<Board> {
    Seq::new(states.len(), |k: int| states[k]@)
}

/// The moves lead from each board to the next: each is legal, is made by the
/// seat whose turn it is, and is made while the game is undecided.
pub open spec fn is_trace(boards: Seq<Board>, actions: Seq<Action>) -> bool {
    &&& boards.len() == actions.len() + 1
    &&& forall|k: int|
        0 <= k < actions.len() ==> {
            &&& boards[k].legal(#[trigger] actions[k])
            &&& actions[k].player == boards[k].on_play
            &&& boards[k].winner() == Piece::Empty
            &&& boards[k + 1] == boards[k].placed(actions[k])
        }
}

/// A trace that ends on a board on which the game is decided.
pub open spec fn is_game(boards: Seq<Board>, actions: Seq<Action>) -> bool {
    is_trace(boards, actions) && boards[boards.len() - 1].winner() != Piece::Empty
}

/// A record can be corrected where it has three states and three moves.
pub open spec fn correctable(states: nat, actions: nat) -> bool {
    states >= 3 && actions >= 3
}

/// Picks the step to revise at the end of a game: the second-to-last move,
/// with the states before and after it.
pub fn backprop_target(states: &Vec<State>, actions: &Vec<Action>) -> (target: Result<
    Correction,
    MalformedTrajectory,
>)
    ensures
        target is Ok <==> correctable(states@.len(), actions@.len()),
        target is Ok ==> {
            &&& target->Ok_0.prev_state@ == states@[states@.len() - 3]@
            &&& target->Ok_0.state@ == states@[states@.len() - 2]@
            &&& target->Ok_0.action == actions@[actions@.len() - 2]
        },
{
    if states.len() < 3 || actions.len() < 3 {
        return Err(MalformedTrajectory);
    }
    let prev_state = states[states.len() - 3].clone();
    let state = states[states.len() - 2].clone();
    let action = actions[actions.len() - 2];
    Ok(Correction { prev_state, state, action })
}

/// The boards of a record that grew by one state.
pub proof fn lemma_boards_push(states: Seq<State>, state: State)
    ensures
        boards(states.push(state)) == boards(states).push(state@),
{
    assert(boards(states.push(state)) =~= boards(states).push(state@));
}

/// A trace grows by a legal move of the seat on the play, made while the
/// game is undecided.
pub proof fn lemma_trace_grows(shown: Seq<Board>, moves: Seq<Action>, action: Action)
    requires
        is_trace(shown, moves),
        shown[shown.len() - 1].legal(action),
        action.player == shown[shown.len() - 1].on_play,
        shown[shown.len() - 1].winner() == Piece::Empty,
    ensures
        is_trace(shown.push(shown[shown.len() - 1].placed(action)), moves.push(action)),
{
    let last = shown[shown.len() - 1];
    let now = shown.push(last.placed(action));
    let made = moves.push(action);
    assert forall|k: int| 0 <= k < made.len() implies {
        &&& now[k].legal(#[trigger] made[k])
        &&& made[k].player == now[k].on_play
        &&& now[k].winner() == Piece::Empty
        &&& now[k + 1] == now[k].placed(made[k])
    } by {
        if k < moves.len() {
            assert(shown[k].legal(moves[k]));
            assert(now[k + 1] == shown[k + 1]);
        }
    }
}

/// Each move of a trace takes one vacant cell: after `k` moves the board has
/// the size it had, a seat is on the play, and `k` cells fewer are vacant.
pub proof fn lemma_trace_fills(shown: Seq<Board>, moves: Seq<Action>, k: int)
    requires
        is_trace(shown, moves),
        shown[0].wf(),
        shown[0].on_play.is_seat(),
        0 <= k <= moves.len(),
    ensures
        shown[k].wf(),
        shown[k].rows() == shown[0].rows(),
        shown[k].cols() == shown[0].cols(),
        shown[k].on_play.is_seat(),
        shown[k].vacancies() + k == shown[0].vacancies(),
    decreases k,
{
    if k > 0 {
        lemma_trace_fills(shown, moves, k - 1);
        let action = moves[k - 1];
        assert(shown[k] == shown[k - 1].placed(action));
        lemma_move_keeps_shape(shown[k - 1], action);
        lemma_move_takes_a_cell(shown[k - 1], action);
    }
}

/// A game on a board of `rows` by `cols` cells has at least one move and at
/// most as many moves as the board has cells.
pub proof fn lemma_game_length(shown: Seq<Board>, moves: Seq<Action>, rows: nat, cols: nat)
    requires
        is_game(shown, moves),
        shown[0] == Board::blank(rows, cols),
        rows >= 1,
        cols >= 1,
    ensures
        1 <= moves.len() <= rows * cols,
{
    lemma_blank_shape(rows, cols);
    lemma_blank_counts(rows, cols, Piece::Empty);
    lemma_blank_is_undecided(rows, cols);
    lemma_trace_fills(shown, moves, moves.len() as int);
}

/// The seats take turns: on every board of a trace that starts on an empty
/// board, `P1` has as many pieces as `P2` where `P1` is on the play, and one
/// more where `P2` is.
pub proof fn lemma_seats_take_turns(
    shown: Seq<Board>,
    moves: Seq<Action>,
    rows: nat,
    cols: nat,
    k: int,
)
    requires
        is_trace(shown, moves),
        shown[0] == Board::blank(rows, cols),
        rows >= 1,
        cols >= 1,
        0 <= k <= moves.len(),
    ensures
        shown[k].on_play == Piece::P1 ==> shown[k].count(Piece::P1) == shown[k].count(Piece::P2),
        shown[k].on_play == Piece::P2 ==> shown[k].count(Piece::P1) == shown[k].count(Piece::P2)
            + 1,
        shown[k].on_play.is_seat(),
        shown[k].count(Piece::Draw) == 0,
    decreases k,
{
    lemma_blank_shape(rows, cols);
    if k == 0 {
        lemma_blank_counts(rows, cols, Piece::P1);
        lemma_blank_counts(rows, cols, Piece::P2);
        lemma_blank_counts(rows, cols, Piece::Draw);
    } else {
        lemma_seats_take_turns(shown, moves, rows, cols, k - 1);
        lemma_trace_fills(shown, moves, k - 1);
        let action = moves[k - 1];
        assert(shown[k] == shown[k - 1].placed(action));
        lemma_move_counts(shown[k - 1], action, Piece::P1);
        lemma_move_counts(shown[k - 1], action, Piece::P2);
        lemma_move_counts(shown[k - 1], action, Piece::Draw);
    }
}

/// The table of a seat in a pair of tables, of which the first is that of
/// `P1`; what is no seat counts as `P1`.
pub open spec fn table_of(
    tables: (Map<QKey, QCell>, Map<QKey, QCell>),
    seat: Piece,
) -> Map<QKey, QCell> {
    if seat.index_of() == 1 {
        tables.1
    } else {
        tables.0
    }
}

/// The seat whose agent a move belongs to.
pub open spec fn seat_of(action: Action) -> Piece {
    if action.player.index_of() == 1 {
        Piece::P2
    } else {
        Piece::P1
    }
}

/// Whether the agent of a seat learns in a game, given the flags of both.
pub open spec fn learns_at(first_learns: bool, second_learns: bool, seat: Piece) -> bool {
    if seat.index_of() == 1 {
        second_learns
    } else {
        first_learns
    }
}

/// What holds of one turn and the tables: where the mover learns, its agent
/// chose the move, its table takes one step of learning from the move and its
/// reward, and the other table stays; where it does not, both stay.
pub open spec fn turn_taught<
    B: Fn(Value, Value, Value, Value, Value) -> Value,
    D: Fn(&mut RandomNumberGenerator) -> Value,
>(
    blend: &B,
    draw: &D,
    learns: bool,
    before: (Map<QKey, QCell>, Map<QKey, QCell>),
    after: (Map<QKey, QCell>, Map<QKey, QCell>),
    size: Vector2,
    rewards: Rewards,
    epsilon: Value,
    eta: Value,
    gamma: Value,
    board: Board,
    action: Action,
) -> bool {
    if learns {
        &&& chosen(
            draw,
            epsilon,
            table_of(before, action.player),
            board,
            full_catalogue(size, action.player),
            action,
        )
        &&& learned_step(
            blend,
            table_of(before, action.player),
            table_of(after, action.player),
            full_catalogue(size, action.player),
            board,
            action,
            board.placed(action),
            rewards.for_move(board.placed(action).winner(), action.player),
            eta,
            gamma,
        )
        &&& table_of(after, action.player.other()) == table_of(before, action.player.other())
    } else {
        after == before
    }
}

/// What the turns of a game do to the tables: `history` holds the tables
/// before the first turn and after each turn.
pub open spec fn turns_taught<
    B: Fn(Value, Value, Value, Value, Value) -> Value,
    D: Fn(&mut RandomNumberGenerator) -> Value,
>(
    blend: &B,
    draw: &D,
    first_learns: bool,
    second_learns: bool,
    history: Seq<(Map<QKey, QCell>, Map<QKey, QCell>)>,
    boards: Seq<Board>,
    actions: Seq<Action>,
    size: Vector2,
    rewards: Rewards,
    epsilon: Value,
    eta: Value,
    gamma: Value,
) -> bool {
    &&& history.len() == actions.len() + 1
    &&& forall|k: int|
        0 <= k < actions.len() ==> turn_taught(
            blend,
            draw,
            learns_at(first_learns, second_learns, (#[trigger] actions[k]).player),
            history[k],
            history[k + 1],
            size,
            rewards,
            epsilon,
            eta,
            gamma,
            boards[k],
            actions[k],
        )
}

/// What the end of a game does to the tables: where the record is long
/// enough, the table of the seat that made the second-to-last move takes one
/// step of learning from that move and the reward of the end, and the other
/// table stays; where it is not, both stay.
pub open spec fn end_taught<B: Fn(Value, Value, Value, Value, Value) -> Value>(
    blend: &B,
    before: (Map<QKey, QCell>, Map<QKey, QCell>),
    after: (Map<QKey, QCell>, Map<QKey, QCell>),
    boards: Seq<Board>,
    actions: Seq<Action>,
    size: Vector2,
    reward: Value,
    eta: Value,
    gamma: Value,
) -> bool {
    if correctable(boards.len(), actions.len()) {
        let action = actions[actions.len() - 2];
        &&& learned_step(
            blend,
            table_of(before, seat_of(action)),
            table_of(after, seat_of(action)),
            full_catalogue(size, seat_of(action)),
            boards[boards.len() - 3],
            action,
            boards[boards.len() - 2],
            reward,
            eta,
            gamma,
        )
        &&& table_of(after, seat_of(action).other()) == table_of(
            before,
            seat_of(action).other(),
        )
    } else {
        after == before
    }
}

/// What a whole game does to the tables: there are tables after each turn,
/// from `before` on, that the turns account for, and the end of the game
/// leads from the last of them to `after`.
pub open spec fn game_taught<
    B: Fn(Value, Value, Value, Value, Value) -> Value,
    D: Fn(&mut RandomNumberGenerator) -> Value,
>(
    blend: &B,
    draw: &D,
    first_learns: bool,
    second_learns: bool,
    before: (Map<QKey, QCell>, Map<QKey, QCell>),
    after: (Map<QKey, QCell>, Map<QKey, QCell>),
    boards: Seq<Board>,
    actions: Seq<Action>,
    size: Vector2,
    rewards: Rewards,
    epsilon: Value,
    eta: Value,
    gamma: Value,
    winner: Piece,
) -> bool {
    exists|history: Seq<(Map<QKey, QCell>, Map<QKey, QCell>)>|
        {
            &&& #[trigger] turns_taught(
                blend,
                draw,
                first_learns,
                second_learns,
                history,
                boards,
                actions,
                size,
                rewards,
                epsilon,
                eta,
                gamma,
            )
            &&& history[0] == before
            &&& end_taught(
                blend,
                history[history.len() - 1],
                after,
                boards,
                actions,
                size,
                rewards.for_end(winner),
                eta,
                gamma,
            )
        }
}

/// The account of the turns grows with a turn.
pub proof fn lemma_turns_taught_grow<
    B: Fn(Value, Value, Value, Value, Value) -> Value,
    D: Fn(&mut RandomNumberGenerator) -> Value,
>(
    blend: &B,
    draw: &D,
    first_learns: bool,
    second_learns: bool,
    history: Seq<(Map<QKey, QCell>, Map<QKey, QCell>)>,
    boards: Seq<Board>,
    actions: Seq<Action>,
    size: Vector2,
    rewards: Rewards,
    epsilon: Value,
    eta: Value,
    gamma: Value,
    after: (Map<QKey, QCell>, Map<QKey, QCell>),
    action: Action,
)
    requires
        boards.len() == actions.len() + 1,
        turns_taught(
            blend,
            draw,
            first_learns,
            second_learns,
            history,
            boards,
            actions,
            size,
            rewards,
            epsilon,
            eta,
            gamma,
        ),
        turn_taught(
            blend,
            draw,
            learns_at(first_learns, second_learns, action.player),
            history[history.len() - 1],
            after,
            size,
            rewards,
            epsilon,
            eta,
            gamma,
            boards[boards.len() - 1],
            action,
        ),
    ensures
        turns_taught(
            blend,
            draw,
            first_learns,
            second_learns,
            history.push(after),
            boards.push(boards[boards.len() - 1].placed(action)),
            actions.push(action),
            size,
            rewards,
            epsilon,
            eta,
            gamma,
        ),
{
    let longer = history.push(after);
    let shown = boards.push(boards[boards.len() - 1].placed(action));
    let made = actions.push(action);
    assert forall|k: int| 0 <= k < made.len() implies turn_taught(
        blend,
        draw,
        learns_at(first_learns, second_learns, (#[trigger] made[k]).player),
        longer[k],
        longer[k + 1],
        size,
        rewards,
        epsilon,
        eta,
        gamma,
        shown[k],
        made[k],
    ) by {
        if k < actions.len() {
            assert(made[k] == actions[k]);
            assert(longer[k] == history[k]);
            assert(longer[k + 1] == history[k + 1]);
            assert(shown[k] == boards[k]);
        }
    }
}

/// A session of games between the two seats.
pub struct Game {
    player: Agents,
    board: State,
    rng: RandomNumberGenerator,
    size: Vector2,
    eta: Value,
    gamma: Value,
    epsilon: Value,
    rewards: Rewards,
}

impl Game {
    /// The board as it stands.
    pub closed spec fn board(self) -> Board {
        self.board@
    }

    /// The size of the board, rows first.
    pub closed spec fn size(self) -> Vector2 {
        self.size
    }

    /// The learning rate.
    pub closed spec fn eta_spec(self) -> Value {
        self.eta
    }

    /// The discount.
    pub closed spec fn gamma_spec(self) -> Value {
        self.gamma
    }

    /// The chance of a move made to explore.
    pub closed spec fn epsilon_spec(self) -> Value {
        self.epsilon
    }

    /// The rewards in force.
    pub closed spec fn rewards_spec(self) -> Rewards {
        self.rewards
    }

    /// The agents of the session in the order of their seats.
    pub closed spec fn agents(self) -> Seq<QLearningAgent> {
        agents_of(self.player)
    }

    /// The agent of a seat; that of `P1` for what is no seat.
    pub open spec fn agent_at(self, seat: Piece) -> QLearningAgent {
        self.agents()[seat.index_of() as int]
    }

    /// What the agent of a seat has learned.
    pub open spec fn table(self, seat: Piece) -> Map<QKey, QCell> {
        self.agent_at(seat).table()
    }

    /// What both agents have learned, `P1` first.
    pub open spec fn tables(self) -> (Map<QKey, QCell>, Map<QKey, QCell>) {
        (self.table(Piece::P1), self.table(Piece::P2))
    }

    /// The session is sound: it has an agent for each of the two seats, both
    /// sound, each with a move of its seat to every cell of the board; the
    /// board has the session's size and is valid.
    pub open spec fn sized(self) -> bool {
        &&& self.size().x >= 1
        &&& self.size().y >= 1
        &&& self.agents().len() == 2
        &&& self.agent_at(Piece::P1).wf()
        &&& self.agent_at(Piece::P2).wf()
        &&& self.agent_at(Piece::P1).catalogue() == full_catalogue(self.size(), Piece::P1)
        &&& self.agent_at(Piece::P2).catalogue() == full_catalogue(self.size(), Piece::P2)
        &&& self.board().valid()
        &&& self.board().rows() == self.size().x
        &&& self.board().cols() == self.size().y
    }

    /// The session's invariant between games: it is sound and the board is
    /// empty, with `P1` to move.
    pub open spec fn wf(self) -> bool {
        &&& self.sized()
        &&& self.board() == Board::blank(self.size().x as nat, self.size().y as nat)
    }

    /// What no game changes, and what only grows: the size, the learning rate
    /// and the discount are those of `before`, and each table has every key
    /// that it had.
    pub open spec fn follows(self, before: Game) -> bool {
        &&& self.size() == before.size()
        &&& self.eta_spec() == before.eta_spec()
        &&& self.gamma_spec() == before.gamma_spec()
        &&& self.epsilon_spec() == before.epsilon_spec()
        &&& self.rewards_spec() == before.rewards_spec()
        &&& forall|seat: Piece, key: QKey| #[trigger]
            before.table(seat).contains_key(key) ==> self.table(seat).contains_key(key)
    }

    /// A session on an empty board, with two agents that have learned nothing
    /// and a generator that seeds itself.
    pub fn new(board_size: Vector2, epsilon: Value, eta: Value, gamma: Value) -> (game: Game)
        requires
            board_size.x >= 1,
            board_size.y >= 1,
            board_size.x * board_size.y <= isize::MAX,
        ensures
            game.wf(),
            game.size() == board_size,
            game.board() == Board::blank(board_size.x as nat, board_size.y as nat),
            game.epsilon_spec() == epsilon,
            game.eta_spec() == eta,
            game.gamma_spec() == gamma,
            game.rewards_spec() == Rewards::standard_spec(),
            game.table(Piece::P1) == Map::<QKey, QCell>::empty(),
            game.table(Piece::P2) == Map::<QKey, QCell>::empty(),
    {
        let rng = fresh_generator();
        Self::with_rng(board_size, epsilon, eta, gamma, rng)
    }

    /// A session like that of `new`, with the generator handed in.
    pub fn with_rng(
        board_size: Vector2,
        epsilon: Value,
        eta: Value,
        gamma: Value,
        rng: RandomNumberGenerator,
    ) -> (game: Game)
        requires
            board_size.x >= 1,
            board_size.y >= 1,
            board_size.x * board_size.y <= isize::MAX,
        ensures
            game.wf(),
            game.size() == board_size,
            game.board() == Board::blank(board_size.x as nat, board_size.y as nat),
            game.epsilon_spec() == epsilon,
            game.eta_spec() == eta,
            game.gamma_spec() == gamma,
            game.rewards_spec() == Rewards::standard_spec(),
            game.table(Piece::P1) == Map::<QKey, QCell>::empty(),
            game.table(Piece::P2) == Map::<QKey, QCell>::empty(),
    {
        // Set up players.
        let mut player_vec: Vec<QLearningAgent> = Vec::new();
        player_vec.push(QLearningAgent::new(board_size, Piece::P1));
        player_vec.push(QLearningAgent::new(board_size, Piece::P2));

        let player = Agents::from_vec(player_vec);
        let board = State::new(board_size);
        proof {
            lemma_blank_shape(board_size.x as nat, board_size.y as nat);
        }
        Game {
            player,
            board,
            rng,
            size: board_size,
            eta,
            gamma,
            epsilon,
            rewards: Rewards::standard(),
        }
    }

    /// The agent of a seat; that of `P1` for what is no seat.
    pub fn agent(&self, seat: Piece) -> (agent: &QLearningAgent)
        requires
            self.sized(),
        ensures
            *agent == self.agent_at(seat),
            agent.table() == self.table(seat),
            agent.wf(),
            agent.catalogue() == full_catalogue(
                self.size(),
                if seat.index_of() == 1 {
                    Piece::P2
                } else {
                    Piece::P1
                },
            ),
    {
        self.player.get(seat.to_index())
    }

    /// The chance of a move made to explore.
    pub fn epsilon(&self) -> (epsilon: Value)
        ensures
            epsilon == self.epsilon_spec(),
    {
        self.epsilon
    }

    /// This session with another chance of a move made to explore.
    pub closed spec fn with_epsilon(self, epsilon: Value) -> Game {
        Game { epsilon, ..self }
    }

    /// This session with other rewards.
    pub closed spec fn with_rewards(self, rewards: Rewards) -> Game {
        Game { rewards, ..self }
    }

    /// A session with another epsilon or other rewards is the same in all else.
    pub proof fn lemma_with(self, epsilon: Value, rewards: Rewards)
        ensures
            self.with_epsilon(epsilon).epsilon_spec() == epsilon,
            self.with_epsilon(epsilon).rewards_spec() == self.rewards_spec(),
            self.with_epsilon(epsilon).wf() == self.wf(),
            self.with_epsilon(epsilon).sized() == self.sized(),
            self.with_epsilon(epsilon).board() == self.board(),
            self.with_epsilon(epsilon).size() == self.size(),
            self.with_epsilon(epsilon).eta_spec() == self.eta_spec(),
            self.with_epsilon(epsilon).gamma_spec() == self.gamma_spec(),
            self.with_epsilon(epsilon).agents() == self.agents(),
            self.with_rewards(rewards).rewards_spec() == rewards,
            self.with_rewards(rewards).epsilon_spec() == self.epsilon_spec(),
            self.with_rewards(rewards).wf() == self.wf(),
            self.with_rewards(rewards).sized() == self.sized(),
            self.with_rewards(rewards).board() == self.board(),
            self.with_rewards(rewards).size() == self.size(),
            self.with_rewards(rewards).eta_spec() == self.eta_spec(),
            self.with_rewards(rewards).gamma_spec() == self.gamma_spec(),
            self.with_rewards(rewards).agents() == self.agents(),
    {
    }

    /// Sets the chance of a move made to explore, and nothing else.
    pub fn set_epsilon(&mut self, epsilon: Value)
        ensures
            *final(self) == old(self).with_epsilon(epsilon),
            final(self).epsilon_spec() == epsilon,
            final(self).rewards_spec() == old(self).rewards_spec(),
            final(self).eta_spec() == old(self).eta_spec(),
            final(self).gamma_spec() == old(self).gamma_spec(),
            final(self).size() == old(self).size(),
            final(self).board() == old(self).board(),
            final(self).agents() == old(self).agents(),
    {
        self.epsilon = epsilon;
    }

    /// The learning rate.
    pub fn eta(&self) -> (eta: Value)
        ensures
            eta == self.eta_spec(),
    {
        self.eta
    }

    /// The discount.
    pub fn gamma(&self) -> (gamma: Value)
        ensures
            gamma == self.gamma_spec(),
    {
        self.gamma
    }

    /// The size of the board, rows first.
    pub fn board_size(&self) -> (size: Vector2)
        ensures
            size == self.size(),
    {
        self.size
    }

    /// The rewards in force.
    pub fn rewards(&self) -> (rewards: Rewards)
        ensures
            rewards == self.rewards_spec(),
    {
        self.rewards
    }

    /// Sets the rewards, and nothing else.
    pub fn set_rewards(&mut self, rewards: Rewards)
        ensures
            *final(self) == old(self).with_rewards(rewards),
            final(self).rewards_spec() == rewards,
            final(self).epsilon_spec() == old(self).epsilon_spec(),
            final(self).eta_spec() == old(self).eta_spec(),
            final(self).gamma_spec() == old(self).gamma_spec(),
            final(self).size() == old(self).size(),
            final(self).board() == old(self).board(),
            final(self).agents() == old(self).agents(),
    {
        self.rewards = rewards;
    }

    /// Resets the board in-place.
    pub fn reset(&mut self)
        requires
            old(self).sized(),
        ensures
            final(self).wf(),
            final(self).board() == Board::blank(
                old(self).size().x as nat,
                old(self).size().y as nat,
            ),
            final(self).follows(*old(self)),
            final(self).agents() == old(self).agents(),
    {
        self.board.reset();
        proof {
            lemma_blank_shape(self.size.x as nat, self.size.y as nat);
        }
    }

    /// Updates the board state in-place.
    /// Returns the result of the game after the move and the reward for it.
    pub fn update_board(board: &mut State, action: &Action, rewards: &Rewards) -> (outcome: (
        Piece,
        Value,
    ))
        ensures
            old(board)@.legal(*action) ==> final(board)@ == old(board)@.placed(*action),
            !old(board)@.legal(*action) ==> final(board)@ == old(board)@,
            outcome.0 == final(board)@.winner(),
            outcome.1 == rewards.for_move(outcome.0, action.player),
    {
        // An illegal move leaves the board as it is.
        let _ = board.play_mut(action);
        let winner = board.check_winner();
        let reward = rewards.of_move(winner, action.player);
        (winner, reward)
    }

    /// The board as it stands, for a caller to look at.
    pub fn current(&self) -> (state: State)
        ensures
            state@ == self.board(),
    {
        self.board.clone()
    }

    /// What holds of one turn: the mover made a legal move on the board of
    /// `before`, and the session is sound as it was.
    pub open spec fn after_turn(self, before: Game, action: Action, winner: Piece) -> bool {
        &&& self.sized()
        &&& self.follows(before)
        &&& before.board().legal(action)
        &&& action.player == before.board().on_play
        &&& self.board() == before.board().placed(action)
        &&& winner == self.board().winner()
    }

    /// The session can make a turn: it is sound and the game is undecided.
    pub open spec fn in_play(self) -> bool {
        self.sized() && self.board().winner() == Piece::Empty
    }

    /// What holds of one game that led from the session `before` to this
    /// one and left the record `log`: the record is that of a whole legal
    /// game from the board of `before` on, its result is that of its last
    /// board, the tables have learned from it what the flags of the two seats
    /// allow, and the session is sound again with an empty board.
    pub open spec fn played<
        B: Fn(Value, Value, Value, Value, Value) -> Value,
        D: Fn(&mut RandomNumberGenerator) -> Value,
    >(
        self,
        before: Game,
        blend: &B,
        draw: &D,
        first_learns: bool,
        second_learns: bool,
        log: GameLog,
    ) -> bool {
        &&& self.wf()
        &&& self.follows(before)
        &&& is_game(boards(log.states@), log.actions@)
        &&& boards(log.states@)[0] == before.board()
        &&& log.winner == boards(log.states@)[log.states@.len() - 1].winner()
        &&& log.winner == Piece::P1 || log.winner == Piece::P2 || log.winner == Piece::Draw
        &&& log.corrected == correctable(log.states@.len(), log.actions@.len())
        &&& 1 <= log.actions@.len() <= before.size().x * before.size().y
        &&& game_taught(
            blend,
            draw,
            first_learns,
            second_learns,
            before.tables(),
            self.tables(),
            boards(log.states@),
            log.actions@,
            before.size(),
            before.rewards_spec(),
            before.epsilon_spec(),
            before.eta_spec(),
            before.gamma_spec(),
            log.winner,
        )
    }

    /// Between games a session can make a turn.
    pub proof fn lemma_ready(self)
        requires
            self.wf(),
        ensures
            self.in_play(),
            self.sized(),
    {
        lemma_blank_is_undecided(self.size.x as nat, self.size.y as nat);
    }

    proof fn lemma_turn(self, action: Action)
        requires
            self.sized(),
            self.board@.legal(action),
            action.player == self.board@.on_play,
        ensures
            self.board@.placed(action).wf(),
            self.board@.placed(action).rows() == self.size.x,
            self.board@.placed(action).cols() == self.size.y,
            self.board@.placed(action).seats_only(),
            self.board@.placed(action).on_play.is_seat(),
            self.board@.placed(action).vacancies() + 1 == self.board@.vacancies(),
    {
        lemma_move_keeps_shape(self.board@, action);
        lemma_move_keeps_seats(self.board@, action);
        lemma_move_takes_a_cell(self.board@, action);
    }

    proof fn lemma_mover_can_move(self)
        requires
            self.in_play(),
        ensures
            has_legal(self.board(), self.agent_at(Piece::P1).catalogue()),
            has_legal(self.board(), self.agent_at(Piece::P2).catalogue()),
    {
        lemma_free_cell_is_legal_move(self.board@, self.size, Piece::P1);
        lemma_free_cell_is_legal_move(self.board@, self.size, Piece::P2);
    }

    /// Lets the agent of the seat that is on the play take its turn: it
    /// chooses a move, makes it, and revises the value of that move with the
    /// reward for it. Returns the result of the game after the move, and the move.
    pub fn agent_turn<B, D>(&mut self, blend: &B, draw: &D) -> (turn: (Piece, Action)) where
        B: Fn(Value, Value, Value, Value, Value) -> Value,
        D: Fn(&mut RandomNumberGenerator) -> Value,

        requires
            old(self).in_play(),
            forall|a: Value, b: Value, c: Value, d: Value, e: Value|
                blend.requires((a, b, c, d, e)),
            forall|g: &mut RandomNumberGenerator| draw.requires((g,)),
        ensures
            final(self).after_turn(*old(self), turn.1, turn.0),
            chosen(
                draw,
                old(self).epsilon_spec(),
                old(self).table(turn.1.player),
                old(self).board(),
                full_catalogue(old(self).size(), turn.1.player),
                turn.1,
            ),
            learned_step(
                blend,
                old(self).table(turn.1.player),
                final(self).table(turn.1.player),
                full_catalogue(old(self).size(), turn.1.player),
                old(self).board(),
                turn.1,
                final(self).board(),
                old(self).rewards_spec().for_move(turn.0, turn.1.player),
                old(self).eta_spec(),
                old(self).gamma_spec(),
            ),
            final(self).table(turn.1.player.other()) == old(self).table(turn.1.player.other()),
    {
        proof {
            self.lemma_mover_can_move();
        }
        let ghost before = *self;
        // Clone current board
        let prev_state = self.board.clone();
        let index = self.board.on_play().to_index();

        // Find the current player and get them to choose an action.
        let action = self.player.get(index).choose_action(
            prev_state.clone(),
            &mut self.rng,
            self.epsilon,
            draw,
        );
        proof {
            lemma_catalogue_player(self.size, self.board@.on_play, action);
            self.lemma_turn(action);
        }
        let rewards = self.rewards;
        let (winner, reward) = Self::update_board(&mut self.board, &action, &rewards);
        let state = self.board.clone();

        // Update the agent's Q-table
        self.player.get_mut(index).update_q(
            prev_state,
            state,
            &action,
            reward,
            self.eta,
            self.gamma,
            blend,
        );
        (winner, action)
    }

    /// Lets the seat that is on the play make a move picked by chance, from
    /// which nothing is learned. Returns the result of the game after the
    /// move, and the move.
    pub fn random_turn(&mut self) -> (turn: (Piece, Action))
        requires
            old(self).in_play(),
        ensures
            final(self).after_turn(*old(self), turn.1, turn.0),
            forall|seat: Piece| final(self).table(seat) == old(self).table(seat),
    {
        proof {
            self.lemma_mover_can_move();
        }
        let index = self.board.on_play().to_index();
        let action = self.player.get(index).choose_random_action(&self.board, &mut self.rng);
        proof {
            lemma_catalogue_player(self.size, self.board@.on_play, action);
            self.lemma_turn(action);
        }
        let rewards = self.rewards;
        let winner = Self::update_board(&mut self.board, &action, &rewards).0;
        (winner, action)
    }

    /// Uses the last turn of the seat that did not end the game to revise
    /// its table with the reward of the end. A record that is too short is
    /// answered with an error and changes nothing.
    pub fn backprop<B>(
        &mut self,
        state_history: &Vec<State>,
        action_history: &Vec<Action>,
        reward: Value,
        blend: &B,
    ) -> (done: Result<(), MalformedTrajectory>) where
        B: Fn(Value, Value, Value, Value, Value) -> Value,

        requires
            old(self).sized(),
            forall|a: Value, b: Value, c: Value, d: Value, e: Value|
                blend.requires((a, b, c, d, e)),
        ensures
            final(self).sized(),
            final(self).follows(*old(self)),
            final(self).board() == old(self).board(),
            done is Ok <==> correctable(state_history@.len(), action_history@.len()),
            done is Err ==> forall|seat: Piece| final(self).table(seat) == old(self).table(seat),
            done is Ok ==> {
                let action = action_history@[action_history@.len() - 2];
                let seat = if action.player.index_of() == 1 {
                    Piece::P2
                } else {
                    Piece::P1
                };
                &&& learned_step(
                    blend,
                    old(self).table(seat),
                    final(self).table(seat),
                    full_catalogue(old(self).size(), seat),
                    state_history@[state_history@.len() - 3]@,
                    action,
                    state_history@[state_history@.len() - 2]@,
                    reward,
                    old(self).eta_spec(),
                    old(self).gamma_spec(),
                )
                &&& final(self).table(seat.other()) == old(self).table(seat.other())
            },
    {
        match backprop_target(state_history, action_history) {
            Err(e) => Err(e),
            Ok(target) => {
                let Correction { prev_state, state, action } = target;
                self.player.get_mut(action.player.to_index()).update_q(
                    prev_state,
                    state,
                    &action,
                    reward,
                    self.eta,
                    self.gamma,
                    blend,
                );
                Ok(())
            },
        }
    }

    /// Plays out a single game and resets the board. The agent of
    /// `agent_player` chooses its moves and learns from them; the other seat
    /// moves by chance.
    pub fn play<B, D>(
        &mut self,
        agent_player: Piece,
        _human_player: Piece,
        blend: &B,
        draw: &D,
    ) -> (log: GameLog) where
        B: Fn(Value, Value, Value, Value, Value) -> Value,
        D: Fn(&mut RandomNumberGenerator) -> Value,

        requires
            old(self).wf(),
            forall|a: Value, b: Value, c: Value, d: Value, e: Value|
                blend.requires((a, b, c, d, e)),
            forall|g: &mut RandomNumberGenerator| draw.requires((g,)),
        ensures
            final(self).played(
                *old(self),
                blend,
                draw,
                agent_player == Piece::P1,
                agent_player == Piece::P2,
                log,
            ),
    {
        self.run(agent_player == Piece::P1, agent_player == Piece::P2, blend, draw)
    }

    /// Plays out a single game in which both agents choose their moves and
    /// learn from them, and resets the board.
    pub fn self_play<B, D>(&mut self, blend: &B, draw: &D) -> (log: GameLog) where
        B: Fn(Value, Value, Value, Value, Value) -> Value,
        D: Fn(&mut RandomNumberGenerator) -> Value,

        requires
            old(self).wf(),
            forall|a: Value, b: Value, c: Value, d: Value, e: Value|
                blend.requires((a, b, c, d, e)),
            forall|g: &mut RandomNumberGenerator| draw.requires((g,)),
        ensures
            final(self).played(*old(self), blend, draw, true, true, log),
    {
        self.run(true, true, blend, draw)
    }

    /// One game: the seats take turns until the game is decided, then the
    /// last turn of the seat that did not end it is revised, and the board is
    /// reset. A seat whose flag is set has its agent choose and learn; the
    /// other moves by chance.
    fn run<B, D>(
        &mut self,
        first_learns: bool,
        second_learns: bool,
        blend: &B,
        draw: &D,
    ) -> (log: GameLog) where
        B: Fn(Value, Value, Value, Value, Value) -> Value,
        D: Fn(&mut RandomNumberGenerator) -> Value,

        requires
            old(self).wf(),
            forall|a: Value, b: Value, c: Value, d: Value, e: Value|
                blend.requires((a, b, c, d, e)),
            forall|g: &mut RandomNumberGenerator| draw.requires((g,)),
        ensures
            final(self).played(*old(self), blend, draw, first_learns, second_learns, log),
    {
        let ghost before = *self;
        let ghost mut history = seq![self.tables()];
        // Stores all of the states and moves of a game.
        let mut state_history: Vec<State> = Vec::new();
        let mut action_history: Vec<Action> = Vec::new();

        state_history.push(self.board.clone());
        let mut winner = Piece::Empty;
        proof {
            self.lemma_ready();
            assert(boards(state_history@)[0] == self.board@);
        }

        while winner == Piece::Empty
            invariant
                self.sized(),
                self.follows(before),
                forall|a: Value, b: Value, c: Value, d: Value, e: Value|
                    blend.requires((a, b, c, d, e)),
                forall|g: &mut RandomNumberGenerator| draw.requires((g,)),
                is_trace(boards(state_history@), action_history@),
                boards(state_history@)[0] == before.board(),
                boards(state_history@)[state_history@.len() - 1] == self.board(),
                winner == self.board().winner(),
                turns_taught(
                    blend,
                    draw,
                    first_learns,
                    second_learns,
                    history,
                    boards(state_history@),
                    action_history@,
                    before.size(),
                    before.rewards_spec(),
                    before.epsilon_spec(),
                    before.eta_spec(),
                    before.gamma_spec(),
                ),
                history[0] == before.tables(),
                history[history.len() - 1] == self.tables(),
            decreases self.board().vacancies(),
        {
            let ghost earlier = *self;
            let ghost shown = boards(state_history@);
            let ghost moves = action_history@;
            // agent_turn mutates the board state in-place
            let learns = if self.board.on_play().to_index() == 1 {
                second_learns
            } else {
                first_learns
            };
            let temp = if learns {
                self.agent_turn(blend, draw)
            } else {
                // choose a random move
                self.random_turn()
            };
            proof {
                earlier.lemma_turn(temp.1);
                lemma_trace_grows(shown, moves, temp.1);
                lemma_turns_taught_grow(
                    blend,
                    draw,
                    first_learns,
                    second_learns,
                    history,
                    shown,
                    moves,
                    before.size(),
                    before.rewards_spec(),
                    before.epsilon_spec(),
                    before.eta_spec(),
                    before.gamma_spec(),
                    self.tables(),
                    temp.1,
                );
                history = history.push(self.tables());
            }
            let state = self.board.clone();
            proof {
                lemma_boards_push(state_history@, state);
            }
            state_history.push(state);
            action_history.push(temp.1);
            winner = temp.0;
        }

        proof {
            lemma_winner_is_result(self.board@);
            lemma_game_length(
                boards(state_history@),
                action_history@,
                self.size.x as nat,
                self.size.y as nat,
            );
        }
        let reward = self.rewards.of_end(winner);
        let corrected = self.backprop(&state_history, &action_history, reward, blend).is_ok();
        self.reset();

        GameLog { winner, states: state_history, actions: action_history, corrected }
    }
}

} // verus!
