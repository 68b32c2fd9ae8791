use vstd::prelude::*;
use vstd::arithmetic::div_mod::lemma_fundamental_div_mod_converse;
use bracket_lib::random::RandomNumberGenerator;
use crate::board::Board;
use crate::piece::Piece;
use crate::q_table::{QCell, QKey, QTable};
use crate::random::random_below;
use crate::state::{Action, State};
use crate::value::Value;
use crate::vector::Vector2;

verus! {

/// How often the explorer draws an index before it draws among the legal
/// actions only.
pub const EXPLORE_DRAWS: u32 = 0xFFFF_FFFF;

/// The number of cells of a board of the given size.
pub open spec fn catalogue_len(size: Vector2) -> nat {
    if size.x > 0 && size.y > 0 {
        (size.x * size.y) as nat
    } else {
        0
    }
}

/// The `k`-th move of a seat on a board of the given size: the cells are
/// counted row by row.
pub open spec fn catalogue_entry(size: Vector2, player: Piece, k: int) -> Action {
    Action {
        player,
        position: Vector2 { x: (k / (size.y as int)) as i32, y: (k % (size.y as int)) as i32 },
    }
}

/// Every move that a seat can ever make on a board of the given size.
pub open spec fn full_catalogue(size: Vector2, player: Piece) -> Seq<Action> {
    Seq::new(catalogue_len(size), |k: int| catalogue_entry(size, player, k))
}

/// The value that the table gives a move in a state: what is recorded, and
/// zero for a pair that was never recorded.
pub open spec fn score(table: Map<QKey, QCell>, board: Board, action: Action) -> Value {
    let key = QKey { board, action };
    if table.contains_key(key) {
        table[key].value
    } else {
        Value { bits: 0 }
    }
}

/// The index of the best legal move among the first `n` of `actions`, `None`
/// where none of them is legal. The moves are taken in their order, and a
/// legal move becomes the best where there is none yet or where its score
/// exceeds that of the best so far: of several with the highest score the
/// first is the best.
pub open spec fn best_upto(
    table: Map<QKey, QCell>,
    board: Board,
    actions: Seq<Action>,
    n: nat,
) -> Option<int>
    decreases n,
{
    if n == 0 {
        None
    } else {
        let earlier = best_upto(table, board, actions, (n - 1) as nat);
        let k = n - 1;
        if board.legal(actions[k]) && (earlier is None || score(table, board, actions[k]).exceeds(
            score(table, board, actions[earlier->Some_0]),
        )) {
            Some(k)
        } else {
            earlier
        }
    }
}

/// The score of the best legal move, zero where no move is legal.
pub open spec fn best_score(table: Map<QKey, QCell>, board: Board, actions: Seq<Action>) -> Value {
    match best_upto(table, board, actions, actions.len()) {
        Some(k) => score(table, board, actions[k]),
        None => Value { bits: 0 },
    }
}

/// The number of legal moves among the first `n` of `actions`.
pub open spec fn legal_count(board: Board, actions: Seq<Action>, n: nat) -> nat
    decreases n,
{
    if n == 0 {
        0
    } else {
        legal_count(board, actions, (n - 1) as nat) + if board.legal(actions[n - 1]) {
            1nat
        } else {
            0nat
        }
    }
}

/// `k` is the index of the legal move that has exactly `rank` legal moves
/// before it.
pub open spec fn is_nth_legal(board: Board, actions: Seq<Action>, rank: nat, k: int) -> bool {
    &&& 0 <= k < actions.len()
    &&& board.legal(actions[k])
    &&& legal_count(board, actions, k as nat) == rank
}

/// The visit count that a key has after one more revision: 1 for a key that
/// is new to the table, else one more than before, and never past `u32::MAX`.
pub open spec fn next_visits(table: Map<QKey, QCell>, key: QKey) -> u32 {
    if !table.contains_key(key) {
        1
    } else if table[key].visits < u32::MAX {
        (table[key].visits + 1) as u32
    } else {
        u32::MAX
    }
}

/// The table after the value of `key` was revised to `value`.
pub open spec fn revised(table: Map<QKey, QCell>, key: QKey, value: Value) -> Map<QKey, QCell> {
    table.insert(key, QCell { value, visits: next_visits(table, key) })
}

/// One step of learning led from the table `before` to the table `after`:
/// `blend` was handed the recorded value of `action` on `prev` (zero where
/// there was none), `reward`, `eta`, `gamma` and the score of the best legal
/// move of `catalogue` on `next`, and what it answered is now the value of
/// `action` on `prev`, with one more visit. Nothing else changed.
pub open spec fn learned_step<B: Fn(Value, Value, Value, Value, Value) -> Value>(
    blend: &B,
    before: Map<QKey, QCell>,
    after: Map<QKey, QCell>,
    catalogue: Seq<Action>,
    prev: Board,
    action: Action,
    next: Board,
    reward: Value,
    eta: Value,
    gamma: Value,
) -> bool {
    exists|value: Value|
        {
            &&& blend.ensures(
                (
                    score(before, prev, action),
                    reward,
                    eta,
                    gamma,
                    best_score(before, next, catalogue),
                ),
                value,
            )
            &&& after == #[trigger] revised(before, QKey { board: prev, action }, value)
        }
}

/// A move was chosen as an agent chooses: it is a legal move of `catalogue`,
/// and for some number that `draw` gave it is the best move by `table`
/// where that number exceeds `epsilon`.
pub open spec fn chosen<D: Fn(&mut RandomNumberGenerator) -> Value>(
    draw: &D,
    epsilon: Value,
    table: Map<QKey, QCell>,
    board: Board,
    catalogue: Seq<Action>,
    action: Action,
) -> bool {
    &&& board.legal(action)
    &&& catalogue.contains(action)
    &&& exists|g: &mut RandomNumberGenerator, p: Value|
        {
            &&& #[trigger] draw.ensures((g,), p)
            &&& p.exceeds(epsilon) ==> action == catalogue[best_upto(
                table,
                board,
                catalogue,
                catalogue.len(),
            )->Some_0]
        }
}

/// Some move of `actions` is legal on `board`.
pub open spec fn has_legal(board: Board, actions: Seq<Action>) -> bool {
    exists|k: int| 0 <= k < actions.len() && board.legal(#[trigger] actions[k])
}

/// The best move among the first `n` is one of them and is legal, and there
/// is one as soon as one of the `n` is legal.
pub proof fn lemma_best_is_legal(
    table: Map<QKey, QCell>,
    board: Board,
    actions: Seq<Action>,
    n: nat,
)
    requires
        n <= actions.len(),
    ensures
        match best_upto(table, board, actions, n) {
            Some(b) => 0 <= b < n && board.legal(actions[b]),
            None => forall|k: int| 0 <= k < n ==> !board.legal(#[trigger] actions[k]),
        },
    decreases n,
{
    if n > 0 {
        lemma_best_is_legal(table, board, actions, (n - 1) as nat);
    }
}

/// Where no score is "not a number", no legal move among the first `n`
/// exceeds the best one, and the best one exceeds every legal move before it.
pub proof fn lemma_best_is_first_maximum(
    table: Map<QKey, QCell>,
    board: Board,
    actions: Seq<Action>,
    n: nat,
)
    requires
        n <= actions.len(),
        forall|k: int|
            0 <= k < n && board.legal(actions[k]) ==> !(#[trigger] score(
                table,
                board,
                actions[k],
            )).is_nan(),
    ensures
        match best_upto(table, board, actions, n) {
            Some(b) => {
                &&& forall|k: int|
                    0 <= k < n && board.legal(actions[k]) ==> !(#[trigger] score(
                        table,
                        board,
                        actions[k],
                    )).exceeds(score(table, board, actions[b]))
                &&& forall|k: int|
                    0 <= k < b && board.legal(actions[k]) ==> score(
                        table,
                        board,
                        actions[b],
                    ).exceeds(#[trigger] score(table, board, actions[k]))
            },
            None => true,
        },
    decreases n,
{
    if n > 0 {
        lemma_best_is_legal(table, board, actions, (n - 1) as nat);
        lemma_best_is_first_maximum(table, board, actions, (n - 1) as nat);
        lemma_best_is_legal(table, board, actions, n);
    }
}

/// The legal moves are counted without gaps: each rank below the count
/// belongs to exactly one index.
pub proof fn lemma_nth_legal_exists(board: Board, actions: Seq<Action>, n: nat, rank: nat)
    requires
        n <= actions.len(),
        rank < legal_count(board, actions, n),
    ensures
        exists|k: int| 0 <= k < n && #[trigger] is_nth_legal(board, actions, rank, k),
    decreases n,
{
    if n > 0 {
        let k = n - 1;
        if board.legal(actions[k]) && legal_count(board, actions, k as nat) == rank {
            assert(is_nth_legal(board, actions, rank, k));
        } else {
            lemma_nth_legal_exists(board, actions, (n - 1) as nat, rank);
        }
    }
}

/// The count of legal moves never falls as more moves are counted.
pub proof fn lemma_legal_count_grows(board: Board, actions: Seq<Action>, m: nat, n: nat)
    requires
        m <= n,
    ensures
        legal_count(board, actions, m) <= legal_count(board, actions, n),
    decreases n,
{
    if m < n {
        lemma_legal_count_grows(board, actions, m, (n - 1) as nat);
    }
}

/// There is a legal move exactly where the count of legal moves is not zero.
pub proof fn lemma_legal_count_positive(board: Board, actions: Seq<Action>)
    ensures
        has_legal(board, actions) <==> legal_count(board, actions, actions.len()) > 0,
{
    if has_legal(board, actions) {
        let k = choose|k: int| 0 <= k < actions.len() && board.legal(#[trigger] actions[k]);
        assert(legal_count(board, actions, (k + 1) as nat) >= 1);
        lemma_legal_count_grows(board, actions, (k + 1) as nat, actions.len());
    }
    if legal_count(board, actions, actions.len()) > 0 {
        lemma_nth_legal_exists(board, actions, actions.len(), 0);
        let k = choose|k: int|
            0 <= k < actions.len() && #[trigger] is_nth_legal(board, actions, 0, k);
        assert(board.legal(actions[k]));
    }
}

/// The catalogue of a seat holds a move to every cell of the board.
pub proof fn lemma_catalogue_covers(size: Vector2, player: Piece, i: int, j: int)
    requires
        0 <= i < size.x,
        0 <= j < size.y,
    ensures
        0 <= i * size.y + j < full_catalogue(size, player).len(),
        full_catalogue(size, player)[i * size.y + j] == (Action {
            player,
            position: Vector2 { x: i as i32, y: j as i32 },
        }),
{
    let k = i * size.y + j;
    assert(0 <= k < size.x * size.y) by (nonlinear_arith)
        requires
            0 <= i < size.x,
            0 <= j < size.y,
            k == i * size.y + j,
    ;
    lemma_fundamental_div_mod_converse(k, size.y as int, i, j);
}

/// Every move of a catalogue is a move of its seat.
pub proof fn lemma_catalogue_player(size: Vector2, player: Piece, action: Action)
    requires
        full_catalogue(size, player).contains(action),
    ensures
        action.player == player,
{
}

/// While a board of the catalogue's size has an empty cell, the catalogue
/// has a legal move.
pub proof fn lemma_free_cell_is_legal_move(board: Board, size: Vector2, player: Piece)
    requires
        player.is_seat(),
        board.wf(),
        board.rows() == size.x,
        board.cols() == size.y,
        !board.full(),
    ensures
        has_legal(board, full_catalogue(size, player)),
{
    let (i, j) = crate::board::lemma_free_cell(board);
    lemma_catalogue_covers(size, player, i, j);
    let k = i * size.y + j;
    assert(board.legal(full_catalogue(size, player)[k]));
}

/// Revising a key to the value that it has changes no value of the table:
/// a learning step that answers with the old value teaches nothing.
pub proof fn lemma_same_value_changes_no_score(
    table: Map<QKey, QCell>,
    key: QKey,
    board: Board,
    action: Action,
)
    ensures
        score(revised(table, key, score(table, key.board, key.action)), board, action) == score(
            table,
            board,
            action,
        ),
{
}

/// A step of learning in which `blend` answers the value it was handed
/// teaches nothing. Where, for the `reward`, `eta` and `gamma` of the step,
/// `blend` answers the old value whatever that value and the value of the
/// best next move are, the step keeps every key with its value, and the one
/// key that may be new has the value zero: no move has another score than
/// before.
pub proof fn lemma_idle_step_keeps_values<B: Fn(Value, Value, Value, Value, Value) -> Value>(
    blend: &B,
    before: Map<QKey, QCell>,
    after: Map<QKey, QCell>,
    catalogue: Seq<Action>,
    prev: Board,
    action: Action,
    next: Board,
    reward: Value,
    eta: Value,
    gamma: Value,
)
    requires
        learned_step(blend, before, after, catalogue, prev, action, next, reward, eta, gamma),
        forall|old_value: Value, best: Value, value: Value| #[trigger]
            blend.ensures((old_value, reward, eta, gamma, best), value) ==> value == old_value,
    ensures
        forall|key: QKey|
            before.contains_key(key) ==> #[trigger] after.contains_key(key) && after[key].value
                == before[key].value,
        forall|key: QKey| #[trigger]
            after.contains_key(key) ==> before.contains_key(key) || key == (QKey {
                board: prev,
                action,
            }),
        after.contains_key(QKey { board: prev, action }),
        !before.contains_key(QKey { board: prev, action }) ==> after[QKey {
            board: prev,
            action,
        }].value == (Value { bits: 0 }),
        forall|board: Board, other: Action| #[trigger]
            score(after, board, other) == score(before, board, other),
{
    let value = choose|value: Value|
        {
            &&& blend.ensures(
                (
                    score(before, prev, action),
                    reward,
                    eta,
                    gamma,
                    best_score(before, next, catalogue),
                ),
                value,
            )
            &&& after == #[trigger] revised(before, QKey { board: prev, action }, value)
        };
    assert(value == score(before, prev, action));
}

/// A revision never removes a key.
pub proof fn lemma_revision_keeps_keys(table: Map<QKey, QCell>, key: QKey, value: Value)
    ensures
        revised(table, key, value).contains_key(key),
        forall|k: QKey| table.contains_key(k) ==> #[trigger] revised(table, key, value).contains_key(k),
        forall|k: QKey| k != key && table.contains_key(k) ==> #[trigger] revised(table, key, value)[k] == table[k],
{
}

/// A learner for one seat: the moves it can make and the table of what it
/// has learned of them.
pub struct QLearningAgent {
    q_table: QTable,
    actions: Vec<Action>,
}

impl QLearningAgent {
    /// The moves of this agent, in the order in which it considers them.
    pub closed spec fn catalogue(self) -> Seq<Action> {
        self.actions@
    }

    /// What the agent has learned: its table.
    pub closed spec fn table(self) -> Map<QKey, QCell> {
        self.q_table@
    }

    /// The agent's invariant, which `new` establishes and every method keeps.
    pub closed spec fn wf(self) -> bool {
        self.q_table.wf()
    }

    /// An agent that has learned nothing, for `player` on a board of `board_size`.
    pub fn new(board_size: Vector2, player: Piece) -> (agent: QLearningAgent)
        ensures
            agent.wf(),
            agent.table() == Map::<QKey, QCell>::empty(),
            agent.catalogue() == full_catalogue(board_size, player),
    {
        let q_table = QTable::new();
        let actions = Self::create_actions(board_size, player);
        QLearningAgent { q_table, actions }
    }

    /// Creates the set of moves, row by row.
    fn create_actions(board_size: Vector2, player: Piece) -> (actions: Vec<Action>)
        ensures
            actions@ == full_catalogue(board_size, player),
    {
        let mut actions: Vec<Action> = Vec::new();
        let mut i: i32 = 0;
        while i < board_size.x
            invariant
                0 <= i,
                i <= board_size.x || i == 0,
                board_size.y > 0 ==> actions@.len() == i * board_size.y,
                board_size.y <= 0 ==> actions@.len() == 0,
                forall|k: int|
                    0 <= k < actions@.len() ==> actions@[k] == catalogue_entry(
                        board_size,
                        player,
                        k,
                    ),
            decreases board_size.x - i,
        {
            let mut j: i32 = 0;
            while j < board_size.y
                invariant
                    0 <= i < board_size.x,
                    0 <= j,
                    j <= board_size.y || j == 0,
                    board_size.y > 0 ==> actions@.len() == i * board_size.y + j,
                    board_size.y <= 0 ==> actions@.len() == 0,
                    forall|k: int|
                        0 <= k < actions@.len() ==> actions@[k] == catalogue_entry(
                            board_size,
                            player,
                            k,
                        ),
                decreases board_size.y - j,
            {
                let position = Vector2::new(i, j);
                proof {
                    lemma_fundamental_div_mod_converse(
                        actions@.len() as int,
                        board_size.y as int,
                        i as int,
                        j as int,
                    );
                }
                actions.push(Action { player, position });
                j += 1;
            }
            proof {
                if board_size.y > 0 {
                    assert(i * board_size.y + board_size.y == (i + 1) * board_size.y)
                        by (nonlinear_arith);
                }
            }
            i += 1;
        }
        proof {
            assert(actions@.len() == catalogue_len(board_size)) by {
                if board_size.x > 0 && board_size.y > 0 {
                    assert(i == board_size.x);
                } else if board_size.y > 0 {
                    assert(i == 0);
                }
            }
            assert(actions@ =~= full_catalogue(board_size, player));
        }
        actions
    }

    /// Says of each move of the catalogue whether it is legal in `state`.
    pub fn update_actions(&self, state: &State) -> (legal: Vec<bool>)
        ensures
            legal@.len() == self.catalogue().len(),
            forall|k: int|
                0 <= k < legal@.len() ==> legal@[k] == state@.legal(self.catalogue()[k]),
    {
        let mut legal: Vec<bool> = Vec::new();
        let mut k: usize = 0;
        while k < self.actions.len()
            invariant
                k <= self.actions@.len(),
                legal@.len() == k,
                forall|n: int| 0 <= n < k ==> legal@[n] == state@.legal(self.actions@[n]),
            decreases self.actions.len() - k,
        {
            legal.push(state.allows(&self.actions[k]));
            k += 1;
        }
        legal
    }

    /// Tells how many legal moves there are.
    pub fn legal_actions(&self, state: &State) -> (count: usize)
        ensures
            count == legal_count(state@, self.catalogue(), self.catalogue().len()),
            count <= self.catalogue().len(),
            count > 0 <==> has_legal(state@, self.catalogue()),
    {
        proof {
            lemma_legal_count_positive(state@, self.catalogue());
        }
        let mut count: usize = 0;
        let mut k: usize = 0;
        while k < self.actions.len()
            invariant
                k <= self.actions@.len(),
                count <= k,
                count == legal_count(state@, self.actions@, k as nat),
            decreases self.actions.len() - k,
        {
            if state.allows(&self.actions[k]) {
                count += 1;
            }
            k += 1;
        }
        count
    }

    /// The moves of this agent, in the order in which it considers them.
    pub fn actions(&self) -> (actions: Vec<Action>)
        ensures
            actions@ == self.catalogue(),
    {
        self.actions.clone()
    }

    /// What the table holds for a move in a state, if it holds anything.
    pub fn entry(&self, state: &State, action: &Action) -> (found: Option<QCell>)
        requires
            self.wf(),
        ensures
            found == (if self.table().contains_key(QKey { board: state@, action: *action }) {
                Some(self.table()[QKey { board: state@, action: *action }])
            } else {
                None
            }),
    {
        self.q_table.get(state, action)
    }

    /// The recorded value of a move in a state, zero where none is recorded.
    pub fn q_value(&self, state: &State, action: &Action) -> (value: Value)
        requires
            self.wf(),
        ensures
            value == score(self.table(), state@, *action),
    {
        match self.q_table.get(state, action) {
            Some(cell) => cell.value,
            None => Value::zero(),
        }
    }

    /// Chooses the legal move with the highest value in `state`.
    /// Returns its index in the catalogue and its value; index 0 and the value
    /// zero where no move is legal.
    fn max_q_action(&self, state: &State) -> (best: (usize, Value))
        requires
            self.wf(),
        ensures
            match best_upto(self.table(), state@, self.catalogue(), self.catalogue().len()) {
                Some(k) => best.0 == k && best.1 == score(
                    self.table(),
                    state@,
                    self.catalogue()[k],
                ),
                None => best.0 == 0 && best.1 == (Value { bits: 0 }),
            },
    {
        let mut q_value = Value::zero();
        let mut index: usize = 0;
        let mut found = false;
        let mut i: usize = 0;
        while i < self.actions.len()
            invariant
                i <= self.actions@.len(),
                self.wf(),
                match best_upto(self.table(), state@, self.actions@, i as nat) {
                    Some(k) => found && index == k && q_value == score(
                        self.table(),
                        state@,
                        self.actions@[k],
                    ),
                    None => !found && index == 0 && q_value == (Value { bits: 0 }),
                },
            decreases self.actions.len() - i,
        {
            if state.allows(&self.actions[i]) {
                let q = self.q_value(state, &self.actions[i]);
                if !found || q.gt(q_value) {
                    q_value = q;
                    index = i;
                    found = true;
                }
            }
            i += 1;
        }
        (index, q_value)
    }

    /// The legal move with the highest value in `state`, the first of them
    /// where several share it.
    pub fn greedy_action(&self, state: &State) -> (action: Action)
        requires
            self.wf(),
            has_legal(state@, self.catalogue()),
        ensures
            best_upto(self.table(), state@, self.catalogue(), self.catalogue().len()) is Some,
            action == self.catalogue()[best_upto(
                self.table(),
                state@,
                self.catalogue(),
                self.catalogue().len(),
            )->Some_0],
            state@.legal(action),
    {
        proof {
            lemma_best_is_legal(self.table(), state@, self.catalogue(), self.catalogue().len());
        }
        let index = self.max_q_action(state).0;
        self.actions[index]
    }

    /// The value of the best legal move in `state`, zero where none is legal.
    pub fn bootstrap(&self, state: &State) -> (value: Value)
        requires
            self.wf(),
        ensures
            value == best_score(self.table(), state@, self.catalogue()),
    {
        self.max_q_action(state).1
    }

    /// The legal move that has exactly `rank` legal moves before it in the
    /// catalogue.
    pub fn nth_legal_action(&self, state: &State, rank: usize) -> (action: Action)
        requires
            rank < legal_count(state@, self.catalogue(), self.catalogue().len()),
        ensures
            exists|k: int|
                #[trigger] is_nth_legal(state@, self.catalogue(), rank as nat, k) && action
                    == self.catalogue()[k],
            state@.legal(action),
    {
        let mut count: usize = 0;
        let mut k: usize = 0;
        while k < self.actions.len()
            invariant
                k <= self.actions@.len(),
                count <= rank,
                count == legal_count(state@, self.actions@, k as nat),
            decreases self.actions.len() - k,
        {
            if state.allows(&self.actions[k]) {
                if count == rank {
                    assert(self.catalogue() == self.actions@);
                    assert(is_nth_legal(state@, self.catalogue(), rank as nat, k as int));
                    return self.actions[k];
                }
                count += 1;
            }
            k += 1;
        }
        proof {
            assert(false);
        }
        Action { player: Piece::Empty, position: Vector2 { x: 0, y: 0 } }
    }

    /// The move at `index` of the catalogue, if there is one and it is legal
    /// in `state`: what one draw of the explorer amounts to.
    pub fn legal_at(&self, state: &State, index: usize) -> (action: Option<Action>)
        ensures
            action == (if index < self.catalogue().len() && state@.legal(
                self.catalogue()[index as int],
            ) {
                Some(self.catalogue()[index as int])
            } else {
                None
            }),
    {
        if index < self.actions.len() && state.allows(&self.actions[index]) {
            Some(self.actions[index])
        } else {
            None
        }
    }

    /// A legal move picked by chance, each with the same odds, whatever the
    /// table holds.
    pub fn choose_random_action(
        &self,
        state: &State,
        rng: &mut RandomNumberGenerator,
    ) -> (action: Action)
        requires
            has_legal(state@, self.catalogue()),
        ensures
            state@.legal(action),
            self.catalogue().contains(action),
    {
        proof {
            lemma_legal_count_positive(state@, self.catalogue());
        }
        let count = self.legal_actions(state);
        let rank = random_below(rng, count);
        self.nth_legal_action(state, rank)
    }

    /// A legal move found by drawing indices of the catalogue until one is
    /// legal. After `EXPLORE_DRAWS` draws without one, the move is drawn among
    /// the legal ones, so that the search ends and every legal move keeps the
    /// same odds.
    pub fn explore_action(
        &self,
        state: &State,
        rng: &mut RandomNumberGenerator,
    ) -> (action: Action)
        requires
            has_legal(state@, self.catalogue()),
        ensures
            state@.legal(action),
            self.catalogue().contains(action),
    {
        let len = self.actions.len();
        let mut draws: u32 = 0;
        while draws < EXPLORE_DRAWS
            invariant
                len == self.actions@.len(),
                len > 0,
            decreases EXPLORE_DRAWS - draws,
        {
            let index = random_below(rng, len);
            match self.legal_at(state, index) {
                Some(action) => {
                    return action;
                },
                None => {},
            }
            draws += 1;
        }
        self.choose_random_action(state, rng)
    }

    /// Uses the table to choose the best move, sometimes choosing a random
    /// one: `draw` gives a number `p`, and the best move is chosen where `p`
    /// is greater than `epsilon`.
    pub fn choose_action<D>(
        &self,
        state: State,
        rng: &mut RandomNumberGenerator,
        epsilon: Value,
        draw: &D,
    ) -> (action: Action) where D: Fn(&mut RandomNumberGenerator) -> Value
        requires
            self.wf(),
            has_legal(state@, self.catalogue()),
            forall|g: &mut RandomNumberGenerator| draw.requires((g,)),
        ensures
            chosen(draw, epsilon, self.table(), state@, self.catalogue(), action),
    {
        let p = draw(rng);
        self.decide(&state, rng, p.gt(epsilon))
    }

    /// The move of a turn once it is settled whether the agent exploits what
    /// it has learned: the best move if it does, a move found by chance if not.
    pub fn decide(
        &self,
        state: &State,
        rng: &mut RandomNumberGenerator,
        exploit: bool,
    ) -> (action: Action)
        requires
            self.wf(),
            has_legal(state@, self.catalogue()),
        ensures
            state@.legal(action),
            self.catalogue().contains(action),
            exploit ==> action == self.catalogue()[best_upto(
                self.table(),
                state@,
                self.catalogue(),
                self.catalogue().len(),
            )->Some_0],
    {
        if exploit {
            proof {
                lemma_best_is_legal(
                    self.table(),
                    state@,
                    self.catalogue(),
                    self.catalogue().len(),
                );
            }
            self.greedy_action(state)
        } else {
            self.explore_action(state, rng)
        }
    }

    /// Stores `value` as the new value of `action` in `prev_state` and counts
    /// the revision.
    pub fn record(&mut self, prev_state: &State, action: &Action, value: Value)
        requires
            old(self).wf(),
        ensures
            final(self).wf(),
            final(self).catalogue() == old(self).catalogue(),
            final(self).table() == revised(
                old(self).table(),
                QKey { board: prev_state@, action: *action },
                value,
            ),
    {
        let visits = match self.q_table.get(prev_state, action) {
            None => 1,
            Some(cell) => if cell.visits < u32::MAX {
                cell.visits + 1
            } else {
                u32::MAX
            },
        };
        self.q_table.put(prev_state, action, QCell { value, visits });
    }

    /// Updates the value of `action` in `prev_state` by the Bellman equation.
    ///
    /// `blend` does the arithmetic. It is handed, in this order, the recorded
    /// value (zero where there is none), `reward`, `eta`, `gamma` and the value
    /// of the best legal move in `state`, and answers with the new value
    /// `old + eta * (reward + gamma * best - old)`.
    pub fn update_q<B>(
        &mut self,
        prev_state: State,
        state: State,
        action: &Action,
        reward: Value,
        eta: Value,
        gamma: Value,
        blend: &B,
    ) where B: Fn(Value, Value, Value, Value, Value) -> Value
        requires
            old(self).wf(),
            forall|a: Value, b: Value, c: Value, d: Value, e: Value|
                blend.requires((a, b, c, d, e)),
        ensures
            final(self).wf(),
            final(self).catalogue() == old(self).catalogue(),
            learned_step(
                blend,
                old(self).table(),
                final(self).table(),
                old(self).catalogue(),
                prev_state@,
                *action,
                state@,
                reward,
                eta,
                gamma,
            ),
    {
        // max_q is the largest q value given the next state and set of available actions.
        let max_q = self.bootstrap(&state);
        let current = self.q_value(&prev_state, action);
        let value = blend(current, reward, eta, gamma, max_q);
        let ghost before = self.table();
        self.record(&prev_state, action, value);
        assert(self.table() == revised(
            before,
            QKey { board: prev_state@, action: *action },
            value,
        ));
    }
}

} // verus!
