use vstd::prelude::*;
use bracket_lib::random::RandomNumberGenerator;
use crate::board::Board;
use crate::game::{Game, GameLog};
use crate::piece::Piece;
use crate::results::QResult;
use crate::value::Value;

verus! {

/// What a run of training is made of.
#[derive(PartialEq, Eq, Structural, Clone, Copy, Debug)]
pub struct Plan {
    /// The number of rounds, each a batch of training and a batch of testing.
    pub epochs: usize,
    /// The number of games in a batch of training.
    pub epoch_games: usize,
    /// The number of games in a batch of testing.
    pub test_games: usize,
    /// Epsilon is lowered after every round whose number this divides.
    pub decay_every: usize,
    /// The seat whose agent chooses and learns.
    pub agent_player: Piece,
    /// The seat of a human player, if there is one.
    pub human_player: Piece,
    /// Whether the records of the games are kept, to be shown.
    pub keep: bool,
}

/// What a run of training leaves: the tallies of the tests, one for each
/// round, and the records of all games where they were asked for.
#[derive(Debug)]
pub struct TrainingReport {
    pub test_data: Vec<QResult>,
    pub games: Vec<GameLog>,
}

/// The tally of a batch of games and, where they were asked for, the records
/// of the games.
#[derive(Debug)]
pub struct EpochReport {
    pub result: QResult,
    pub games: Vec<GameLog>,
}

/// The tally of the first `n` of `games` in a batch of `to_play` games.
pub open spec fn tally(games: Seq<GameLog>, n: nat, to_play: usize) -> QResult
    decreases n,
{
    if n == 0 {
        QResult { games_played: to_play, p1_win: 0, p2_win: 0, draw: 0 }
    } else {
        tally(games, (n - 1) as nat, to_play).with(games[n - 1].winner)
    }
}

/// The sessions follow one another by the games of `logs`: each game leads
/// from one session to the next, with the agent of `agent_player` learning.
pub open spec fn batch_played<
    B: Fn(Value, Value, Value, Value, Value) -> Value,
    D: Fn(&mut RandomNumberGenerator) -> Value,
>(
    blend: &B,
    draw: &D,
    agent_player: Piece,
    sessions: Seq<Game>,
    logs: Seq<GameLog>,
) -> bool {
    &&& sessions.len() == logs.len() + 1
    &&& forall|k: int|
        0 <= k < logs.len() ==> sessions[k + 1].played(
            sessions[k],
            blend,
            draw,
            agent_player == Piece::P1,
            agent_player == Piece::P2,
            #[trigger] logs[k],
        )
}

/// Epsilon after round `epoch`: where `every` divides the number of the round
/// and epsilon is above zero it becomes `lowered`, or zero if that is not
/// above zero; else it stays.
pub open spec fn decayed(epoch: usize, every: usize, epsilon: Value, lowered: Value) -> Value {
    if epoch % every == 0 && epsilon.exceeds(Value { bits: 0 }) {
        if lowered.within(Value { bits: 0 }) {
            Value { bits: 0 }
        } else {
            lowered
        }
    } else {
        epsilon
    }
}

/// What holds of a batch of `to_play` games that led from the session
/// `before` to the session `after`: the games followed one another, the
/// tally counts their results, and their records are kept where `keep` is set.
pub open spec fn epoch_played<
    B: Fn(Value, Value, Value, Value, Value) -> Value,
    D: Fn(&mut RandomNumberGenerator) -> Value,
>(
    blend: &B,
    draw: &D,
    agent_player: Piece,
    to_play: usize,
    keep: bool,
    before: Game,
    after: Game,
    report: EpochReport,
) -> bool {
    exists|sessions: Seq<Game>, logs: Seq<GameLog>|
        {
            &&& #[trigger] batch_played(blend, draw, agent_player, sessions, logs)
            &&& logs.len() == to_play
            &&& sessions[0] == before
            &&& sessions[to_play as int] == after
            &&& report.result == tally(logs, to_play as nat, to_play)
            &&& keep ==> report.games@ == logs
            &&& !keep ==> report.games@.len() == 0
        }
}

/// What holds of round `round` of a plan that led from the session `before`
/// to the session `after`: a batch of training, then a batch of testing with
/// the tally `test`, then the decay of epsilon, for which `lower` was asked
/// what to lower it to. The records grew by those that the two batches kept.
pub open spec fn round_played<
    B: Fn(Value, Value, Value, Value, Value) -> Value,
    D: Fn(&mut RandomNumberGenerator) -> Value,
    L: Fn(Value) -> Value,
>(
    blend: &B,
    draw: &D,
    lower: &L,
    plan: Plan,
    round: usize,
    before: Game,
    after: Game,
    test: QResult,
    kept_before: Seq<GameLog>,
    kept_after: Seq<GameLog>,
) -> bool {
    exists|trained: Game, tested: Game, training: EpochReport, testing: EpochReport, lowered: Value|
        {
            &&& #[trigger] epoch_played(
                blend,
                draw,
                plan.agent_player,
                plan.epoch_games,
                plan.keep,
                before,
                trained,
                training,
            )
            &&& #[trigger] epoch_played(
                blend,
                draw,
                plan.agent_player,
                plan.test_games,
                plan.keep,
                trained,
                tested,
                testing,
            )
            &&& test == testing.result
            &&& kept_after == kept_before + training.games@ + testing.games@
            &&& #[trigger] lower.ensures((tested.epsilon_spec(),), lowered)
            &&& after == tested.with_epsilon(
                decayed(round, plan.decay_every, tested.epsilon_spec(), lowered),
            )
        }
}

/// The rounds of a plan followed one another: `rounds` holds the sessions
/// before the first round and after each round, and `kept` the records kept
/// up to each of these.
pub open spec fn rounds_played<
    B: Fn(Value, Value, Value, Value, Value) -> Value,
    D: Fn(&mut RandomNumberGenerator) -> Value,
    L: Fn(Value) -> Value,
>(
    blend: &B,
    draw: &D,
    lower: &L,
    plan: Plan,
    rounds: Seq<Game>,
    kept: Seq<Seq<GameLog>>,
    test_data: Seq<QResult>,
) -> bool {
    &&& rounds.len() == test_data.len() + 1
    &&& kept.len() == test_data.len() + 1
    &&& forall|k: int|
        0 <= k < test_data.len() ==> round_played(
            blend,
            draw,
            lower,
            plan,
            k as usize,
            rounds[k],
            rounds[k + 1],
            #[trigger] test_data[k],
            kept[k],
            kept[k + 1],
        )
}

/// The tally of the first games of a batch does not depend on the later ones.
pub proof fn lemma_tally_keeps(a: Seq<GameLog>, b: Seq<GameLog>, n: nat, to_play: usize)
    requires
        n <= a.len(),
        n <= b.len(),
        forall|k: int| 0 <= k < n ==> a[k] == b[k],
    ensures
        tally(a, n, to_play) == tally(b, n, to_play),
    decreases n,
{
    if n > 0 {
        lemma_tally_keeps(a, b, (n - 1) as nat, to_play);
    }
}

/// Epsilon after round `epoch`, given what it would be lowered to.
pub fn decayed_epsilon(epoch: usize, every: usize, epsilon: Value, lowered: Value) -> (next: Value)
    requires
        every > 0,
    ensures
        next == decayed(epoch, every, epsilon, lowered),
{
    if epoch % every == 0 && epsilon.gt(Value::zero()) {
        if lowered.le(Value::zero()) {
            Value::zero()
        } else {
            lowered
        }
    } else {
        epsilon
    }
}

/// Plays `to_play` games and counts their results. The records of the games
/// are kept where `keep` is set.
pub fn epoch<B, D>(
    game: &mut Game,
    to_play: usize,
    keep: bool,
    agent_player: Piece,
    human_player: Piece,
    blend: &B,
    draw: &D,
) -> (report: EpochReport) where
    B: Fn(Value, Value, Value, Value, Value) -> Value,
    D: Fn(&mut RandomNumberGenerator) -> Value,

    requires
        old(game).wf(),
        forall|a: Value, b: Value, c: Value, d: Value, e: Value| blend.requires((a, b, c, d, e)),
        forall|g: &mut RandomNumberGenerator| draw.requires((g,)),
    ensures
        final(game).wf(),
        final(game).board() == Board::blank(
            old(game).size().x as nat,
            old(game).size().y as nat,
        ),
        final(game).follows(*old(game)),
        report.result.games_played == to_play,
        report.result.counted() == to_play,
        report.games@.len() == (if keep {
            to_play
        } else {
            0
        }),
        epoch_played(blend, draw, agent_player, to_play, keep, *old(game), *final(game), report),
{
    let ghost before = *game;
    let ghost mut sessions = seq![*game];
    let ghost mut logs = Seq::<GameLog>::empty();
    let mut result = QResult::new(to_play);
    let mut games: Vec<GameLog> = Vec::new();

    // Play the games.
    let mut i: usize = 0;
    while i < to_play
        invariant
            i <= to_play,
            game.wf(),
            game.follows(before),
            forall|a: Value, b: Value, c: Value, d: Value, e: Value|
                blend.requires((a, b, c, d, e)),
            forall|g: &mut RandomNumberGenerator| draw.requires((g,)),
            result.games_played == to_play,
            result.counted() == i,
            games@.len() == (if keep {
                i
            } else {
                0
            }),
            batch_played(blend, draw, agent_player, sessions, logs),
            logs.len() == i,
            sessions[0] == before,
            sessions[i as int] == *game,
            result == tally(logs, i as nat, to_play),
            keep ==> games@ == logs,
        decreases to_play - i,
    {
        let ghost earlier_sessions = sessions;
        let ghost earlier_logs = logs;
        let log = game.play(agent_player, human_player, blend, draw);
        proof {
            sessions = sessions.push(*game);
            logs = logs.push(log);
            assert forall|k: int| 0 <= k < logs.len() implies sessions[k + 1].played(
                sessions[k],
                blend,
                draw,
                agent_player == Piece::P1,
                agent_player == Piece::P2,
                #[trigger] logs[k],
            ) by {
                if k < earlier_logs.len() {
                    assert(logs[k] == earlier_logs[k]);
                    assert(sessions[k] == earlier_sessions[k]);
                    assert(sessions[k + 1] == earlier_sessions[k + 1]);
                }
            }
            lemma_tally_keeps(earlier_logs, logs, i as nat, to_play);
        }
        result.count(log.winner);
        if keep {
            games.push(log);
        }
        i += 1;
    }
    let report = EpochReport { result, games };
    proof {
        assert(batch_played(blend, draw, agent_player, sessions, logs));
    }
    report
}

/// Runs the rounds of `plan`: each trains, then tests, then lets epsilon
/// decay. `lower` says what epsilon is lowered to. Returns the tallies of
/// the tests, one for each round, and the records of the games in the order
/// in which they were played if the plan asks for them.
pub fn train<B, D, L>(game: &mut Game, plan: &Plan, blend: &B, draw: &D, lower: &L) -> (report:
    TrainingReport) where
    B: Fn(Value, Value, Value, Value, Value) -> Value,
    D: Fn(&mut RandomNumberGenerator) -> Value,
    L: Fn(Value) -> Value,

    requires
        old(game).wf(),
        plan.decay_every > 0,
        forall|a: Value, b: Value, c: Value, d: Value, e: Value| blend.requires((a, b, c, d, e)),
        forall|g: &mut RandomNumberGenerator| draw.requires((g,)),
        forall|v: Value| lower.requires((v,)),
    ensures
        final(game).wf(),
        final(game).size() == old(game).size(),
        final(game).board() == Board::blank(
            old(game).size().x as nat,
            old(game).size().y as nat,
        ),
        report.test_data@.len() == plan.epochs,
        forall|k: int|
            0 <= k < report.test_data@.len() ==> (#[trigger] report.test_data@[k]).games_played
                == plan.test_games && report.test_data@[k].counted() == plan.test_games,
        !plan.keep ==> report.games@.len() == 0,
        exists|rounds: Seq<Game>, kept: Seq<Seq<GameLog>>|
            {
                &&& #[trigger] rounds_played(blend, draw, lower, *plan, rounds, kept, report.test_data@)
                &&& rounds[0] == *old(game)
                &&& rounds[plan.epochs as int] == *final(game)
                &&& kept[0] == Seq::<GameLog>::empty()
                &&& kept[plan.epochs as int] == report.games@
            },
{
    let ghost mut rounds = seq![*game];
    let ghost mut kept = seq![Seq::<GameLog>::empty()];
    let mut test_data: Vec<QResult> = Vec::new();
    let mut games: Vec<GameLog> = Vec::new();
    let mut e: usize = 0;
    while e < plan.epochs
        invariant
            e <= plan.epochs,
            game.wf(),
            game.size() == old(game).size(),
            plan.decay_every > 0,
            forall|a: Value, b: Value, c: Value, d: Value, e: Value|
                blend.requires((a, b, c, d, e)),
            forall|g: &mut RandomNumberGenerator| draw.requires((g,)),
            forall|v: Value| lower.requires((v,)),
            test_data@.len() == e,
            forall|k: int|
                0 <= k < test_data@.len() ==> (#[trigger] test_data@[k]).games_played
                    == plan.test_games && test_data@[k].counted() == plan.test_games,
            !plan.keep ==> games@.len() == 0,
            rounds_played(blend, draw, lower, *plan, rounds, kept, test_data@),
            rounds[0] == *old(game),
            rounds[e as int] == *game,
            kept[0] == Seq::<GameLog>::empty(),
            kept[e as int] == games@,
        decreases plan.epochs - e,
    {
        let ghost before = *game;
        let ghost kept_before = games@;
        let ghost earlier_rounds = rounds;
        let ghost earlier_kept = kept;
        let ghost earlier_data = test_data@;

        // Training
        let mut train_result = epoch(
            game,
            plan.epoch_games,
            plan.keep,
            plan.agent_player,
            plan.human_player,
            blend,
            draw,
        );
        let ghost trained = *game;
        let ghost training = train_result;
        games.append(&mut train_result.games);

        // Testing
        let mut test_result = epoch(
            game,
            plan.test_games,
            plan.keep,
            plan.agent_player,
            plan.human_player,
            blend,
            draw,
        );
        let ghost tested = *game;
        let ghost testing = test_result;
        games.append(&mut test_result.games);
        test_data.push(test_result.result);

        // Check if we should decrement epsilon.
        let epsilon = game.epsilon();
        let lowered = lower(epsilon);
        game.set_epsilon(decayed_epsilon(e, plan.decay_every, epsilon, lowered));
        proof {
            tested.lemma_with(
                decayed(e, plan.decay_every, epsilon, lowered),
                tested.rewards_spec(),
            );
            assert(round_played(
                blend,
                draw,
                lower,
                *plan,
                e,
                before,
                *game,
                testing.result,
                kept_before,
                games@,
            )) by {
                assert(epoch_played(
                    blend,
                    draw,
                    plan.agent_player,
                    plan.epoch_games,
                    plan.keep,
                    before,
                    trained,
                    training,
                ));
                assert(epoch_played(
                    blend,
                    draw,
                    plan.agent_player,
                    plan.test_games,
                    plan.keep,
                    trained,
                    tested,
                    testing,
                ));
                assert(lower.ensures((tested.epsilon_spec(),), lowered));
                assert(games@ =~= kept_before + training.games@ + testing.games@);
            }
            rounds = rounds.push(*game);
            kept = kept.push(games@);
            assert forall|k: int| 0 <= k < test_data@.len() implies round_played(
                blend,
                draw,
                lower,
                *plan,
                k as usize,
                rounds[k],
                rounds[k + 1],
                #[trigger] test_data@[k],
                kept[k],
                kept[k + 1],
            ) by {
                if k < earlier_data.len() {
                    assert(test_data@[k] == earlier_data[k]);
                    assert(rounds[k] == earlier_rounds[k]);
                    assert(rounds[k + 1] == earlier_rounds[k + 1]);
                    assert(kept[k] == earlier_kept[k]);
                    assert(kept[k + 1] == earlier_kept[k + 1]);
                }
            }
        }
        e += 1;
    }
    let report = TrainingReport { test_data, games };
    proof {
        assert(rounds_played(blend, draw, lower, *plan, rounds, kept, report.test_data@));
    }
    report
}

} // verus!
