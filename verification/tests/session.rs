use bracket_lib::random::RandomNumberGenerator;
use qlearn_tictactoe::game::{backprop_target, Game, MalformedTrajectory, Rewards};
use qlearn_tictactoe::piece::Piece;
use qlearn_tictactoe::q_agent::QLearningAgent;
use qlearn_tictactoe::results::QResult;
use qlearn_tictactoe::state::{Action, State};
use qlearn_tictactoe::training::{decayed_epsilon, epoch, train, Plan};
use qlearn_tictactoe::value::Value;
use qlearn_tictactoe::vector::Vector2;

fn v(x: f64) -> Value {
    Value::from_bits(x.to_bits())
}

fn f(value: Value) -> f64 {
    f64::from_bits(value.to_bits())
}

fn blend(old: Value, reward: Value, eta: Value, gamma: Value, next: Value) -> Value {
    v(f(old) + f(eta) * (f(reward) + f(gamma) * f(next) - f(old)))
}

fn draw(rng: &mut RandomNumberGenerator) -> Value {
    v(rng.range(0.0f64, 1.0f64))
}

fn at(player: Piece, x: i32, y: i32) -> Action {
    Action { player, position: Vector2::new(x, y) }
}

fn seeded(size: (i32, i32), epsilon: f64, seed: u64) -> Game {
    Game::with_rng(
        Vector2::new(size.0, size.1),
        v(epsilon),
        v(0.1),
        v(0.9),
        RandomNumberGenerator::seeded(seed),
    )
}

#[test]
fn standard_rewards() {
    let rewards = Rewards::standard();
    assert_eq!(f(rewards.win), 1.0);
    assert_eq!(f(rewards.draw), 0.5);
    assert_eq!(f(rewards.other), 0.0);
    assert_eq!(f(rewards.final_draw), 0.5);
    assert_eq!(f(rewards.final_loss), -0.5);
}

#[test]
fn rewards_of_moves_and_of_the_end() {
    let mut rewards = Rewards::standard();
    rewards.final_draw = v(0.25);
    assert_eq!(f(rewards.of_move(Piece::P1, Piece::P1)), 1.0);
    assert_eq!(f(rewards.of_move(Piece::P2, Piece::P2)), 1.0);
    assert_eq!(f(rewards.of_move(Piece::Draw, Piece::P1)), 0.5);
    assert_eq!(f(rewards.of_move(Piece::Empty, Piece::P1)), 0.0);
    assert_eq!(f(rewards.of_move(Piece::P2, Piece::P1)), 0.0);
    assert_eq!(f(rewards.of_end(Piece::Draw)), 0.25);
    assert_eq!(f(rewards.of_end(Piece::P1)), -0.5);
    assert_eq!(f(rewards.of_end(Piece::P2)), -0.5);
}

#[test]
fn softer_reward_for_a_draw_reaches_the_table() {
    let mut game = seeded((3, 3), 0.0, 6);
    let mut rewards = Rewards::standard();
    rewards.final_draw = v(0.25);
    rewards.final_loss = v(-1.0);
    game.set_rewards(rewards);
    let log = game.play(Piece::P2, Piece::Empty, &blend, &draw);
    let n = log.actions.len();
    let action = log.actions[n - 2];
    let cell = game.agent(action.player).entry(&log.states[n - 2], &action).unwrap();
    let end = if log.winner == Piece::Draw { 0.25 } else { -1.0 };
    if action.player == Piece::P2 {
        assert_eq!(cell.visits, 2);
        assert_eq!(f(cell.value), 0.0 + 0.1 * (end - 0.0));
    } else {
        assert_eq!(cell.visits, 1);
        assert_eq!(f(cell.value), 0.1 * end);
    }
}

#[test]
fn new_session_starts_on_an_empty_board() {
    let game = Game::new(Vector2::new(3, 3), v(0.1), v(0.1), v(0.9));
    assert!(game.current().same_as(&State::new(Vector2::new(3, 3))));
    assert_eq!(f(game.epsilon()), 0.1);
    assert_eq!(f(game.eta()), 0.1);
    assert_eq!(f(game.gamma()), 0.9);
    assert_eq!(game.board_size(), Vector2::new(3, 3));
    assert_eq!(game.rewards(), Rewards::standard());
    assert_eq!(game.agent(Piece::P1).actions()[0].player, Piece::P1);
    assert_eq!(game.agent(Piece::P2).actions()[0].player, Piece::P2);
    assert_eq!(game.agent(Piece::P1).actions().len(), 9);
}

#[test]
fn epsilon_and_rewards_can_be_set() {
    let mut game = seeded((3, 3), 0.1, 1);
    game.set_epsilon(v(0.05));
    assert_eq!(f(game.epsilon()), 0.05);
    let mut rewards = Rewards::standard();
    rewards.final_draw = v(0.25);
    game.set_rewards(rewards);
    assert_eq!(f(game.rewards().final_draw), 0.25);
    assert_eq!(f(game.rewards().win), 1.0);
}

#[test]
fn update_board_rewards_the_winning_move() {
    let rewards = Rewards::standard();
    let mut board = State::new(Vector2::new(3, 3));
    for (player, x, y) in [
        (Piece::P1, 0, 0),
        (Piece::P2, 1, 0),
        (Piece::P1, 0, 1),
        (Piece::P2, 1, 1),
    ] {
        let (winner, reward) = Game::update_board(&mut board, &at(player, x, y), &rewards);
        assert_eq!(winner, Piece::Empty);
        assert_eq!(f(reward), 0.0);
    }
    let (winner, reward) = Game::update_board(&mut board, &at(Piece::P1, 0, 2), &rewards);
    assert_eq!(winner, Piece::P1);
    assert_eq!(f(reward), 1.0);
    assert_eq!(board.get_piece(&Vector2::new(0, 2)), Piece::P1);
}

#[test]
fn update_board_rewards_the_move_that_draws() {
    let rewards = Rewards::standard();
    let mut board = State::new(Vector2::new(3, 3));
    let moves = [
        (Piece::P1, 0, 0),
        (Piece::P2, 0, 1),
        (Piece::P1, 0, 2),
        (Piece::P2, 1, 1),
        (Piece::P1, 1, 0),
        (Piece::P2, 1, 2),
        (Piece::P1, 2, 1),
        (Piece::P2, 2, 0),
    ];
    for (player, x, y) in moves {
        let (winner, _) = Game::update_board(&mut board, &at(player, x, y), &rewards);
        assert_eq!(winner, Piece::Empty);
    }
    let (winner, reward) = Game::update_board(&mut board, &at(Piece::P1, 2, 2), &rewards);
    assert_eq!(winner, Piece::Draw);
    assert_eq!(f(reward), 0.5);
}

#[test]
fn update_board_leaves_the_board_after_an_illegal_move() {
    let rewards = Rewards::standard();
    let mut board = State::new(Vector2::new(3, 3));
    Game::update_board(&mut board, &at(Piece::P1, 1, 1), &rewards);
    let before = board.clone();
    let (winner, reward) = Game::update_board(&mut board, &at(Piece::P2, 1, 1), &rewards);
    assert!(board.same_as(&before));
    assert_eq!(winner, Piece::Empty);
    assert_eq!(f(reward), 0.0);
}

#[test]
fn correction_needs_three_states_and_three_moves() {
    let mut states = vec![State::new(Vector2::new(3, 3))];
    let mut actions = Vec::new();
    let moves = [(Piece::P1, 0, 0), (Piece::P2, 1, 1), (Piece::P1, 2, 2), (Piece::P2, 0, 2)];
    for (n, (player, x, y)) in moves.iter().enumerate() {
        if n < 3 {
            assert_eq!(
                backprop_target(&states, &actions).err(),
                Some(MalformedTrajectory)
            );
        }
        let action = at(*player, *x, *y);
        let next = states[states.len() - 1].play(&action).unwrap();
        states.push(next);
        actions.push(action);
    }
    assert!(backprop_target(&states[..2].to_vec(), &actions).is_err());
    assert!(backprop_target(&states, &actions[..2].to_vec()).is_err());
    let target = backprop_target(&states, &actions).unwrap();
    assert!(target.prev_state.same_as(&states[2]));
    assert!(target.state.same_as(&states[3]));
    assert_eq!(target.action, at(Piece::P1, 2, 2));
}

#[test]
fn correction_of_a_three_move_game_is_the_second_move() {
    let mut states = vec![State::new(Vector2::new(2, 2))];
    let mut actions = Vec::new();
    for (player, x, y) in [(Piece::P1, 0, 0), (Piece::P2, 0, 1), (Piece::P1, 1, 1)] {
        let action = at(player, x, y);
        let next = states[states.len() - 1].play(&action).unwrap();
        states.push(next);
        actions.push(action);
    }
    let target = backprop_target(&states, &actions).unwrap();
    assert!(target.prev_state.same_as(&states[1]));
    assert!(target.state.same_as(&states[2]));
    assert_eq!(target.action, at(Piece::P2, 0, 1));
}

#[test]
fn backprop_revises_the_table_of_the_seat_that_moved() {
    let mut game = seeded((2, 2), 0.0, 1);
    let mut states = vec![State::new(Vector2::new(2, 2))];
    let mut actions = Vec::new();
    for (player, x, y) in [(Piece::P1, 0, 0), (Piece::P2, 0, 1), (Piece::P1, 1, 1)] {
        let action = at(player, x, y);
        let next = states[states.len() - 1].play(&action).unwrap();
        states.push(next);
        actions.push(action);
    }
    assert_eq!(game.backprop(&states, &actions, v(-0.5), &blend), Ok(()));
    let cell = game.agent(Piece::P2).entry(&states[1], &actions[1]).unwrap();
    assert_eq!(f(cell.value), 0.1 * -0.5);
    assert_eq!(cell.visits, 1);
    assert_eq!(game.agent(Piece::P1).entry(&states[1], &actions[1]), None);
    assert_eq!(game.agent(Piece::P1).entry(&states[0], &actions[0]), None);
    assert_eq!(game.agent(Piece::P1).entry(&states[2], &actions[2]), None);
}

#[test]
fn backprop_of_a_short_record_changes_nothing() {
    let mut game = seeded((3, 3), 0.0, 1);
    let first = State::new(Vector2::new(3, 3));
    let action = at(Piece::P1, 0, 0);
    let second = first.play(&action).unwrap();
    let states = vec![first.clone(), second];
    let actions = vec![action];
    assert_eq!(
        game.backprop(&states, &actions, v(-0.5), &blend),
        Err(MalformedTrajectory)
    );
    assert_eq!(game.agent(Piece::P1).entry(&first, &action), None);
    assert_eq!(game.agent(Piece::P2).entry(&first, &action), None);
}

fn check_record(log: &qlearn_tictactoe::game::GameLog, size: (i32, i32)) {
    assert_eq!(log.states.len(), log.actions.len() + 1);
    assert!(log.states[0].same_as(&State::new(Vector2::new(size.0, size.1))));
    for (k, action) in log.actions.iter().enumerate() {
        assert_eq!(action.player, log.states[k].on_play());
        assert!(log.states[k].allows(action));
        assert_eq!(log.states[k].check_winner(), Piece::Empty);
        assert!(log.states[k].play(action).unwrap().same_as(&log.states[k + 1]));
    }
    let last = &log.states[log.states.len() - 1];
    assert_eq!(last.check_winner(), log.winner);
    assert!(matches!(log.winner, Piece::P1 | Piece::P2 | Piece::Draw));
    assert_eq!(log.corrected, log.actions.len() >= 3);
}

#[test]
fn play_records_a_whole_legal_game_and_resets_the_board() {
    let mut game = seeded((3, 3), 0.5, 11);
    for _ in 0..50 {
        let log = game.play(Piece::P2, Piece::Empty, &blend, &draw);
        check_record(&log, (3, 3));
        assert!(log.actions.len() >= 5 && log.actions.len() <= 9);
        assert!(log.corrected);
        assert!(game.current().same_as(&State::new(Vector2::new(3, 3))));
    }
}

#[test]
fn play_teaches_the_agent_seat_only() {
    let mut game = seeded((3, 3), 0.0, 3);
    let log = game.play(Piece::P1, Piece::Empty, &blend, &draw);
    let mut learned = 0;
    for (k, action) in log.actions.iter().enumerate() {
        if action.player == Piece::P1 {
            assert!(game.agent(Piece::P1).entry(&log.states[k], action).is_some());
            learned += 1;
        } else if k + 2 != log.actions.len() {
            assert_eq!(game.agent(Piece::P2).entry(&log.states[k], action), None);
        }
        assert_eq!(game.agent(Piece::P1).entry(&log.states[k + 1], action), None);
    }
    assert!(learned >= 3);
}

#[test]
fn play_corrects_the_second_to_last_move() {
    let mut game = seeded((3, 3), 0.0, 9);
    let log = game.play(Piece::P1, Piece::Empty, &blend, &draw);
    let n = log.actions.len();
    let action = log.actions[n - 2];
    let cell = game.agent(action.player).entry(&log.states[n - 2], &action).unwrap();
    let end = if log.winner == Piece::Draw { 0.5 } else { -0.5 };
    if action.player == Piece::P1 {
        // The agent's own turn was revised once with no reward, then corrected.
        assert_eq!(cell.visits, 2);
        assert_eq!(f(cell.value), 0.0 + 0.1 * (end - 0.0));
    } else {
        assert_eq!(cell.visits, 1);
        assert_eq!(f(cell.value), 0.1 * end);
    }
}

#[test]
fn self_play_teaches_both_seats() {
    let mut game = seeded((3, 3), 0.2, 21);
    let log = game.self_play(&blend, &draw);
    check_record(&log, (3, 3));
    for (k, action) in log.actions.iter().enumerate() {
        assert!(game.agent(action.player).entry(&log.states[k], action).is_some());
    }
    assert!(game.current().same_as(&State::new(Vector2::new(3, 3))));
}

#[test]
fn game_on_a_single_cell_is_too_short_to_correct() {
    let mut game = seeded((1, 1), 0.0, 5);
    let log = game.play(Piece::P1, Piece::Empty, &blend, &draw);
    check_record(&log, (1, 1));
    assert_eq!(log.winner, Piece::P1);
    assert_eq!(log.actions, vec![at(Piece::P1, 0, 0)]);
    assert!(!log.corrected);
    let cell = game.agent(Piece::P1).entry(&log.states[0], &log.actions[0]).unwrap();
    assert_eq!(f(cell.value), 0.1);
}

#[test]
fn games_on_other_boards_are_legal_too() {
    for size in [(2, 2), (2, 3), (3, 2), (4, 4), (1, 3)] {
        let mut game = seeded(size, 0.3, 17);
        for _ in 0..10 {
            let log = game.play(Piece::P1, Piece::Empty, &blend, &draw);
            check_record(&log, size);
        }
    }
}

#[test]
fn games_repeat_with_the_same_seed() {
    let mut a = seeded((3, 3), 0.3, 99);
    let mut b = seeded((3, 3), 0.3, 99);
    for _ in 0..20 {
        let x = a.play(Piece::P2, Piece::Empty, &blend, &draw);
        let y = b.play(Piece::P2, Piece::Empty, &blend, &draw);
        assert_eq!(x.actions, y.actions);
        assert_eq!(x.winner, y.winner);
    }
}

#[test]
fn reset_empties_the_board_of_the_session() {
    let mut game = seeded((3, 3), 0.0, 1);
    game.random_turn();
    assert!(!game.current().same_as(&State::new(Vector2::new(3, 3))));
    game.reset();
    assert!(game.current().same_as(&State::new(Vector2::new(3, 3))));
}

#[test]
fn turns_move_the_seat_on_the_play() {
    let mut game = seeded((3, 3), 0.0, 1);
    let (winner, action) = game.agent_turn(&blend, &draw);
    assert_eq!(winner, Piece::Empty);
    assert_eq!(action, at(Piece::P1, 0, 0));
    assert_eq!(game.current().on_play(), Piece::P2);
    let (winner, action) = game.random_turn();
    assert_eq!(winner, Piece::Empty);
    assert_eq!(action.player, Piece::P2);
    assert_eq!(game.current().get_piece(&action.position), Piece::P2);
    assert_eq!(game.current().on_play(), Piece::P1);
}

#[test]
fn tally_counts_each_result_in_its_place() {
    let mut result = QResult::new(7);
    assert_eq!(result, QResult { games_played: 7, p1_win: 0, p2_win: 0, draw: 0 });
    for winner in [Piece::P1, Piece::P2, Piece::P2, Piece::Draw, Piece::Empty, Piece::P1, Piece::P1] {
        result.count(winner);
    }
    assert_eq!(result, QResult { games_played: 7, p1_win: 3, p2_win: 2, draw: 1 });
}

#[test]
fn epoch_counts_every_game() {
    let mut game = seeded((3, 3), 0.1, 4);
    let report = epoch(&mut game, 200, false, Piece::P2, Piece::Empty, &blend, &draw);
    assert!(game.current().same_as(&State::new(Vector2::new(3, 3))));
    assert_eq!(report.result.games_played, 200);
    assert_eq!(report.result.p1_win + report.result.p2_win + report.result.draw, 200);
    assert!(report.games.is_empty());
    let report = epoch(&mut game, 5, true, Piece::P2, Piece::Empty, &blend, &draw);
    assert_eq!(report.games.len(), 5);
    let mut again = QResult::new(5);
    for log in report.games.iter() {
        check_record(log, (3, 3));
        again.count(log.winner);
    }
    assert_eq!(again, report.result);
    let report = epoch(&mut game, 0, true, Piece::P2, Piece::Empty, &blend, &draw);
    assert_eq!(report.result, QResult::new(0));
}

#[test]
fn epsilon_decays_on_every_nth_round_and_stops_at_zero() {
    assert_eq!(f(decayed_epsilon(0, 10, v(0.1), v(0.09))), 0.09);
    assert_eq!(f(decayed_epsilon(20, 10, v(0.1), v(0.09))), 0.09);
    assert_eq!(f(decayed_epsilon(7, 10, v(0.1), v(0.09))), 0.1);
    assert_eq!(f(decayed_epsilon(10, 10, v(0.005), v(-0.005))), 0.0);
    assert_eq!(decayed_epsilon(10, 10, v(0.005), v(-0.005)).to_bits(), 0);
    assert_eq!(decayed_epsilon(10, 10, v(0.01), v(0.0)).to_bits(), 0);
    assert_eq!(decayed_epsilon(10, 10, v(0.01), v(-0.0)).to_bits(), 0);
    assert_eq!(f(decayed_epsilon(10, 10, v(0.0), v(-0.01))), 0.0);
    assert_eq!(f(decayed_epsilon(3, 1, v(0.5), v(0.25))), 0.25);
}

#[test]
fn training_tests_after_every_round_and_lets_epsilon_decay() {
    let mut game = seeded((3, 3), 0.03, 8);
    let plan = Plan {
        epochs: 6,
        epoch_games: 20,
        test_games: 10,
        decay_every: 2,
        agent_player: Piece::P2,
        human_player: Piece::Empty,
        keep: false,
    };
    let lower = |epsilon: Value| v(f(epsilon) - 0.02);
    let report = train(&mut game, &plan, &blend, &draw, &lower);
    assert!(game.current().same_as(&State::new(Vector2::new(3, 3))));
    assert!(report.games.is_empty());
    let data = report.test_data;
    assert_eq!(data.len(), 6);
    for result in data.iter() {
        assert_eq!(result.games_played, 10);
        assert_eq!(result.p1_win + result.p2_win + result.draw, 10);
    }
    // Lowered after rounds 0 and 2: 0.03 -> 0.01 -> 0, and zero stays.
    assert_eq!(f(game.epsilon()), 0.0);
}

#[test]
fn training_keeps_the_records_it_is_asked_for() {
    let mut game = seeded((3, 3), 0.1, 8);
    let plan = Plan {
        epochs: 3,
        epoch_games: 4,
        test_games: 2,
        decay_every: 10,
        agent_player: Piece::P2,
        human_player: Piece::Empty,
        keep: true,
    };
    let lower = |epsilon: Value| v(f(epsilon) - 0.01);
    let report = train(&mut game, &plan, &blend, &draw, &lower);
    assert_eq!(report.games.len(), 3 * (4 + 2));
    for log in report.games.iter() {
        check_record(log, (3, 3));
    }
    // The last two games of each round are its test.
    for (round, result) in report.test_data.iter().enumerate() {
        let mut again = QResult::new(2);
        for log in report.games[round * 6 + 4..round * 6 + 6].iter() {
            again.count(log.winner);
        }
        assert_eq!(again, *result);
    }
    assert_eq!(f(game.epsilon()), 0.1 - 0.01);
}

#[test]
fn trained_first_seat_beats_a_random_opponent() {
    let mut game = seeded((3, 3), 0.1, 2022);
    let plan = Plan {
        epochs: 16,
        epoch_games: 256,
        test_games: 10,
        decay_every: 1,
        agent_player: Piece::P1,
        human_player: Piece::Empty,
        keep: false,
    };
    let lower = |epsilon: Value| v(f(epsilon) - 0.01);
    train(&mut game, &plan, &blend, &draw, &lower);
    assert_eq!(f(game.epsilon()), 0.0);
    let report = epoch(&mut game, 500, false, Piece::P1, Piece::Empty, &blend, &draw);
    let result = report.result;
    assert_eq!(result.p1_win + result.p2_win + result.draw, 500);
    assert!(
        result.p1_win > result.p2_win,
        "the agent won {} games and the random seat {}",
        result.p1_win,
        result.p2_win
    );
    assert!(result.p1_win as f64 / 500.0 > 0.6);
}

fn scripted_move(state: &State) -> Action {
    let order = [
        (1, 1),
        (0, 0),
        (0, 2),
        (2, 0),
        (2, 2),
        (0, 1),
        (1, 0),
        (1, 2),
        (2, 1),
    ];
    for (x, y) in order {
        let action = at(Piece::P2, x, y);
        if state.allows(&action) {
            return action;
        }
    }
    unreachable!()
}

fn scripted_game(
    agent: &mut QLearningAgent,
    rng: &mut RandomNumberGenerator,
    epsilon: f64,
    learn: bool,
) -> Piece {
    let rewards = Rewards::standard();
    let mut board = State::new(Vector2::new(3, 3));
    let mut last: Option<(State, State, Action)> = None;
    loop {
        let before = board.clone();
        let action = agent.choose_action(before.clone(), rng, v(epsilon), &draw);
        let (winner, reward) = Game::update_board(&mut board, &action, &rewards);
        if learn {
            agent.update_q(before.clone(), board.clone(), &action, reward, v(0.2), v(0.9), &blend);
        }
        if winner != Piece::Empty {
            return winner;
        }
        last = Some((before, board.clone(), action));
        let reply = scripted_move(&board);
        let (winner, _) = Game::update_board(&mut board, &reply, &rewards);
        if winner != Piece::Empty {
            if learn {
                let (prev, next, action) = last.take().unwrap();
                let end = if winner == Piece::Draw { rewards.final_draw } else { rewards.final_loss };
                agent.update_q(prev, next, &action, end, v(0.2), v(0.9), &blend);
            }
            return winner;
        }
    }
}

#[test]
fn trained_agent_never_loses_to_the_scripted_opponent() {
    let mut agent = QLearningAgent::new(Vector2::new(3, 3), Piece::P1);
    let mut rng = RandomNumberGenerator::seeded(31);
    let games = 6000;
    for n in 0..games {
        let epsilon = 0.5 * (1.0 - n as f64 / games as f64);
        scripted_game(&mut agent, &mut rng, epsilon, true);
    }
    for _ in 0..200 {
        scripted_game(&mut agent, &mut rng, -1.0, true);
    }
    for _ in 0..20 {
        let winner = scripted_game(&mut agent, &mut rng, -1.0, false);
        assert!(winner == Piece::P1 || winner == Piece::Draw);
    }
}
