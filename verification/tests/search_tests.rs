use connect_four::minimax::MinimaxAgent;
use connect_four::piece::Piece;
use connect_four::search::INFINITY;
use connect_four::state::State;

fn play(columns: &[u8]) -> State {
    let mut board = State::new();
    for &column in columns {
        board.make_move(column);
    }
    board
}

/// Lets an agent answer each of `replies` in turn, after an opening move of
/// its own where `opens` is set, and returns the columns it chose.
fn answers(player: Piece, depth: i32, opens: bool, replies: &[u8]) -> Vec<u8> {
    let mut agent = MinimaxAgent::new(player);
    let mut chosen: Vec<u8> = Vec::new();
    if opens {
        chosen.push(agent.run(depth, None));
    }
    for &reply in replies {
        chosen.push(agent.run(depth, Some(reply)));
    }
    chosen
}

/// Plain negamax without pruning, written against the public interface.
fn plain(state: &mut State, depth: i32) -> i32 {
    if let Some(score) = MinimaxAgent::terminal(state, depth) {
        return score;
    }
    let mut value = -INFINITY;
    for action in state.moves() {
        state.make_move(action);
        let result = -plain(state, depth - 1);
        state.undo_move();
        if result > value {
            value = result;
        }
    }
    value
}

/// The move that an agent for `player` makes at `state`, by plain negamax.
fn plain_choice(state: &mut State, player: Piece, depth: i32) -> u8 {
    let moves = state.moves();
    let mut best = moves[0];
    let mut value = if player == Piece::P1 { -INFINITY } else { INFINITY };
    for action in moves {
        state.make_move(action);
        let result = plain(state, depth - 1);
        state.undo_move();
        if (player == Piece::P1 && result > value) || (player == Piece::P2 && result < value) {
            value = result;
            best = action;
        }
    }
    best
}

/// Lets two agents play each other to the end and returns the columns
/// played, checking each move against plain negamax on the way.
fn self_play(depth: i32) -> (Vec<u8>, Piece) {
    let mut board = State::new();
    let mut agents = vec![MinimaxAgent::new(Piece::P1), MinimaxAgent::new(Piece::P2)];
    let players = [Piece::P1, Piece::P2];
    let mut last: Option<u8> = None;
    let mut played: Vec<u8> = Vec::new();
    while board.winner() == Piece::Empty {
        let p = (board.moves_performed() % 2) as usize;
        let expected = plain_choice(&mut board, players[p], depth);
        let column = agents[p].run(depth, last);
        assert_eq!(column, expected);
        board.make_move(column);
        played.push(column);
        last = Some(column);
    }
    (played, board.winner())
}

#[test]
fn utility_values() {
    assert_eq!(MinimaxAgent::utility(Piece::P1), 100);
    assert_eq!(MinimaxAgent::utility(Piece::P2), -100);
    assert_eq!(MinimaxAgent::utility(Piece::Draw), 50);
    assert_eq!(MinimaxAgent::utility(Piece::Empty), 0);
    assert_eq!(MinimaxAgent::utility(Piece::P1) as f64 / 100.0, 1.0);
    assert_eq!(MinimaxAgent::utility(Piece::P2) as f64 / 100.0, -1.0);
    assert_eq!(MinimaxAgent::utility(Piece::Draw) as f64 / 100.0, 0.5);
}

#[test]
fn terminal_scores() {
    let open = play(&[3, 4, 3]);
    assert_eq!(MinimaxAgent::terminal(&open, 0), Some(1));
    assert_eq!(MinimaxAgent::terminal(&open, 1), None);
    assert_eq!(MinimaxAgent::terminal(&open, 5), None);
    let won = play(&[0, 0, 1, 1, 2, 2, 3]);
    assert_eq!(MinimaxAgent::terminal(&won, 0), Some(100));
    assert_eq!(MinimaxAgent::terminal(&won, 3), Some(100));
    let lost = play(&[0, 6, 1, 6, 0, 6, 1, 6]);
    assert_eq!(MinimaxAgent::terminal(&lost, 2), Some(-100));
}

#[test]
fn negamax_values() {
    let expected: [(&[u8], [i32; 5]); 5] = [
        (&[], [0, 0, 0, 0, 0]),
        (&[3, 4, 3], [1, 1, 1, 0, 1]),
        (&[0, 1, 0, 1, 0, 2], [1, -1, 0, -1, -4]),
        (&[0, 0, 1, 1, 2, 2, 3], [100, 100, 100, 100, 100]),
        (&[3, 3, 4, 4, 2], [3, 0, 4, 0, 4]),
    ];
    for (columns, values) in expected.iter() {
        let mut board = play(columns);
        let before = board.clone();
        for depth in 0..5 {
            let value = MinimaxAgent::negamax(&mut board, depth, -INFINITY, INFINITY);
            assert_eq!(value, values[depth as usize]);
            assert!(board == before);
        }
    }
}

#[test]
fn negamax_with_a_narrow_window() {
    let windows: [((i32, i32), [i32; 5]); 5] = [
        ((-1, 1), [1, 1, 1, 0, 1]),
        ((0, 1), [1, 1, 1, 0, 1]),
        ((-5, -3), [1, -1, 1, -3, -1]),
        ((3, 8), [1, 1, 1, 3, 3]),
        ((-100, 0), [1, 1, 1, 0, 0]),
    ];
    let mut board = play(&[3, 4, 3]);
    let before = board.clone();
    for ((alpha, beta), values) in windows.iter() {
        for depth in 0..5 {
            let value = MinimaxAgent::negamax(&mut board, depth, *alpha, *beta);
            assert_eq!(value, values[depth as usize]);
            assert!(board == before);
        }
    }
}

#[test]
fn pruning_does_not_change_the_value() {
    let positions: [&[u8]; 6] = [
        &[],
        &[3],
        &[3, 4, 3],
        &[0, 1, 0, 1, 0, 2],
        &[3, 3, 4, 4, 2],
        &[1, 1, 2, 2, 3, 3],
    ];
    for columns in positions.iter() {
        let mut board = play(columns);
        let before = board.clone();
        for depth in 0..6 {
            let pruned = MinimaxAgent::negamax(&mut board, depth, -INFINITY, INFINITY);
            let exhaustive = plain(&mut board, depth);
            assert_eq!(pruned, exhaustive);
            assert!(board == before);
        }
    }
}

#[test]
fn pruned_value_lies_on_the_side_of_the_plain_value() {
    let mut board = play(&[3, 3, 4, 4, 2]);
    for depth in 0..5 {
        let m = plain(&mut board, depth);
        for alpha in -6..6 {
            for beta in (alpha + 1)..7 {
                let v = MinimaxAgent::negamax(&mut board, depth, alpha, beta);
                if m <= alpha {
                    assert!(m <= v && v <= alpha);
                } else if m < beta {
                    assert_eq!(v, m);
                } else {
                    assert!(beta <= v && v <= m);
                }
            }
        }
    }
}

#[test]
fn pruning_does_not_change_the_chosen_move() {
    for depth in 1..5 {
        let (played, _) = self_play(depth);
        assert!(!played.is_empty());
    }
}

#[test]
fn self_play_at_depth_four() {
    let (played, winner) = self_play(4);
    assert_eq!(played, vec![0, 0, 5, 1, 1, 2, 1, 1, 1, 4, 0, 3]);
    assert!(winner == Piece::P2);
}

#[test]
fn first_move_on_the_empty_board() {
    let expected_first: [u8; 5] = [0, 0, 0, 0, 1];
    let expected_second: [u8; 5] = [0, 0, 0, 2, 0];
    for depth in 1..=5 {
        let mut agent = MinimaxAgent::new(Piece::P1);
        assert_eq!(agent.run(depth, None), expected_first[(depth - 1) as usize]);
        let mut agent = MinimaxAgent::new(Piece::P2);
        assert_eq!(agent.run(depth, None), expected_second[(depth - 1) as usize]);
    }
}

#[test]
fn an_agent_that_is_no_player_takes_the_first_column() {
    for depth in 1..4 {
        let mut agent = MinimaxAgent::new(Piece::Empty);
        assert_eq!(agent.run(depth, None), 0);
        let mut agent = MinimaxAgent::new(Piece::Draw);
        assert_eq!(agent.run(depth, None), 0);
        // The agent's discs pile up in column 0 until it is full.
        for _ in 0..5 {
            assert_eq!(agent.run(depth, None), 0);
        }
        assert_eq!(agent.run(depth, None), 1);
    }
}

#[test]
fn the_agent_records_both_moves() {
    // The reply and the agent's own move both stay on its board: after the
    // other side fills column 0 together with the agent, the agent has to
    // move elsewhere.
    let mut agent = MinimaxAgent::new(Piece::Empty);
    assert_eq!(agent.run(1, Some(0)), 0);
    assert_eq!(agent.run(1, Some(0)), 0);
    assert_eq!(agent.run(1, Some(0)), 0);
    assert_eq!(agent.run(1, Some(6)), 1);
    // A reply into the full column is no move at all.
    assert_eq!(agent.run(1, Some(0)), 1);
}

#[test]
fn depth_one_search_takes_the_winning_column() {
    // The first player comes to hold the bottom cells of columns 0, 1 and 2,
    // with the bottom cell of column 3 free.
    assert_eq!(answers(Piece::P1, 1, true, &[4, 4]), vec![0, 2, 1]);
    let mut board = play(&[0, 4, 2, 4, 1, 0]);
    assert!(board.winner() == Piece::Empty);
    assert_eq!(plain_choice(&mut board, Piece::P1, 1), 3);
    assert_eq!(answers(Piece::P1, 1, true, &[4, 4, 0]), vec![0, 2, 1, 3]);
    board.make_move(3);
    assert!(board.winner() == Piece::P1);
}

#[test]
fn depth_one_search_takes_the_winning_column_upwards() {
    // The first player holds the three lowest cells of column 0.
    let mut board = play(&[0, 2, 0, 1, 0, 1]);
    assert_eq!(plain_choice(&mut board, Piece::P1, 1), 0);
    assert_eq!(answers(Piece::P1, 1, true, &[2, 1, 1]), vec![0, 0, 0, 0]);
    board.make_move(0);
    assert!(board.winner() == Piece::P1);
}

#[test]
fn second_player_search_takes_the_winning_column() {
    assert_eq!(answers(Piece::P2, 1, false, &[4, 4, 4, 0]), vec![0, 2, 1, 3]);
    assert!(play(&[4, 0, 4, 2, 4, 1, 0, 3]).winner() == Piece::P2);
    assert_eq!(answers(Piece::P2, 3, false, &[0, 1, 0, 0]), vec![2, 3, 4, 5]);
    assert!(play(&[0, 2, 1, 3, 0, 4, 0, 5]).winner() == Piece::P2);
}

#[test]
fn second_player_takes_its_winning_column() {
    // The second player holds three cells of column 6 and is to move.
    let mut board = play(&[0, 6, 1, 6, 0, 6, 1]);
    for depth in 1..4 {
        assert_eq!(plain_choice(&mut board, Piece::P2, depth), 6);
    }
}
