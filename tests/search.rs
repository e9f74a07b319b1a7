use dots_boxes::minmax::{pick_best, MinMaxInterface, MinMaxState};
use dots_boxes::{
    random_free_move, AIMinMax, AIMinMaxInterface, AIState, BarDirection, BarId, BoardState,
    CellState, Game, GameTrait, MinMax, Player, AI,
};

fn v(col: u32, row: u32) -> BarId {
    BarId { direction: BarDirection::Vertical, col, row }
}

fn h(col: u32, row: u32) -> BarId {
    BarId { direction: BarDirection::Horizontal, col, row }
}

fn snapshot(board: &BoardState) -> (Vec<CellState>, Vec<CellState>, Player) {
    let mut bars = Vec::new();
    for i in 0..board.n_bars() {
        bars.push(board.bar_get(board.index_to_bar(i)));
    }
    let mut cells = Vec::new();
    for row in 0..board.height() - 1 {
        for col in 0..board.width() - 1 {
            cells.push(board.cell_get(col, row));
        }
    }
    (bars, cells, board.cur_turn())
}

#[test]
fn checkpoint_rolls_back_every_move() {
    let mut board = BoardState::new(3, 3);
    assert!(board.do_move(v(2, 1)));
    let before = snapshot(&board);
    let mut state = AIState::new(board);
    {
        let mut cp = state.checkpoint();
        // completes cell (0, 0) on the fourth move, then plays on
        for mv in [v(0, 0), v(1, 0), h(0, 0), h(0, 1), h(1, 2), v(1, 1)] {
            assert!(cp.apply(mv));
        }
        assert_eq!(cp.mutation_count, 6);
        assert_eq!(cp.state.board().cell_get(0, 0), CellState::Player(Player::Red));
        cp.close();
    }
    assert_eq!(snapshot(state.board()), before);
}

#[test]
fn nested_checkpoints_unwind_inner_first() {
    let board = BoardState::new(3, 3);
    let before = snapshot(&board);
    let mut state = AIState::new(board);
    {
        let mut outer = state.checkpoint();
        assert!(outer.apply(v(0, 0)));
        let after_one = snapshot(outer.state.board());
        {
            let mut inner = outer.state.checkpoint();
            assert!(inner.apply(v(1, 0)));
            assert!(inner.apply(h(0, 0)));
            inner.close();
        }
        assert_eq!(snapshot(outer.state.board()), after_one);
        outer.close();
    }
    assert_eq!(snapshot(state.board()), before);
}

#[test]
fn illegal_apply_is_refused_without_change() {
    let mut board = BoardState::new(3, 3);
    assert!(board.do_move(v(0, 0)));
    let before = snapshot(&board);
    let mut state = AIState::new(board);
    assert!(!state._apply_move(v(0, 0)));
    assert!(!state._apply_move(h(9, 9)));
    assert_eq!(snapshot(state.board()), before);
    assert!(state._apply_move(v(1, 0)));
    assert!(state._undo_moves(1));
    assert_eq!(snapshot(state.board()), before);
}

#[test]
fn possible_moves_walk_in_legal_order() {
    let mut board = BoardState::new(3, 3);
    assert!(board.do_move(v(1, 0)));
    assert!(board.do_move(h(0, 2)));
    let expected = board.legal_moves();
    let state = AIState::new(board);
    let mut walk = state.possible_moves();
    assert_eq!(walk.next(), Some(v(0, 0)));
    assert_eq!(walk.next(), Some(v(2, 0)));
    let rest = walk.collect_vec();
    assert_eq!(rest, expected[2..].to_vec());
    assert_eq!(walk.next(), None);
    assert_eq!(state.possible_moves().collect_vec(), expected);
}

#[test]
fn pick_best_prefers_the_later_of_equal_scores() {
    let moves = vec![v(0, 0), v(1, 0), v(2, 0)];
    assert_eq!(pick_best(&moves, &vec![1, 3, 3]), Some(v(2, 0)));
    assert_eq!(pick_best(&moves, &vec![3, 3, 1]), Some(v(1, 0)));
    assert_eq!(pick_best(&moves, &vec![5, 3, 1]), Some(v(0, 0)));
    assert_eq!(pick_best(&moves, &vec![-2, -2, -2]), Some(v(2, 0)));
    assert_eq!(pick_best(&Vec::<BarId>::new(), &Vec::new()), None);
}

#[test]
fn best_move_with_one_free_bar_returns_it() {
    let mut board = BoardState::new(3, 3);
    let moves = board.legal_moves();
    for bar in &moves[..moves.len() - 1] {
        assert!(board.do_move(*bar));
    }
    let last = moves[moves.len() - 1];
    assert_eq!(board.legal_moves(), vec![last]);
    let before = snapshot(&board);
    let mut search = MinMax::new(AIMinMaxInterface::new(Player::Blue), AIState::new(board.clone()));
    assert_eq!(search.best_move(), Some(last));
    let mut ai = <AIMinMax as AI>::new(&board, Player::Red);
    assert_eq!(ai.next_move(&board), Some(last));
    assert_eq!(snapshot(&board), before);
}

#[test]
fn best_move_on_a_full_board_is_none() {
    let mut board = BoardState::new(2, 2);
    for bar in board.legal_moves() {
        assert!(board.do_move(bar));
    }
    let mut search = MinMax::new(AIMinMaxInterface::new(Player::Blue), AIState::new(board.clone()));
    assert_eq!(search.best_move(), None);
    let mut state = AIState::new(board);
    let mut rng = rand::thread_rng();
    assert_eq!(random_free_move(&state, &mut rng), None);
    // on a finished board every playout scores the same
    let mut eval = AIMinMaxInterface::new(Player::Blue);
    let owner = state.board().cell_get(0, 0);
    let expected = if owner == CellState::Player(Player::Blue) { 5 } else { -5 };
    assert_eq!(eval.heuristic(&mut state), expected);
}

#[test]
fn best_move_is_legal_and_keeps_the_root() {
    let mut board = BoardState::new(4, 4);
    assert!(board.do_move(v(0, 0)));
    assert!(board.do_move(h(2, 3)));
    let before = snapshot(&board);
    let mut ai = <AIMinMax as AI>::new(&board, Player::Red);
    let mv = ai.next_move(&board).unwrap();
    assert!(board.legal_moves().contains(&mv));
    assert_eq!(snapshot(&board), before);
    let mut search = MinMax::new(AIMinMaxInterface::new(Player::Red), AIState::new(board.clone()));
    let mv = search.best_move().unwrap();
    assert!(board.legal_moves().contains(&mv));
}

#[test]
fn heuristic_hands_the_state_back() {
    let mut board = BoardState::new(3, 3);
    assert!(board.do_move(v(0, 0)));
    let before = snapshot(&board);
    let mut state = AIState::new(board);
    let mut eval = AIMinMaxInterface::new(Player::Red);
    let score = eval.heuristic(&mut state);
    // four cells, five playouts
    assert!((-20..=20).contains(&score));
    assert_eq!(score % 2, 0);
    assert_eq!(snapshot(state.board()), before);
}

#[test]
fn random_free_move_finds_the_only_free_bar() {
    let mut board = BoardState::new(3, 3);
    let moves = board.legal_moves();
    for bar in &moves[1..] {
        assert!(board.do_move(*bar));
    }
    let state = AIState::new(board);
    let mut rng = rand::thread_rng();
    for _ in 0..20 {
        assert_eq!(random_free_move(&state, &mut rng), Some(moves[0]));
    }
}

#[test]
fn random_free_move_is_always_free() {
    let mut board = BoardState::new(4, 3);
    assert!(board.do_move(v(0, 0)));
    assert!(board.do_move(h(1, 1)));
    let legal = board.legal_moves();
    let state = AIState::new(board);
    let mut rng = rand::thread_rng();
    for _ in 0..50 {
        let mv = random_free_move(&state, &mut rng).unwrap();
        assert!(legal.contains(&mv));
    }
}

fn owned_bars<G: GameTrait>(game: &G) -> usize {
    let mut n = 0;
    for row in 0..game.get_height() - 1 {
        for col in 0..game.get_width() {
            if game.vertical_get(col, row) != CellState::Free {
                n += 1;
            }
        }
    }
    for row in 0..game.get_height() {
        for col in 0..game.get_width() - 1 {
            if game.horizontal_get(col, row) != CellState::Free {
                n += 1;
            }
        }
    }
    n
}

#[test]
fn game_lets_the_ai_answer() {
    let mut game = <Game<AIMinMax> as GameTrait>::new(3, 3);
    assert_eq!(game.get_width(), 3);
    assert_eq!(game.get_height(), 3);
    assert!(game.do_move(v(0, 0)));
    assert_eq!(game.vertical_get(0, 0), CellState::Player(Player::Red));
    // the AI (Blue) answered at least once
    assert!(owned_bars(&game) >= 2);
    assert!(!game.do_move(v(0, 0)));
    game.restart(Player::Red);
    assert_eq!(owned_bars(&game), 0);
    assert_eq!(game.cell_get(0, 0), CellState::Free);
}

#[test]
fn game_plays_to_the_end() {
    let mut game = <Game<AIMinMax> as GameTrait>::new(3, 2);
    let all = [v(0, 0), v(1, 0), v(2, 0), h(0, 0), h(1, 0), h(0, 1), h(1, 1)];
    for bar in all {
        game.do_move(bar);
    }
    assert_eq!(owned_bars(&game), 7);
    assert_ne!(game.cell_get(0, 0), CellState::Free);
    assert_ne!(game.cell_get(1, 0), CellState::Free);
}

#[test]
fn four_claims_then_one_taken_back() {
    let mut state = AIState::new(BoardState::new(3, 3));
    assert!(state._apply_move(v(0, 0)));
    assert!(state._apply_move(v(1, 0)));
    assert!(state._apply_move(h(0, 0)));
    assert!(state._apply_move(h(0, 1)));
    assert_eq!(state.board().cell_get(0, 0), CellState::Player(Player::Blue));
    assert_eq!(state.board().cur_turn(), Player::Blue);
    assert!(state._undo_moves(1));
    assert_eq!(state.board().cur_turn(), Player::Blue);
    assert_eq!(state.board().cell_get(0, 0), CellState::Free);
    assert_eq!(state.board().bar_get(h(0, 1)), CellState::Free);
    assert_eq!(state.board().bar_get(v(0, 0)), CellState::Player(Player::Red));
    assert_eq!(state.board().bar_get(v(1, 0)), CellState::Player(Player::Blue));
    assert_eq!(state.board().bar_get(h(0, 0)), CellState::Player(Player::Red));
    assert!(state._undo_moves(3));
    assert_eq!(snapshot(state.board()), snapshot(&BoardState::new(3, 3)));
}

#[test]
fn checkpoint_of_a_scoring_sequence_restores_a_fresh_board() {
    let mut state = AIState::new(BoardState::new(3, 3));
    {
        let mut cp = state.checkpoint();
        assert!(cp.apply(v(0, 0)));
        assert!(cp.apply(v(1, 0)));
        assert!(cp.apply(h(0, 0)));
        assert!(cp.apply(h(0, 1)));
        assert_eq!(cp.state.board().cell_get(0, 0), CellState::Player(Player::Blue));
        cp.close();
    }
    assert_eq!(snapshot(state.board()), snapshot(&BoardState::new(3, 3)));
    assert_eq!(state.board().cur_turn(), Player::Red);
    // nothing is left on the stack to take back
    let mut again = AIState::new(state.board().clone());
    assert!(again._apply_move(v(0, 0)));
    assert!(again._undo_moves(1));
    assert_eq!(snapshot(again.board()), snapshot(state.board()));
}

#[test]
fn finished_single_cell_board_scores_five_playouts() {
    let mut board = BoardState::new(2, 2);
    for bar in [v(0, 0), v(1, 0), h(0, 0), h(0, 1)] {
        assert!(board.do_move(bar));
    }
    assert_eq!(board.cell_get(0, 0), CellState::Player(Player::Blue));
    let mut state = AIState::new(board.clone());
    assert_eq!(AIMinMaxInterface::new(Player::Blue).heuristic(&mut state), 5);
    assert_eq!(AIMinMaxInterface::new(Player::Red).heuristic(&mut state), -5);
    assert_eq!(snapshot(state.board()), snapshot(&board));
}

#[test]
fn free_bar_at_is_one_draw() {
    let mut board = BoardState::new(3, 3);
    assert!(board.do_move(v(1, 0)));
    assert_eq!(board.free_bar_at(0), Some(v(0, 0)));
    assert_eq!(board.free_bar_at(1), None);
    assert_eq!(board.free_bar_at(6), Some(h(0, 0)));
    assert_eq!(board.free_bar_at(11), Some(h(1, 2)));
}

#[test]
fn heuristic_score_has_the_parity_of_five_boards() {
    let mut board = BoardState::new(4, 3);
    assert!(board.do_move(v(0, 0)));
    let mut state = AIState::new(board);
    let mut eval = AIMinMaxInterface::new(Player::Blue);
    for _ in 0..5 {
        let score = eval.heuristic(&mut state);
        // six cells per board, five boards
        assert!((-30..=30).contains(&score));
        assert_eq!((score + 30) % 2, 0);
    }
}
