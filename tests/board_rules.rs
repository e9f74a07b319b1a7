use dots_boxes::{BarDirection, BarId, BoardState, CellState, Player};

fn v(col: u32, row: u32) -> BarId {
    BarId { direction: BarDirection::Vertical, col, row }
}

fn h(col: u32, row: u32) -> BarId {
    BarId { direction: BarDirection::Horizontal, col, row }
}

fn all_bars(board: &BoardState) -> Vec<(BarId, CellState)> {
    let mut res = Vec::new();
    for i in 0..board.n_bars() {
        let bar = board.index_to_bar(i);
        res.push((bar, board.bar_get(bar)));
    }
    res
}

fn all_cells(board: &BoardState) -> Vec<CellState> {
    let mut res = Vec::new();
    for row in 0..board.height() - 1 {
        for col in 0..board.width() - 1 {
            res.push(board.cell_get(col, row));
        }
    }
    res
}

#[test]
fn new_board_is_empty() {
    let board = BoardState::new(4, 3);
    assert_eq!(board.width(), 4);
    assert_eq!(board.height(), 3);
    assert_eq!(board.cur_turn(), Player::Red);
    // 4 x 2 vertical bars and 3 x 3 horizontal bars
    assert_eq!(board.n_bars(), 17);
    assert!(all_bars(&board).iter().all(|(_, s)| *s == CellState::Free));
    assert_eq!(all_cells(&board), vec![CellState::Free; 6]);
}

#[test]
fn completing_a_cell_scores_and_keeps_the_turn() {
    let mut board = BoardState::new(3, 3);
    assert!(board.do_move(v(0, 0)));
    assert_eq!(board.cur_turn(), Player::Blue);
    assert!(board.do_move(v(1, 0)));
    assert_eq!(board.cur_turn(), Player::Red);
    assert!(board.do_move(h(0, 0)));
    assert_eq!(board.cur_turn(), Player::Blue);
    assert_eq!(board.cell_get(0, 0), CellState::Free);
    assert!(board.do_move(h(0, 1)));
    assert_eq!(board.cell_get(0, 0), CellState::Player(Player::Blue));
    assert_eq!(board.cur_turn(), Player::Blue);
    assert_eq!(board.bar_get(h(0, 1)), CellState::Player(Player::Blue));
    assert_eq!(board.cell_get(1, 0), CellState::Free);
    assert_eq!(board.cell_get(0, 1), CellState::Free);
    assert_eq!(board.cell_get(1, 1), CellState::Free);

    // taking the fourth move back restores the turn and frees the cell
    assert!(board.undo_move(h(0, 1)));
    assert_eq!(board.cur_turn(), Player::Blue);
    assert_eq!(board.cell_get(0, 0), CellState::Free);
    assert_eq!(board.bar_get(h(0, 1)), CellState::Free);
    assert_eq!(board.bar_get(h(0, 0)), CellState::Player(Player::Red));
}

#[test]
fn one_bar_can_complete_two_cells() {
    let mut board = BoardState::new(3, 2);
    for bar in [v(0, 0), v(2, 0), h(0, 0), h(0, 1), h(1, 0), h(1, 1)] {
        assert!(board.do_move(bar));
    }
    // six moves with no score: the turn went back and forth
    assert_eq!(board.cur_turn(), Player::Red);
    assert!(board.do_move(v(1, 0)));
    assert_eq!(board.cell_get(0, 0), CellState::Player(Player::Red));
    assert_eq!(board.cell_get(1, 0), CellState::Player(Player::Red));
    assert_eq!(board.cur_turn(), Player::Red);
    assert!(board.undo_move(v(1, 0)));
    assert_eq!(board.cell_get(0, 0), CellState::Free);
    assert_eq!(board.cell_get(1, 0), CellState::Free);
    assert_eq!(board.cur_turn(), Player::Red);
}

#[test]
fn turn_passes_only_without_a_score() {
    let mut board = BoardState::new(3, 3);
    let mut expected = Player::Red;
    for bar in [v(0, 0), v(2, 1), h(1, 0), h(0, 2)] {
        assert_eq!(board.cur_turn(), expected);
        assert!(board.do_move(bar));
        expected = expected.other();
    }
    assert_eq!(board.cur_turn(), expected);
    assert_eq!(all_cells(&board), vec![CellState::Free; 4]);
}

#[test]
fn rejected_moves_change_nothing() {
    let mut board = BoardState::new(3, 3);
    assert!(board.do_move(v(0, 0)));
    let bars = all_bars(&board);
    // already owned
    assert!(!board.do_move(v(0, 0)));
    // out of range
    assert!(!board.do_move(v(3, 0)));
    assert!(!board.do_move(v(0, 2)));
    assert!(!board.do_move(h(2, 0)));
    assert!(!board.do_move(h(0, 3)));
    assert_eq!(all_bars(&board), bars);
    assert_eq!(board.cur_turn(), Player::Blue);
}

#[test]
fn undo_refuses_an_inconsistent_bar() {
    let mut board = BoardState::new(3, 3);
    assert!(board.do_move(v(0, 0)));
    // a free bar cannot be taken back
    assert!(!board.undo_move(v(1, 0)));
    // out of range
    assert!(!board.undo_move(h(5, 5)));
    assert!(board.do_move(v(1, 0)));
    // v(0, 0) is Red's, but the inference says Blue made the latest move
    assert!(!board.undo_move(v(0, 0)));
    assert_eq!(board.bar_get(v(0, 0)), CellState::Player(Player::Red));
    assert!(board.undo_move(v(1, 0)));
    assert_eq!(board.cur_turn(), Player::Blue);
}

#[test]
fn owned_bars_and_cells_stay_owned() {
    let mut board = BoardState::new(3, 3);
    let moves = [v(0, 0), v(1, 0), h(0, 0), h(0, 1), v(2, 0), h(1, 0), h(1, 1)];
    let mut before_bars = all_bars(&board);
    let mut before_cells = all_cells(&board);
    for bar in moves {
        assert!(board.do_move(bar));
        let bars = all_bars(&board);
        let cells = all_cells(&board);
        for (old, new) in before_bars.iter().zip(bars.iter()) {
            if old.1 != CellState::Free {
                assert_eq!(old.1, new.1);
            }
        }
        for (old, new) in before_cells.iter().zip(cells.iter()) {
            if *old != CellState::Free {
                assert_eq!(old, new);
            }
        }
        before_bars = bars;
        before_cells = cells;
    }
    assert_eq!(board.cell_get(1, 0), CellState::Player(Player::Blue));
}

#[test]
fn restart_clears_everything() {
    let mut board = BoardState::new(3, 3);
    for bar in [v(0, 0), v(1, 0), h(0, 0), h(0, 1), v(2, 1)] {
        assert!(board.do_move(bar));
    }
    board.restart(Player::Blue);
    assert_eq!(board.cur_turn(), Player::Blue);
    assert!(all_bars(&board).iter().all(|(_, s)| *s == CellState::Free));
    assert_eq!(all_cells(&board), vec![CellState::Free; 4]);
    assert_eq!(board.legal_moves().len(), 12);
    board.restart(Player::Red);
    assert_eq!(board.cur_turn(), Player::Red);
}

#[test]
fn legal_moves_are_vertical_then_horizontal_row_major() {
    let mut board = BoardState::new(3, 3);
    assert!(board.do_move(v(1, 0)));
    assert!(board.do_move(h(0, 2)));
    let moves = board.legal_moves();
    let expected = vec![
        v(0, 0),
        v(2, 0),
        v(0, 1),
        v(1, 1),
        v(2, 1),
        h(0, 0),
        h(1, 0),
        h(0, 1),
        h(1, 1),
        h(1, 2),
    ];
    assert_eq!(moves, expected);
    assert_eq!(board.legal_moves(), expected);
    assert_eq!(board.first_free_from(0), Some((v(0, 0), 0)));
    assert_eq!(board.first_free_from(1), Some((v(2, 0), 2)));
    assert_eq!(board.first_free_from(6), Some((h(0, 0), 6)));
    assert_eq!(board.first_free_from(10), Some((h(1, 2), 11)));
    assert_eq!(board.first_free_from(12), None);
}

#[test]
fn index_to_bar_covers_both_grids() {
    let board = BoardState::new(3, 2);
    assert_eq!(board.n_bars(), 7);
    assert_eq!(board.index_to_bar(0), v(0, 0));
    assert_eq!(board.index_to_bar(2), v(2, 0));
    assert_eq!(board.index_to_bar(3), h(0, 0));
    assert_eq!(board.index_to_bar(4), h(1, 0));
    assert_eq!(board.index_to_bar(5), h(0, 1));
    assert_eq!(board.index_to_bar(6), h(1, 1));
}

#[test]
fn full_board_has_every_cell_owned_and_no_move() {
    let mut board = BoardState::new(4, 3);
    let moves = board.legal_moves();
    assert_eq!(moves.len(), 17);
    for bar in moves {
        assert!(board.do_move(bar));
    }
    assert!(board.legal_moves().is_empty());
    assert_eq!(board.first_free_from(0), None);
    assert!(all_cells(&board).iter().all(|c| *c != CellState::Free));
    let red = board.score_for(Player::Red);
    let blue = board.score_for(Player::Blue);
    assert_eq!(red, -blue);
    assert_eq!(red.abs() % 2, 0);
}

#[test]
fn score_counts_cells() {
    let mut board = BoardState::new(3, 2);
    // Red, Blue, Red, Blue, Red, Blue take the outer bars; Red closes both cells
    for bar in [v(0, 0), v(2, 0), h(0, 0), h(0, 1), h(1, 0), h(1, 1), v(1, 0)] {
        assert!(board.do_move(bar));
    }
    assert_eq!(board.score_for(Player::Red), 2);
    assert_eq!(board.score_for(Player::Blue), -2);
}

#[test]
fn clone_is_equal() {
    let mut board = BoardState::new(3, 3);
    assert!(board.do_move(v(0, 0)));
    let copy = board.clone();
    assert_eq!(all_bars(&copy), all_bars(&board));
    assert_eq!(all_cells(&copy), all_cells(&board));
    assert_eq!(copy.cur_turn(), board.cur_turn());
}

#[test]
fn names() {
    assert_eq!(Player::Red.name(), "Red");
    assert_eq!(Player::Blue.name(), "Blue");
    assert_eq!(CellState::Free.name(), "Free");
    assert_eq!(CellState::Player(Player::Blue).name(), "Blue");
    assert_eq!(Player::Red.other(), Player::Blue);
    assert_eq!(Player::Blue.other(), Player::Red);
    assert_eq!(CellState::from(Player::Red), CellState::Player(Player::Red));
}
