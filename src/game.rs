//! A game against the machine: the human's move is applied, then the AI
//! moves for as long as it holds the turn.
use crate::ai::AI;
use crate::board::{BarDirection, BarId, BoardState, CellState, Player, MAX_AREA};
use crate::model::{all_legal, lemma_after_move_free_count, play, BoardModel};
use vstd::prelude::*;

verus! {

/// What a user interface needs from a game.
pub trait GameTrait: Sized {
    /// The board as it stands.
    spec fn board_view(&self) -> BoardModel;

    spec fn wf(&self) -> bool;

    fn new(width: u32, height: u32) -> (r: Self)
        requires
            2 <= width,
            2 <= height,
            width * height <= MAX_AREA,
        ensures
            r.wf(),
            r.board_view().width == width,
            r.board_view().height == height,
    ;

    /// The human claims `bar`; false, with nothing changed, when that is
    /// not a legal move.
    fn do_move(&mut self, bar: BarId) -> (r: bool)
        requires
            old(self).wf(),
        ensures
            final(self).wf(),
            r == old(self).board_view().is_legal(bar),
            !r ==> final(self).board_view() == old(self).board_view(),
    ;

    fn restart(&mut self, starting_player: Player)
        requires
            old(self).wf(),
        ensures
            final(self).wf(),
            final(self).board_view() == BoardModel::empty(
                old(self).board_view().width,
                old(self).board_view().height,
                starting_player,
            ),
    ;

    fn get_width(&self) -> (r: u32)
        ensures
            r == self.board_view().width,
    ;

    fn get_height(&self) -> (r: u32)
        ensures
            r == self.board_view().height,
    ;

    fn vertical_get(&self, col: u32, row: u32) -> (r: CellState)
        requires
            self.wf(),
            col < self.board_view().width,
            row + 1 < self.board_view().height,
        ensures
            r == self.board_view().vbar(col as int, row as int),
    ;

    fn horizontal_get(&self, col: u32, row: u32) -> (r: CellState)
        requires
            self.wf(),
            col + 1 < self.board_view().width,
            row < self.board_view().height,
        ensures
            r == self.board_view().hbar(col as int, row as int),
    ;

    fn cell_get(&self, col: u32, row: u32) -> (r: CellState)
        requires
            self.wf(),
            self.board_view().valid_cell(col as int, row as int),
        ensures
            r == self.board_view().cell(col as int, row as int),
    ;
}

/// A board played by a human against an AI that plays Blue.
pub struct Game<A: AI> {
    board: BoardState,
    ai: A,
    ai_player: Player,
}

impl<A: AI> Game<A> {
    /// The player the AI moves for.
    pub closed spec fn ai_player(&self) -> Player {
        self.ai_player
    }
}

impl<A: AI> GameTrait for Game<A> {
    closed spec fn board_view(&self) -> BoardModel {
        self.board@
    }

    closed spec fn wf(&self) -> bool {
        self.board.wf()
    }

    fn new(width: u32, height: u32) -> (r: Self)
        ensures
            r.board_view() == BoardModel::empty(width as nat, height as nat, Player::Red),
            r.ai_player() == Player::Blue,
    {
        let board = BoardState::new(width, height);
        let ai_player = Player::Blue;
        let ai = A::new(&board, ai_player);
        Self { board, ai, ai_player }
    }

    /// After a legal human move the AI moves while it holds the turn, so
    /// control comes back with the human to move or with no bar left. The
    /// final board is the human's claim followed by legal claims.
    fn do_move(&mut self, bar: BarId) -> (r: bool)
        ensures
            r ==> exists|ms: Seq<BarId>|
                all_legal(old(self).board_view().after_move(bar), ms) && final(self).board_view()
                    == #[trigger] play(old(self).board_view().after_move(bar), ms),
            r ==> final(self).board_view().turn != final(self).ai_player()
                || final(self).board_view().free_bars().len() == 0,
            final(self).ai_player() == old(self).ai_player(),
    {
        let player_move_success = self.board.do_move(bar);
        if !player_move_success {
            return false;
        }
        let ghost first = self.board@;
        let ghost mut ms: Seq<BarId> = Seq::empty();
        assert(play(first, ms) == first);
        while self.board.cur_turn() == self.ai_player
            invariant
                self.board.wf(),
                self.ai_player == old(self).ai_player,
                all_legal(first, ms),
                self.board@ == play(first, ms),
            ensures
                self.board.wf(),
                self.ai_player == old(self).ai_player,
                all_legal(first, ms),
                self.board@ == play(first, ms),
                self.board@.turn != self.ai_player || self.board@.free_bars().len() == 0,
            decreases self.board@.free_bars().len(),
        {
            let ai_move = self.ai.next_move(&self.board);
            let ghost before = self.board@;
            let ai_move_success = match ai_move {
                Some(ai_move) => self.board.do_move(ai_move),
                None => false,
            };
            if !ai_move_success {
                break;
            }
            proof {
                let m = ai_move.unwrap();
                lemma_after_move_free_count(before, m);
                let ms2 = ms.push(m);
                assert(ms2.drop_last() =~= ms);
                ms = ms2;
            }
        }
        assert(play(first, ms) == self.board@);
        true
    }

    fn restart(&mut self, starting_player: Player) {
        self.board.restart(starting_player)
    }

    fn get_width(&self) -> (r: u32) {
        self.board.width()
    }

    fn get_height(&self) -> (r: u32) {
        self.board.height()
    }

    fn vertical_get(&self, col: u32, row: u32) -> (r: CellState) {
        self.board.bar_get(BarId { direction: BarDirection::Vertical, col, row })
    }

    fn horizontal_get(&self, col: u32, row: u32) -> (r: CellState) {
        self.board.bar_get(BarId { direction: BarDirection::Horizontal, col, row })
    }

    fn cell_get(&self, col: u32, row: u32) -> (r: CellState) {
        self.board.cell_get(col, row)
    }
}

} // verus!
