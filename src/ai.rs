//! The machine opponent: the board as a search state whose moves can be
//! taken back, random playouts as the evaluator, and the AI that picks its
//! moves with them.
use crate::board::{BarId, BoardState, CellState, Player, MAX_AREA};
use crate::model::{
    lemma_after_move, lemma_after_move_free_count, lemma_free_from_empty, lemma_free_from_legal,
    lemma_free_from_len, lemma_move_keeps_owned, lemma_no_moves_iff_terminal, lemma_score_parity,
    lemma_split_index, lemma_sub_dims, lemma_terminal_cells_owned, lemma_undo_free_count,
    lemma_undo_frees_only_its_bar, score, BoardModel,
};
use crate::minmax::{
    lemma_best_index, moves_of, MinMax, MinMaxInterface, MinMaxOptions, MinMaxState,
    MinMaxStateCheckpoint, PossibleMovesIterator,
};
use rand::rngs::ThreadRng;
use vstd::prelude::*;

verus! {

#[verifier::external_type_specification]
#[verifier::external_body]
pub struct ExThreadRng(ThreadRng);

/// Relies on `rand::thread_rng`: the generator of the current thread.
pub assume_specification[ rand::thread_rng ]() -> ThreadRng;

/// Relies on `rand::Rng::gen_range`: a number drawn from `0..bound`. It
/// panics on an empty range, which `requires` rules out.
#[verifier::external_body]
fn gen_index(rng: &mut ThreadRng, bound: u32) -> (r: u32)
    requires
        0 < bound,
    ensures
        r < bound,
{
    rand::Rng::gen_range(rng, 0..bound)
}

/// Relies on `rand::seq::SliceRandom::choose`: one element of the slice,
/// or `None` exactly when the slice is empty.
#[verifier::external_body]
fn choose_move(moves: &Vec<BarId>, rng: &mut ThreadRng) -> (r: Option<BarId>)
    ensures
        r is None <==> moves@.len() == 0,
        r matches Some(bar) ==> moves@.contains(bar),
{
    rand::seq::SliceRandom::choose(moves.as_slice(), rng).copied()
}

/// The board and the moves applied to it, latest last.
pub type History = (BoardModel, Seq<BarId>);

/// The history with its latest move taken back.
pub open spec fn step_back(v: History) -> History {
    if v.1.len() == 0 {
        v
    } else {
        (v.0.undo_move(v.1.last()), v.1.drop_last())
    }
}

/// The history with its latest `n` moves taken back.
pub open spec fn rewind_history(v: History, n: nat) -> History
    decreases n,
{
    if n == 0 {
        v
    } else {
        rewind_history(step_back(v), (n - 1) as nat)
    }
}

/// The board is well-formed and the applied moves can be taken back one
/// by one, latest first, each time onto a well-formed board.
pub open spec fn history_ok(v: History) -> bool
    decreases v.1.len(),
{
    &&& v.0.wf()
    &&& (v.1.len() > 0 ==> v.0.can_undo(v.1.last()) && history_ok(step_back(v)))
}

pub proof fn lemma_rewind_history_last(v: History, n: nat)
    ensures
        rewind_history(v, n + 1) == step_back(rewind_history(v, n)),
    decreases n,
{
    if n > 0 {
        lemma_rewind_history_last(step_back(v), (n - 1) as nat);
        assert(rewind_history(v, n + 1) == rewind_history(step_back(v), n));
        assert(rewind_history(v, n) == rewind_history(step_back(v), (n - 1) as nat));
    } else {
        assert(rewind_history(v, 1) == rewind_history(step_back(v), 0));
    }
}

/// Taking back the latest `n` moves leaves every bar that is not one of
/// them as it was: bars go from owned to free only when their move is
/// taken back from the stack.
pub proof fn lemma_rewind_frees_only_popped(v: History, n: nat)
    requires
        history_ok(v),
        n <= v.1.len(),
    ensures
        history_ok(rewind_history(v, n)),
        rewind_history(v, n).1 == v.1.subrange(0, v.1.len() - n),
        rewind_history(v, n).0.width == v.0.width,
        rewind_history(v, n).0.height == v.0.height,
        forall|b: BarId|
            v.0.valid_bar(b) && !v.1.subrange(v.1.len() - n, v.1.len() as int).contains(b)
                ==> #[trigger] rewind_history(v, n).0.bar_state(b) == v.0.bar_state(b),
    decreases n,
{
    if n > 0 {
        let k = (n - 1) as nat;
        lemma_rewind_frees_only_popped(v, k);
        lemma_rewind_history_last(v, k);
        let w = rewind_history(v, k);
        let len = v.1.len() as int;
        assert(w.1.last() == v.1[len - n]);
        lemma_undo_frees_only_its_bar(w.0, w.1.last());
        assert(rewind_history(v, n).1 =~= v.1.subrange(0, len - n));
        assert forall|b: BarId|
            v.0.valid_bar(b) && !v.1.subrange(len - n, len).contains(b) implies #[trigger] rewind_history(
            v,
            n,
        ).0.bar_state(b) == v.0.bar_state(b) by {
            if v.1.subrange(len - k, len).contains(b) {
                let j = choose|j: int| 0 <= j < k && #[trigger] v.1.subrange(len - k, len)[j] == b;
                assert(v.1.subrange(len - n, len)[j + 1] == b);
            }
            if b == w.1.last() {
                assert(v.1.subrange(len - n, len)[0] == b);
            }
        }
    }
}

/// Walks the free bars of an [`AIState`] in the order of
/// `BoardModel::free_bars`.
pub struct PossibleMovesIter {
    cur_index: u32,
}

impl PossibleMovesIterator<AIState, BarId> for PossibleMovesIter {
    open spec fn accepts(state: History) -> bool {
        state.0.wf()
    }

    open spec fn enumeration(state: History) -> Seq<BarId> {
        state.0.free_bars()
    }

    closed spec fn remaining(&self, state: History) -> Seq<BarId> {
        state.0.free_from(self.cur_index as int)
    }

    fn new<'a>(_state: &'a AIState) -> (r: Self) {
        Self { cur_index: 0 }
    }

    fn next<'a>(&mut self, state: &'a AIState) -> (r: Option<BarId>) {
        let board_state = &state.board_state;
        proof {
            lemma_sub_dims(board_state@.width as int, board_state@.height as int);
        }
        match board_state.first_free_from(self.cur_index) {
            Some((bar_id, index)) => {
                self.cur_index = index + 1;
                proof {
                    let rest = board_state@.free_from(index + 1);
                    assert((seq![bar_id] + rest).drop_first() =~= rest);
                }
                Some(bar_id)
            },
            None => None,
        }
    }
}

/// A board under search, with the stack of moves applied to it. Taking
/// moves back reads only the stack's bars; everything else is inferred
/// from the board.
pub struct AIState {
    board_state: BoardState,
    mutation_stack: Vec<BarId>,
}

impl View for AIState {
    type V = History;

    closed spec fn view(&self) -> History {
        (self.board_state@, self.mutation_stack@)
    }
}

impl AIState {
    /// A search state on `board_state`, with no moves applied yet.
    pub fn new(board_state: BoardState) -> (r: AIState)
        ensures
            r@ == (board_state@, Seq::<BarId>::empty()),
    {
        AIState { board_state, mutation_stack: Vec::new() }
    }

    /// The board as it stands.
    pub fn board(&self) -> (r: &BoardState)
        ensures
            r@ == self@.0,
    {
        &self.board_state
    }
}

impl MinMaxState for AIState {
    type Move = BarId;

    type PossibleMovesIterator = PossibleMovesIter;

    open spec fn wf_view(v: History) -> bool {
        history_ok(v)
    }

    open spec fn depth(v: History) -> nat {
        v.1.len()
    }

    open spec fn is_legal(v: History, mv: BarId) -> bool {
        v.0.is_legal(mv)
    }

    open spec fn apply_view(v: History, mv: BarId) -> History {
        (v.0.after_move(mv), v.1.push(mv))
    }

    open spec fn undo_view(v: History) -> History {
        step_back(v)
    }

    open spec fn rewind(v: History, n: nat) -> History {
        rewind_history(v, n)
    }

    proof fn lemma_rewind(v: History, n: nat) {
    }

    proof fn lemma_moves_legal(v: History) {
        assert(v.0.wf());
        lemma_free_from_legal(v.0, 0);
        assert(<PossibleMovesIter as PossibleMovesIterator<AIState, BarId>>::accepts(v));
        assert forall|i: int|
            0 <= i < <PossibleMovesIter as PossibleMovesIterator<
                AIState,
                BarId,
            >>::enumeration(v).len() implies AIState::is_legal(
            v,
            #[trigger] <PossibleMovesIter as PossibleMovesIterator<AIState, BarId>>::enumeration(
                v,
            )[i],
        ) by {
            assert(v.0.is_legal(v.0.free_from(0)[i]));
        }
    }

    fn _apply_move(&mut self, mv: BarId) -> (r: bool) {
        let ok = self.board_state.do_move(mv);
        if ok {
            self.mutation_stack.push(mv);
            proof {
                lemma_after_move(old(self)@.0, mv);
                assert(self@.1.drop_last() =~= old(self)@.1);
            }
        }
        ok
    }

    fn _undo_moves(&mut self, nr_moves: u32) -> (r: bool) {
        let mut i: u32 = 0;
        while i < nr_moves
            invariant
                i <= nr_moves <= old(self)@.1.len(),
                self@ == rewind_history(old(self)@, i as nat),
                history_ok(self@),
                self@.1.len() == old(self)@.1.len() - i,
            decreases nr_moves - i,
        {
            let ghost before = self@;
            let mv = match self.mutation_stack.pop() {
                Some(mv) => mv,
                None => {
                    return false;
                },
            };
            if !self.board_state.undo_move(mv) {
                return false;
            }
            proof {
                lemma_rewind_history_last(old(self)@, i as nat);
                assert(self@ == step_back(before));
            }
            i = i + 1;
        }
        true
    }
}

/// A free bar drawn at random: up to three draws of a position over all
/// bars, the first that falls on a free bar giving the result (see
/// `BoardState::free_bar_at`), then a uniform pick among the free bars.
/// `None` exactly when no bar is free.
pub fn random_free_move(state: &AIState, rng: &mut ThreadRng) -> (r: Option<BarId>)
    requires
        history_ok(state@),
    ensures
        r is None <==> state@.0.free_bars().len() == 0,
        r matches Some(bar) ==> state@.0.is_legal(bar),
{
    let board = state.board();
    proof {
        let w = board@.width as int;
        let h = board@.height as int;
        lemma_sub_dims(w, h);
        lemma_free_from_empty(board@, 0);
        assert(0 < w * (h - 1)) by (nonlinear_arith)
            requires
                2 <= w,
                2 <= h,
        ;
    }
    let total_bars = board.n_bars();
    let mut attempt: u32 = 0;
    while attempt < 3
        invariant
            board@ == state@.0,
            board@.wf(),
            total_bars == board@.n_bars(),
            0 < total_bars,
            board@.free_bars().len() == 0 <==> forall|k: int|
                0 <= k < board@.n_bars() ==> board@.slot(k) != CellState::Free,
        decreases 3 - attempt,
    {
        let chosen_index = gen_index(rng, total_bars);
        if let Some(bar_id) = board.free_bar_at(chosen_index) {
            proof {
                crate::model::lemma_bar_of_index(board@, chosen_index as int);
            }
            return Some(bar_id);
        }
        attempt = attempt + 1;
    }
    proof {
        AIState::lemma_moves_legal(state@);
    }
    let mut walk = state.possible_moves();
    let possible_moves = walk.collect_vec();
    let r = choose_move(&possible_moves, rng);
    proof {
        if let Some(bar) = r {
            let k = choose|k: int| 0 <= k < possible_moves@.len() && possible_moves@[k] == bar;
            assert(state@.0.is_legal(possible_moves@[k]));
        }
    }
    r
}

/// `end` is where a playout from `start` can finish: a well-formed board of
/// the same size with every bar owned, on which every bar and every cell
/// owned on `start` keeps its owner.
pub open spec fn playout_end(start: BoardModel, end: BoardModel) -> bool {
    &&& end.wf()
    &&& end.is_terminal()
    &&& end.width == start.width
    &&& end.height == start.height
    &&& forall|b: BarId|
        start.valid_bar(b) && start.bar_state(b) != CellState::Free ==> #[trigger] end.bar_state(b)
            == start.bar_state(b)
    &&& forall|col: int, row: int|
        start.valid_cell(col, row) && start.cell(col, row) != CellState::Free ==> #[trigger] end.cell(
            col,
            row,
        ) == start.cell(col, row)
}

/// The sum of the final scores for `p` of the boards `ends`.
pub open spec fn total_score(ends: Seq<BoardModel>, p: Player) -> int
    decreases ends.len(),
{
    if ends.len() == 0 {
        0
    } else {
        total_score(ends.drop_last(), p) + score(ends.last().cells, p, ends.last().cells.len() as int)
    }
}

/// A playout from a board where every bar is already owned ends on that
/// same board, so it scores the same.
pub proof fn lemma_finished_playout(start: BoardModel, end: BoardModel, p: Player)
    requires
        start.wf(),
        start.is_terminal(),
        playout_end(start, end),
    ensures
        end.cells == start.cells,
        score(end.cells, p, end.cells.len() as int) == score(start.cells, p, start.cells.len() as int),
{
    lemma_terminal_cells_owned(start);
    let w = start.width as int;
    let h = start.height as int;
    assert forall|i: int| 0 <= i < start.cells.len() implies end.cells[i] == start.cells[i] by {
        lemma_split_index(w - 1, h - 1, i);
        let col = i % (w - 1);
        let row = i / (w - 1);
        assert(start.cell(col, row) != CellState::Free);
        assert(end.cell(col, row) == start.cell(col, row));
    }
    assert(end.cells =~= start.cells);
}

/// Plays random free bars through the checkpoint until every bar is owned.
fn play_out(cp: &mut MinMaxStateCheckpoint<'_, AIState>, rng: &mut ThreadRng)
    requires
        old(cp).inv(),
        old(cp).mutation_count + old(cp).state@.0.free_bars().len() < u32::MAX,
    ensures
        final(cp).inv(),
        final(cp).origin == old(cp).origin,
        final(cp).state@.0.is_terminal(),
        final(cp).state@.0.width == old(cp).state@.0.width,
        final(cp).state@.0.height == old(cp).state@.0.height,
        playout_end(old(cp).state@.0, final(cp).state@.0),
        *final(final(cp).state) == *final(old(cp).state),
{
    loop
        invariant
            cp.inv(),
            cp.origin == old(cp).origin,
            cp.mutation_count + cp.state@.0.free_bars().len() == old(cp).mutation_count + old(
                cp,
            ).state@.0.free_bars().len(),
            old(cp).mutation_count + old(cp).state@.0.free_bars().len() < u32::MAX,
            cp.state@.0.width == old(cp).state@.0.width,
            cp.state@.0.height == old(cp).state@.0.height,
            forall|b: BarId|
                old(cp).state@.0.valid_bar(b) && old(cp).state@.0.bar_state(b) != CellState::Free
                    ==> #[trigger] cp.state@.0.bar_state(b) == old(cp).state@.0.bar_state(b),
            forall|col: int, row: int|
                old(cp).state@.0.valid_cell(col, row) && old(cp).state@.0.cell(col, row)
                    != CellState::Free ==> #[trigger] cp.state@.0.cell(col, row) == old(
                    cp,
                ).state@.0.cell(col, row),
            *final(cp.state) == *final(old(cp).state),
        decreases cp.state@.0.free_bars().len(),
    {
        let ghost before = cp.state@.0;
        match random_free_move(cp.state, rng) {
            Some(mv) => {
                cp.apply(mv);
                proof {
                    let v = cp.state@;
                    lemma_undo_free_count(v.0, v.1.last());
                    lemma_move_keeps_owned(before, mv);
                    let start = old(cp).state@.0;
                    assert forall|b: BarId|
                        start.valid_bar(b) && start.bar_state(b) != CellState::Free implies #[trigger] v.0.bar_state(
                        b,
                    ) == start.bar_state(b) by {
                        assert(before.bar_state(b) == start.bar_state(b));
                    }
                    assert forall|col: int, row: int|
                        start.valid_cell(col, row) && start.cell(col, row)
                            != CellState::Free implies #[trigger] v.0.cell(col, row) == start.cell(
                        col,
                        row,
                    ) by {
                        assert(before.cell(col, row) == start.cell(col, row));
                    }
                }
            },
            None => {
                proof {
                    lemma_no_moves_iff_terminal(cp.state@.0);
                }
                return ;
            },
        }
    }
}

/// Evaluates a state by random playouts, scored for one player.
pub struct AIMinMaxInterface {
    options: MinMaxOptions,
    ai_player: Player,
    rng: ThreadRng,
}

impl AIMinMaxInterface {
    /// The player the scores are counted for.
    pub closed spec fn ai_player(&self) -> Player {
        self.ai_player
    }

    pub fn new(ai_player: Player) -> (r: Self)
        ensures
            r.ai_player() == ai_player,
    {
        let rng = rand::thread_rng();
        let options = MinMaxOptions::default();
        Self { options, ai_player, rng }
    }
}

impl MinMaxInterface for AIMinMaxInterface {
    type State = AIState;

    /// Sum over five random playouts of the final score for the AI's player:
    /// a playout claims random free bars until none is left, and scores one
    /// point per cell of the AI's player, minus one per other cell. Each
    /// playout runs under its own checkpoint, so the state comes back as it
    /// was.
    fn heuristic(&mut self, state: &mut AIState) -> (r: i32)
        ensures
            exists|ends: Seq<BoardModel>|
                ends.len() == 5 && (forall|k: int|
                    0 <= k < 5 ==> playout_end(old(state)@.0, #[trigger] ends[k])) && r
                    == total_score(ends, old(self).ai_player()),
            -(5 * old(state)@.0.n_cells()) <= r <= 5 * old(state)@.0.n_cells(),
            (r + 5 * old(state)@.0.n_cells()) % 2 == 0,
            old(state)@.0.is_terminal() ==> r == 5 * score(
                old(state)@.0.cells,
                old(self).ai_player(),
                old(state)@.0.cells.len() as int,
            ),
    {
        let nr_tests: u32 = 5;
        let ghost n_cells = state@.0.n_cells();
        let ghost start = state@.0;
        let ghost p = self.ai_player;
        let ghost s0 = score(start.cells, p, start.cells.len() as int);
        let ghost mut ends: Seq<BoardModel> = Seq::empty();
        proof {
            let w = state@.0.width as int;
            let h = state@.0.height as int;
            lemma_sub_dims(w, h);
        }
        let mut total: i32 = 0;
        let mut t: u32 = 0;
        while t < nr_tests
            invariant
                t <= nr_tests == 5,
                state@ == old(state)@,
                history_ok(state@),
                n_cells == state@.0.n_cells(),
                0 <= n_cells <= MAX_AREA,
                -(t * n_cells) <= total <= t * n_cells,
                start == old(state)@.0,
                p == self.ai_player,
                self.ai_player == old(self).ai_player,
                s0 == score(start.cells, p, start.cells.len() as int),
                ends.len() == t,
                forall|k: int| 0 <= k < t ==> playout_end(start, #[trigger] ends[k]),
                total == total_score(ends, p),
                (total + t * n_cells) % 2 == 0,
                start.is_terminal() ==> total == t * s0,
            decreases nr_tests - t,
        {
            proof {
                lemma_sub_dims(state@.0.width as int, state@.0.height as int);
                lemma_free_from_len(state@.0, 0);
            }
            let mut cur_state = state.checkpoint();
            proof {
                AIState::lemma_rewind(cur_state.state@, 0);
            }
            play_out(&mut cur_state, &mut self.rng);
            let score = cur_state.state.board().score_for(self.ai_player);
            let ghost end = cur_state.state@.0;
            proof {
                lemma_sub_dims(cur_state.state@.0.width as int, cur_state.state@.0.height as int);
            }
            cur_state.close();
            proof {
                lemma_score_parity(end.cells, p, end.cells.len() as int);
                assert(end.cells.len() == n_cells);
                assert((t + 1) * n_cells == t * n_cells + n_cells) by (nonlinear_arith);
                assert((t + 1) * s0 == t * s0 + s0) by (nonlinear_arith);
                if start.is_terminal() {
                    lemma_finished_playout(start, end, p);
                }
                let ends2 = ends.push(end);
                assert(ends2.drop_last() =~= ends);
                assert forall|k: int| 0 <= k < t + 1 implies playout_end(start, #[trigger] ends2[k]) by {
                    if k < t {
                        assert(ends2[k] == ends[k]);
                    }
                }
                assert(-(t * n_cells) - n_cells <= total + score <= t * n_cells + n_cells);
                assert(t * n_cells + n_cells == (t + 1) * n_cells) by (nonlinear_arith);
                assert(t * n_cells <= 4 * MAX_AREA) by (nonlinear_arith)
                    requires
                        t <= 4,
                        0 <= n_cells <= MAX_AREA,
                ;
            }
            total = total + score;
            t = t + 1;
            proof {
                ends = ends.push(end);
            }
        }
        assert(total == total_score(ends, p));
        total
    }
}

/// Chooses moves for the machine player.
pub trait AI: Sized {
    fn new(board_state: &BoardState, ai_player: Player) -> Self
        requires
            board_state.wf(),
    ;

    fn set_options(&mut self, options: MinMaxOptions);

    /// A legal move on `board_state`; `None` exactly when there is none.
    fn next_move(&mut self, board_state: &BoardState) -> (r: Option<BarId>)
        requires
            board_state.wf(),
        ensures
            r is None <==> board_state@.free_bars().len() == 0,
            r matches Some(bar) ==> board_state@.is_legal(bar),
    ;
}

/// The machine player: one-ply search with random playouts.
pub type AIMinMax = MinMax<AIMinMaxInterface>;

impl AI for AIMinMax {
    fn new(board_state: &BoardState, ai_player: Player) -> Self {
        let game = AIMinMaxInterface::new(ai_player);
        let root_state = AIState::new(board_state.clone());
        MinMax::new(game, root_state)
    }

    fn set_options(&mut self, options: MinMaxOptions) {
        MinMax::set_options(self, options);
    }

    fn next_move(&mut self, state: &BoardState) -> (r: Option<BarId>) {
        self.set_root_state(AIState::new(state.clone()));
        let r = self.best_move();
        proof {
            let root: History = (state@, Seq::empty());
            let moves = moves_of::<AIState>(root);
            assert(moves == state@.free_bars());
            let scores = choose|scores: Seq<i32>|
                scores.len() == moves.len() && r == #[trigger] crate::minmax::last_best(moves, scores);
            lemma_free_from_legal(state@, 0);
            if moves.len() > 0 {
                lemma_best_index(scores, moves.len() as int);
            }
        }
        r
    }
}

} // verus!
