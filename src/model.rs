//! The abstract board that contracts speak of, the moves and take-backs
//! on it, the order in which legal moves are listed, and the laws they obey.
use crate::board::{BarDirection, BarId, CellState, Player, MAX_AREA};
use vstd::prelude::*;

verus! {

/// Score for `p` over `cells[..n]`: one point per cell of `p`, minus one
/// per other cell.
pub open spec fn score(cells: Seq<CellState>, p: Player, n: int) -> int
    decreases n,
{
    if n <= 0 {
        0
    } else {
        score(cells, p, n - 1) + if cells[n - 1] == CellState::Player(p) {
            1int
        } else {
            -1int
        }
    }
}

/// Each cell adds or takes one point, so a score has the parity of the
/// number of cells counted.
pub proof fn lemma_score_parity(cells: Seq<CellState>, p: Player, n: int)
    requires
        0 <= n,
    ensures
        (score(cells, p, n) + n) % 2 == 0,
    decreases n,
{
    if n > 0 {
        lemma_score_parity(cells, p, n - 1);
    }
}

/// Row-major position of `(col, row)` in a grid `w` wide.
pub open spec fn grid_index(w: int, col: int, row: int) -> int {
    row * w + col
}

pub proof fn lemma_grid_index_bound(w: int, h: int, col: int, row: int)
    requires
        0 <= col < w,
        0 <= row < h,
    ensures
        0 <= row * w,
        row * w + w <= w * h,
        0 <= grid_index(w, col, row) < w * h,
{
    assert(0 <= row * w) by (nonlinear_arith)
        requires
            0 <= col < w,
            0 <= row,
    ;
    assert(row * w + w <= w * h) by (nonlinear_arith)
        requires
            0 <= col < w,
            0 <= row < h,
    ;
}

pub proof fn lemma_grid_index_unique(w: int, c1: int, r1: int, c2: int, r2: int)
    requires
        0 <= c1 < w,
        0 <= c2 < w,
        0 <= r1,
        0 <= r2,
        grid_index(w, c1, r1) == grid_index(w, c2, r2),
    ensures
        c1 == c2,
        r1 == r2,
{
    assert(r1 == r2) by (nonlinear_arith)
        requires
            0 <= c1 < w,
            0 <= c2 < w,
            0 <= r1,
            0 <= r2,
            r1 * w + c1 == r2 * w + c2,
    ;
}

/// The abstract board: dimensions in dots, the player to move, and the
/// row-major contents of the vertical bars (`width` by `height - 1`), the
/// horizontal bars (`width - 1` by `height`) and the cells
/// (`width - 1` by `height - 1`).
#[verifier::ext_equal]
pub struct BoardModel {
    pub width: nat,
    pub height: nat,
    pub turn: Player,
    pub vbars: Seq<CellState>,
    pub hbars: Seq<CellState>,
    pub cells: Seq<CellState>,
}

impl BoardModel {
    pub open spec fn n_vbars(self) -> int {
        self.width * (self.height - 1)
    }

    pub open spec fn n_hbars(self) -> int {
        (self.width - 1) * self.height
    }

    pub open spec fn n_bars(self) -> int {
        self.n_vbars() + self.n_hbars()
    }

    pub open spec fn n_cells(self) -> int {
        (self.width - 1) * (self.height - 1)
    }

    pub open spec fn valid_bar(self, bar: BarId) -> bool {
        match bar.direction {
            BarDirection::Vertical => bar.col < self.width && bar.row + 1 < self.height,
            BarDirection::Horizontal => bar.col + 1 < self.width && bar.row < self.height,
        }
    }

    pub open spec fn valid_cell(self, col: int, row: int) -> bool {
        0 <= col && col + 1 < self.width && 0 <= row && row + 1 < self.height
    }

    pub open spec fn vbar(self, col: int, row: int) -> CellState {
        self.vbars[grid_index(self.width as int, col, row)]
    }

    pub open spec fn hbar(self, col: int, row: int) -> CellState {
        self.hbars[grid_index(self.width - 1, col, row)]
    }

    pub open spec fn cell(self, col: int, row: int) -> CellState {
        self.cells[grid_index(self.width - 1, col, row)]
    }

    pub open spec fn bar_state(self, bar: BarId) -> CellState {
        match bar.direction {
            BarDirection::Vertical => self.vbar(bar.col as int, bar.row as int),
            BarDirection::Horizontal => self.hbar(bar.col as int, bar.row as int),
        }
    }

    /// A move on `bar` is legal: the bar exists and nobody owns it.
    pub open spec fn is_legal(self, bar: BarId) -> bool {
        self.valid_bar(bar) && self.bar_state(bar) == CellState::Free
    }

    pub open spec fn with_bar(self, bar: BarId, state: CellState) -> BoardModel {
        match bar.direction {
            BarDirection::Vertical => BoardModel {
                vbars: self.vbars.update(
                    grid_index(self.width as int, bar.col as int, bar.row as int),
                    state,
                ),
                ..self
            },
            BarDirection::Horizontal => BoardModel {
                hbars: self.hbars.update(
                    grid_index(self.width - 1, bar.col as int, bar.row as int),
                    state,
                ),
                ..self
            },
        }
    }

    /// All four bars around the cell are owned.
    pub open spec fn cell_full(self, col: int, row: int) -> bool {
        &&& self.vbar(col, row) != CellState::Free
        &&& self.vbar(col + 1, row) != CellState::Free
        &&& self.hbar(col, row) != CellState::Free
        &&& self.hbar(col, row + 1) != CellState::Free
    }

    /// The cells on either side of a bar that lie on the board (one or two).
    pub open spec fn neighbors(self, bar: BarId) -> Seq<(int, int)> {
        match bar.direction {
            BarDirection::Vertical => (if bar.col != 0 {
                seq![(bar.col - 1, bar.row as int)]
            } else {
                seq![]
            }) + (if bar.col + 1 < self.width {
                seq![(bar.col as int, bar.row as int)]
            } else {
                seq![]
            }),
            BarDirection::Horizontal => (if bar.row != 0 {
                seq![(bar.col as int, bar.row - 1)]
            } else {
                seq![]
            }) + (if bar.row + 1 < self.height {
                seq![(bar.col as int, bar.row as int)]
            } else {
                seq![]
            }),
        }
    }

    /// `bar` is one of the four sides of cell `(col, row)`.
    pub open spec fn is_side(self, bar: BarId, col: int, row: int) -> bool {
        match bar.direction {
            BarDirection::Vertical => row == bar.row && (col == bar.col || col + 1 == bar.col),
            BarDirection::Horizontal => col == bar.col && (row == bar.row || row + 1 == bar.row),
        }
    }

    /// Dimensions and lengths agree.
    pub open spec fn shaped(self) -> bool {
        &&& 2 <= self.width
        &&& 2 <= self.height
        &&& self.width * self.height <= MAX_AREA
        &&& self.vbars.len() == self.n_vbars()
        &&& self.hbars.len() == self.n_hbars()
        &&& self.cells.len() == self.n_cells()
    }

    /// A well-formed board: a cell is owned exactly when all four of its bars are.
    pub open spec fn wf(self) -> bool {
        &&& self.shaped()
        &&& forall|col: int, row: int|
            #![trigger self.cell(col, row)]
            #![trigger self.cell_full(col, row)]
            self.valid_cell(col, row) ==> (self.cell(col, row) != CellState::Free
                <==> self.cell_full(col, row))
    }

    /// The cells among `nb[..k]` that are full, now owned by `p`.
    pub open spec fn claimed(self, nb: Seq<(int, int)>, k: int, p: Player) -> Seq<CellState>
        decreases k,
    {
        if k <= 0 {
            self.cells
        } else {
            let prev = self.claimed(nb, k - 1, p);
            if self.cell_full(nb[k - 1].0, nb[k - 1].1) {
                prev.update(grid_index(self.width - 1, nb[k - 1].0, nb[k - 1].1), CellState::Player(p))
            } else {
                prev
            }
        }
    }

    /// Some cell among `nb[..k]` is full.
    pub open spec fn any_full(self, nb: Seq<(int, int)>, k: int) -> bool
        decreases k,
    {
        if k <= 0 {
            false
        } else {
            self.any_full(nb, k - 1) || self.cell_full(nb[k - 1].0, nb[k - 1].1)
        }
    }

    /// The board after the player to move claims `bar`: the bar becomes
    /// theirs, so does every neighbouring cell that it completes, and the
    /// turn passes to the opponent only when no cell was completed.
    pub open spec fn after_move(self, bar: BarId) -> BoardModel {
        let p = self.turn;
        let b = self.with_bar(bar, CellState::Player(p));
        let nb = self.neighbors(bar);
        BoardModel {
            cells: b.claimed(nb, nb.len() as int, p),
            turn: if b.any_full(nb, nb.len() as int) {
                p
            } else {
                p.spec_other()
            },
            ..b
        }
    }

    /// The cells among `nb[..k]` set back to free.
    pub open spec fn cleared(self, nb: Seq<(int, int)>, k: int) -> Seq<CellState>
        decreases k,
    {
        if k <= 0 {
            self.cells
        } else {
            self.cleared(nb, k - 1).update(grid_index(self.width - 1, nb[k - 1].0, nb[k - 1].1), CellState::Free)
        }
    }

    /// Some cell among `nb[..k]` is owned.
    pub open spec fn any_owned(self, nb: Seq<(int, int)>, k: int) -> bool
        decreases k,
    {
        if k <= 0 {
            false
        } else {
            self.any_owned(nb, k - 1) || self.cell(nb[k - 1].0, nb[k - 1].1) != CellState::Free
        }
    }

    /// Who must have claimed `bar` if it was the latest move: the player to
    /// move if a neighbouring cell is owned (that move scored and kept the
    /// turn), else the opponent.
    pub open spec fn undo_mover(self, bar: BarId) -> Player {
        let nb = self.neighbors(bar);
        if self.any_owned(nb, nb.len() as int) {
            self.turn
        } else {
            self.turn.spec_other()
        }
    }

    /// `bar` exists and is owned by the player that `undo_mover` infers.
    pub open spec fn can_undo(self, bar: BarId) -> bool {
        self.valid_bar(bar) && self.bar_state(bar) == CellState::Player(self.undo_mover(bar))
    }

    /// The board with the claim of `bar` taken back: the bar and its
    /// neighbouring cells free again, the turn back with the inferred mover.
    pub open spec fn undo_move(self, bar: BarId) -> BoardModel {
        let nb = self.neighbors(bar);
        let b = self.with_bar(bar, CellState::Free);
        BoardModel { cells: self.cleared(nb, nb.len() as int), turn: self.undo_mover(bar), ..b }
    }

    /// The bar at position `i` of the combined order: the vertical bars in
    /// row-major order, then the horizontal bars in row-major order.
    pub open spec fn bar_of_index(self, i: int) -> BarId {
        if i < self.n_vbars() {
            BarId {
                direction: BarDirection::Vertical,
                col: (i % (self.width as int)) as u32,
                row: (i / (self.width as int)) as u32,
            }
        } else {
            let j = i - self.n_vbars();
            BarId {
                direction: BarDirection::Horizontal,
                col: (j % (self.width - 1)) as u32,
                row: (j / (self.width - 1)) as u32,
            }
        }
    }

    /// The owner of the bar at position `i` of the combined order.
    pub open spec fn slot(self, i: int) -> CellState {
        if i < self.n_vbars() {
            self.vbars[i]
        } else {
            self.hbars[i - self.n_vbars()]
        }
    }

    /// The free bars from position `i` of the combined order on, in that order.
    pub open spec fn free_from(self, i: int) -> Seq<BarId>
        decreases self.n_bars() - i,
    {
        if i < 0 || i >= self.n_bars() {
            seq![]
        } else if self.slot(i) == CellState::Free {
            seq![self.bar_of_index(i)] + self.free_from(i + 1)
        } else {
            self.free_from(i + 1)
        }
    }

    /// Position of a bar in the combined order.
    pub open spec fn bar_index(self, bar: BarId) -> int {
        match bar.direction {
            BarDirection::Vertical => grid_index(self.width as int, bar.col as int, bar.row as int),
            BarDirection::Horizontal => self.n_vbars() + grid_index(
                self.width - 1,
                bar.col as int,
                bar.row as int,
            ),
        }
    }

    /// Every legal move, vertical bars first, each grid in row-major order.
    pub open spec fn free_bars(self) -> Seq<BarId> {
        self.free_from(0)
    }

    /// Every bar is owned.
    pub open spec fn is_terminal(self) -> bool {
        &&& forall|i: int| 0 <= i < self.vbars.len() ==> self.vbars[i] != CellState::Free
        &&& forall|i: int| 0 <= i < self.hbars.len() ==> self.hbars[i] != CellState::Free
    }

    /// A board of the given size with nothing owned.
    pub open spec fn empty(width: nat, height: nat, turn: Player) -> BoardModel {
        BoardModel {
            width,
            height,
            turn,
            vbars: Seq::new((width * (height - 1)) as nat, |i: int| CellState::Free),
            hbars: Seq::new(((width - 1) * height) as nat, |i: int| CellState::Free),
            cells: Seq::new(((width - 1) * (height - 1)) as nat, |i: int| CellState::Free),
        }
    }
}

pub proof fn lemma_sub_dims(w: int, h: int)
    requires
        1 <= w,
        1 <= h,
    ensures
        0 <= w * (h - 1) <= w * h,
        0 <= (w - 1) * h <= w * h,
        0 <= (w - 1) * (h - 1) <= w * h,
{
    assert(0 <= w * (h - 1) <= w * h) by (nonlinear_arith)
        requires
            1 <= w,
            1 <= h,
    ;
    assert(0 <= (w - 1) * h <= w * h) by (nonlinear_arith)
        requires
            1 <= w,
            1 <= h,
    ;
    assert(0 <= (w - 1) * (h - 1) <= w * h) by (nonlinear_arith)
        requires
            1 <= w,
            1 <= h,
    ;
}

/// The neighbours of a bar are the valid cells that it is a side of: one
/// or two of them, distinct.
pub proof fn lemma_neighbors(m: BoardModel, bar: BarId)
    requires
        m.shaped(),
        m.valid_bar(bar),
    ensures
        1 <= m.neighbors(bar).len() <= 2,
        forall|i: int|
            #![trigger m.neighbors(bar)[i]]
            0 <= i < m.neighbors(bar).len() ==> m.valid_cell(m.neighbors(bar)[i].0, m.neighbors(bar)[i].1)
                && m.is_side(bar, m.neighbors(bar)[i].0, m.neighbors(bar)[i].1),
        m.neighbors(bar).len() == 2 ==> m.neighbors(bar)[0] != m.neighbors(bar)[1],
        forall|col: int, row: int|
            m.valid_cell(col, row) && #[trigger] m.is_side(bar, col, row) ==> (m.neighbors(bar)[0] == (col, row)
                || (m.neighbors(bar).len() == 2 && m.neighbors(bar)[1] == (col, row))),
{
}

/// Changing a bar leaves the fullness of every cell it is not a side of as it was.
pub proof fn lemma_with_bar_full(m: BoardModel, bar: BarId, state: CellState, col: int, row: int)
    requires
        m.shaped(),
        m.valid_bar(bar),
        m.valid_cell(col, row),
        !m.is_side(bar, col, row),
    ensures
        m.with_bar(bar, state).cell_full(col, row) == m.cell_full(col, row),
{
    let w = m.width as int;
    let h = m.height as int;
    lemma_sub_dims(w, h);
    match bar.direction {
        BarDirection::Vertical => {
            let j = grid_index(w, bar.col as int, bar.row as int);
            lemma_grid_index_bound(w, h - 1, bar.col as int, bar.row as int);
            lemma_grid_index_bound(w, h - 1, col, row);
            lemma_grid_index_bound(w, h - 1, col + 1, row);
            if grid_index(w, col, row) == j {
                lemma_grid_index_unique(w, col, row, bar.col as int, bar.row as int);
            }
            if grid_index(w, col + 1, row) == j {
                lemma_grid_index_unique(w, col + 1, row, bar.col as int, bar.row as int);
            }
        },
        BarDirection::Horizontal => {
            let j = grid_index(w - 1, bar.col as int, bar.row as int);
            lemma_grid_index_bound(w - 1, h, bar.col as int, bar.row as int);
            lemma_grid_index_bound(w - 1, h, col, row);
            lemma_grid_index_bound(w - 1, h, col, row + 1);
            if grid_index(w - 1, col, row) == j {
                lemma_grid_index_unique(w - 1, col, row, bar.col as int, bar.row as int);
            }
            if grid_index(w - 1, col, row + 1) == j {
                lemma_grid_index_unique(w - 1, col, row + 1, bar.col as int, bar.row as int);
            }
        },
    }
}

/// Claiming a free bar keeps the board well-formed, and taking that claim
/// back restores the board exactly.
pub proof fn lemma_after_move(m: BoardModel, bar: BarId)
    requires
        m.wf(),
        m.is_legal(bar),
    ensures
        m.after_move(bar).wf(),
        m.after_move(bar).can_undo(bar),
        m.after_move(bar).undo_move(bar) == m,
{
    let p = m.turn;
    let b = m.with_bar(bar, CellState::Player(p));
    let nb = m.neighbors(bar);
    let a = m.after_move(bar);
    let w = m.width as int;
    let h = m.height as int;
    lemma_neighbors(m, bar);
    lemma_sub_dims(w, h);
    match bar.direction {
        BarDirection::Vertical => lemma_grid_index_bound(w, h - 1, bar.col as int, bar.row as int),
        BarDirection::Horizontal => lemma_grid_index_bound(w - 1, h, bar.col as int, bar.row as int),
    }
    reveal_with_fuel(BoardModel::claimed, 3);
    reveal_with_fuel(BoardModel::any_full, 3);
    reveal_with_fuel(BoardModel::cleared, 3);
    reveal_with_fuel(BoardModel::any_owned, 3);
    let i0 = grid_index(w - 1, nb[0].0, nb[0].1);
    let i1 = if nb.len() == 2 {
        grid_index(w - 1, nb[1].0, nb[1].1)
    } else {
        i0
    };
    lemma_grid_index_bound(w - 1, h - 1, nb[0].0, nb[0].1);
    lemma_grid_index_bound(w - 1, h - 1, nb.last().0, nb.last().1);
    if nb.len() == 2 && i0 == i1 {
        lemma_grid_index_unique(w - 1, nb[0].0, nb[0].1, nb[1].0, nb[1].1);
    }
    // the neighbouring cells were free and not full before the move
    assert(m.cell_full(nb[0].0, nb[0].1) == false);
    assert(m.cell(nb[0].0, nb[0].1) == CellState::Free);
    assert(m.cell_full(nb.last().0, nb.last().1) == false);
    assert(m.cell(nb.last().0, nb.last().1) == CellState::Free);
    assert(a.shaped());
    assert forall|col: int, row: int| a.valid_cell(col, row) implies (a.cell(col, row)
        != CellState::Free <==> a.cell_full(col, row)) by {
        lemma_grid_index_bound(w - 1, h - 1, col, row);
        let idx = grid_index(w - 1, col, row);
        assert(a.cell_full(col, row) == b.cell_full(col, row));
        if m.is_side(bar, col, row) {
            assert(nb[0] == (col, row) || (nb.len() == 2 && nb[1] == (col, row)));
        } else {
            lemma_with_bar_full(m, bar, CellState::Player(p), col, row);
            if idx == i0 {
                lemma_grid_index_unique(w - 1, col, row, nb[0].0, nb[0].1);
            }
            if idx == i1 {
                lemma_grid_index_unique(w - 1, col, row, nb.last().0, nb.last().1);
            }
            assert(a.cell(col, row) == m.cell(col, row));
        }
    }
    assert(a.any_owned(nb, nb.len() as int) == b.any_full(nb, nb.len() as int));
    assert(a.neighbors(bar) == nb);
    assert(a.bar_state(bar) == CellState::Player(p));
    let u = a.undo_move(bar);
    match bar.direction {
        BarDirection::Vertical => lemma_grid_index_bound(w, h - 1, bar.col as int, bar.row as int),
        BarDirection::Horizontal => lemma_grid_index_bound(w - 1, h, bar.col as int, bar.row as int),
    }
    assert(u.vbars =~= m.vbars);
    assert(u.hbars =~= m.hbars);
    assert(u.cells =~= m.cells);
}

/// Taking back a claim that `can_undo` accepts keeps the board well-formed.
pub proof fn lemma_undo_wf(m: BoardModel, bar: BarId)
    requires
        m.wf(),
        m.can_undo(bar),
    ensures
        m.undo_move(bar).wf(),
{
    let nb = m.neighbors(bar);
    let u = m.undo_move(bar);
    let w = m.width as int;
    let h = m.height as int;
    lemma_neighbors(m, bar);
    lemma_sub_dims(w, h);
    match bar.direction {
        BarDirection::Vertical => lemma_grid_index_bound(w, h - 1, bar.col as int, bar.row as int),
        BarDirection::Horizontal => lemma_grid_index_bound(w - 1, h, bar.col as int, bar.row as int),
    }
    reveal_with_fuel(BoardModel::cleared, 3);
    let i0 = grid_index(w - 1, nb[0].0, nb[0].1);
    let i1 = if nb.len() == 2 {
        grid_index(w - 1, nb[1].0, nb[1].1)
    } else {
        i0
    };
    lemma_grid_index_bound(w - 1, h - 1, nb[0].0, nb[0].1);
    lemma_grid_index_bound(w - 1, h - 1, nb.last().0, nb.last().1);
    assert(u.shaped());
    assert forall|col: int, row: int| u.valid_cell(col, row) implies (u.cell(col, row)
        != CellState::Free <==> u.cell_full(col, row)) by {
        lemma_grid_index_bound(w - 1, h - 1, col, row);
        let idx = grid_index(w - 1, col, row);
        if m.is_side(bar, col, row) {
            assert(nb[0] == (col, row) || (nb.len() == 2 && nb[1] == (col, row)));
        } else {
            lemma_with_bar_full(m, bar, CellState::Free, col, row);
            if idx == i0 {
                lemma_grid_index_unique(w - 1, col, row, nb[0].0, nb[0].1);
            }
            if idx == i1 {
                lemma_grid_index_unique(w - 1, col, row, nb.last().0, nb.last().1);
            }
            assert(u.cell(col, row) == m.cell(col, row));
        }
    }
}

/// Position `i` of a grid `w` wide and `h` high is `(i % w, i / w)`.
pub proof fn lemma_split_index(w: int, h: int, i: int)
    requires
        0 < w,
        0 <= i < w * h,
    ensures
        0 <= i % w < w,
        0 <= i / w < h,
        grid_index(w, i % w, i / w) == i,
{
    vstd::arithmetic::div_mod::lemma_fundamental_div_mod(i, w);
    vstd::arithmetic::div_mod::lemma_mod_pos_bound(i, w);
    vstd::arithmetic::div_mod::lemma_div_pos_is_pos(i, w);
    let q = i / w;
    let r = i % w;
    assert(q < h) by (nonlinear_arith)
        requires
            i == w * q + r,
            0 <= r < w,
            i < w * h,
            0 < w,
    ;
    assert(q * w == w * q) by (nonlinear_arith);
}

/// The bar at position `i` of the combined order exists and its owner is `slot(i)`.
pub proof fn lemma_bar_of_index(m: BoardModel, i: int)
    requires
        m.shaped(),
        0 <= i < m.n_bars(),
    ensures
        m.valid_bar(m.bar_of_index(i)),
        m.bar_state(m.bar_of_index(i)) == m.slot(i),
{
    let w = m.width as int;
    let h = m.height as int;
    assert(w <= w * h && h <= w * h) by (nonlinear_arith)
        requires
            2 <= w,
            2 <= h,
    ;
    if i < m.n_vbars() {
        lemma_split_index(w, h - 1, i);
        assert((i % w) as u32 as int == i % w);
        assert((i / w) as u32 as int == i / w);
    } else {
        let j = i - m.n_vbars();
        lemma_split_index(w - 1, h, j);
        assert((j % (w - 1)) as u32 as int == j % (w - 1));
        assert((j / (w - 1)) as u32 as int == j / (w - 1));
    }
}

/// Every bar that `free_from` lists is a legal move.
pub proof fn lemma_free_from_legal(m: BoardModel, i: int)
    requires
        m.shaped(),
    ensures
        forall|k: int| 0 <= k < m.free_from(i).len() ==> m.is_legal(#[trigger] m.free_from(i)[k]),
    decreases m.n_bars() - i,
{
    if 0 <= i < m.n_bars() {
        lemma_free_from_legal(m, i + 1);
        lemma_bar_of_index(m, i);
        let rest = m.free_from(i + 1);
        if m.slot(i) == CellState::Free {
            assert forall|k: int| 0 <= k < m.free_from(i).len() implies m.is_legal(
                #[trigger] m.free_from(i)[k],
            ) by {
                if k > 0 {
                    assert(m.free_from(i)[k] == rest[k - 1]);
                }
            }
        }
    }
}

/// `free_from(i)` is empty exactly when every bar from position `i` on is owned.
pub proof fn lemma_free_from_empty(m: BoardModel, i: int)
    requires
        0 <= i,
    ensures
        m.free_from(i).len() == 0 <==> forall|k: int| i <= k < m.n_bars() ==> m.slot(k) != CellState::Free,
    decreases m.n_bars() - i,
{
    if i < m.n_bars() {
        lemma_free_from_empty(m, i + 1);
        if m.free_from(i).len() == 0 {
            assert forall|k: int| i <= k < m.n_bars() implies m.slot(k) != CellState::Free by {
                if k > i {
                }
            }
        }
    }
}

/// Where `a` differs from `m` only in that the free bar at position `j` is
/// owned, `a` has one free bar fewer from any position up to `j`.
proof fn lemma_free_from_one_less(m: BoardModel, a: BoardModel, j: int, i: int)
    requires
        a.width == m.width,
        a.height == m.height,
        0 <= j < m.n_bars(),
        m.slot(j) == CellState::Free,
        a.slot(j) != CellState::Free,
        forall|k: int| 0 <= k < m.n_bars() && k != j ==> #[trigger] a.slot(k) == m.slot(k),
        0 <= i,
    ensures
        i <= j ==> a.free_from(i).len() + 1 == m.free_from(i).len(),
        i > j ==> a.free_from(i).len() == m.free_from(i).len(),
    decreases m.n_bars() - i,
{
    if i < m.n_bars() {
        lemma_free_from_one_less(m, a, j, i + 1);
    }
}

/// Each move takes exactly one bar off the list of legal moves.
pub proof fn lemma_after_move_free_count(m: BoardModel, bar: BarId)
    requires
        m.wf(),
        m.is_legal(bar),
    ensures
        m.after_move(bar).free_bars().len() + 1 == m.free_bars().len(),
{
    let a = m.after_move(bar);
    let w = m.width as int;
    let h = m.height as int;
    lemma_sub_dims(w, h);
    let j = match bar.direction {
        BarDirection::Vertical => {
            lemma_grid_index_bound(w, h - 1, bar.col as int, bar.row as int);
            grid_index(w, bar.col as int, bar.row as int)
        },
        BarDirection::Horizontal => {
            lemma_grid_index_bound(w - 1, h, bar.col as int, bar.row as int);
            m.n_vbars() + grid_index(w - 1, bar.col as int, bar.row as int)
        },
    };
    assert forall|k: int| 0 <= k < m.n_bars() && k != j implies #[trigger] a.slot(k) == m.slot(k) by {
    }
    lemma_free_from_one_less(m, a, j, 0);
}

/// `free_from(i)` lists at most one bar per position from `i` on.
pub proof fn lemma_free_from_len(m: BoardModel, i: int)
    requires
        0 <= i,
    ensures
        m.free_from(i).len() <= if i < m.n_bars() {
            m.n_bars() - i
        } else {
            0
        },
    decreases m.n_bars() - i,
{
    if i < m.n_bars() {
        lemma_free_from_len(m, i + 1);
    }
}

/// Taking a claim back frees exactly one bar.
pub proof fn lemma_undo_free_count(a: BoardModel, bar: BarId)
    requires
        a.wf(),
        a.can_undo(bar),
    ensures
        a.free_bars().len() + 1 == a.undo_move(bar).free_bars().len(),
{
    let m = a.undo_move(bar);
    let w = a.width as int;
    let h = a.height as int;
    lemma_sub_dims(w, h);
    let j = match bar.direction {
        BarDirection::Vertical => {
            lemma_grid_index_bound(w, h - 1, bar.col as int, bar.row as int);
            grid_index(w, bar.col as int, bar.row as int)
        },
        BarDirection::Horizontal => {
            lemma_grid_index_bound(w - 1, h, bar.col as int, bar.row as int);
            a.n_vbars() + grid_index(w - 1, bar.col as int, bar.row as int)
        },
    };
    assert forall|k: int| 0 <= k < m.n_bars() && k != j implies #[trigger] a.slot(k) == m.slot(k) by {
    }
    lemma_free_from_one_less(m, a, j, 0);
}

/// There is no legal move exactly when every bar is owned.
pub proof fn lemma_no_moves_iff_terminal(m: BoardModel)
    requires
        m.shaped(),
    ensures
        m.free_bars().len() == 0 <==> m.is_terminal(),
{
    lemma_free_from_empty(m, 0);
    if m.free_bars().len() == 0 {
        assert forall|i: int| 0 <= i < m.vbars.len() implies m.vbars[i] != CellState::Free by {
            assert(m.slot(i) != CellState::Free);
        }
        assert forall|i: int| 0 <= i < m.hbars.len() implies m.hbars[i] != CellState::Free by {
            assert(m.slot(i + m.n_vbars()) != CellState::Free);
        }
    }
    if m.is_terminal() {
        assert forall|k: int| 0 <= k < m.n_bars() implies m.slot(k) != CellState::Free by {
            if k < m.n_vbars() {
                assert(m.vbars[k] != CellState::Free);
            } else {
                assert(m.hbars[k - m.n_vbars()] != CellState::Free);
            }
        }
    }
}

/// On a well-formed board where every bar is owned, every cell is owned.
pub proof fn lemma_terminal_cells_owned(m: BoardModel)
    requires
        m.wf(),
        m.is_terminal(),
    ensures
        forall|col: int, row: int| m.valid_cell(col, row) ==> #[trigger] m.cell(col, row) != CellState::Free,
{
    let w = m.width as int;
    let h = m.height as int;
    assert forall|col: int, row: int| m.valid_cell(col, row) implies #[trigger] m.cell(col, row)
        != CellState::Free by {
        lemma_grid_index_bound(w, h - 1, col, row);
        lemma_grid_index_bound(w, h - 1, col + 1, row);
        lemma_grid_index_bound(w - 1, h, col, row);
        lemma_grid_index_bound(w - 1, h, col, row + 1);
        assert(m.cell_full(col, row));
    }
}

pub proof fn lemma_empty_wf(width: nat, height: nat, turn: Player)
    requires
        2 <= width,
        2 <= height,
        width * height <= MAX_AREA,
    ensures
        BoardModel::empty(width, height, turn).wf(),
{
    let m = BoardModel::empty(width, height, turn);
    lemma_sub_dims(width as int, height as int);
    assert forall|col: int, row: int| m.valid_cell(col, row) implies (m.cell(col, row)
        != CellState::Free <==> m.cell_full(col, row)) by {
        lemma_grid_index_bound(width - 1, height - 1, col, row);
        lemma_grid_index_bound(width as int, height - 1, col, row);
    }
}

/// The board after playing `moves` in order from `m`.
pub open spec fn play(m: BoardModel, moves: Seq<BarId>) -> BoardModel
    decreases moves.len(),
{
    if moves.len() == 0 {
        m
    } else {
        play(m, moves.drop_last()).after_move(moves.last())
    }
}

/// Each of `moves` is legal when its turn comes.
pub open spec fn all_legal(m: BoardModel, moves: Seq<BarId>) -> bool
    decreases moves.len(),
{
    moves.len() == 0 || (all_legal(m, moves.drop_last()) && play(m, moves.drop_last()).is_legal(
        moves.last(),
    ))
}

/// The board after taking back `moves`, latest first.
pub open spec fn take_back(m: BoardModel, moves: Seq<BarId>) -> BoardModel
    decreases moves.len(),
{
    if moves.len() == 0 {
        m
    } else {
        take_back(m.undo_move(moves.last()), moves.drop_last())
    }
}

/// Round trip: playing any sequence of legal moves and then taking them
/// back, latest first, with the inference of `undo_move` gives back the
/// board exactly: every bar, every cell and the turn.
pub proof fn lemma_round_trip(m: BoardModel, moves: Seq<BarId>)
    requires
        m.wf(),
        all_legal(m, moves),
    ensures
        play(m, moves).wf(),
        take_back(play(m, moves), moves) == m,
    decreases moves.len(),
{
    if moves.len() > 0 {
        let prefix = moves.drop_last();
        lemma_round_trip(m, prefix);
        lemma_after_move(play(m, prefix), moves.last());
    }
}

/// A move never frees anything: every bar and every cell that was owned
/// keeps its owner.
pub proof fn lemma_move_keeps_owned(m: BoardModel, bar: BarId)
    requires
        m.wf(),
        m.is_legal(bar),
    ensures
        forall|b: BarId|
            m.valid_bar(b) && m.bar_state(b) != CellState::Free ==> #[trigger] m.after_move(
                bar,
            ).bar_state(b) == m.bar_state(b),
        forall|col: int, row: int|
            m.valid_cell(col, row) && m.cell(col, row) != CellState::Free ==> #[trigger] m.after_move(
                bar,
            ).cell(col, row) == m.cell(col, row),
{
    let a = m.after_move(bar);
    let nb = m.neighbors(bar);
    let w = m.width as int;
    let h = m.height as int;
    lemma_neighbors(m, bar);
    lemma_sub_dims(w, h);
    match bar.direction {
        BarDirection::Vertical => lemma_grid_index_bound(w, h - 1, bar.col as int, bar.row as int),
        BarDirection::Horizontal => lemma_grid_index_bound(w - 1, h, bar.col as int, bar.row as int),
    }
    reveal_with_fuel(BoardModel::claimed, 3);
    lemma_grid_index_bound(w - 1, h - 1, nb[0].0, nb[0].1);
    lemma_grid_index_bound(w - 1, h - 1, nb.last().0, nb.last().1);
    assert(m.cell_full(nb[0].0, nb[0].1) == false);
    assert(m.cell_full(nb.last().0, nb.last().1) == false);
    assert forall|b: BarId|
        m.valid_bar(b) && m.bar_state(b) != CellState::Free implies #[trigger] a.bar_state(b)
        == m.bar_state(b) by {
        match b.direction {
            BarDirection::Vertical => lemma_grid_index_bound(w, h - 1, b.col as int, b.row as int),
            BarDirection::Horizontal => lemma_grid_index_bound(w - 1, h, b.col as int, b.row as int),
        }
    }
    assert forall|col: int, row: int|
        m.valid_cell(col, row) && m.cell(col, row) != CellState::Free implies #[trigger] a.cell(
        col,
        row,
    ) == m.cell(col, row) by {
        lemma_grid_index_bound(w - 1, h - 1, col, row);
    }
}

/// Taking a claim back frees only that bar and the cells it is a side of:
/// every other bar and every other cell keeps its state.
pub proof fn lemma_undo_frees_only_its_bar(m: BoardModel, bar: BarId)
    requires
        m.wf(),
        m.can_undo(bar),
    ensures
        m.undo_move(bar).bar_state(bar) == CellState::Free,
        forall|b: BarId|
            m.valid_bar(b) && b != bar ==> #[trigger] m.undo_move(bar).bar_state(b) == m.bar_state(b),
        forall|col: int, row: int|
            m.valid_cell(col, row) && !m.is_side(bar, col, row) ==> #[trigger] m.undo_move(bar).cell(
                col,
                row,
            ) == m.cell(col, row),
{
    let u = m.undo_move(bar);
    let nb = m.neighbors(bar);
    let w = m.width as int;
    let h = m.height as int;
    lemma_neighbors(m, bar);
    lemma_sub_dims(w, h);
    match bar.direction {
        BarDirection::Vertical => lemma_grid_index_bound(w, h - 1, bar.col as int, bar.row as int),
        BarDirection::Horizontal => lemma_grid_index_bound(w - 1, h, bar.col as int, bar.row as int),
    }
    reveal_with_fuel(BoardModel::cleared, 3);
    lemma_grid_index_bound(w - 1, h - 1, nb[0].0, nb[0].1);
    lemma_grid_index_bound(w - 1, h - 1, nb.last().0, nb.last().1);
    assert forall|b: BarId| m.valid_bar(b) && b != bar implies #[trigger] u.bar_state(b)
        == m.bar_state(b) by {
        match b.direction {
            BarDirection::Vertical => {
                lemma_grid_index_bound(w, h - 1, b.col as int, b.row as int);
                if bar.direction == BarDirection::Vertical && grid_index(w, b.col as int, b.row as int)
                    == grid_index(w, bar.col as int, bar.row as int) {
                    lemma_grid_index_unique(w, b.col as int, b.row as int, bar.col as int, bar.row as int);
                }
            },
            BarDirection::Horizontal => {
                lemma_grid_index_bound(w - 1, h, b.col as int, b.row as int);
                if bar.direction == BarDirection::Horizontal && grid_index(w - 1, b.col as int, b.row as int)
                    == grid_index(w - 1, bar.col as int, bar.row as int) {
                    lemma_grid_index_unique(w - 1, b.col as int, b.row as int, bar.col as int, bar.row as int);
                }
            },
        }
    }
    assert forall|col: int, row: int|
        m.valid_cell(col, row) && !m.is_side(bar, col, row) implies #[trigger] u.cell(col, row)
        == m.cell(col, row) by {
        lemma_grid_index_bound(w - 1, h - 1, col, row);
        let idx = grid_index(w - 1, col, row);
        if idx == grid_index(w - 1, nb[0].0, nb[0].1) {
            lemma_grid_index_unique(w - 1, col, row, nb[0].0, nb[0].1);
        }
        if idx == grid_index(w - 1, nb.last().0, nb.last().1) {
            lemma_grid_index_unique(w - 1, col, row, nb.last().0, nb.last().1);
        }
    }
}

/// The turn passes exactly when the move completed no cell, that is when
/// no cell went from free to owned.
pub proof fn lemma_turn_rule(m: BoardModel, bar: BarId)
    requires
        m.wf(),
        m.is_legal(bar),
    ensures
        m.after_move(bar).turn == m.turn <==> exists|col: int, row: int|
            m.valid_cell(col, row) && m.cell(col, row) == CellState::Free && #[trigger] m.after_move(
                bar,
            ).cell(col, row) != CellState::Free,
        m.after_move(bar).turn != m.turn ==> m.after_move(bar).turn == m.turn.spec_other(),
{
    let p = m.turn;
    let a = m.after_move(bar);
    let b = m.with_bar(bar, CellState::Player(p));
    let nb = m.neighbors(bar);
    let w = m.width as int;
    let h = m.height as int;
    lemma_neighbors(m, bar);
    lemma_sub_dims(w, h);
    reveal_with_fuel(BoardModel::claimed, 3);
    reveal_with_fuel(BoardModel::any_full, 3);
    let i0 = grid_index(w - 1, nb[0].0, nb[0].1);
    let i1 = grid_index(w - 1, nb.last().0, nb.last().1);
    lemma_grid_index_bound(w - 1, h - 1, nb[0].0, nb[0].1);
    lemma_grid_index_bound(w - 1, h - 1, nb.last().0, nb.last().1);
    assert(m.cell_full(nb[0].0, nb[0].1) == false);
    assert(m.cell(nb[0].0, nb[0].1) == CellState::Free);
    assert(m.cell_full(nb.last().0, nb.last().1) == false);
    assert(m.cell(nb.last().0, nb.last().1) == CellState::Free);
    if a.turn == p {
        if b.cell_full(nb[0].0, nb[0].1) {
            assert(a.cell(nb[0].0, nb[0].1) != CellState::Free);
        } else {
            assert(a.cell(nb.last().0, nb.last().1) != CellState::Free);
        }
    } else {
        assert forall|col: int, row: int|
            m.valid_cell(col, row) && m.cell(col, row) == CellState::Free implies !(
            #[trigger] a.cell(col, row) != CellState::Free) by {
            lemma_grid_index_bound(w - 1, h - 1, col, row);
            let idx = grid_index(w - 1, col, row);
            if idx == i0 {
                lemma_grid_index_unique(w - 1, col, row, nb[0].0, nb[0].1);
            }
            if idx == i1 {
                lemma_grid_index_unique(w - 1, col, row, nb.last().0, nb.last().1);
            }
        }
    }
}

/// Positions and bars of the combined order correspond one to one.
pub proof fn lemma_bar_index(m: BoardModel, i: int, bar: BarId)
    requires
        m.shaped(),
        0 <= i < m.n_bars(),
        m.valid_bar(bar),
    ensures
        m.bar_index(m.bar_of_index(i)) == i,
        m.bar_of_index(m.bar_index(bar)) == bar,
        0 <= m.bar_index(bar) < m.n_bars(),
{
    let w = m.width as int;
    let h = m.height as int;
    lemma_sub_dims(w, h);
    assert(w <= w * h && h <= w * h) by (nonlinear_arith)
        requires
            2 <= w,
            2 <= h,
    ;
    lemma_bar_of_index(m, i);
    if i < m.n_vbars() {
        lemma_split_index(w, h - 1, i);
    } else {
        lemma_split_index(w - 1, h, i - m.n_vbars());
    }
    match bar.direction {
        BarDirection::Vertical => {
            lemma_grid_index_bound(w, h - 1, bar.col as int, bar.row as int);
            let j = grid_index(w, bar.col as int, bar.row as int);
            vstd::arithmetic::div_mod::lemma_fundamental_div_mod_converse(
                j,
                w,
                bar.row as int,
                bar.col as int,
            );
        },
        BarDirection::Horizontal => {
            lemma_grid_index_bound(w - 1, h, bar.col as int, bar.row as int);
            let j = grid_index(w - 1, bar.col as int, bar.row as int);
            vstd::arithmetic::div_mod::lemma_fundamental_div_mod_converse(
                j,
                w - 1,
                bar.row as int,
                bar.col as int,
            );
        },
    }
}

/// `free_from(i)` lists bars at positions `i` and later, in increasing position.
pub proof fn lemma_free_from_sorted(m: BoardModel, i: int)
    requires
        m.shaped(),
        0 <= i,
    ensures
        forall|a: int|
            0 <= a < m.free_from(i).len() ==> i <= #[trigger] m.bar_index(m.free_from(i)[a]) < m.n_bars(),
        forall|a: int, b: int|
            0 <= a < b < m.free_from(i).len() ==> #[trigger] m.bar_index(m.free_from(i)[a]) < #[trigger] m.bar_index(
                m.free_from(i)[b],
            ),
    decreases m.n_bars() - i,
{
    if i < m.n_bars() {
        lemma_free_from_sorted(m, i + 1);
        lemma_bar_of_index(m, i);
        lemma_bar_index(m, i, m.bar_of_index(i));
        let rest = m.free_from(i + 1);
        if m.slot(i) == CellState::Free {
            let f = m.free_from(i);
            assert forall|a: int| 0 <= a < f.len() implies i <= #[trigger] m.bar_index(f[a])
                < m.n_bars() by {
                if a > 0 {
                    assert(f[a] == rest[a - 1]);
                }
            }
            assert forall|a: int, b: int|
                0 <= a < b < f.len() implies #[trigger] m.bar_index(f[a]) < #[trigger] m.bar_index(
                f[b],
            ) by {
                assert(f[b] == rest[b - 1]);
                if a > 0 {
                    assert(f[a] == rest[a - 1]);
                }
            }
        }
    }
}

/// A free bar at position `j >= i` is listed by `free_from(i)`.
proof fn lemma_free_from_contains(m: BoardModel, i: int, j: int)
    requires
        0 <= i <= j < m.n_bars(),
        m.slot(j) == CellState::Free,
    ensures
        m.free_from(i).contains(m.bar_of_index(j)),
    decreases j - i,
{
    if i < j {
        lemma_free_from_contains(m, i + 1, j);
        let rest = m.free_from(i + 1);
        let k = choose|k: int| 0 <= k < rest.len() && rest[k] == m.bar_of_index(j);
        if m.slot(i) == CellState::Free {
            assert(m.free_from(i)[k + 1] == m.bar_of_index(j));
        }
    } else {
        assert(m.free_from(i)[0] == m.bar_of_index(j));
    }
}

/// The legal moves are listed in a fixed order, a function of the board
/// alone: every legal move exactly once, the vertical bars first and each
/// grid in row-major order (increasing `bar_index`).
pub proof fn lemma_free_bars_order(m: BoardModel)
    requires
        m.shaped(),
    ensures
        forall|bar: BarId| m.is_legal(bar) ==> #[trigger] m.free_bars().contains(bar),
        forall|a: int| 0 <= a < m.free_bars().len() ==> m.is_legal(#[trigger] m.free_bars()[a]),
        forall|a: int, b: int|
            0 <= a < b < m.free_bars().len() ==> #[trigger] m.bar_index(m.free_bars()[a]) < #[trigger] m.bar_index(
                m.free_bars()[b],
            ),
{
    lemma_free_from_sorted(m, 0);
    lemma_free_from_legal(m, 0);
    assert forall|bar: BarId| m.is_legal(bar) implies #[trigger] m.free_bars().contains(bar) by {
        let w = m.width as int;
        let h = m.height as int;
        lemma_sub_dims(w, h);
        assert(0 < m.n_bars()) by (nonlinear_arith)
            requires
                2 <= w,
                2 <= h,
                m.n_bars() == w * (h - 1) + (w - 1) * h,
        ;
        lemma_bar_index(m, 0, bar);
        let j = m.bar_index(bar);
        lemma_bar_of_index(m, j);
        lemma_free_from_contains(m, 0, j);
    }
}

/// On a board where every bar is owned, every cell is owned and there is
/// no legal move.
pub proof fn lemma_terminal(m: BoardModel)
    requires
        m.wf(),
        m.is_terminal(),
    ensures
        forall|col: int, row: int| m.valid_cell(col, row) ==> #[trigger] m.cell(col, row) != CellState::Free,
        m.free_bars().len() == 0,
{
    lemma_terminal_cells_owned(m);
    lemma_no_moves_iff_terminal(m);
}

} // verus!
