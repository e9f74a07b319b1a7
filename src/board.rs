//! Board state: two grids of bars (edges), the cells they bound, and the
//! player to move, with the rules for claiming a bar and for taking the
//! latest claim back.
use crate::grid::{free_vec, BarVec};
use crate::model::{
    grid_index, lemma_after_move, lemma_bar_of_index, lemma_empty_wf, lemma_grid_index_bound,
    lemma_neighbors, lemma_split_index, lemma_sub_dims, lemma_terminal_cells_owned, lemma_undo_wf,
    score, BoardModel,
};
use vstd::prelude::*;

verus! {

/// Largest board area (`width * height`, counted in dots) that a board may have.
/// It keeps every index below `u32::MAX` and every search score inside `i32`.
pub const MAX_AREA: u32 = 0x1000_0000;

#[derive(Clone, Copy, Debug, PartialEq, Eq, Structural)]
pub enum BarDirection {
    Vertical,
    Horizontal,
}

/// One bar slot: its orientation and its column and row in that orientation's grid.
#[derive(Clone, Copy, Debug, PartialEq, Eq, Structural)]
pub struct BarId {
    pub direction: BarDirection,
    pub col: u32,
    pub row: u32,
}

#[derive(Clone, Copy, Debug, PartialEq, Eq, Structural)]
pub enum Player {
    Red,
    Blue,
}

impl Player {
    pub open spec fn spec_other(self) -> Player {
        match self {
            Player::Red => Player::Blue,
            Player::Blue => Player::Red,
        }
    }

    /// The opponent of this player.
    #[verifier::when_used_as_spec(spec_other)]
    pub fn other(self) -> (r: Player)
        ensures
            r == self.spec_other(),
    {
        match self {
            Player::Red => Player::Blue,
            Player::Blue => Player::Red,
        }
    }

    pub open spec fn spec_name(self) -> Seq<char> {
        match self {
            Player::Red => "Red"@,
            Player::Blue => "Blue"@,
        }
    }

    /// The player's name, as shown to users.
    pub fn name(self) -> (r: &'static str)
        ensures
            r@ == self.spec_name(),
    {
        match self {
            Player::Red => "Red",
            Player::Blue => "Blue",
        }
    }
}

/// Ownership of a bar or a cell.
#[derive(Clone, Copy, Debug, PartialEq, Eq, Structural)]
pub enum CellState {
    Free,
    Player(Player),
}

impl CellState {
    pub open spec fn spec_name(self) -> Seq<char> {
        match self {
            CellState::Free => "Free"@,
            CellState::Player(p) => p.spec_name(),
        }
    }

    /// "Free", or the owner's name.
    pub fn name(self) -> (r: &'static str)
        ensures
            r@ == self.spec_name(),
    {
        match self {
            CellState::Free => "Free",
            CellState::Player(player) => player.name(),
        }
    }
}

impl From<Player> for CellState {
    fn from(player: Player) -> Self {
        CellState::Player(player)
    }
}

impl vstd::std_specs::convert::FromSpecImpl<Player> for CellState {
    open spec fn obeys_from_spec() -> bool {
        true
    }

    open spec fn from_spec(v: Player) -> Self {
        CellState::Player(v)
    }
}

/// The state of one game: both bar grids, the cells, and the player to move.
pub struct BoardState {
    width: u32,
    height: u32,
    cur_turn: Player,
    vstates: BarVec,
    hstates: BarVec,
    cellstates: Vec<CellState>,
}

impl View for BoardState {
    type V = BoardModel;

    closed spec fn view(&self) -> BoardModel {
        BoardModel {
            width: self.width as nat,
            height: self.height as nat,
            turn: self.cur_turn,
            vbars: self.vstates.vec@,
            hbars: self.hstates.vec@,
            cells: self.cellstates@,
        }
    }
}

impl Clone for BoardState {
    fn clone(&self) -> (r: Self)
        ensures
            r@ == self@,
    {
        proof {
            use_type_invariant(self);
        }
        let cellstates = self.cellstates.clone();
        proof {
            assert forall|i: int| 0 <= i < cellstates@.len() implies cellstates@[i]
                == self.cellstates@[i] by {
                assert(cloned::<CellState>(self.cellstates[i], cellstates[i]));
            }
            assert(cellstates@ =~= self.cellstates@);
        }
        BoardState {
            width: self.width,
            height: self.height,
            cur_turn: self.cur_turn,
            vstates: self.vstates.duplicate(),
            hstates: self.hstates.duplicate(),
            cellstates,
        }
    }
}

impl BoardState {
    /// The grids have the board's dimensions.
    #[verifier::type_invariant]
    spec fn inv(&self) -> bool {
        &&& self.vstates.wf()
        &&& self.hstates.wf()
        &&& self.vstates.width == self.width
        &&& self.vstates.height == self.height - 1
        &&& self.vstates.direction == BarDirection::Vertical
        &&& self.hstates.width == self.width - 1
        &&& self.hstates.height == self.height
        &&& self.hstates.direction == BarDirection::Horizontal
        &&& self@.shaped()
    }

    pub open spec fn wf(&self) -> bool {
        self@.wf()
    }

    /// An empty board of `width` by `height` dots; Red moves first.
    pub fn new(width: u32, height: u32) -> (r: BoardState)
        requires
            2 <= width,
            2 <= height,
            width * height <= MAX_AREA,
        ensures
            r.wf(),
            r@ == BoardModel::empty(width as nat, height as nat, Player::Red),
    {
        proof {
            lemma_sub_dims(width as int, height as int);
        }
        let r = BoardState {
            width,
            height,
            cur_turn: Player::Red,
            vstates: BarVec::new(width, height - 1, BarDirection::Vertical),
            hstates: BarVec::new(width - 1, height, BarDirection::Horizontal),
            cellstates: free_vec((width - 1) * (height - 1)),
        };
        proof {
            assert(r@ =~= BoardModel::empty(width as nat, height as nat, Player::Red));
            lemma_empty_wf(width as nat, height as nat, Player::Red);
        }
        r
    }

    pub fn width(&self) -> (r: u32)
        ensures
            r == self@.width,
    {
        self.width
    }

    pub fn height(&self) -> (r: u32)
        ensures
            r == self@.height,
    {
        self.height
    }

    pub fn cur_turn(&self) -> (r: Player)
        ensures
            r == self@.turn,
    {
        self.cur_turn
    }

    /// Clears every bar and cell and gives the first move to `starting_player`.
    pub fn restart(&mut self, starting_player: Player)
        requires
            old(self).wf(),
        ensures
            final(self).wf(),
            final(self)@ == BoardModel::empty(old(self)@.width, old(self)@.height, starting_player),
    {
        proof {
            use_type_invariant(&*self);
        }
        let n = self.cellstates.len();
        let mut i: usize = 0;
        while i < n
            invariant
                i <= n,
                self.cellstates@.len() == n,
                self.vstates == old(self).vstates,
                self.hstates == old(self).hstates,
                self.width == old(self).width,
                self.height == old(self).height,
                forall|k: int| 0 <= k < i ==> self.cellstates@[k] == CellState::Free,
            decreases n - i,
        {
            proof {
                use_type_invariant(&*self);
            }
            self.cellstates[i] = CellState::Free;
            i = i + 1;
        }
        self.vstates.clear();
        self.hstates.clear();
        self.cur_turn = starting_player;
        proof {
            let e = BoardModel::empty(old(self)@.width, old(self)@.height, starting_player);
            assert(self@.cells =~= e.cells);
            assert(self@.vbars =~= e.vbars);
            assert(self@.hbars =~= e.hbars);
            lemma_empty_wf(old(self)@.width, old(self)@.height, starting_player);
        }
    }

    pub fn is_valid_bar(&self, bar: BarId) -> (r: bool)
        ensures
            r == self@.valid_bar(bar),
    {
        proof {
            use_type_invariant(self);
        }
        match bar.direction {
            BarDirection::Vertical => bar.col < self.width && bar.row < self.height - 1,
            BarDirection::Horizontal => bar.col < self.width - 1 && bar.row < self.height,
        }
    }

    pub fn cell_get(&self, col: u32, row: u32) -> (r: CellState)
        requires
            self.wf(),
            self@.valid_cell(col as int, row as int),
        ensures
            r == self@.cell(col as int, row as int),
    {
        proof {
            use_type_invariant(self);
        }
        proof {
            lemma_sub_dims(self.width as int, self.height as int);
            lemma_grid_index_bound(self.width - 1, self.height - 1, col as int, row as int);
        }
        self.cellstates[(row * (self.width - 1) + col) as usize]
    }

    fn cell_set(&mut self, col: u32, row: u32, state: CellState)
        requires
            old(self)@.valid_cell(col as int, row as int),
        ensures
            final(self)@ == (BoardModel {
                cells: old(self)@.cells.update(
                    grid_index(old(self)@.width - 1, col as int, row as int),
                    state,
                ),
                ..old(self)@
            }),
    {
        proof {
            use_type_invariant(&*self);
        }
        proof {
            lemma_sub_dims(self.width as int, self.height as int);
            lemma_grid_index_bound(self.width - 1, self.height - 1, col as int, row as int);
        }
        self.cellstates[(row * (self.width - 1) + col) as usize] = state;
        proof {
            assert(self@ =~= (BoardModel {
                cells: old(self)@.cells.update(
                    grid_index(old(self)@.width - 1, col as int, row as int),
                    state,
                ),
                ..old(self)@
            }));
        }
    }

    fn cell_is_full(&self, col: u32, row: u32) -> (r: bool)
        requires
            self@.valid_cell(col as int, row as int),
        ensures
            r == self@.cell_full(col as int, row as int),
    {
        proof {
            use_type_invariant(self);
        }
        self.vstates.get(col, row) != CellState::Free && self.vstates.get(col + 1, row)
            != CellState::Free && self.hstates.get(col, row) != CellState::Free
            && self.hstates.get(col, row + 1) != CellState::Free
    }

    /// Who owns `bar`.
    pub fn bar_get(&self, bar: BarId) -> (r: CellState)
        requires
            self@.valid_bar(bar),
        ensures
            r == self@.bar_state(bar),
    {
        proof {
            use_type_invariant(self);
        }
        let bar_vec = match bar.direction {
            BarDirection::Vertical => &self.vstates,
            BarDirection::Horizontal => &self.hstates,
        };
        bar_vec.get(bar.col, bar.row)
    }

    fn bar_set(&mut self, bar: BarId, state: CellState)
        requires
            old(self)@.valid_bar(bar),
        ensures
            final(self)@ == old(self)@.with_bar(bar, state),
    {
        proof {
            use_type_invariant(&*self);
        }
        match bar.direction {
            BarDirection::Vertical => self.vstates.set(bar.col, bar.row, state),
            BarDirection::Horizontal => self.hstates.set(bar.col, bar.row, state),
        }
        proof {
            assert(self@ =~= old(self)@.with_bar(bar, state));
        }
    }

    /// Claims `bar` for the player to move. Refused (returning false, with
    /// nothing changed) when the bar does not exist or is already owned.
    /// Otherwise every neighbouring cell that the bar completes goes to the
    /// mover, and the turn passes only when no cell was completed.
    pub fn do_move(&mut self, bar: BarId) -> (r: bool)
        requires
            old(self).wf(),
        ensures
            final(self).wf(),
            r == old(self)@.is_legal(bar),
            r ==> final(self)@ == old(self)@.after_move(bar),
            !r ==> final(self)@ == old(self)@,
    {
        proof {
            use_type_invariant(&*self);
        }
        if !self.is_valid_bar(bar) {
            return false;
        }
        let cur_turn = self.cur_turn;
        let neighbors = self.bar_neighbors(bar);
        if self.bar_get(bar) == CellState::Free {
            let ghost m = self@;
            let ghost nb = m.neighbors(bar);
            proof {
                lemma_neighbors(m, bar);
            }
            self.bar_set(bar, CellState::Player(cur_turn));
            let ghost b = self@;
            let mut point_gained = false;
            let mut k: usize = 0;
            while k < neighbors.len()
                invariant
                    k <= neighbors@.len() == nb.len(),
                    forall|i: int|
                        0 <= i < neighbors@.len() ==> (neighbors@[i].0 as int, neighbors@[i].1 as int)
                            == #[trigger] nb[i],
                    forall|i: int| #![trigger nb[i]] 0 <= i < nb.len() ==> m.valid_cell(nb[i].0, nb[i].1),
                    b.width == m.width,
                    b.height == m.height,
                    self@ == (BoardModel { cells: b.claimed(nb, k as int, cur_turn), ..b }),
                    point_gained == b.any_full(nb, k as int),
                decreases neighbors@.len() - k,
            {
                proof {
                    use_type_invariant(&*self);
                }
                let (neighbor_col, neighbor_row) = neighbors[k];
                assert(nb[k as int] == (neighbor_col as int, neighbor_row as int));
                if self.cell_is_full(neighbor_col, neighbor_row) {
                    point_gained = true;
                    self.cell_set(neighbor_col, neighbor_row, CellState::Player(cur_turn));
                }
                k = k + 1;
                proof {
                    assert(self@ =~= (BoardModel { cells: b.claimed(nb, k as int, cur_turn), ..b }));
                }
            }
            proof {
                use_type_invariant(&*self);
            }
            if !point_gained {
                self.cur_turn = cur_turn.other();
            }
            proof {
                assert(self@ =~= m.after_move(bar));
                lemma_after_move(m, bar);
            }
            true
        } else {
            false
        }
    }

    /// Takes back the claim of `bar`, inferring from the board alone what
    /// that claim did: if a neighbouring cell is owned now, the claim scored
    /// and its mover is the player to move; otherwise the mover is the
    /// opponent. Refused (returning false, with nothing changed) when the bar
    /// does not exist or is not owned by that mover. Otherwise the bar and its
    /// neighbouring cells become free and the mover is to move again.
    pub fn undo_move(&mut self, bar: BarId) -> (r: bool)
        requires
            old(self).wf(),
        ensures
            final(self).wf(),
            r == old(self)@.can_undo(bar),
            r ==> final(self)@ == old(self)@.undo_move(bar),
            !r ==> final(self)@ == old(self)@,
    {
        proof {
            use_type_invariant(&*self);
        }
        if !self.is_valid_bar(bar) {
            return false;
        }
        let ghost m = self@;
        let ghost nb = m.neighbors(bar);
        let neighbors = self.bar_neighbors(bar);
        proof {
            lemma_neighbors(m, bar);
        }
        let mut point_scored = false;
        let mut k: usize = 0;
        while k < neighbors.len()
            invariant
                k <= neighbors@.len() == nb.len(),
                forall|i: int|
                    0 <= i < neighbors@.len() ==> (neighbors@[i].0 as int, neighbors@[i].1 as int)
                        == #[trigger] nb[i],
                forall|i: int| #![trigger nb[i]] 0 <= i < nb.len() ==> m.valid_cell(nb[i].0, nb[i].1),
                self.wf(),
                self@ == m,
                point_scored == m.any_owned(nb, k as int),
            decreases neighbors@.len() - k,
        {
            proof {
                use_type_invariant(&*self);
            }
            let (col, row) = neighbors[k];
            assert(nb[k as int] == (col as int, row as int));
            if self.cell_get(col, row) != CellState::Free {
                point_scored = true;
            }
            k = k + 1;
        }
        let this_turn = if point_scored {
            self.cur_turn
        } else {
            self.cur_turn.other()
        };
        if self.bar_get(bar) != CellState::Player(this_turn) {
            return false;
        }
        self.bar_set(bar, CellState::Free);
        let ghost b = self@;
        let mut k: usize = 0;
        while k < neighbors.len()
            invariant
                k <= neighbors@.len() == nb.len(),
                forall|i: int|
                    0 <= i < neighbors@.len() ==> (neighbors@[i].0 as int, neighbors@[i].1 as int)
                        == #[trigger] nb[i],
                forall|i: int| #![trigger nb[i]] 0 <= i < nb.len() ==> m.valid_cell(nb[i].0, nb[i].1),
                b.cells == m.cells,
                b.width == m.width,
                b.height == m.height,
                self@ == (BoardModel { cells: m.cleared(nb, k as int), ..b }),
            decreases neighbors@.len() - k,
        {
            proof {
                use_type_invariant(&*self);
            }
            let (col, row) = neighbors[k];
            assert(nb[k as int] == (col as int, row as int));
            self.cell_set(col, row, CellState::Free);
            k = k + 1;
            proof {
                assert(self@ =~= (BoardModel { cells: m.cleared(nb, k as int), ..b }));
            }
        }
        proof {
            use_type_invariant(&*self);
        }
        self.cur_turn = this_turn;
        proof {
            assert(self@ =~= m.undo_move(bar));
            lemma_undo_wf(m, bar);
        }
        true
    }

    /// How many bars the board has.
    pub fn n_bars(&self) -> (r: u32)
        ensures
            r == self@.n_bars(),
    {
        proof {
            use_type_invariant(self);
        }
        proof {
            lemma_sub_dims(self.width as int, self.height as int);
        }
        self.vstates.len() + self.hstates.len()
    }

    /// The bar at position `index` of the combined order: vertical bars in
    /// row-major order, then horizontal bars in row-major order.
    pub fn index_to_bar(&self, index: u32) -> (r: BarId)
        requires
            index < self@.n_bars(),
        ensures
            r == self@.bar_of_index(index as int),
            self@.valid_bar(r),
            self@.bar_state(r) == self@.slot(index as int),
    {
        proof {
            use_type_invariant(self);
            lemma_sub_dims(self.width as int, self.height as int);
            lemma_bar_of_index(self@, index as int);
        }
        let nv = self.vstates.len();
        if index < nv {
            self.vstates.index_to_id(index)
        } else {
            self.hstates.index_to_id(index - nv)
        }
    }

    /// The bar at position `index` of the combined order if it is free,
    /// else `None`: one draw of the random sampler.
    pub fn free_bar_at(&self, index: u32) -> (r: Option<BarId>)
        requires
            index < self@.n_bars(),
        ensures
            r == (if self@.slot(index as int) == CellState::Free {
                Some(self@.bar_of_index(index as int))
            } else {
                None
            }),
    {
        let bar = self.index_to_bar(index);
        if self.bar_get(bar) == CellState::Free {
            Some(bar)
        } else {
            None
        }
    }

    /// Final score for `player` on a board where every bar is owned: one
    /// point for each cell `player` owns, minus one for each other cell.
    pub fn score_for(&self, player: Player) -> (r: i32)
        requires
            self.wf(),
            self@.is_terminal(),
        ensures
            r == score(self@.cells, player, self@.cells.len() as int),
            -(self@.n_cells()) <= r <= self@.n_cells(),
    {
        proof {
            use_type_invariant(self);
            lemma_sub_dims(self.width as int, self.height as int);
            lemma_terminal_cells_owned(self@);
        }
        let n = self.cellstates.len();
        let mut total: i32 = 0;
        let mut i: usize = 0;
        while i < n
            invariant
                i <= n == self@.cells.len(),
                n <= MAX_AREA,
                self.wf(),
                self@.is_terminal(),
                forall|col: int, row: int|
                    self@.valid_cell(col, row) ==> #[trigger] self@.cell(col, row) != CellState::Free,
                total == score(self@.cells, player, i as int),
                -(i as int) <= total <= i,
            decreases n - i,
        {
            proof {
                use_type_invariant(self);
                lemma_split_index(self.width - 1, self.height - 1, i as int);
                assert(self@.cell(
                    (i as int) % (self.width - 1),
                    (i as int) / (self.width - 1),
                ) != CellState::Free);
            }
            match self.cellstates[i] {
                CellState::Free => {
                    proof {
                        assert(false);
                    }
                },
                CellState::Player(owner) => {
                    if owner == player {
                        total = total + 1;
                    } else {
                        total = total - 1;
                    }
                },
            }
            i = i + 1;
        }
        total
    }

    /// The first free bar at or after position `start` of the combined order
    /// (vertical bars, then horizontal ones, each in row-major order), with
    /// its position.
    pub fn first_free_from(&self, start: u32) -> (r: Option<(BarId, u32)>)
        requires
            self.wf(),
        ensures
            r is None ==> self@.free_from(start as int) == Seq::<BarId>::empty(),
            r matches Some((bar, idx)) ==> start <= idx < self@.n_bars() && self@.free_from(
                start as int,
            ) == seq![bar] + self@.free_from(idx + 1),
    {
        proof {
            use_type_invariant(self);
        }
        proof {
            lemma_sub_dims(self.width as int, self.height as int);
        }
        let nv = self.vstates.len();
        let total = nv + self.hstates.len();
        let mut i = start;
        if i > total {
            return None;
        }
        while i < total
            invariant
                start <= i <= total,
                nv == self@.n_vbars(),
                total == self@.n_bars(),
                self.wf(),
                self@.free_from(start as int) == self@.free_from(i as int),
            decreases total - i,
        {
            proof {
                use_type_invariant(self);
            }
            let bar = self.index_to_bar(i);
            proof {
                lemma_bar_of_index(self@, i as int);
            }
            if self.bar_get(bar) == CellState::Free {
                return Some((bar, i));
            }
            i = i + 1;
        }
        None
    }

    /// Every legal move: the free vertical bars, then the free horizontal
    /// bars, each grid in row-major order.
    pub fn legal_moves(&self) -> (r: Vec<BarId>)
        requires
            self.wf(),
        ensures
            r@ == self@.free_bars(),
    {
        proof {
            use_type_invariant(self);
            lemma_sub_dims(self.width as int, self.height as int);
        }
        let ghost m = self@;
        let ghost nv = m.n_vbars();
        let mut res: Vec<BarId> = Vec::new();
        let mut it = self.vstates.iter();
        loop
            invariant
                it.wf(),
                it.direction == BarDirection::Vertical,
                it.width == m.width,
                it.length == nv,
                it.vec@ == m.vbars,
                self@ == m,
                m.shaped(),
                res@ + m.free_from(it.cur_index as int) == m.free_bars(),
            ensures
                self@ == m,
                res@ + m.free_from(nv) == m.free_bars(),
            decreases it.length - it.cur_index,
        {
            let ghost i = it.cur_index as int;
            match it.next() {
                None => {
                    break ;
                },
                Some((bar, state)) => {
                    proof {
                        lemma_bar_of_index(m, i);
                    }
                    if state == CellState::Free {
                        proof {
                            assert(res@.push(bar) + m.free_from(i + 1) =~= res@ + m.free_from(i));
                        }
                        res.push(bar);
                    }
                },
            }
        }
        let mut it = self.hstates.iter();
        loop
            invariant
                it.wf(),
                it.direction == BarDirection::Horizontal,
                it.width == m.width - 1,
                it.length == m.n_hbars(),
                it.vec@ == m.hbars,
                nv == m.n_vbars(),
                self@ == m,
                m.shaped(),
                res@ + m.free_from(nv + it.cur_index) == m.free_bars(),
            decreases it.length - it.cur_index,
        {
            let ghost i = nv + it.cur_index;
            match it.next() {
                None => {
                    proof {
                        assert(m.free_from(i) =~= Seq::<BarId>::empty());
                        assert(res@ =~= m.free_bars());
                    }
                    return res;
                },
                Some((bar, state)) => {
                    proof {
                        lemma_bar_of_index(m, i);
                        assert(bar == m.bar_of_index(i));
                        assert(state == m.slot(i));
                    }
                    if state == CellState::Free {
                        proof {
                            assert(res@.push(bar) + m.free_from(i + 1) =~= res@ + m.free_from(i));
                        }
                        res.push(bar);
                    }
                },
            }
        }
    }

    /// The one or two cells on either side of `bar`.
    fn bar_neighbors(&self, bar: BarId) -> (r: Vec<(u32, u32)>)
        requires
            self@.valid_bar(bar),
        ensures
            r@.len() == self@.neighbors(bar).len(),
            forall|i: int|
                0 <= i < r@.len() ==> (r@[i].0 as int, r@[i].1 as int) == #[trigger] self@.neighbors(bar)[i],
    {
        proof {
            use_type_invariant(self);
        }
        let mut res: Vec<(u32, u32)> = Vec::new();
        match bar.direction {
            BarDirection::Vertical => {
                if bar.col != 0 {
                    res.push((bar.col - 1, bar.row));
                }
                if bar.col < self.width - 1 {
                    res.push((bar.col, bar.row));
                }
            },
            BarDirection::Horizontal => {
                if bar.row != 0 {
                    res.push((bar.col, bar.row - 1));
                }
                if bar.row < self.height - 1 {
                    res.push((bar.col, bar.row));
                }
            },
        }
        res
    }
}

} // verus!
