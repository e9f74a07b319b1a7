//! Dense storage for the bars of one orientation.
use crate::board::{BarDirection, BarId, CellState, MAX_AREA};
use crate::model::{grid_index, lemma_grid_index_bound};
use vstd::prelude::*;

verus! {

/// Dense storage for the bars of one orientation: `width * height` slots,
/// slot `row * width + col` holding the bar at `(col, row)`.
pub(crate) struct BarVec {
    pub(crate) width: u32,
    pub(crate) height: u32,
    pub(crate) direction: BarDirection,
    pub(crate) vec: Vec<CellState>,
}

/// Walks a bar grid in row-major order, yielding each bar with its owner.
pub(crate) struct BarVecIdIterator<'a> {
    pub(crate) direction: BarDirection,
    pub(crate) width: u32,
    pub(crate) length: u32,
    pub(crate) cur_index: u32,
    pub(crate) vec: &'a [CellState],
}

impl<'a> BarVecIdIterator<'a> {
    pub(crate) open spec fn wf(&self) -> bool {
        &&& 0 < self.width
        &&& self.length == self.vec@.len()
        &&& self.cur_index <= self.length
    }

    pub(crate) fn next(&mut self) -> (r: Option<(BarId, CellState)>)
        requires
            old(self).wf(),
        ensures
            final(self).wf(),
            final(self).direction == old(self).direction,
            final(self).width == old(self).width,
            final(self).length == old(self).length,
            final(self).vec == old(self).vec,
            old(self).cur_index >= old(self).length ==> r is None && final(self).cur_index
                == old(self).cur_index,
            old(self).cur_index < old(self).length ==> final(self).cur_index == old(self).cur_index
                + 1 && r == Some(
                (
                    BarId {
                        direction: old(self).direction,
                        col: old(self).cur_index % old(self).width,
                        row: old(self).cur_index / old(self).width,
                    },
                    old(self).vec@[old(self).cur_index as int],
                ),
            ),
    {
        if self.cur_index >= self.length {
            None
        } else {
            let id = BarId {
                direction: self.direction,
                col: self.cur_index % self.width,
                row: self.cur_index / self.width,
            };
            let state = self.vec[self.cur_index as usize];
            self.cur_index = self.cur_index + 1;
            Some((id, state))
        }
    }
}

impl BarVec {
    /// Every bar of the grid with its owner, slot 0 first.
    pub(crate) fn iter(&self) -> (r: BarVecIdIterator<'_>)
        requires
            self.wf(),
        ensures
            r.wf(),
            r.direction == self.direction,
            r.width == self.width,
            r.length == self.width * self.height,
            r.cur_index == 0,
            r.vec@ == self.vec@,
    {
        BarVecIdIterator {
            direction: self.direction,
            width: self.width,
            length: self.width * self.height,
            cur_index: 0,
            vec: self.vec.as_slice(),
        }
    }

    /// A copy of this grid.
    pub(crate) fn duplicate(&self) -> (r: Self)
        ensures
            r.width == self.width,
            r.height == self.height,
            r.direction == self.direction,
            r.vec@ == self.vec@,
    {
        let vec = self.vec.clone();
        proof {
            assert forall|i: int| 0 <= i < vec@.len() implies vec@[i] == self.vec@[i] by {
                assert(cloned::<CellState>(self.vec[i], vec[i]));
            }
            assert(vec@ =~= self.vec@);
        }
        BarVec { width: self.width, height: self.height, direction: self.direction, vec }
    }

    pub(crate) open spec fn wf(&self) -> bool {
        &&& 0 < self.width
        &&& self.width * self.height <= MAX_AREA
        &&& self.vec@.len() == self.width * self.height
    }

    pub(crate) open spec fn at(&self, col: int, row: int) -> CellState {
        self.vec@[grid_index(self.width as int, col, row)]
    }

    pub(crate) fn new(width: u32, height: u32, direction: BarDirection) -> (r: BarVec)
        requires
            0 < width,
            width * height <= MAX_AREA,
        ensures
            r.wf(),
            r.width == width,
            r.height == height,
            r.direction == direction,
            r.vec@ == Seq::new((width * height) as nat, |i: int| CellState::Free),
    {
        let vec = free_vec(width * height);
        BarVec { width, height, direction, vec }
    }

    pub(crate) fn get(&self, col: u32, row: u32) -> (r: CellState)
        requires
            self.wf(),
            col < self.width,
            row < self.height,
        ensures
            r == self.at(col as int, row as int),
    {
        proof {
            lemma_grid_index_bound(self.width as int, self.height as int, col as int, row as int);
        }
        self.vec[(row * self.width + col) as usize]
    }

    pub(crate) fn set(&mut self, col: u32, row: u32, state: CellState)
        requires
            old(self).wf(),
            col < old(self).width,
            row < old(self).height,
        ensures
            final(self).wf(),
            final(self).width == old(self).width,
            final(self).height == old(self).height,
            final(self).direction == old(self).direction,
            final(self).vec@ == old(self).vec@.update(
                grid_index(old(self).width as int, col as int, row as int),
                state,
            ),
        no_unwind
    {
        proof {
            lemma_grid_index_bound(self.width as int, self.height as int, col as int, row as int);
        }
        self.vec[(row * self.width + col) as usize] = state;
    }

    /// The bar stored at slot `index`.
    pub(crate) fn index_to_id(&self, index: u32) -> (r: BarId)
        requires
            self.wf(),
            index < self.width * self.height,
        ensures
            r.direction == self.direction,
            r.col == index % self.width,
            r.row == index / self.width,
    {
        BarId { direction: self.direction, col: index % self.width, row: index / self.width }
    }

    pub(crate) fn len(&self) -> (r: u32)
        requires
            self.wf(),
        ensures
            r == self.width * self.height,
    {
        self.vec.len() as u32
    }

    pub(crate) fn clear(&mut self)
        requires
            old(self).wf(),
        ensures
            final(self).wf(),
            final(self).width == old(self).width,
            final(self).height == old(self).height,
            final(self).direction == old(self).direction,
            final(self).vec@ == Seq::new(old(self).vec@.len(), |i: int| CellState::Free),
        no_unwind
    {
        let n = self.vec.len();
        let mut i: usize = 0;
        while i < n
            invariant
                i <= n,
                self.wf(),
                self.vec@.len() == n,
                self.width == old(self).width,
                self.height == old(self).height,
                self.direction == old(self).direction,
                forall|k: int| 0 <= k < i ==> self.vec@[k] == CellState::Free,
            decreases n - i,
        {
            self.vec[i] = CellState::Free;
            i = i + 1;
        }
        proof {
            assert(self.vec@ =~= Seq::new(old(self).vec@.len(), |i: int| CellState::Free));
        }
    }
}

/// A vector of `n` free slots.
pub(crate) fn free_vec(n: u32) -> (r: Vec<CellState>)
    ensures
        r@ == Seq::new(n as nat, |i: int| CellState::Free),
{
    let mut vec: Vec<CellState> = Vec::new();
    let mut i: u32 = 0;
    while i < n
        invariant
            i <= n,
            vec@ == Seq::new(i as nat, |k: int| CellState::Free),
        decreases n - i,
    {
        vec.push(CellState::Free);
        i = i + 1;
        proof {
            assert(vec@ =~= Seq::new(i as nat, |k: int| CellState::Free));
        }
    }
    vec
}

} // verus!
