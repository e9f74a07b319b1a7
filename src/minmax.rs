//! A search over any game state that can enumerate its moves, apply one,
//! and take applied moves back: every legal move at the root is tried under
//! a checkpoint, scored by a pluggable evaluator, and rolled back.
use std::marker::PhantomData;
use vstd::prelude::*;

verus! {

/// Walks the legal moves of a state, one at a time, in a fixed order.
pub trait PossibleMovesIterator<S: View, M>: Sized {
    /// States that a walk can run over.
    spec fn accepts(state: S::V) -> bool;

    /// All the moves a fresh walk over `state` yields, in order.
    spec fn enumeration(state: S::V) -> Seq<M>;

    /// The moves this walk has still to yield over `state`.
    spec fn remaining(&self, state: S::V) -> Seq<M>;

    fn new<'a>(state: &'a S) -> (r: Self)
        requires
            Self::accepts(state@),
        ensures
            r.remaining(state@) == Self::enumeration(state@),
    ;

    fn next<'a>(&mut self, state: &'a S) -> (r: Option<M>)
        requires
            Self::accepts(state@),
        ensures
            old(self).remaining(state@).len() == 0 ==> r is None && final(self).remaining(state@)
                == old(self).remaining(state@),
            old(self).remaining(state@).len() > 0 ==> r == Some(old(self).remaining(state@)[0])
                && final(self).remaining(state@) == old(self).remaining(state@).drop_first(),
    ;
}

/// A walk over the moves of one state, bound to that state.
pub struct PossibleMovesWrapper<'a, S: View, M, I: PossibleMovesIterator<S, M>> {
    state: &'a S,
    iter: I,
    phantom: PhantomData<M>,
}

impl<'a, S: View, M, I: PossibleMovesIterator<S, M>> PossibleMovesWrapper<'a, S, M, I> {
    /// The state being walked.
    pub closed spec fn state(&self) -> S {
        *self.state
    }

    /// The moves still to come.
    pub closed spec fn remaining(&self) -> Seq<M> {
        self.iter.remaining(self.state@)
    }

    pub fn next(&mut self) -> (r: Option<M>)
        requires
            I::accepts(old(self).state()@),
        ensures
            final(self).state() == old(self).state(),
            old(self).remaining().len() == 0 ==> r is None
                && final(self).remaining() == old(self).remaining(),
            old(self).remaining().len() > 0 ==> r == Some(old(self).remaining()[0])
                && final(self).remaining() == old(self).remaining().drop_first(),
    {
        self.iter.next(self.state)
    }

    /// Everything still to come, in order.
    pub fn collect_vec(&mut self) -> (r: Vec<M>)
        requires
            I::accepts(old(self).state()@),
        ensures
            final(self).state() == old(self).state(),
            r@ == old(self).remaining(),
            final(self).remaining().len() == 0,
    {
        let mut res: Vec<M> = Vec::new();
        loop
            invariant
                I::accepts(self.state()@),
                self.state() == old(self).state(),
                res@ + self.remaining() == old(self).remaining(),
            decreases self.remaining().len(),
        {
            let ghost before = self.remaining();
            match self.next() {
                None => {
                    proof {
                        assert(res@ =~= old(self).remaining());
                    }
                    return res;
                },
                Some(mv) => {
                    proof {
                        assert(res@.push(mv) + self.remaining() =~= res@ + before);
                    }
                    res.push(mv);
                },
            }
        }
    }
}

/// A game state that a search can explore: it lists its legal moves,
/// applies one, and takes back the latest applied moves.
pub trait MinMaxState: Sized + View {
    type Move: Copy;

    type PossibleMovesIterator: PossibleMovesIterator<Self, Self::Move>;

    /// States that the operations accept.
    spec fn wf_view(v: Self::V) -> bool;

    /// How many applied moves can be taken back.
    spec fn depth(v: Self::V) -> nat;

    spec fn is_legal(v: Self::V, mv: Self::Move) -> bool;

    /// The state after applying the legal move `mv`.
    spec fn apply_view(v: Self::V, mv: Self::Move) -> Self::V;

    /// The state before the latest applied move.
    spec fn undo_view(v: Self::V) -> Self::V;

    /// The state before the latest `n` applied moves.
    spec fn rewind(v: Self::V, n: nat) -> Self::V;

    /// Rewinding is taking back the latest move, `n` times over.
    proof fn lemma_rewind(v: Self::V, n: nat)
        ensures
            Self::rewind(v, 0) == v,
            Self::rewind(v, n + 1) == Self::rewind(Self::undo_view(v), n),
    ;

    /// A walk runs over every accepted state, and every move it yields is legal.
    proof fn lemma_moves_legal(v: Self::V)
        requires
            Self::wf_view(v),
        ensures
            <Self::PossibleMovesIterator as PossibleMovesIterator<Self, Self::Move>>::accepts(v),
            forall|i: int|
                0 <= i < <Self::PossibleMovesIterator as PossibleMovesIterator<
                    Self,
                    Self::Move,
                >>::enumeration(v).len() ==> Self::is_legal(
                    v,
                    #[trigger] <Self::PossibleMovesIterator as PossibleMovesIterator<
                        Self,
                        Self::Move,
                    >>::enumeration(v)[i],
                ),
    ;

    fn possible_moves<'a>(&'a self) -> (r: PossibleMovesWrapper<
        'a,
        Self,
        Self::Move,
        Self::PossibleMovesIterator,
    >)
        requires
            Self::wf_view(self@),
        ensures
            r.state() == *self,
            r.remaining() == <Self::PossibleMovesIterator as PossibleMovesIterator<
                Self,
                Self::Move,
            >>::enumeration(self@),
    {
        proof {
            Self::lemma_moves_legal(self@);
        }
        let iter = Self::PossibleMovesIterator::new(self);
        let r = PossibleMovesWrapper { state: self, iter, phantom: PhantomData };
        assert(r.remaining() == iter.remaining(self@));
        r
    }

    /// Opens a checkpoint: moves applied through it are taken back when it
    /// is closed.
    fn checkpoint(&mut self) -> (r: MinMaxStateCheckpoint<'_, Self>)
        requires
            Self::wf_view(old(self)@),
        ensures
            *r.state == *old(self),
            *final(r.state) == *final(self),
            r.mutation_count == 0,
            r.origin@ == old(self)@,
    {
        let ghost origin = self@;
        MinMaxStateCheckpoint { state: self, mutation_count: 0, origin: Ghost(origin) }
    }

    /// Applies `mv` if it is legal; otherwise changes nothing.
    fn _apply_move(&mut self, mv: Self::Move) -> (r: bool)
        requires
            Self::wf_view(old(self)@),
        ensures
            r == Self::is_legal(old(self)@, mv),
            r ==> final(self)@ == Self::apply_view(old(self)@, mv),
            r ==> Self::wf_view(final(self)@) && Self::undo_view(final(self)@) == old(self)@
                && Self::depth(final(self)@) == Self::depth(old(self)@) + 1,
            !r ==> final(self)@ == old(self)@,
    ;

    /// Takes back the latest `nr_moves` applied moves. `wf_view` holds only
    /// of states whose applied moves can all be taken back, so no step fails
    /// here. For the board, the soft refusal of a bar that is not owned by
    /// the inferred mover lives in `BoardState::undo_move`
    /// (`r == can_undo(bar)`, nothing changed otherwise), which each step
    /// calls.
    fn _undo_moves(&mut self, nr_moves: u32) -> (r: bool)
        requires
            Self::wf_view(old(self)@),
            nr_moves <= Self::depth(old(self)@),
        ensures
            r,
            Self::wf_view(final(self)@),
            final(self)@ == Self::rewind(old(self)@, nr_moves as nat),
    ;
}

/// The legal moves of `v`, in the order a walk yields them.
pub open spec fn moves_of<S: MinMaxState>(v: S::V) -> Seq<S::Move> {
    <S::PossibleMovesIterator as PossibleMovesIterator<S, S::Move>>::enumeration(v)
}

/// A scope over a state: each move applied through it is counted, and
/// `close` takes exactly that many moves back, leaving the state as it was
/// when the checkpoint was opened. A verified caller that lets a checkpoint
/// go without closing it cannot show that its state came back, so every
/// path out of the scope closes it.
pub struct MinMaxStateCheckpoint<'a, S: MinMaxState> {
    pub state: &'a mut S,
    pub mutation_count: u32,
    /// The state when the checkpoint was opened.
    pub origin: Ghost<S::V>,
}

impl<'a, S: MinMaxState> MinMaxStateCheckpoint<'a, S> {
    /// Taking back the counted moves leads to the opening state.
    pub open spec fn inv(&self) -> bool {
        &&& S::wf_view(self.state@)
        &&& S::depth(self.state@) == S::depth(self.origin@) + self.mutation_count
        &&& S::rewind(self.state@, self.mutation_count as nat) == self.origin@
    }

    /// Applies a legal move and counts it.
    pub fn apply(&mut self, mv: S::Move) -> (r: bool)
        requires
            old(self).inv(),
            S::is_legal(old(self).state@, mv),
            old(self).mutation_count < u32::MAX,
        ensures
            r,
            final(self).inv(),
            final(self).origin == old(self).origin,
            final(self).mutation_count == old(self).mutation_count + 1,
            final(self).state@ == S::apply_view(old(self).state@, mv),
            S::undo_view(final(self).state@) == old(self).state@,
            *final(final(self).state) == *final(old(self).state),
    {
        self.mutation_count = self.mutation_count + 1;
        let ok = self.state._apply_move(mv);
        proof {
            S::lemma_rewind(self.state@, old(self).mutation_count as nat);
        }
        assert(ok);
        true
    }

    /// Takes back every move applied through this checkpoint.
    pub fn close(self)
        requires
            self.inv(),
        ensures
            (*final(self.state))@ == self.origin@,
            S::wf_view((*final(self.state))@),
    {
        self.state._undo_moves(self.mutation_count);
    }
}

/// Scores a state for the searching side. The state may be explored, but
/// it must be handed back as it came.
pub trait MinMaxInterface {
    type State: MinMaxState;

    fn heuristic(&mut self, state: &mut Self::State) -> (r: i32)
        requires
            <Self::State as MinMaxState>::wf_view(old(state)@),
        ensures
            final(state)@ == old(state)@,
    ;
}

/// Search settings. None are defined yet.
pub struct MinMaxOptions {}

impl Default for MinMaxOptions {
    fn default() -> (r: Self)
        ensures
            r == (MinMaxOptions {}),
    {
        Self {}
    }
}

/// Position of the best score among `scores[..n]`, the later one winning a tie.
pub open spec fn best_index(scores: Seq<i32>, n: int) -> int
    decreases n,
{
    if n <= 1 {
        0
    } else {
        let k = best_index(scores, n - 1);
        if scores[n - 1] >= scores[k] {
            n - 1
        } else {
            k
        }
    }
}

/// The move with the highest score, the later one winning a tie; `None`
/// when there is no move.
pub open spec fn last_best<M>(moves: Seq<M>, scores: Seq<i32>) -> Option<M> {
    if moves.len() == 0 {
        None
    } else {
        Some(moves[best_index(scores, moves.len() as int)])
    }
}

/// `best_index` picks a highest score, and every later score is strictly lower.
pub proof fn lemma_best_index(scores: Seq<i32>, n: int)
    requires
        1 <= n <= scores.len(),
    ensures
        0 <= best_index(scores, n) < n,
        forall|j: int| 0 <= j < n ==> #[trigger] scores[j] <= scores[best_index(scores, n)],
        forall|j: int|
            best_index(scores, n) < j < n ==> #[trigger] scores[j] < scores[best_index(scores, n)],
    decreases n,
{
    if n > 1 {
        lemma_best_index(scores, n - 1);
    }
}

/// Of two candidates with equal scores that no other candidate beats, the
/// earlier one is never chosen: the choice is the later one, or one after it
/// with the same score.
pub proof fn lemma_tie_goes_to_later(scores: Seq<i32>, i: int, j: int)
    requires
        0 <= i < j < scores.len(),
        scores[i] == scores[j],
        forall|k: int| 0 <= k < scores.len() ==> #[trigger] scores[k] <= scores[j],
    ensures
        best_index(scores, scores.len() as int) != i,
        j <= best_index(scores, scores.len() as int) < scores.len(),
        scores[best_index(scores, scores.len() as int)] == scores[j],
{
    lemma_best_index(scores, scores.len() as int);
}

/// With a single candidate, that candidate is chosen whatever its score.
pub proof fn lemma_single_candidate<M>(moves: Seq<M>, scores: Seq<i32>)
    requires
        moves.len() == 1,
    ensures
        last_best(moves, scores) == Some(moves[0]),
{
}

/// The move with the highest score, the later one winning a tie.
pub fn pick_best<M: Copy>(moves: &Vec<M>, scores: &Vec<i32>) -> (r: Option<M>)
    requires
        moves@.len() == scores@.len(),
    ensures
        r == last_best(moves@, scores@),
{
    if moves.len() == 0 {
        return None;
    }
    let mut best: usize = 0;
    let mut k: usize = 1;
    while k < moves.len()
        invariant
            1 <= k <= moves@.len() == scores@.len(),
            best == best_index(scores@, k as int),
            best < k,
        decreases moves@.len() - k,
    {
        if scores[k] >= scores[best] {
            best = k;
        }
        k = k + 1;
    }
    Some(moves[best])
}

/// One-ply search: every legal move at the root is applied under a
/// checkpoint, scored by the evaluator, and rolled back.
pub struct MinMax<I: MinMaxInterface> {
    game: I,
    root_state: I::State,
    options: MinMaxOptions,
}

impl<I: MinMaxInterface> MinMax<I> {
    pub closed spec fn root(&self) -> I::State {
        self.root_state
    }

    /// The evaluator.
    pub closed spec fn game(&self) -> I {
        self.game
    }

    pub fn new(game: I, root_state: I::State) -> (r: Self)
        ensures
            r.root() == root_state,
            r.game() == game,
    {
        Self { game, root_state, options: MinMaxOptions::default() }
    }

    pub fn set_root_state(&mut self, new_root_state: I::State)
        ensures
            final(self).root() == new_root_state,
            final(self).game() == old(self).game(),
    {
        self.root_state = new_root_state;
    }

    pub fn set_options(&mut self, options: MinMaxOptions)
        ensures
            final(self).root() == old(self).root(),
            final(self).game() == old(self).game(),
    {
        self.options = options;
    }

    /// The legal move whose evaluated state scores highest, the later move
    /// in enumeration order winning a tie; `None` when there is no legal
    /// move. The scores come from the evaluator, so the contract holds for
    /// whatever it returned: the result is `last_best` of the legal moves
    /// and some list of scores, one per move. The root state is left as it
    /// was.
    pub fn best_move(&mut self) -> (r: Option<<I::State as MinMaxState>::Move>)
        requires
            <I::State as MinMaxState>::wf_view(old(self).root()@),
        ensures
            final(self).root()@ == old(self).root()@,
            exists|scores: Seq<i32>|
                scores.len() == moves_of::<I::State>(old(self).root()@).len() && r == #[trigger] last_best(
                    moves_of::<I::State>(old(self).root()@),
                    scores,
                ),
    {
        let ghost root = self.root_state@;
        proof {
            <I::State as MinMaxState>::lemma_moves_legal(root);
        }
        let mut walk = self.root_state.possible_moves();
        let possible_moves = walk.collect_vec();
        let mut scores: Vec<i32> = Vec::new();
        let mut k: usize = 0;
        while k < possible_moves.len()
            invariant
                k <= possible_moves@.len(),
                scores@.len() == k,
                possible_moves@ == moves_of::<I::State>(root),
                self.root_state@ == root,
                <I::State as MinMaxState>::wf_view(root),
                forall|i: int|
                    0 <= i < possible_moves@.len() ==> <I::State as MinMaxState>::is_legal(
                        root,
                        #[trigger] possible_moves@[i],
                    ),
            decreases possible_moves@.len() - k,
        {
            let mv = possible_moves[k];
            let mut state = self.root_state.checkpoint();
            proof {
                <I::State as MinMaxState>::lemma_rewind(root, 0);
            }
            state.apply(mv);
            let heuristic = self.game.heuristic(state.state);
            state.close();
            scores.push(heuristic);
            k = k + 1;
        }
        let r = pick_best(&possible_moves, &scores);
        assert(r == last_best(moves_of::<I::State>(root), scores@));
        r
    }
}

} // verus!
