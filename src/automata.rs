use vstd::prelude::*;
use crate::grid::{Grid, in_dims, linear_index, lemma_linear_index_bounds, lemma_linear_index_injective, lemma_neighborhood_shape};

verus! {

/// `r` is a value that `rule` may return when handed the neighbourhood `ngh`.
pub open spec fn rule_gives<T, F: Fn(Vec<T>) -> T>(rule: F, ngh: Seq<T>, r: T) -> bool {
    exists|v: Vec<T>| v@ == ngh && #[trigger] call_ensures(rule, (v,), r)
}

/// `rule` accepts every neighbourhood that a grid can hand it: one to four cells.
pub open spec fn accepts_neighborhoods<T, F: Fn(Vec<T>) -> T>(rule: F) -> bool {
    forall|v: Vec<T>| 1 <= v@.len() <= 4 ==> #[trigger] call_requires(rule, (v,))
}

/// `next` is one generation of `rule` applied to `prev`: same dimensions, and
/// every cell is what the rule gives on that cell's neighbourhood in `prev`.
pub open spec fn is_generation<T: Copy, F: Fn(Vec<T>) -> T>(
    prev: Grid<T>,
    next: Grid<T>,
    rule: F,
) -> bool {
    &&& next.wf()
    &&& next.width() == prev.width()
    &&& next.height() == prev.height()
    &&& forall|i: int, j: int|
        prev.in_bounds(i, j) ==> rule_gives(rule, prev.neighborhood_of(i, j), #[trigger] next.cell(i, j))
}

/// A cellular automaton over two grids of equal dimensions: the active one holds
/// the current generation, the other receives the next.
pub struct Automata<T> {
    front: Grid<T>,
    back: Grid<T>,
    flag: usize,
}

impl<T: Copy> Automata<T> {
    /// Which buffer is active: 0 or 1.
    pub closed spec fn active_index(&self) -> nat {
        self.flag as nat
    }

    /// The current generation.
    pub closed spec fn active(&self) -> Grid<T> {
        if self.flag == 0 {
            self.front
        } else {
            self.back
        }
    }

    /// The buffer that the next generation is written into.
    pub closed spec fn inactive(&self) -> Grid<T> {
        if self.flag == 0 {
            self.back
        } else {
            self.front
        }
    }

    pub open spec fn wf(&self) -> bool {
        &&& self.active_index() < 2
        &&& self.active().wf()
        &&& self.inactive().wf()
        &&& self.inactive().width() == self.active().width()
        &&& self.inactive().height() == self.active().height()
    }

    /// An automaton whose two buffers both start as copies of `grid`, the first active.
    pub fn new(grid: Grid<T>) -> (a: Self)
        requires
            grid.wf(),
        ensures
            a.wf(),
            a.active_index() == 0,
            a.active() == grid,
            a.inactive().cells() == grid.cells(),
    {
        let back = grid.duplicate();
        Automata { front: grid, back, flag: 0 }
    }

    /// The `(width, height)` of both buffers.
    pub fn dims(&self) -> (r: (usize, usize))
        requires
            self.wf(),
        ensures
            r.0 == self.active().width(),
            r.1 == self.active().height(),
    {
        if self.flag == 0 {
            self.front.dims()
        } else {
            self.back.dims()
        }
    }

    /// The cell at `(i, j)` of the current generation, or `None` outside the grid.
    pub fn get(&self, at: (usize, usize)) -> (r: Option<&T>)
        requires
            self.wf(),
        ensures
            self.active().in_bounds(at.0 as int, at.1 as int) ==> r == Some(
                &self.active().cell(at.0 as int, at.1 as int),
            ),
            !self.active().in_bounds(at.0 as int, at.1 as int) ==> r is None,
    {
        if self.flag == 0 {
            self.front.get(at)
        } else {
            self.back.get(at)
        }
    }

    /// Write access to the cell at `(i, j)` of the current generation, or `None`
    /// outside the grid.
    pub fn get_mut(&mut self, at: (usize, usize)) -> (r: Option<&mut T>)
        requires
            old(self).wf(),
        ensures
            final(self).wf(),
            final(self).active_index() == old(self).active_index(),
            final(self).inactive() == old(self).inactive(),
            final(self).active().width() == old(self).active().width(),
            final(self).active().height() == old(self).active().height(),
            old(self).active().in_bounds(at.0 as int, at.1 as int) ==> r is Some && *r.unwrap()
                == old(self).active().cell(at.0 as int, at.1 as int) && final(self).active().cells()
                == old(self).active().with_cell(at.0 as int, at.1 as int, *final(r.unwrap())),
            !old(self).active().in_bounds(at.0 as int, at.1 as int) ==> r is None && *final(self)
                == *old(self),
    {
        if self.flag == 0 {
            self.front.get_mut(at)
        } else {
            self.back.get_mut(at)
        }
    }

    /// The values of the neighbourhood of `(i, j)` in the current generation.
    fn active_neighborhood(&self, at: (usize, usize)) -> (r: Vec<T>)
        requires
            self.wf(),
        ensures
            r@ == self.active().neighborhood_of(at.0 as int, at.1 as int),
    {
        let refs = if self.flag == 0 {
            self.front.neighborhood(at)
        } else {
            self.back.neighborhood(at)
        };
        let mut r: Vec<T> = Vec::new();
        let mut k: usize = 0;
        while k < refs.len()
            invariant
                k <= refs@.len(),
                r@.len() == k,
                forall|m: int| 0 <= m < k ==> r@[m] == *refs@[m],
            decreases refs@.len() - k,
        {
            r.push(*refs[k]);
            k += 1;
        }
        assert(r@ == self.active().neighborhood_of(at.0 as int, at.1 as int));
        r
    }

    /// Computes the next generation: every cell of the inactive buffer receives
    /// `rule` applied to that cell's neighbourhood in the active buffer, then the
    /// two buffers swap roles. The rule never sees a value of the generation it
    /// is computing.
    pub fn evolve<F: Fn(Vec<T>) -> T>(&mut self, rule: F)
        requires
            old(self).wf(),
            accepts_neighborhoods(rule),
        ensures
            final(self).wf(),
            final(self).active_index() == 1 - old(self).active_index(),
            final(self).inactive() == old(self).active(),
            is_generation(old(self).active(), final(self).active(), rule),
    {
        let (w, h) = self.dims();
        let ghost prev = self.active();
        let mut i: usize = 0;
        while i < w
            invariant
                self.wf(),
                self.active_index() == old(self).active_index(),
                self.active() == prev,
                prev == old(self).active(),
                w == prev.width(),
                h == prev.height(),
                i <= w,
                accepts_neighborhoods(rule),
                forall|a: int, b: int|
                    0 <= a < i && 0 <= b < h ==> rule_gives(
                        rule,
                        prev.neighborhood_of(a, b),
                        #[trigger] self.inactive().cell(a, b),
                    ),
            decreases w - i,
        {
            let mut j: usize = 0;
            while j < h
                invariant
                    self.wf(),
                    self.active_index() == old(self).active_index(),
                    self.active() == prev,
                    w == prev.width(),
                    h == prev.height(),
                    i < w,
                    j <= h,
                    accepts_neighborhoods(rule),
                    forall|a: int, b: int|
                        (0 <= a < i && 0 <= b < h) || (a == i && 0 <= b < j) ==> rule_gives(
                            rule,
                            prev.neighborhood_of(a, b),
                            #[trigger] self.inactive().cell(a, b),
                        ),
                decreases h - j,
            {
                let ngh = self.active_neighborhood((i, j));
                proof {
                    lemma_neighborhood_shape(w as nat, h as nat, i as int, j as int);
                }
                let ghost seen = ngh;
                let v = rule(ngh);
                assert(rule_gives(rule, prev.neighborhood_of(i as int, j as int), v)) by {
                    assert(seen@ == prev.neighborhood_of(i as int, j as int));
                }
                let ghost before = self.inactive();
                if self.flag == 0 {
                    if let Some(c) = self.back.get_mut((i, j)) {
                        *c = v;
                    }
                } else {
                    if let Some(c) = self.front.get_mut((i, j)) {
                        *c = v;
                    }
                }
                assert(self.inactive().cells() == before.with_cell(i as int, j as int, v));
                assert forall|a: int, b: int|
                    (0 <= a < i && 0 <= b < h) || (a == i && 0 <= b < j + 1) implies rule_gives(
                        rule,
                        prev.neighborhood_of(a, b),
                        #[trigger] self.inactive().cell(a, b),
                    ) by {
                    lemma_linear_index_bounds(w as nat, h as nat, i as int, j as int);
                    if (a, b) != (i as int, j as int) {
                        lemma_linear_index_injective(w as nat, h as nat, a, b, i as int, j as int);
                        lemma_linear_index_bounds(w as nat, h as nat, a, b);
                        assert(self.inactive().cell(a, b) == before.cell(a, b));
                    } else {
                        assert(self.inactive().cell(a, b) == v);
                    }
                }
                j += 1;
            }
            i += 1;
        }
        self.flag = 1 - self.flag;
    }
}

} // verus!
