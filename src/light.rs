use vstd::prelude::*;
use crate::automata::is_generation;
use crate::grid::Grid;

verus! {

/// A cell of a lit mesh: a source keeps its intensity, space takes what reaches it.
#[derive(Clone, Copy, Debug, PartialEq, Eq, Structural)]
pub enum Light {
    Source(u8),
    Space(u8),
}

impl Light {
    pub open spec fn level(self) -> u8 {
        match self {
            Light::Source(l) => l,
            Light::Space(l) => l,
        }
    }

    /// The cell's intensity, whichever kind it is.
    pub fn intensity(&self) -> (r: u8)
        ensures
            r == self.level(),
    {
        match self {
            Light::Source(l) => *l,
            Light::Space(l) => *l,
        }
    }
}

/// The highest intensity among `s`, or 0 when `s` is empty.
pub open spec fn max_level(s: Seq<Light>) -> u8
    decreases s.len(),
{
    if s.len() == 0 {
        0
    } else {
        let m = max_level(s.drop_last());
        let l = s.last().level();
        if l > m {
            l
        } else {
            m
        }
    }
}

/// What a cell becomes given its neighbourhood `ngh`, the cell itself first: a
/// source stays as it is; space takes the brightest intensity around it, itself
/// included, less one, and never goes below zero.
pub open spec fn decayed(ngh: Seq<Light>) -> Light {
    match ngh[0] {
        Light::Source(l) => Light::Source(l),
        Light::Space(_) => {
            let m = max_level(ngh);
            Light::Space(if m == 0 { 0 } else { (m - 1) as u8 })
        },
    }
}

/// The decay rule of a lit mesh, applied to a neighbourhood whose first value is
/// the cell itself.
pub fn decay_rule(ngh: Vec<Light>) -> (r: Light)
    requires
        ngh@.len() >= 1,
    ensures
        r == decayed(ngh@),
{
    match ngh[0] {
        Light::Space(_) => {
            let mut max: u8 = 0;
            let mut k: usize = 0;
            while k < ngh.len()
                invariant
                    k <= ngh@.len(),
                    max == max_level(ngh@.subrange(0, k as int)),
                decreases ngh@.len() - k,
            {
                let level = ngh[k].intensity();
                assert(ngh@.subrange(0, k + 1).drop_last() == ngh@.subrange(0, k as int));
                if level > max {
                    max = level;
                }
                k += 1;
            }
            assert(ngh@.subrange(0, ngh@.len() as int) == ngh@);
            Light::Space(if max == 0 { 0 } else { max - 1 })
        },
        Light::Source(lvl) => Light::Source(lvl),
    }
}

/// One generation of [`decay_rule`] fixes every cell of the next grid: it is
/// [`decayed`] of that cell's neighbourhood in the previous grid.
pub proof fn lemma_decay_generation(prev: Grid<Light>, next: Grid<Light>)
    requires
        prev.wf(),
        is_generation(prev, next, decay_rule),
    ensures
        forall|i: int, j: int|
            prev.in_bounds(i, j) ==> #[trigger] next.cell(i, j) == decayed(prev.neighborhood_of(i, j)),
{
    assert forall|i: int, j: int| prev.in_bounds(i, j) implies #[trigger] next.cell(i, j) == decayed(
        prev.neighborhood_of(i, j),
    ) by {
        assert(crate::automata::rule_gives(decay_rule, prev.neighborhood_of(i, j), next.cell(i, j)));
    }
}

} // verus!
