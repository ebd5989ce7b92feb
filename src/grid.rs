use vstd::prelude::*;

verus! {

/// Whether `(i, j)` addresses a cell of a `w` by `h` grid.
pub open spec fn in_dims(w: nat, h: nat, i: int, j: int) -> bool {
    0 <= i < w && 0 <= j < h
}

/// The linear position of cell `(i, j)` in a grid of width `w`.
pub open spec fn linear_index(w: nat, i: int, j: int) -> int {
    i + j * w
}

pub(crate) proof fn lemma_linear_index_bounds(w: nat, h: nat, i: int, j: int)
    requires
        in_dims(w, h, i, j),
    ensures
        0 <= j * w <= linear_index(w, i, j) < w * h,
{
    assert(0 <= j * w <= i + j * w < w * h) by (nonlinear_arith)
        requires
            0 <= i < w,
            0 <= j < h,
    ;
}

pub(crate) proof fn lemma_linear_index_injective(w: nat, h: nat, a: int, b: int, i: int, j: int)
    requires
        in_dims(w, h, a, b),
        in_dims(w, h, i, j),
        (a, b) != (i, j),
    ensures
        linear_index(w, a, b) != linear_index(w, i, j),
{
    if b == j {
    } else if b < j {
        assert(a + b * w < i + j * w) by (nonlinear_arith)
            requires
                0 <= a < w,
                0 <= i,
                b < j,
        ;
    } else {
        assert(i + j * w < a + b * w) by (nonlinear_arith)
            requires
                0 <= i < w,
                0 <= a,
                j < b,
        ;
    }
}

/// Appends `c` to `s` when `c` addresses a cell of a `w` by `h` grid.
pub open spec fn keep_in_dims(s: Seq<(int, int)>, w: nat, h: nat, c: (int, int)) -> Seq<(int, int)> {
    if in_dims(w, h, c.0, c.1) {
        s.push(c)
    } else {
        s
    }
}

/// The triangle at `(i, j)` points up when `i + j` is even: its third neighbour
/// is the cell below it. Otherwise it points down and the third is above.
pub open spec fn third_neighbor(i: int, j: int) -> (int, int) {
    if (i + j) % 2 == 0 {
        (i, j + 1)
    } else {
        (i, j - 1)
    }
}

/// The neighbourhood of `(i, j)` in a `w` by `h` grid, in order: the cell itself,
/// left, right, then below or above, each neighbour kept only when in bounds.
/// Empty when `(i, j)` itself lies outside.
pub open spec fn neighbor_coords(w: nat, h: nat, i: int, j: int) -> Seq<(int, int)> {
    if in_dims(w, h, i, j) {
        let s = seq![(i, j)];
        let s = keep_in_dims(s, w, h, (i - 1, j));
        let s = keep_in_dims(s, w, h, (i + 1, j));
        keep_in_dims(s, w, h, third_neighbor(i, j))
    } else {
        seq![]
    }
}

/// The neighbourhood of an in-bounds cell starts with the cell itself, holds one
/// to four cells, every one of them in bounds, and after the cell itself lists
/// left, right and then the parity-chosen third neighbour, each present exactly
/// when it lies in the grid.
pub proof fn lemma_neighborhood_shape(w: nat, h: nat, i: int, j: int)
    requires
        in_dims(w, h, i, j),
    ensures
        ({
            let s = neighbor_coords(w, h, i, j);
            let t = third_neighbor(i, j);
            &&& 1 <= s.len() <= 4
            &&& s[0] == (i, j)
            &&& forall|k: int| 0 <= k < s.len() ==> in_dims(w, h, #[trigger] s[k].0, s[k].1)
            &&& s.drop_first() == seq![(i - 1, j), (i + 1, j), t].filter(
                |c: (int, int)| in_dims(w, h, c.0, c.1),
            )
        }),
{
    let s = neighbor_coords(w, h, i, j);
    let t = third_neighbor(i, j);
    let p = |c: (int, int)| in_dims(w, h, c.0, c.1);
    reveal_with_fuel(Seq::filter, 4);
    assert(seq![(i - 1, j), (i + 1, j), t].drop_last() == seq![(i - 1, j), (i + 1, j)]);
    assert(seq![(i - 1, j), (i + 1, j)].drop_last() == seq![(i - 1, j)]);
    assert(seq![(i - 1, j)].drop_last() == Seq::<(int, int)>::empty());
    assert(s.drop_first() == seq![(i - 1, j), (i + 1, j), t].filter(p));
}

/// A `width` by `height` grid of cells stored row after row.
pub struct Grid<T> {
    data: Vec<T>,
    dims: (usize, usize),
}

impl<T: Copy> Grid<T> {
    pub closed spec fn width(&self) -> nat {
        self.dims.0 as nat
    }

    pub closed spec fn height(&self) -> nat {
        self.dims.1 as nat
    }

    /// All cells, cell `(i, j)` at position `i + j * width`.
    pub closed spec fn cells(&self) -> Seq<T> {
        self.data@
    }

    pub open spec fn wf(&self) -> bool {
        self.cells().len() == self.width() * self.height()
    }

    pub open spec fn in_bounds(&self, i: int, j: int) -> bool {
        in_dims(self.width(), self.height(), i, j)
    }

    /// The value of cell `(i, j)`; meaningful when it is in bounds.
    pub open spec fn cell(&self, i: int, j: int) -> T {
        self.cells()[linear_index(self.width(), i, j)]
    }

    /// The values of the neighbourhood of `(i, j)`, in the order of [`neighbor_coords`].
    pub open spec fn neighborhood_of(&self, i: int, j: int) -> Seq<T> {
        neighbor_coords(self.width(), self.height(), i, j).map_values(
            |c: (int, int)| self.cell(c.0, c.1),
        )
    }

    /// This grid with cell `(i, j)` set to `v`.
    pub open spec fn with_cell(&self, i: int, j: int, v: T) -> Seq<T> {
        self.cells().update(linear_index(self.width(), i, j), v)
    }

    /// A grid of `dims.0` columns and `dims.1` rows, every cell `default`.
    pub fn new(dims: (usize, usize), default: T) -> (g: Self)
        requires
            dims.0 * dims.1 <= usize::MAX,
        ensures
            g.wf(),
            g.width() == dims.0,
            g.height() == dims.1,
            forall|i: int, j: int| g.in_bounds(i, j) ==> #[trigger] g.cell(i, j) == default,
    {
        let n: usize = dims.0 * dims.1;
        let mut data: Vec<T> = Vec::new();
        while data.len() < n
            invariant
                data@.len() <= n,
                forall|k: int| 0 <= k < data@.len() ==> #[trigger] data@[k] == default,
            decreases n - data@.len(),
        {
            data.push(default);
        }
        let g = Grid { data, dims };
        assert forall|i: int, j: int| g.in_bounds(i, j) implies #[trigger] g.cell(i, j) == default by {
            lemma_linear_index_bounds(g.width(), g.height(), i, j);
        }
        g
    }

    /// A grid with the same dimensions and cells as this one.
    pub fn duplicate(&self) -> (g: Self)
        requires
            self.wf(),
        ensures
            g.wf(),
            g.width() == self.width(),
            g.height() == self.height(),
            g.cells() == self.cells(),
    {
        let mut data: Vec<T> = Vec::new();
        let mut k: usize = 0;
        while k < self.data.len()
            invariant
                k <= self.data@.len(),
                data@ == self.data@.subrange(0, k as int),
            decreases self.data@.len() - k,
        {
            data.push(self.data[k]);
            k += 1;
        }
        assert(data@ == self.data@);
        Grid { data, dims: self.dims }
    }

    /// The grid's `(width, height)`.
    pub fn dims(&self) -> (r: (usize, usize))
        ensures
            r.0 == self.width(),
            r.1 == self.height(),
    {
        self.dims
    }

    fn index_of(&self, i: usize, j: usize) -> (k: usize)
        requires
            self.wf(),
            self.in_bounds(i as int, j as int),
        ensures
            k == linear_index(self.width(), i as int, j as int),
            k < self.cells().len(),
    {
        proof {
            lemma_linear_index_bounds(self.width(), self.height(), i as int, j as int);
        }
        // the vector's length bounds the index by `usize::MAX`
        let _len: usize = self.data.len();
        i + j * self.dims.0
    }

    /// The cell at `(i, j)`, or `None` when it lies outside the grid.
    pub fn get(&self, at: (usize, usize)) -> (r: Option<&T>)
        requires
            self.wf(),
        ensures
            self.in_bounds(at.0 as int, at.1 as int) ==> r == Some(&self.cell(at.0 as int, at.1 as int)),
            !self.in_bounds(at.0 as int, at.1 as int) ==> r is None,
    {
        let (i, j) = at;
        if i < self.dims.0 && j < self.dims.1 {
            Some(&self.data[self.index_of(i, j)])
        } else {
            None
        }
    }

    /// Write access to the cell at `(i, j)`, or `None` when it lies outside the grid.
    pub fn get_mut(&mut self, at: (usize, usize)) -> (r: Option<&mut T>)
        requires
            old(self).wf(),
        ensures
            final(self).wf(),
            final(self).width() == old(self).width(),
            final(self).height() == old(self).height(),
            old(self).in_bounds(at.0 as int, at.1 as int) ==> r is Some && *r.unwrap() == old(
                self,
            ).cell(at.0 as int, at.1 as int) && final(self).cells() == old(self).with_cell(
                at.0 as int,
                at.1 as int,
                *final(r.unwrap()),
            ),
            !old(self).in_bounds(at.0 as int, at.1 as int) ==> r is None && *final(self) == *old(
                self,
            ),
    {
        let (i, j) = at;
        if i < self.dims.0 && j < self.dims.1 {
            let k = self.index_of(i, j);
            Some(&mut self.data[k])
        } else {
            None
        }
    }

    /// The cell at `(i, j)` followed by its in-bounds neighbours: left, right, and
    /// below when `i + j` is even, above when it is odd. Empty when `(i, j)` lies
    /// outside the grid.
    pub fn neighborhood(&self, at: (usize, usize)) -> (r: Vec<&T>)
        requires
            self.wf(),
        ensures
            r@.len() == self.neighborhood_of(at.0 as int, at.1 as int).len(),
            forall|k: int|
                0 <= k < r@.len() ==> *#[trigger] r@[k] == self.neighborhood_of(
                    at.0 as int,
                    at.1 as int,
                )[k],
    {
        let (i, j) = at;
        let ghost w = self.width();
        let ghost h = self.height();
        let ghost ii = i as int;
        let ghost jj = j as int;
        let mut r: Vec<&T> = Vec::new();
        let ghost mut cs: Seq<(int, int)> = seq![];
        if let Some(c) = self.get((i, j)) {
            r.push(c);
            proof { cs = seq![(ii, jj)]; }
        } else {
            return r;
        }
        if i > 0 {
            if let Some(c) = self.get((i - 1, j)) {
                r.push(c);
            }
        }
        proof { cs = keep_in_dims(cs, w, h, (ii - 1, jj)); }
        if i + 1 < self.dims.0 {
            if let Some(c) = self.get((i + 1, j)) {
                r.push(c);
            }
        }
        proof { cs = keep_in_dims(cs, w, h, (ii + 1, jj)); }
        assert((i % 2 == j % 2) == ((ii + jj) % 2 == 0));
        if i % 2 == j % 2 {
            if j + 1 < self.dims.1 {
                if let Some(c) = self.get((i, j + 1)) {
                    r.push(c);
                }
            }
        } else if j > 0 {
            if let Some(c) = self.get((i, j - 1)) {
                r.push(c);
            }
        }
        proof { cs = keep_in_dims(cs, w, h, third_neighbor(ii, jj)); }
        assert(cs == neighbor_coords(w, h, ii, jj));
        r
    }
}

} // verus!
