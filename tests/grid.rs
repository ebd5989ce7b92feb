use tri_automata::grid::Grid;

fn values(n: Vec<&u32>) -> Vec<u32> {
    n.into_iter().copied().collect()
}

/// A 5 by 4 grid whose cell (i, j) holds 10 * i + j.
fn numbered() -> Grid<u32> {
    let mut g = Grid::new((5, 4), 0u32);
    for i in 0..5usize {
        for j in 0..4usize {
            *g.get_mut((i, j)).unwrap() = (10 * i + j) as u32;
        }
    }
    g
}

#[test]
fn new_fills_every_cell_with_default() {
    let g = Grid::new((30, 20), 7u8);
    assert_eq!(g.dims(), (30, 20));
    for i in 0..30 {
        for j in 0..20 {
            assert_eq!(g.get((i, j)), Some(&7u8));
        }
    }
}

#[test]
fn zero_dimensions_give_an_empty_grid() {
    let g = Grid::new((0, 5), 1u8);
    assert_eq!(g.dims(), (0, 5));
    assert_eq!(g.get((0, 0)), None);
    assert!(g.neighborhood((0, 0)).is_empty());
}

#[test]
fn out_of_bounds_get_is_none() {
    let g = Grid::new((3, 2), 1u8);
    assert_eq!(g.get((3, 0)), None);
    assert_eq!(g.get((0, 2)), None);
    assert_eq!(g.get((usize::MAX, 0)), None);
    assert_eq!(g.get((0, usize::MAX)), None);
    assert_eq!(g.get((2, 1)), Some(&1u8));
}

#[test]
fn out_of_bounds_get_mut_is_none() {
    let mut g = Grid::new((3, 2), 1u8);
    assert!(g.get_mut((3, 0)).is_none());
    assert!(g.get_mut((0, 2)).is_none());
    assert!(g.get_mut((usize::MAX, usize::MAX)).is_none());
}

#[test]
fn get_mut_writes_one_cell() {
    let mut g = Grid::new((3, 2), 0u8);
    *g.get_mut((1, 1)).unwrap() = 9;
    for i in 0..3 {
        for j in 0..2 {
            let want = if (i, j) == (1, 1) { 9 } else { 0 };
            assert_eq!(g.get((i, j)), Some(&want));
        }
    }
}

#[test]
fn neighborhood_of_even_cell_is_self_left_right_below() {
    let g = numbered();
    // (2, 2): 2 + 2 is even, the triangle points up
    assert_eq!(values(g.neighborhood((2, 2))), vec![22, 12, 32, 23]);
}

#[test]
fn neighborhood_of_odd_cell_is_self_left_right_above() {
    let g = numbered();
    // (2, 1): 2 + 1 is odd, the triangle points down
    assert_eq!(values(g.neighborhood((2, 1))), vec![21, 11, 31, 20]);
}

#[test]
fn corner_neighborhood_keeps_only_cells_in_bounds() {
    let g = numbered();
    // (0, 0): no left neighbour, even parity so the third is below
    assert_eq!(values(g.neighborhood((0, 0))), vec![0, 10, 1]);
    // (4, 3): 4 + 3 is odd, no right neighbour, the third is above
    assert_eq!(values(g.neighborhood((4, 3))), vec![43, 33, 42]);
    // (4, 0): even, no right neighbour, below exists
    assert_eq!(values(g.neighborhood((4, 0))), vec![40, 30, 41]);
    // (1, 0): odd, the cell above lies outside
    assert_eq!(values(g.neighborhood((1, 0))), vec![10, 0, 20]);
    // (3, 3): even, the cell below lies outside
    assert_eq!(values(g.neighborhood((3, 3))), vec![33, 23, 43]);
}

#[test]
fn single_cell_neighborhood_is_itself() {
    let g = Grid::new((1, 1), 5u8);
    assert_eq!(g.neighborhood((0, 0)), vec![&5u8]);
}

#[test]
fn neighborhood_outside_the_grid_is_empty() {
    let g = numbered();
    assert!(g.neighborhood((5, 0)).is_empty());
    assert!(g.neighborhood((0, 4)).is_empty());
}

#[test]
fn duplicate_is_an_independent_copy() {
    let g = numbered();
    let mut d = g.duplicate();
    assert_eq!(d.dims(), g.dims());
    *d.get_mut((0, 0)).unwrap() = 99;
    assert_eq!(g.get((0, 0)), Some(&0));
    assert_eq!(d.get((0, 0)), Some(&99));
    assert_eq!(d.get((4, 3)), Some(&43));
}
