use tri_automata::automata::Automata;
use tri_automata::grid::Grid;

fn row(a: &Automata<u8>, w: usize) -> Vec<u8> {
    (0..w).map(|i| *a.get((i, 0)).unwrap()).collect()
}

#[test]
fn new_shows_the_seed() {
    let mut g = Grid::new((4, 3), 0u8);
    *g.get_mut((2, 1)).unwrap() = 6;
    let a = Automata::new(g);
    assert_eq!(a.dims(), (4, 3));
    assert_eq!(a.get((2, 1)), Some(&6));
    assert_eq!(a.get((1, 2)), Some(&0));
    assert_eq!(a.get((4, 0)), None);
}

#[test]
fn automata_get_mut_writes_the_current_generation() {
    let mut a = Automata::new(Grid::new((2, 2), 0u8));
    *a.get_mut((1, 0)).unwrap() = 3;
    assert_eq!(a.get((1, 0)), Some(&3));
    assert!(a.get_mut((2, 0)).is_none());
    assert!(a.get_mut((0, 2)).is_none());
}

#[test]
fn evolve_keeps_dims() {
    let mut a = Automata::new(Grid::new((7, 5), 1u8));
    for _ in 0..9 {
        a.evolve(|n: Vec<u8>| n.iter().fold(0u8, |s, x| s.wrapping_add(*x)));
        assert_eq!(a.dims(), (7, 5));
    }
    assert_eq!(a.get((7, 0)), None);
    assert_eq!(a.get((0, 5)), None);
}

#[test]
fn evolve_reads_only_the_previous_generation() {
    // one more than the brightest neighbour: updating in place would carry
    // the growth along the row within one generation
    let mut g = Grid::new((4, 1), 0u8);
    *g.get_mut((0, 0)).unwrap() = 1;
    let mut a = Automata::new(g);
    let rule = |n: Vec<u8>| n.iter().copied().max().unwrap() + 1;
    a.evolve(rule);
    assert_eq!(row(&a, 4), vec![2, 2, 1, 1]);
    a.evolve(rule);
    assert_eq!(row(&a, 4), vec![3, 3, 3, 2]);
}

#[test]
fn evolve_hands_the_rule_self_first() {
    let mut g = Grid::new((3, 2), 0u8);
    *g.get_mut((1, 0)).unwrap() = 5;
    let mut a = Automata::new(g);
    a.evolve(|n: Vec<u8>| n[0] * 10 + n.len() as u8);
    // (1, 0) is odd and on the top row: itself, left, right
    assert_eq!(a.get((1, 0)), Some(&53));
    // (0, 0): itself, right, below
    assert_eq!(a.get((0, 0)), Some(&3));
    // (1, 1): even and on the bottom row: itself, left, right
    assert_eq!(a.get((1, 1)), Some(&3));
    // (2, 1): odd: itself, left, above
    assert_eq!(a.get((2, 1)), Some(&3));
}

#[test]
fn edits_between_generations_are_seen_by_the_next() {
    let mut a = Automata::new(Grid::new((2, 1), 0u8));
    a.evolve(|n: Vec<u8>| n[0]);
    *a.get_mut((0, 0)).unwrap() = 4;
    a.evolve(|n: Vec<u8>| n.iter().copied().max().unwrap());
    assert_eq!(row(&a, 2), vec![4, 4]);
}
