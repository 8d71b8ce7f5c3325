use fixedbitset::FixedBitSet;
use game_of_life::{Cell, Universe};

fn alive(u: &Universe) -> Vec<bool> {
    let n = (u.width() * u.height()) as usize;
    (0..n).map(|i| u.cells()[i]).collect()
}

fn grid(width: u32, height: u32, live: &[(u32, u32)]) -> Universe {
    let mut draws = vec![false; (width * height) as usize];
    for &(r, c) in live {
        draws[(r * width + c) as usize] = true;
    }
    Universe::new(width, height, true, &draws)
}

#[test]
fn fixed_pattern_marks_multiples_of_two_and_seven() {
    let u = Universe::new(4, 4, false, &[]);
    let expected: Vec<bool> = (0..16).map(|i| i % 2 == 0 || i % 7 == 0).collect();
    assert_eq!(alive(&u), expected);
    assert!(u.cells()[7]);
    assert!(!u.cells()[9]);
    assert!(u.cells()[14]);
    assert_eq!(u.gen(), 0);
}

#[test]
fn drawn_cells_are_taken_as_given() {
    let draws = [true, false, false, true, true, false];
    let u = Universe::new(3, 2, true, &draws);
    assert_eq!(alive(&u), draws.to_vec());
    assert_eq!(u.width(), 3);
    assert_eq!(u.height(), 2);
    assert_eq!(u.cells().len(), 6);
}

#[test]
fn reads_are_repeatable() {
    let mut u = Universe::new(5, 3, false, &[]);
    u.tick();
    let first = (u.width(), u.height(), u.gen(), u.cells().clone());
    for _ in 0..3 {
        assert_eq!(u.width(), first.0);
        assert_eq!(u.height(), first.1);
        assert_eq!(u.gen(), first.2);
        assert_eq!(*u.cells(), first.3);
    }
}

#[test]
fn generation_counts_advances() {
    let mut u = Universe::new(6, 4, false, &[]);
    assert_eq!(u.gen(), 0);
    for n in 1..=7 {
        u.tick();
        assert_eq!(u.gen(), n);
    }
}

#[test]
fn dimensions_stay_fixed() {
    let mut u = Universe::new(7, 5, false, &[]);
    for _ in 0..4 {
        u.tick();
        assert_eq!(u.width(), 7);
        assert_eq!(u.height(), 5);
        assert_eq!(u.cells().len(), 35);
    }
}

#[test]
fn fixed_pattern_grids_evolve_alike() {
    let mut a = Universe::new(9, 6, false, &[]);
    let mut b = Universe::new(9, 6, false, &[]);
    for _ in 0..5 {
        a.tick();
        b.tick();
        assert_eq!(a.cells().as_slice(), b.cells().as_slice());
    }
}

#[test]
fn corner_sees_opposite_corner() {
    let u = grid(3, 3, &[(2, 2)]);
    assert_eq!(u.live_neighbor_count(0, 0), 1);
    assert_eq!(u.live_neighbor_count(2, 0), 1);
    assert_eq!(u.live_neighbor_count(0, 2), 1);
    assert_eq!(u.live_neighbor_count(2, 2), 0);
}

#[test]
fn a_cell_does_not_count_itself_on_three_by_three() {
    let u = grid(3, 3, &[(0, 0)]);
    assert_eq!(u.live_neighbor_count(0, 0), 0);
    assert_eq!(u.live_neighbor_count(1, 1), 1);
}

#[test]
fn lone_center_dies_and_nothing_is_born() {
    let mut u = grid(3, 3, &[(1, 1)]);
    assert_eq!(u.live_neighbor_count(1, 1), 0);
    for r in 0..3 {
        for c in 0..3 {
            if (r, c) != (1, 1) {
                assert_eq!(u.live_neighbor_count(r, c), 1);
            }
        }
    }
    u.tick();
    assert_eq!(alive(&u), vec![false; 9]);
    assert_eq!(u.gen(), 1);
}

#[test]
fn block_is_a_still_life() {
    let block = [(2, 2), (2, 3), (3, 2), (3, 3)];
    let mut u = grid(6, 6, &block);
    let start = alive(&u);
    for r in 0..6 {
        for c in 0..6 {
            if block.contains(&(r, c)) {
                assert_eq!(u.live_neighbor_count(r, c), 3);
            } else {
                assert!(u.live_neighbor_count(r, c) <= 2);
            }
        }
    }
    for _ in 0..4 {
        u.tick();
        assert_eq!(alive(&u), start);
    }
}

#[test]
fn blinker_oscillates() {
    let mut u = grid(5, 5, &[(2, 1), (2, 2), (2, 3)]);
    u.tick();
    let vertical = grid(5, 5, &[(1, 2), (2, 2), (3, 2)]);
    assert_eq!(alive(&u), alive(&vertical));
    u.tick();
    assert_eq!(alive(&u), alive(&grid(5, 5, &[(2, 1), (2, 2), (2, 3)])));
}

#[test]
fn dead_cell_with_three_neighbours_is_born() {
    let mut u = grid(5, 5, &[(1, 1), (1, 3), (3, 2)]);
    assert_eq!(u.live_neighbor_count(2, 2), 3);
    u.tick();
    assert!(u.cells()[12]);
}

#[test]
fn crowded_cell_dies() {
    let mut u = grid(5, 5, &[(1, 1), (1, 2), (1, 3), (2, 1), (2, 2)]);
    assert_eq!(u.live_neighbor_count(2, 2), 4);
    u.tick();
    assert!(!u.cells()[12]);
}

#[test]
fn single_cell_grid_wraps_onto_itself() {
    let mut u = grid(1, 1, &[(0, 0)]);
    assert_eq!(u.live_neighbor_count(0, 0), 8);
    u.tick();
    assert!(!u.cells()[0]);
}

#[test]
fn single_row_counts_wrapped_copies() {
    let u = grid(4, 1, &[(0, 1)]);
    assert_eq!(u.live_neighbor_count(0, 0), 3);
    assert_eq!(u.live_neighbor_count(0, 1), 2);
    assert_eq!(u.live_neighbor_count(0, 3), 0);
}

#[test]
fn fixed_pattern_first_step() {
    let mut u = Universe::new(3, 3, false, &[]);
    // alive: 0, 2, 4, 6, 7, 8
    assert_eq!(u.live_neighbor_count(1, 1), 5);
    u.tick();
    let mut expected = FixedBitSet::with_capacity(9);
    for i in 0..9 {
        let r = (i / 3) as u32;
        let c = (i % 3) as u32;
        let before = Universe::new(3, 3, false, &[]);
        let n = before.live_neighbor_count(r, c);
        let was = before.cells()[i];
        expected.set(i, if was { n == 2 || n == 3 } else { n == 3 });
    }
    assert_eq!(*u.cells(), expected);
}

#[test]
fn cell_states_differ() {
    assert_ne!(Cell::Alive, Cell::Dead);
    assert_eq!(Cell::Dead, Cell::Dead.clone());
}
