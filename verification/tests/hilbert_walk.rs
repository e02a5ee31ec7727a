use sketches::hilbert::hilbert;
use std::collections::HashSet;

#[test]
fn first_block_is_the_mirrored_u() {
    let h = hilbert::new();
    assert_eq!(h.get(0), (0, 0));
    assert_eq!(h.get(1), (1, 0));
    assert_eq!(h.get(2), (1, 1));
    assert_eq!(h.get(3), (0, 1));
}

#[test]
fn upper_blocks_are_shifted_by_order() {
    let h = hilbert::new();
    assert_eq!(h.get(4), (0, 3));
    assert_eq!(h.get(7), (1, 3));
    assert_eq!(h.get(8), (3, 3));
    assert_eq!(h.get(10), (4, 4));
}

#[test]
fn last_block_is_turned() {
    let h = hilbert::new();
    assert_eq!(h.get(12), (4, 1));
    assert_eq!(h.get(13), (3, 1));
    assert_eq!(h.get(14), (3, 0));
    assert_eq!(h.get(15), (4, 0));
}

#[test]
fn walk_repeats_every_sixteen_steps() {
    let h = hilbert::new();
    for i in 0..64usize {
        assert_eq!(h.get(i), h.get(i % 16));
    }
}

#[test]
fn sixteen_steps_visit_sixteen_cells() {
    let h = hilbert::new();
    let cells: HashSet<(i64, i64)> = (0..16usize).map(|i| h.get(i)).collect();
    assert_eq!(cells.len(), 16);
}

#[test]
fn steps_within_a_block_are_unit_moves() {
    let h = hilbert::new();
    for i in 0..16usize {
        if i % 4 != 3 {
            let (a, b) = (h.get(i), h.get(i + 1));
            assert_eq!((a.0 - b.0).abs() + (a.1 - b.1).abs(), 1);
        }
    }
}

#[test]
fn step_between_blocks_jumps() {
    let h = hilbert::new();
    let (a, b) = (h.get(3), h.get(4));
    assert_eq!((a.0 - b.0).abs() + (a.1 - b.1).abs(), 2);
}
