use sketches::rays::{decrease_step, increase_step, RAY_COUNT};

#[test]
fn increase_moves_up_by_one() {
    assert_eq!(increase_step(5), 6);
    assert_eq!(increase_step(1), 2);
}

#[test]
fn increase_wraps_to_one() {
    assert_eq!(increase_step(358), 359);
    assert_eq!(increase_step(359), 1);
    assert_eq!(increase_step(1000), 1);
}

#[test]
fn decrease_moves_down_by_one() {
    assert_eq!(decrease_step(6), 5);
    assert_eq!(decrease_step(2), 1);
}

#[test]
fn decrease_wraps_to_359() {
    assert_eq!(decrease_step(1), RAY_COUNT - 1);
}

#[test]
fn keys_undo_each_other_on_every_stride() {
    for s in 1..RAY_COUNT {
        assert_eq!(decrease_step(increase_step(s)), s);
        assert_eq!(increase_step(decrease_step(s)), s);
    }
}
