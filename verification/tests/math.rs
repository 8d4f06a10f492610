use advent_of_rust_2019::math::{Abs, Vector2};

#[test]
fn vectors_add_subtract_and_negate() {
    let a = Vector2::new(3_isize, -4);
    let b = Vector2::new(-1_isize, 6);
    assert_eq!(a + b, Vector2::new(2, 2));
    assert_eq!(a - b, Vector2::new(4, -10));
    assert_eq!(-a, Vector2::new(-3, 4));
    assert_eq!(Vector2::<isize>::default(), Vector2::new(0, 0));
    assert_eq!(a.x, 3);
    assert_eq!(a.y, -4);
}

#[test]
fn manhattan_distance_counts_steps_along_the_axes() {
    let a = Vector2::new(3_isize, -4);
    let b = Vector2::new(-1_isize, 6);
    assert_eq!(a.manhattan_distance(b), 14);
    assert_eq!(b.manhattan_distance(a), 14);
    assert_eq!(a.manhattan_distance(a), 0);
    assert_eq!(
        Vector2::new(isize::MAX, 0).manhattan_distance(Vector2::new(1, 0)),
        isize::MAX - 1
    );
}

#[test]
fn absolute_values() {
    assert_eq!(Abs::abs(-5_isize), 5);
    assert_eq!(Abs::abs(5_isize), 5);
    assert_eq!(Abs::abs(0_isize), 0);
    assert_eq!(Abs::abs(-isize::MAX), isize::MAX);
}
