use shared_string::as_range::AsRange;
use shared_string::as_range_inclusive::AsRangeInclusive;

#[test]
fn as_range() {
    assert_eq!((0, 0), (0..0).as_range(10));
    assert_eq!((0, 2), (0..2).as_range(10));
    assert_eq!((0, 6), (0..=5).as_range(4));
    assert_eq!((0, 5), (0..).as_range(5));
    assert_eq!((0, 5), (..).as_range(5));
    assert_eq!((0, 6), (..6).as_range(5));
    assert_eq!((0, 7), (..=6).as_range(5));

    assert_eq!((6, 2), (6..2).as_range(5));
}

#[test]
fn as_range_inclusive() {
    assert_eq!((0, 0), (0..0).as_range_inclusive(10));
    assert_eq!((0, 1), (0..2).as_range_inclusive(10));
    assert_eq!((0, 5), (0..=5).as_range_inclusive(4));
    assert_eq!((0, 5), (0..).as_range_inclusive(5));
    assert_eq!((0, 5), (..).as_range_inclusive(5));
    assert_eq!((0, 5), (..6).as_range_inclusive(5));
    assert_eq!((0, 6), (..=6).as_range_inclusive(5));

    assert_eq!((6, 1), (6..2).as_range_inclusive(5));
}
