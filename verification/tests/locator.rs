//! Tests of the nearest-range locator.

use crabix::Spos;

fn spos(start_line: u32, end_line: u32) -> Spos {
    Spos {
        start_line,
        end_line,
    }
}

#[test]
fn spos_test() {
    let sposes = vec![spos(3, 4), spos(4, 4), spos(6, 7)];
    assert_eq!(Spos::find(5, &sposes).unwrap(), spos(4, 4));
    assert_eq!(Spos::find(6, &sposes).unwrap(), spos(6, 7));

    let sposes = vec![spos(4, 4), spos(3, 4), spos(6, 6)];
    assert_eq!(Spos::find(5, &sposes).unwrap(), spos(4, 4));
}

#[test]
fn find_empty_index() {
    let sposes: Vec<Spos> = vec![];
    assert_eq!(Spos::find(0, &sposes), None);
    assert_eq!(Spos::find(1, &sposes), None);
    assert_eq!(Spos::find(u32::MAX, &sposes), None);
}

#[test]
fn find_unique_containment() {
    // the query line sits strictly inside exactly one range
    let sposes = vec![spos(1, 2), spos(4, 8), spos(10, 12)];
    assert_eq!(Spos::find(6, &sposes).unwrap(), spos(4, 8));
}

#[test]
fn find_narrowest_containing_range() {
    // nested ranges: the narrowest containing one wins
    let sposes = vec![spos(1, 10), spos(3, 6), spos(4, 5)];
    assert_eq!(Spos::find(5, &sposes).unwrap(), spos(4, 5));
}

#[test]
fn find_containment_tie_takes_first_scanned() {
    // two containing ranges of equal width: the earlier entry wins
    let sposes = vec![spos(2, 4), spos(4, 6), spos(1, 9)];
    assert_eq!(Spos::find(4, &sposes).unwrap(), spos(2, 4));
}

#[test]
fn find_nearest_tie_takes_first_scanned() {
    // equal distance and equal width: the earlier entry wins
    let sposes = vec![spos(7, 7), spos(3, 3)];
    assert_eq!(Spos::find(5, &sposes).unwrap(), spos(7, 7));
}

#[test]
fn find_nearest_prefers_smaller_distance() {
    let sposes = vec![spos(1, 2), spos(9, 9)];
    assert_eq!(Spos::find(7, &sposes).unwrap(), spos(9, 9));
}

#[test]
fn find_extreme_lines() {
    let sposes = vec![spos(u32::MAX, u32::MAX)];
    assert_eq!(Spos::find(0, &sposes).unwrap(), spos(u32::MAX, u32::MAX));
    let sposes = vec![spos(1, 1), spos(u32::MAX - 1, u32::MAX)];
    assert_eq!(
        Spos::find(u32::MAX, &sposes).unwrap(),
        spos(u32::MAX - 1, u32::MAX)
    );
}
