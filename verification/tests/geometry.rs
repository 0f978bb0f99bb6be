use kas_core::geom::{coord_add_offset, Coord, Rect, Size};

#[test]
fn rect_contains_is_half_open() {
    let r = Rect { pos: Coord(10, 20), size: Size(30, 40) };
    assert!(r.contains(Coord(10, 20)));
    assert!(r.contains(Coord(39, 59)));
    assert!(!r.contains(Coord(40, 20)));
    assert!(!r.contains(Coord(10, 60)));
    assert!(!r.contains(Coord(9, 20)));
}

#[test]
fn rect_contains_saturates_at_the_coordinate_edge() {
    // a rectangle reaching past the coordinate range clamps its far
    // edge; the half-open interval leaves the clamped edge itself out
    let r = Rect { pos: Coord(i32::MAX - 10, 0), size: Size(100, 1) };
    assert!(r.contains(Coord(i32::MAX - 1, 0)));
    assert!(!r.contains(Coord(i32::MAX, 0)));
    assert!(!r.contains(Coord(i32::MAX - 1, 1)));
}

#[test]
fn coordinate_offset_saturates() {
    assert_eq!(coord_add_offset(5, 7), 12);
    assert_eq!(coord_add_offset(-5, 3), -2);
    assert_eq!(coord_add_offset(i32::MAX - 1, 10), i32::MAX);
}

#[test]
fn empty_rect_contains_nothing() {
    let r = Rect { pos: Coord(0, 0), size: Size(0, 0) };
    assert!(!r.contains(Coord(0, 0)));
}
