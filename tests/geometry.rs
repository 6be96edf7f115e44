use digsite::geometry::{Area, Point, Size};

#[test]
fn around_point_radius_one_is_three_by_three() {
    let a = Area::around_point(Point { x: 5, y: 5 }, 1);
    assert_eq!(a, Area(Point { x: 4, y: 4 }, Point { x: 6, y: 6 }));
}

#[test]
fn around_point_saturates_at_the_edges() {
    let a = Area::around_point(Point { x: i32::MIN + 1, y: i32::MAX }, 3);
    assert_eq!(a.0, Point { x: i32::MIN, y: i32::MAX - 3 });
    assert_eq!(a.1, Point { x: i32::MIN + 4, y: i32::MAX });
    let huge = Area::around_point(Point { x: 0, y: 0 }, usize::MAX);
    assert_eq!(huge, Area(Point { x: i32::MIN, y: i32::MIN }, Point { x: i32::MAX, y: i32::MAX }));
}

#[test]
fn contains_includes_the_boundary() {
    let a = Area(Point { x: 1, y: 2 }, Point { x: 3, y: 4 });
    assert!(a.contains(Point { x: 1, y: 2 }));
    assert!(a.contains(Point { x: 3, y: 4 }));
    assert!(a.contains(Point { x: 2, y: 3 }));
    assert!(!a.contains(Point { x: 0, y: 3 }));
    assert!(!a.contains(Point { x: 2, y: 5 }));
}

#[test]
fn normalize_moves_to_origin() {
    let a = Area(Point { x: 2, y: 3 }, Point { x: 7, y: 5 });
    assert_eq!(a.normalize(), Area(Point { x: 0, y: 0 }, Point { x: 5, y: 2 }));
}

#[test]
fn point_from_pos_is_row_major() {
    let a = Area(Point { x: 0, y: 0 }, Point { x: 9, y: 9 });
    assert_eq!(a.point_from_pos(0), Point { x: 0, y: 0 });
    assert_eq!(a.point_from_pos(9), Point { x: 9, y: 0 });
    assert_eq!(a.point_from_pos(10), Point { x: 0, y: 1 });
    assert_eq!(a.point_from_pos(57), Point { x: 7, y: 5 });
}

#[test]
fn intersecting_area_takes_the_overlap() {
    let board = Area(Point { x: 0, y: 0 }, Point { x: 9, y: 9 });
    let corner = Area::around_point(Point { x: 0, y: 9 }, 1);
    assert_eq!(board.intersecting_area(corner), Area(Point { x: 0, y: 8 }, Point { x: 1, y: 9 }));
    let far = Area(Point { x: 20, y: 20 }, Point { x: 30, y: 30 });
    let empty = board.intersecting_area(far);
    assert!(empty.1.x < empty.0.x);
}

#[test]
fn clamp_point_moves_each_axis_into_the_area() {
    let a = Area(Point { x: 0, y: 0 }, Point { x: 9, y: 9 });
    assert_eq!(a.clamp_point(Point { x: -4, y: 12 }), Point { x: 0, y: 9 });
    assert_eq!(a.clamp_point(Point { x: 3, y: 4 }), Point { x: 3, y: 4 });
}

#[test]
fn size_count_and_from_area() {
    assert_eq!(Size { x: 10, y: 10 }.count(), 100);
    assert_eq!(Size { x: 0, y: 7 }.count(), 0);
    let s = Size::from(Area(Point { x: 2, y: 3 }, Point { x: 4, y: 3 }));
    assert_eq!(s, Size { x: 3, y: 1 });
}

#[test]
fn point_add_saturates() {
    let p = Point { x: i32::MAX, y: -3 }.add(Point { x: 5, y: 1 });
    assert_eq!(p, Point { x: i32::MAX, y: -2 });
    let q = Point { x: i32::MIN, y: 0 }.add(Point { x: -1, y: 0 });
    assert_eq!(q, Point { x: i32::MIN, y: 0 });
}

#[test]
fn area_of_a_board_size() {
    assert_eq!(Point::from(Size { x: 10, y: 4 }), Point { x: 9, y: 3 });
    assert_eq!(Area::from(Size { x: 10, y: 4 }), Area(Point { x: 0, y: 0 }, Point { x: 9, y: 3 }));
    assert_eq!(Area::from(Point { x: 2, y: 2 }), Area(Point { x: 0, y: 0 }, Point { x: 2, y: 2 }));
}
