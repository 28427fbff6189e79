use thrust_ui::geometry::{contains, Cursor, Point, Size};

fn cursor_at(x: f32, y: f32) -> Cursor {
    Cursor::new(x as i32, y as i32, x.ceil() as i32, y.ceil() as i32)
}

#[test]
fn bottom_right_edge_is_inside() {
    let p = Point { x: 0, y: 0 };
    let s = Size { width: 10, height: 10 };
    assert!(contains(p, s, &cursor_at(10.0, 10.0)));
}

#[test]
fn just_past_the_edge_is_outside() {
    let p = Point { x: 0, y: 0 };
    let s = Size { width: 10, height: 10 };
    assert!(!contains(p, s, &cursor_at(10.1, 5.0)));
    assert!(contains(p, s, &cursor_at(9.9, 5.0)));
    assert!(contains(p, s, &cursor_at(0.0, 0.0)));
}

#[test]
fn left_of_origin_is_outside() {
    let p = Point { x: 5, y: 5 };
    let s = Size { width: 10, height: 10 };
    assert!(!contains(p, s, &cursor_at(4.0, 6.0)));
    assert!(!contains(p, s, &cursor_at(6.0, 4.5)));
    assert!(contains(p, s, &cursor_at(5.0, 5.0)));
}

#[test]
fn huge_sizes_do_not_overflow() {
    let p = Point { x: i32::MAX, y: 0 };
    let s = Size { width: u32::MAX, height: 1 };
    assert!(contains(p, s, &Cursor::new(i32::MAX, 0, i32::MAX, 1)));
}
