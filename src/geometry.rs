use vstd::prelude::*;

verus! {

/// A position in whole pixels.
#[derive(Clone, Copy, Debug, PartialEq, Eq, Structural)]
pub struct Point {
    pub x: i32,
    pub y: i32,
}

/// A size in whole pixels.
#[derive(Clone, Copy, Debug, PartialEq, Eq, Structural)]
pub struct Size {
    pub width: u32,
    pub height: u32,
}

impl Default for Point {
    fn default() -> (r: Point)
        ensures
            r == (Point { x: 0, y: 0 }),
    {
        Point { x: 0, y: 0 }
    }
}

impl Default for Size {
    fn default() -> (r: Size)
        ensures
            r == (Size { width: 0, height: 0 }),
    {
        Size { width: 0, height: 0 }
    }
}

/// A pointer position, held as the two integers per axis that hit-testing
/// reads: the coordinate truncated toward zero and the coordinate rounded up.
#[derive(Clone, Copy, Debug, PartialEq, Eq, Structural)]
pub struct Cursor {
    pub x: i32,
    pub y: i32,
    pub x_ceil: i32,
    pub y_ceil: i32,
}

impl Cursor {
    pub fn new(x: i32, y: i32, x_ceil: i32, y_ceil: i32) -> (r: Cursor)
        ensures
            r == (Cursor { x, y, x_ceil, y_ceil }),
    {
        Cursor { x, y, x_ceil, y_ceil }
    }
}

/// The hit-test: the truncated cursor lies at or after the rectangle's origin
/// and the rounded-up cursor lies at or before its far edge, so a cursor
/// exactly on the bottom or right edge is inside.
pub open spec fn contains_spec(position: Point, size: Size, cursor: Cursor) -> bool {
    &&& cursor.x >= position.x
    &&& cursor.y >= position.y
    &&& cursor.x_ceil <= position.x + size.width
    &&& cursor.y_ceil <= position.y + size.height
}

pub fn contains(position: Point, size: Size, cursor: &Cursor) -> (r: bool)
    ensures
        r == contains_spec(position, size, *cursor),
{
    if cursor.x < position.x {
        return false;
    }
    if cursor.y < position.y {
        return false;
    }
    if cursor.x_ceil as i64 > position.x as i64 + size.width as i64 {
        return false;
    }
    if cursor.y_ceil as i64 > position.y as i64 + size.height as i64 {
        return false;
    }
    true
}

} // verus!
