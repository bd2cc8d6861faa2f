use vstd::prelude::*;

verus! {

/// Smallest coordinate a sheet can address, on either axis.
pub const MIN_COORD: i64 = -9223372036854775808;

/// Largest coordinate a sheet can address, on either axis.
pub const MAX_COORD: i64 = 9223372036854775807;

/// A cell coordinate: `x` is the column, `y` the row.
#[derive(Clone, Copy, Debug, PartialEq, Eq, Structural)]
pub struct Pos {
    pub x: i64,
    pub y: i64,
}

/// An axis-aligned rectangle, inclusive on both ends of both axes.
/// A rectangle whose minimum exceeds its maximum on an axis is empty.
#[derive(Clone, Copy, Debug, PartialEq, Eq, Structural)]
pub struct Rect {
    pub min: Pos,
    pub max: Pos,
}

/// The errors of the grid engine.
#[derive(Clone, Copy, Debug, PartialEq, Eq, Structural)]
pub enum GridError {
    /// A coordinate lies outside `MIN_COORD ..= MAX_COORD`.
    OutOfRange,
}

/// Render order: ascending row, then ascending column.
pub open spec fn pos_lt(a: Pos, b: Pos) -> bool {
    a.y < b.y || (a.y == b.y && a.x < b.x)
}

/// Whether `p` lies inside `r`.
pub open spec fn in_rect(r: Rect, p: Pos) -> bool {
    r.min.x <= p.x <= r.max.x && r.min.y <= p.y <= r.max.y
}

/// Whether `r` covers no coordinate at all.
pub open spec fn is_degenerate(r: Rect) -> bool {
    r.min.x > r.max.x || r.min.y > r.max.y
}

/// Whether a wide coordinate pair is addressable by a sheet.
pub open spec fn in_domain(x: int, y: int) -> bool {
    MIN_COORD <= x <= MAX_COORD && MIN_COORD <= y <= MAX_COORD
}

impl Pos {
    pub fn new(x: i64, y: i64) -> (r: Pos)
        ensures
            r.x == x,
            r.y == y,
    {
        Pos { x, y }
    }

    /// Builds a position from wide integers, failing with `OutOfRange`
    /// where either does not fit the sheet's coordinate domain.
    pub fn checked_new(x: i128, y: i128) -> (r: Result<Pos, GridError>)
        ensures
            in_domain(x as int, y as int) <==> r is Ok,
            r is Err ==> r == Err::<Pos, GridError>(GridError::OutOfRange),
            r matches Ok(p) ==> p.x == x && p.y == y,
    {
        if x < MIN_COORD as i128 || x > MAX_COORD as i128 || y < MIN_COORD as i128 || y
            > MAX_COORD as i128 {
            Err(GridError::OutOfRange)
        } else {
            Ok(Pos { x: x as i64, y: y as i64 })
        }
    }

    /// Whether `self` comes before `other` in render order.
    pub fn before(&self, other: &Pos) -> (r: bool)
        ensures
            r == pos_lt(*self, *other),
    {
        self.y < other.y || (self.y == other.y && self.x < other.x)
    }
}

impl Rect {
    pub fn new(min: Pos, max: Pos) -> (r: Rect)
        ensures
            r.min == min,
            r.max == max,
    {
        Rect { min, max }
    }

    /// Whether `p` lies inside the rectangle.
    pub fn contains(&self, p: &Pos) -> (r: bool)
        ensures
            r == in_rect(*self, *p),
    {
        self.min.x <= p.x && p.x <= self.max.x && self.min.y <= p.y && p.y <= self.max.y
    }

    /// Whether the rectangle covers no coordinate.
    pub fn is_empty(&self) -> (r: bool)
        ensures
            r == is_degenerate(*self),
    {
        self.min.x > self.max.x || self.min.y > self.max.y
    }
}

} // verus!
