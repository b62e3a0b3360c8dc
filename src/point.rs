use vstd::prelude::*;

verus! {

/// A pair of values, one per axis.
#[derive(Debug, Clone, Copy, PartialEq, Eq, Hash, Structural)]
pub struct Point2<T> {
    pub x: T,
    pub y: T,
}

impl<T> Point2<T> {
    pub fn new(x: T, y: T) -> (r: Self)
        ensures
            r.x == x,
            r.y == y,
    {
        Point2 { x, y }
    }

    pub fn repeat(value: T) -> (r: Self)
        where
            T: Copy,
        ensures
            r.x == value,
            r.y == value,
    {
        Point2 { x: value, y: value }
    }

    /// Pairs up the components of two points axis by axis.
    pub fn zip<U>(self, other: Point2<U>) -> (r: Point2<(T, U)>)
        ensures
            r.x == (self.x, other.x),
            r.y == (self.y, other.y),
    {
        Point2 { x: (self.x, other.x), y: (self.y, other.y) }
    }

    /// Applies `f` to each component, x first.
    pub fn map<F, U>(self, f: F) -> (r: Point2<U>)
        where
            F: Fn(T) -> U,
        requires
            f.requires((self.x,)),
            f.requires((self.y,)),
        ensures
            f.ensures((self.x,), r.x),
            f.ensures((self.y,), r.y),
    {
        let x = f(self.x);
        let y = f(self.y);
        Point2 { x, y }
    }
}

impl Point2<i32> {
    /// Component-wise absolute value.
    pub fn abs(self) -> (r: Self)
        requires
            self.x != i32::MIN,
            self.y != i32::MIN,
        ensures
            r.x as int == if self.x < 0 { -self.x } else { self.x as int },
            r.y as int == if self.y < 0 { -self.y } else { self.y as int },
    {
        let x = if self.x < 0 { -self.x } else { self.x };
        let y = if self.y < 0 { -self.y } else { self.y };
        Point2 { x, y }
    }
}

} // verus!
