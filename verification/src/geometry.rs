use vstd::prelude::*;

verus! {

/// An axis-aligned rectangle in desktop coordinates: `left` and `top` are inclusive,
/// `right` and `bottom` exclusive.
#[derive(Debug, Clone, Copy, Default, PartialEq, Eq, Structural)]
pub struct Rect {
    pub left: i32,
    pub top: i32,
    pub right: i32,
    pub bottom: i32,
}

/// A point in desktop coordinates.
#[derive(Debug, Clone, Copy, Default, PartialEq, Eq, Structural)]
pub struct Point {
    pub x: i32,
    pub y: i32,
}

/// The rectangle with every coordinate zero, which `intersect` gives for an empty overlap.
pub open spec fn zero_rect() -> Rect {
    Rect { left: 0, top: 0, right: 0, bottom: 0 }
}

pub open spec fn min_i32(a: i32, b: i32) -> i32 {
    if a <= b { a } else { b }
}

pub open spec fn max_i32(a: i32, b: i32) -> i32 {
    if a >= b { a } else { b }
}

impl Rect {
    /// Width as a mathematical integer (may be negative).
    pub open spec fn spec_width(self) -> int {
        self.right - self.left
    }

    /// Height as a mathematical integer (may be negative).
    pub open spec fn spec_height(self) -> int {
        self.bottom - self.top
    }

    pub open spec fn spec_is_empty(self) -> bool {
        self.spec_width() <= 0 || self.spec_height() <= 0
    }

    /// The point `(x, y)` lies inside the rectangle.
    pub open spec fn contains_point(self, x: int, y: int) -> bool {
        self.left <= x < self.right && self.top <= y < self.bottom
    }

    /// Number of integer points the rectangle covers.
    pub open spec fn area(self) -> nat {
        if self.spec_is_empty() {
            0
        } else {
            (self.spec_width() * self.spec_height()) as nat
        }
    }

    /// The overlap before the empty case is mapped to the zero rectangle.
    pub open spec fn raw_intersect(self, other: Rect) -> Rect {
        Rect {
            left: max_i32(self.left, other.left),
            top: max_i32(self.top, other.top),
            right: min_i32(self.right, other.right),
            bottom: min_i32(self.bottom, other.bottom),
        }
    }

    pub open spec fn spec_intersect(self, other: Rect) -> Rect {
        let r = self.raw_intersect(other);
        if r.spec_is_empty() {
            zero_rect()
        } else {
            r
        }
    }

    pub fn new(left: i32, top: i32, right: i32, bottom: i32) -> (r: Self)
        ensures
            r == (Rect { left, top, right, bottom }),
    {
        Self { left, top, right, bottom }
    }

    pub fn from_xywh(x: i32, y: i32, width: i32, height: i32) -> (r: Self)
        requires
            i32::MIN <= x + width <= i32::MAX,
            i32::MIN <= y + height <= i32::MAX,
        ensures
            r == (Rect { left: x, top: y, right: (x + width) as i32, bottom: (y + height) as i32 }),
    {
        Self { left: x, top: y, right: x + width, bottom: y + height }
    }

    pub fn width(self) -> (r: i32)
        requires
            i32::MIN <= self.spec_width() <= i32::MAX,
        ensures
            r == self.spec_width(),
    {
        self.right - self.left
    }

    pub fn height(self) -> (r: i32)
        requires
            i32::MIN <= self.spec_height() <= i32::MAX,
        ensures
            r == self.spec_height(),
    {
        self.bottom - self.top
    }

    /// A rectangle is empty when its width or its height is not positive.
    pub fn is_empty(self) -> (r: bool)
        ensures
            r == self.spec_is_empty(),
            r <==> (forall|x: int, y: int| !self.contains_point(x, y)),
    {
        let r = (self.right as i64) - (self.left as i64) <= 0 || (self.bottom as i64) - (
        self.top as i64) <= 0;
        proof {
            if !r {
                assert(self.contains_point(self.left as int, self.top as int));
            }
        }
        r
    }

    /// The overlap of two rectangles, or the zero rectangle when they do not overlap.
    pub fn intersect(self, other: Self) -> (r: Self)
        ensures
            r == self.spec_intersect(other),
            forall|x: int, y: int|
                #[trigger] r.contains_point(x, y) <==> self.contains_point(x, y)
                    && other.contains_point(x, y),
    {
        let result = Self {
            left: if self.left >= other.left { self.left } else { other.left },
            top: if self.top >= other.top { self.top } else { other.top },
            right: if self.right <= other.right { self.right } else { other.right },
            bottom: if self.bottom <= other.bottom { self.bottom } else { other.bottom },
        };
        proof {
            lemma_intersect_contains(self, other);
        }
        if result.is_empty() {
            Self { left: 0, top: 0, right: 0, bottom: 0 }
        } else {
            result
        }
    }
}

impl Point {
    pub fn new(x: i32, y: i32) -> (r: Self)
        ensures
            r == (Point { x, y }),
    {
        Self { x, y }
    }
}

/// A point lies in the intersection of two rectangles exactly when it lies in both.
pub proof fn lemma_intersect_contains(a: Rect, b: Rect)
    ensures
        forall|x: int, y: int|
            #[trigger] a.spec_intersect(b).contains_point(x, y) <==> a.contains_point(x, y)
                && b.contains_point(x, y),
        a.spec_intersect(b).spec_is_empty() ==> a.spec_intersect(b) == zero_rect(),
        !a.spec_intersect(b).spec_is_empty() ==> a.spec_intersect(b) == a.raw_intersect(b),
{
}

/// Intersection does not depend on the order of its arguments.
pub proof fn lemma_intersect_commutes(a: Rect, b: Rect)
    ensures
        a.spec_intersect(b) == b.spec_intersect(a),
{
}

/// Intersecting a rectangle with itself gives it back, unless it is empty.
pub proof fn lemma_intersect_idempotent(a: Rect)
    ensures
        !a.spec_is_empty() ==> a.spec_intersect(a) == a,
        a.spec_is_empty() ==> a.spec_intersect(a) == zero_rect(),
{
}

/// The intersection lies within both rectangles: its area is at most the area of each.
pub proof fn lemma_intersect_area_bounded(a: Rect, b: Rect)
    ensures
        a.spec_intersect(b).area() <= a.area(),
        a.spec_intersect(b).area() <= b.area(),
{
    let r = a.spec_intersect(b);
    if !r.spec_is_empty() {
        let w = r.spec_width();
        let h = r.spec_height();
        assert(w * h <= a.spec_width() * a.spec_height()) by (nonlinear_arith)
            requires
                0 < w <= a.spec_width(),
                0 < h <= a.spec_height(),
        ;
        assert(w * h <= b.spec_width() * b.spec_height()) by (nonlinear_arith)
            requires
                0 < w <= b.spec_width(),
                0 < h <= b.spec_height(),
        ;
    }
}

} // verus!
