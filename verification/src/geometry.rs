//! Integer rectangles in the coordinate space of an output or a buffer.

use vstd::prelude::*;

verus! {

#[derive(Debug, Clone, Copy, PartialEq, Eq, Structural)]
pub struct Point {
    pub x: i32,
    pub y: i32,
}

#[derive(Debug, Clone, Copy, PartialEq, Eq, Structural)]
pub struct Size {
    pub w: i32,
    pub h: i32,
}

#[derive(Debug, Clone, Copy, PartialEq, Eq, Structural)]
pub struct Rectangle {
    pub loc: Point,
    pub size: Size,
}

/// Rotation in steps of 90 degrees, optionally after a mirroring on the vertical axis.
#[derive(Debug, Clone, Copy, PartialEq, Eq, Structural)]
pub enum Transform {
    Normal,
    _90,
    _180,
    _270,
    Flipped,
    Flipped90,
    Flipped180,
    Flipped270,
}

/// `v` limited to the range of `i32`.
pub open spec fn saturate(v: int) -> int {
    if v > i32::MAX {
        i32::MAX as int
    } else if v < i32::MIN {
        i32::MIN as int
    } else {
        v
    }
}

pub open spec fn max_int(a: int, b: int) -> int {
    if a >= b {
        a
    } else {
        b
    }
}

pub open spec fn min_int(a: int, b: int) -> int {
    if a <= b {
        a
    } else {
        b
    }
}

pub fn saturating_sum(a: i32, b: i32) -> (r: i32)
    ensures
        r == saturate(a + b),
{
    let sum: i64 = a as i64 + b as i64;
    if sum > 0x7fff_ffff {
        0x7fff_ffff
    } else if sum < -0x8000_0000 {
        -0x8000_0000
    } else {
        sum as i32
    }
}

pub fn max_i32(a: i32, b: i32) -> (r: i32)
    ensures
        r == max_int(a as int, b as int),
{
    if a >= b {
        a
    } else {
        b
    }
}

pub fn min_i32(a: i32, b: i32) -> (r: i32)
    ensures
        r == min_int(a as int, b as int),
{
    if a <= b {
        a
    } else {
        b
    }
}

pub fn min_u32(a: u32, b: u32) -> (r: u32)
    ensures
        r == min_int(a as int, b as int),
{
    if a <= b {
        a
    } else {
        b
    }
}

/// The far corner of a rectangle has coordinates of 32 bits.
pub fn has_corners(rect: &Rectangle) -> (r: bool)
    ensures
        r == (i32::MIN <= rect.loc.x + rect.size.w <= i32::MAX && i32::MIN <= rect.loc.y
            + rect.size.h <= i32::MAX),
{
    let x: i64 = rect.loc.x as i64 + rect.size.w as i64;
    let y: i64 = rect.loc.y as i64 + rect.size.h as i64;
    -0x8000_0000 <= x && x <= 0x7fff_ffff && -0x8000_0000 <= y && y <= 0x7fff_ffff
}

impl Rectangle {
    pub fn new(loc: Point, size: Size) -> (r: Self)
        ensures
            r.loc == loc,
            r.size == size,
    {
        Rectangle { loc, size }
    }

    /// Rectangle at the origin.
    pub fn from_size(size: Size) -> (r: Self)
        ensures
            r == from_size_spec(size),
    {
        Rectangle { loc: Point { x: 0, y: 0 }, size }
    }

    /// Whether the pixel at `(x, y)` lies in the rectangle.
    pub open spec fn has(self, x: int, y: int) -> bool {
        self.loc.x <= x < self.loc.x + self.size.w && self.loc.y <= y < self.loc.y + self.size.h
    }

    /// Both sides are positive.
    pub open spec fn has_area(self) -> bool {
        self.size.w > 0 && self.size.h > 0
    }

    pub open spec fn right(self) -> int {
        saturate(self.loc.x + self.size.w)
    }

    pub open spec fn bottom(self) -> int {
        saturate(self.loc.y + self.size.h)
    }

    /// The edges are representable, so that no saturation happens.
    pub open spec fn in_range(self) -> bool {
        &&& self.size.w >= 0
        &&& self.size.h >= 0
        &&& self.loc.x + self.size.w <= i32::MAX
        &&& self.loc.y + self.size.h <= i32::MAX
    }

    /// See [`Rectangle::in_range`].
    pub fn is_in_range(&self) -> (r: bool)
        ensures
            r == self.in_range(),
    {
        self.size.w >= 0 && self.size.h >= 0 && self.loc.x as i64 + self.size.w as i64
            <= 0x7fff_ffff && self.loc.y as i64 + self.size.h as i64 <= 0x7fff_ffff
    }

    pub open spec fn overlaps_spec(self, other: Rectangle) -> bool {
        &&& self.loc.x < other.right()
        &&& other.loc.x < self.right()
        &&& self.loc.y < other.bottom()
        &&& other.loc.y < self.bottom()
    }

    pub open spec fn intersection_spec(self, other: Rectangle) -> Option<Rectangle> {
        if self.overlaps_spec(other) {
            let left = max_int(self.loc.x as int, other.loc.x as int);
            let top = max_int(self.loc.y as int, other.loc.y as int);
            Some(
                Rectangle {
                    loc: Point { x: left as i32, y: top as i32 },
                    size: Size {
                        w: (min_int(self.right(), other.right()) - left) as i32,
                        h: (min_int(self.bottom(), other.bottom()) - top) as i32,
                    },
                },
            )
        } else {
            None
        }
    }

    pub open spec fn contains_rect_spec(self, other: Rectangle) -> bool {
        &&& other.loc.x >= self.loc.x
        &&& other.loc.y >= self.loc.y
        &&& other.right() <= self.right()
        &&& other.bottom() <= self.bottom()
    }

    /// Common area of two rectangles, `None` if they do not overlap.
    pub fn intersection(self, other: Rectangle) -> (r: Option<Rectangle>)
        requires
            self.size.w >= 0,
            self.size.h >= 0,
            other.size.w >= 0,
            other.size.h >= 0,
        ensures
            r == self.intersection_spec(other),
    {
        let self_right: i32 = saturating_sum(self.loc.x, self.size.w);
        let self_bottom: i32 = saturating_sum(self.loc.y, self.size.h);
        let other_right: i32 = saturating_sum(other.loc.x, other.size.w);
        let other_bottom: i32 = saturating_sum(other.loc.y, other.size.h);
        if self.loc.x < other_right && other.loc.x < self_right && self.loc.y < other_bottom
            && other.loc.y < self_bottom {
            let left: i32 = max_i32(self.loc.x, other.loc.x);
            let top: i32 = max_i32(self.loc.y, other.loc.y);
            let right: i32 = min_i32(self_right, other_right);
            let bottom: i32 = min_i32(self_bottom, other_bottom);
            Some(
                Rectangle {
                    loc: Point { x: left, y: top },
                    size: Size { w: right - left, h: bottom - top },
                },
            )
        } else {
            None
        }
    }

    /// Whether `other` lies completely inside.
    pub fn contains_rect(self, other: Rectangle) -> (r: bool)
        ensures
            r == self.contains_rect_spec(other),
    {
        other.loc.x >= self.loc.x && other.loc.y >= self.loc.y && saturating_sum(
            other.loc.x,
            other.size.w,
        ) <= saturating_sum(self.loc.x, self.size.w) && saturating_sum(other.loc.y, other.size.h)
            <= saturating_sum(self.loc.y, self.size.h)
    }
}

pub open spec fn from_size_spec(size: Size) -> Rectangle {
    Rectangle { loc: Point { x: 0, y: 0 }, size }
}

/// The intersection consists of exactly the common pixels, and there is none only if there is
/// no common pixel.
pub proof fn law_intersection_is_common_area(a: Rectangle, b: Rectangle, x: int, y: int)
    requires
        a.in_range(),
        b.in_range(),
    ensures
        match a.intersection_spec(b) {
            Some(c) => c.in_range() && (c.has(x, y) <==> a.has(x, y) && b.has(x, y)),
            None => !(a.has(x, y) && b.has(x, y)),
        },
{
}

impl Transform {
    /// Whether width and height trade places.
    pub open spec fn swaps_axes(self) -> bool {
        self is _90 || self is _270 || self is Flipped90 || self is Flipped270
    }

    pub open spec fn transform_size_spec(self, size: Size) -> Size {
        if self.swaps_axes() {
            Size { w: size.h, h: size.w }
        } else {
            size
        }
    }

    /// Left edge of a rectangle of `area` after the transform.
    pub open spec fn moved_x(self, rect: Rectangle, area: Size) -> int {
        match self {
            Transform::Normal => rect.loc.x as int,
            Transform::_90 => area.h - rect.loc.y - rect.size.h,
            Transform::_180 => area.w - rect.loc.x - rect.size.w,
            Transform::_270 => rect.loc.y as int,
            Transform::Flipped => area.w - rect.loc.x - rect.size.w,
            Transform::Flipped90 => rect.loc.y as int,
            Transform::Flipped180 => rect.loc.x as int,
            Transform::Flipped270 => area.h - rect.loc.y - rect.size.h,
        }
    }

    /// Top edge of a rectangle of `area` after the transform.
    pub open spec fn moved_y(self, rect: Rectangle, area: Size) -> int {
        match self {
            Transform::Normal => rect.loc.y as int,
            Transform::_90 => rect.loc.x as int,
            Transform::_180 => area.h - rect.loc.y - rect.size.h,
            Transform::_270 => area.w - rect.loc.x - rect.size.w,
            Transform::Flipped => rect.loc.y as int,
            Transform::Flipped90 => rect.loc.x as int,
            Transform::Flipped180 => area.h - rect.loc.y - rect.size.h,
            Transform::Flipped270 => area.w - rect.loc.x - rect.size.w,
        }
    }

    pub open spec fn transform_rect_spec(self, rect: Rectangle, area: Size) -> Rectangle {
        Rectangle {
            loc: Point {
                x: self.moved_x(rect, area) as i32,
                y: self.moved_y(rect, area) as i32,
            },
            size: self.transform_size_spec(rect.size),
        }
    }

    /// The differences that position a mirrored rectangle are representable.
    pub open spec fn can_move(rect: Rectangle, area: Size) -> bool {
        &&& i32::MIN <= area.w - rect.loc.x <= i32::MAX
        &&& i32::MIN <= area.h - rect.loc.y <= i32::MAX
        &&& i32::MIN <= area.w - rect.loc.x - rect.size.w <= i32::MAX
        &&& i32::MIN <= area.h - rect.loc.y - rect.size.h <= i32::MAX
    }

    /// Position and size of a rectangle of `area` after the transform.
    pub fn transform_rect_in(self, rect: Rectangle, area: Size) -> (r: Rectangle)
        requires
            self is Normal || Transform::can_move(rect, area),
        ensures
            r == self.transform_rect_spec(rect, area),
    {
        let swapped = Size { w: rect.size.h, h: rect.size.w };
        match self {
            Transform::Normal => rect,
            Transform::_90 => Rectangle {
                loc: Point { x: area.h - rect.loc.y - rect.size.h, y: rect.loc.x },
                size: swapped,
            },
            Transform::_180 => Rectangle {
                loc: Point {
                    x: area.w - rect.loc.x - rect.size.w,
                    y: area.h - rect.loc.y - rect.size.h,
                },
                size: rect.size,
            },
            Transform::_270 => Rectangle {
                loc: Point { x: rect.loc.y, y: area.w - rect.loc.x - rect.size.w },
                size: swapped,
            },
            Transform::Flipped => Rectangle {
                loc: Point { x: area.w - rect.loc.x - rect.size.w, y: rect.loc.y },
                size: rect.size,
            },
            Transform::Flipped90 => Rectangle {
                loc: Point { x: rect.loc.y, y: rect.loc.x },
                size: swapped,
            },
            Transform::Flipped180 => Rectangle {
                loc: Point { x: rect.loc.x, y: area.h - rect.loc.y - rect.size.h },
                size: rect.size,
            },
            Transform::Flipped270 => Rectangle {
                loc: Point {
                    x: area.h - rect.loc.y - rect.size.h,
                    y: area.w - rect.loc.x - rect.size.w,
                },
                size: swapped,
            },
        }
    }

    /// Number under which shaders know the transform.
    pub fn shader_index(self) -> (r: u32)
        ensures
            r == self.shader_index_spec(),
    {
        match self {
            Transform::Normal => 0,
            Transform::_90 => 1,
            Transform::_180 => 2,
            Transform::_270 => 3,
            Transform::Flipped => 4,
            Transform::Flipped90 => 5,
            Transform::Flipped180 => 6,
            Transform::Flipped270 => 7,
        }
    }

    pub open spec fn shader_index_spec(self) -> u32 {
        match self {
            Transform::Normal => 0,
            Transform::_90 => 1,
            Transform::_180 => 2,
            Transform::_270 => 3,
            Transform::Flipped => 4,
            Transform::Flipped90 => 5,
            Transform::Flipped180 => 6,
            Transform::Flipped270 => 7,
        }
    }
}

/// Every rectangle inside the area stays inside the transformed area.
pub proof fn law_transform_stays_inside(t: Transform, rect: Rectangle, area: Size)
    requires
        rect.in_range(),
        area.w >= 0,
        area.h >= 0,
        from_size_spec(area).contains_rect_spec(rect),
    ensures
        from_size_spec(t.transform_size_spec(area)).contains_rect_spec(t.transform_rect_spec(rect, area)),
{
}

/// Quarter turns of a transform.
pub open spec fn quarter_turns(transform: Transform) -> nat {
    match transform {
        Transform::Normal => 0,
        Transform::_90 => 1,
        Transform::_180 => 2,
        Transform::_270 => 3,
        Transform::Flipped => 0,
        Transform::Flipped90 => 1,
        Transform::Flipped180 => 2,
        Transform::Flipped270 => 3,
    }
}

/// The transform mirrors.
pub open spec fn mirrors(transform: Transform) -> bool {
    transform is Flipped || transform is Flipped90 || transform is Flipped180
        || transform is Flipped270
}

/// Where a pixel of an area is after some quarter turns: each takes the last row to the first
/// column.
pub open spec fn turned(x: int, y: int, w: int, h: int, turns: nat) -> (int, int)
    decreases turns,
{
    if turns == 0 {
        (x, y)
    } else {
        turned(h - 1 - y, x, h, w, (turns - 1) as nat)
    }
}

/// Where a pixel of an area is after a transform: it is turned, and then mirrored from left to
/// right.
pub open spec fn shown_at(transform: Transform, x: int, y: int, area: Size) -> (int, int) {
    let turns = quarter_turns(transform);
    let (tx, ty) = turned(x, y, area.w as int, area.h as int, turns);
    if mirrors(transform) {
        (
            (if turns % 2 == 1 {
                area.h
            } else {
                area.w
            }) - 1 - tx,
            ty,
        )
    } else {
        (tx, ty)
    }
}

/// A transformed rectangle holds exactly the pixels that the pixels of the rectangle are turned to,
/// and has an area of the same pixels.
pub proof fn law_transform_moves_pixels(t: Transform, rect: Rectangle, area: Size, x: int, y: int)
    requires
        t is Normal || Transform::can_move(rect, area),
    ensures
        ({
            let to = shown_at(t, x, y, area);
            rect.has(x, y) <==> t.transform_rect_spec(rect, area).has(to.0, to.1)
        }),
        t.transform_size_spec(area).w * t.transform_size_spec(area).h == area.w * area.h,
{
    reveal_with_fuel(turned, 4);
    assert(area.w * area.h == area.h * area.w) by (nonlinear_arith);
}

/// A transform neither moves two pixels to one place nor leaves a place of the turned area without
/// a pixel.
pub proof fn law_transform_keeps_every_pixel(t: Transform, area: Size, x: int, y: int) -> (from: (
    int,
    int,
))
    requires
        0 <= x < t.transform_size_spec(area).w,
        0 <= y < t.transform_size_spec(area).h,
    ensures
        from_size_spec(area).has(from.0, from.1),
        shown_at(t, from.0, from.1, area) == (x, y),
        forall|a: int, b: int| #[trigger] shown_at(t, a, b, area) == (x, y) ==> (a, b) == from,
{
    reveal_with_fuel(turned, 4);
    let mx = if mirrors(t) { t.transform_size_spec(area).w - 1 - x } else { x };
    let turns = quarter_turns(t);
    if turns == 0 {
        (mx, y)
    } else if turns == 1 {
        (y, area.h - 1 - mx)
    } else if turns == 2 {
        (area.w - 1 - mx, area.h - 1 - y)
    } else {
        (area.w - 1 - y, mx)
    }
}

/// Shaders know a transform by its quarter turns, and four more if it mirrors.
pub proof fn law_shader_index_counts_turns(t: Transform)
    ensures
        t.shader_index_spec() == quarter_turns(t) + (if mirrors(t) {
            4int
        } else {
            0int
        }),
{
}

/// A rectangle contains another exactly if it holds all of its pixels.
pub proof fn law_containing_holds_every_pixel(a: Rectangle, b: Rectangle)
    requires
        a.in_range(),
        b.in_range(),
        b.has_area(),
    ensures
        a.contains_rect_spec(b) <==> forall|x: int, y: int| #[trigger] b.has(x, y) ==> a.has(x, y),
{
    if forall|x: int, y: int| #[trigger] b.has(x, y) ==> a.has(x, y) {
        assert(b.has(b.loc.x as int, b.loc.y as int));
        assert(b.has(b.loc.x + b.size.w - 1, b.loc.y + b.size.h - 1));
    }
}

/// A sum that is limited to 32 bits is exact if it fits, and else the limit that it is beyond.
pub proof fn law_saturation_is_limited(v: int)
    ensures
        i32::MIN <= saturate(v) <= i32::MAX,
        i32::MIN <= v <= i32::MAX ==> saturate(v) == v,
        v > i32::MAX ==> saturate(v) == 0x7fff_ffff,
        v < i32::MIN ==> saturate(v) == -0x8000_0000,
{
}

} // verus!
