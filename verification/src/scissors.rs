//! Scissor rectangles that cover the damaged part of a framebuffer.

use vstd::prelude::*;

#[allow(unused_imports)]
use crate::geometry::{law_transform_moves_pixels, shown_at};
use crate::geometry::{from_size_spec, max_i32, min_i32, Point, Rectangle, Size, Transform};

verus! {

#[derive(Debug, Clone, Copy, PartialEq, Eq, Structural)]
pub struct Offset2D {
    pub x: i32,
    pub y: i32,
}

#[derive(Debug, Clone, Copy, PartialEq, Eq, Structural)]
pub struct Extent2D {
    pub width: u32,
    pub height: u32,
}

/// A framebuffer rectangle in the form in which the GPU takes it.
#[derive(Debug, Clone, Copy, PartialEq, Eq, Structural)]
pub struct Rect2D {
    pub offset: Offset2D,
    pub extent: Extent2D,
}

impl Rect2D {
    pub open spec fn has(self, x: int, y: int) -> bool {
        self.offset.x <= x < self.offset.x + self.extent.width && self.offset.y <= y < self.offset.y
            + self.extent.height
    }

    /// The same rectangle with signed sides.
    pub open spec fn rect(self) -> Rectangle {
        Rectangle {
            loc: Point { x: self.offset.x, y: self.offset.y },
            size: Size { w: self.extent.width as i32, h: self.extent.height as i32 },
        }
    }

    pub open spec fn of(rect: Rectangle) -> Rect2D {
        Rect2D {
            offset: Offset2D { x: rect.loc.x, y: rect.loc.y },
            extent: Extent2D { width: rect.size.w as u32, height: rect.size.h as u32 },
        }
    }
}

/// The distances of `dst` from the far edges of the screen are representable.
pub open spec fn can_turn(dst: Rectangle, screen_size: Size) -> bool {
    &&& screen_size.w - dst.loc.x <= i32::MAX
    &&& screen_size.h - dst.loc.y <= i32::MAX
    &&& screen_size.w - dst.loc.x - dst.size.w >= i32::MIN
    &&& screen_size.h - dst.loc.y - dst.size.h >= i32::MIN
}

/// `rect` moved by the position of `dst`.
pub open spec fn moved_to(rect: Rectangle, dst: Rectangle) -> Rectangle {
    Rectangle {
        loc: Point {
            x: (rect.loc.x + dst.loc.x) as i32,
            y: (rect.loc.y + dst.loc.y) as i32,
        },
        size: rect.size,
    }
}

/// Part of the framebuffer that one damage rectangle, given relative to `dst`, touches.
pub open spec fn damaged_part(
    rect: Rectangle,
    dst: Rectangle,
    transform: Transform,
    screen_size: Size,
    fb: Size,
) -> Option<Rectangle> {
    match moved_to(rect, dst).intersection_spec(dst) {
        None => None,
        Some(inside) => match transform.transform_rect_spec(inside, screen_size).intersection_spec(
            from_size_spec(fb),
        ) {
            Some(part) if part.has_area() => Some(part),
            _ => None,
        },
    }
}

/// Whether some damage rectangle touches the framebuffer pixel.
pub open spec fn pixel_damaged(
    damage: Seq<Rectangle>,
    dst: Rectangle,
    transform: Transform,
    screen_size: Size,
    fb: Size,
    x: int,
    y: int,
) -> bool {
    exists|k: int|
        0 <= k < damage.len() && #[trigger] part_has(
            damage[k],
            dst,
            transform,
            screen_size,
            fb,
            x,
            y,
        )
}

pub open spec fn part_has(
    rect: Rectangle,
    dst: Rectangle,
    transform: Transform,
    screen_size: Size,
    fb: Size,
    x: int,
    y: int,
) -> bool {
    match damaged_part(rect, dst, transform, screen_size, fb) {
        Some(part) => part.has(x, y),
        None => false,
    }
}

pub open spec fn covered(rects: Seq<Rectangle>, x: int, y: int) -> bool {
    exists|k: int| 0 <= k < rects.len() && (#[trigger] rects[k]).has(x, y)
}

pub open spec fn scissors_cover(rects: Seq<Rect2D>, x: int, y: int) -> bool {
    exists|k: int| 0 <= k < rects.len() && (#[trigger] rects[k]).has(x, y)
}

/// Ranges `[a, a + an]` and `[b, b + bn]` share a point.
pub open spec fn ranges_meet(a: int, an: int, b: int, bn: int) -> bool {
    a + an >= b && b + bn >= a
}

/// Two rectangles whose union is a rectangle for one of the simple reasons: one contains the
/// other, or they have a side in common and touch or overlap along it.
pub open spec fn mergeable(a: Rectangle, b: Rectangle) -> bool {
    ||| a.contains_rect_spec(b)
    ||| b.contains_rect_spec(a)
    ||| merge_in_y(a, b)
    ||| merge_in_x(a, b)
}

pub open spec fn merge_in_y(a: Rectangle, b: Rectangle) -> bool {
    a.loc.x == b.loc.x && a.size.w == b.size.w && ranges_meet(
        a.loc.y as int,
        a.size.h as int,
        b.loc.y as int,
        b.size.h as int,
    )
}

pub open spec fn merge_in_x(a: Rectangle, b: Rectangle) -> bool {
    a.loc.y == b.loc.y && a.size.h == b.size.h && ranges_meet(
        a.loc.x as int,
        a.size.w as int,
        b.loc.x as int,
        b.size.w as int,
    )
}

/// The rectangle has an area and lies in the framebuffer.
pub open spec fn inside(rect: Rectangle, fb: Size) -> bool {
    &&& rect.has_area()
    &&& rect.loc.x >= 0
    &&& rect.loc.y >= 0
    &&& rect.loc.x + rect.size.w <= fb.w
    &&& rect.loc.y + rect.size.h <= fb.h
}

/// The union of two rectangles that can be merged.
pub open spec fn union_of(a: Rectangle, b: Rectangle) -> Rectangle {
    if a.contains_rect_spec(b) {
        a
    } else if b.contains_rect_spec(a) {
        b
    } else {
        let x = lesser_of(a.loc.x as int, b.loc.x as int);
        let y = lesser_of(a.loc.y as int, b.loc.y as int);
        let right = -lesser_of(-(a.loc.x + a.size.w), -(b.loc.x + b.size.w));
        let bottom = -lesser_of(-(a.loc.y + a.size.h), -(b.loc.y + b.size.h));
        Rectangle {
            loc: Point { x: x as i32, y: y as i32 },
            size: Size { w: (right - x) as i32, h: (bottom - y) as i32 },
        }
    }
}

pub open spec fn lesser_of(a: int, b: int) -> int {
    if a <= b {
        a
    } else {
        b
    }
}

/// The list after entries `i` and `j` were merged: the union takes the place of the first, and
/// the last entry that of the second.
pub open spec fn with_merged(rects: Seq<Rectangle>, i: int, j: int) -> Seq<Rectangle> {
    let joined = rects.update(i, union_of(rects[i], rects[j]));
    joined.update(j, joined.last()).drop_last()
}

/// One sweep over a list from a pair of entries on: each entry is merged with all later ones that
/// it can be merged with.
pub open spec fn swept(rects: Seq<Rectangle>, i: int, j: int) -> Seq<Rectangle>
    decreases rects.len(), rects.len() - i, rects.len() - j,
    when 0 <= i < j
{
    if i >= rects.len() {
        rects
    } else if j >= rects.len() {
        swept(rects, i + 1, i + 2)
    } else if mergeable(rects[i], rects[j]) {
        swept(with_merged(rects, i, j), i, j)
    } else {
        swept(rects, i, j + 1)
    }
}

/// A list after as many sweeps as change it.
pub open spec fn coalesced(rects: Seq<Rectangle>) -> Seq<Rectangle>
    decreases rects.len(),
{
    let next = swept(rects, 0, 1);
    if next.len() < rects.len() {
        coalesced(next)
    } else {
        next
    }
}

/// The parts of the framebuffer that damage touches, in the order of the damage.
pub open spec fn damaged_parts(
    damage: Seq<Rectangle>,
    dst: Rectangle,
    transform: Transform,
    screen_size: Size,
    fb: Size,
) -> Seq<Rectangle>
    decreases damage.len(),
{
    if damage.len() == 0 {
        seq![]
    } else {
        let before = damaged_parts(damage.drop_last(), dst, transform, screen_size, fb);
        match damaged_part(damage.last(), dst, transform, screen_size, fb) {
            Some(part) => before.push(part),
            None => before,
        }
    }
}

/// The scissors for damage, in their order.
pub open spec fn damage_scissors(
    damage: Seq<Rectangle>,
    dst: Rectangle,
    transform: Transform,
    screen_size: Size,
    fb: Size,
) -> Seq<Rect2D> {
    coalesced(damaged_parts(damage, dst, transform, screen_size, fb)).map_values(
        |rect: Rectangle| Rect2D::of(rect),
    )
}

/// The union of two rectangles, if they can be merged.
fn merge(a: Rectangle, b: Rectangle, Ghost(fb): Ghost<Size>) -> (r: Option<Rectangle>)
    requires
        inside(a, fb),
        inside(b, fb),
    ensures
        r is Some <==> mergeable(a, b),
        match r {
            Some(c) => c == union_of(a, b) && inside(c, fb) && forall|x: int, y: int|
                #[trigger] c.has(x, y) <==> a.has(x, y) || b.has(x, y),
            None => true,
        },
{
    if a.contains_rect(b) {
        assert forall|x: int, y: int| #[trigger] a.has(x, y) <==> a.has(x, y) || b.has(x, y) by {}
        return Some(a);
    }
    if b.contains_rect(a) {
        assert forall|x: int, y: int| #[trigger] b.has(x, y) <==> a.has(x, y) || b.has(x, y) by {}
        return Some(b);
    }
    let a_right: i32 = a.loc.x + a.size.w;
    let a_bottom: i32 = a.loc.y + a.size.h;
    let b_right: i32 = b.loc.x + b.size.w;
    let b_bottom: i32 = b.loc.y + b.size.h;
    if a.loc.x == b.loc.x && a.size.w == b.size.w && a_bottom >= b.loc.y && b_bottom >= a.loc.y {
        let y1: i32 = min_i32(a.loc.y, b.loc.y);
        let y2: i32 = max_i32(a_bottom, b_bottom);
        return Some(
            Rectangle { loc: Point { x: a.loc.x, y: y1 }, size: Size { w: a.size.w, h: y2 - y1 } },
        );
    }
    if a.loc.y == b.loc.y && a.size.h == b.size.h && a_right >= b.loc.x && b_right >= a.loc.x {
        let x1: i32 = min_i32(a.loc.x, b.loc.x);
        let x2: i32 = max_i32(a_right, b_right);
        return Some(
            Rectangle { loc: Point { x: x1, y: a.loc.y }, size: Size { w: x2 - x1, h: a.size.h } },
        );
    }
    None
}

proof fn lemma_merged_covers(
    before: Seq<Rectangle>,
    i: int,
    j: int,
    c: Rectangle,
    after: Seq<Rectangle>,
    x: int,
    y: int,
)
    requires
        0 <= i < j < before.len(),
        c.has(x, y) <==> before[i].has(x, y) || before[j].has(x, y),
        after == before.update(i, c).update(j, before.update(i, c).last()).drop_last(),
    ensures
        covered(after, x, y) <==> covered(before, x, y),
{
    let n = before.len() as int;
    if covered(before, x, y) {
        let k = choose|k: int| 0 <= k < n && (#[trigger] before[k]).has(x, y);
        if k == i || k == j {
            assert(after[i].has(x, y));
        } else if k == n - 1 {
            assert(after[j].has(x, y));
        } else {
            assert(after[k].has(x, y));
        }
    }
    if covered(after, x, y) {
        let k = choose|k: int| 0 <= k < after.len() && (#[trigger] after[k]).has(x, y);
        if k == i {
            assert(before[i].has(x, y) || before[j].has(x, y));
        } else if k == j {
            assert(before[n - 1].has(x, y));
        } else {
            assert(before[k].has(x, y));
        }
    }
}

/// Merges rectangles without adding or losing a pixel until no two can be merged.
fn coalesce(rects: Vec<Rectangle>, Ghost(fb): Ghost<Size>) -> (r: Vec<Rectangle>)
    requires
        forall|k: int| 0 <= k < rects@.len() ==> inside(#[trigger] rects@[k], fb),
    ensures
        r@ == coalesced(rects@),
        r@.len() <= rects@.len(),
        forall|k: int| 0 <= k < r@.len() ==> inside(#[trigger] r@[k], fb),
        forall|x: int, y: int| #[trigger] covered(r@, x, y) <==> covered(rects@, x, y),
        forall|i: int, j: int|
            0 <= i < j < r@.len() ==> !mergeable(#[trigger] r@[i], #[trigger] r@[j]),
{
    let ghost input = rects@;
    let mut merged = rects;
    loop
        invariant
            coalesced(merged@) == coalesced(input),
            merged@.len() <= input.len(),
            forall|k: int| 0 <= k < merged@.len() ==> inside(#[trigger] merged@[k], fb),
            forall|x: int, y: int| #[trigger] covered(merged@, x, y) <==> covered(input, x, y),
        ensures
            merged@ == coalesced(input),
            forall|i: int, j: int|
                0 <= i < j < merged@.len() ==> !mergeable(#[trigger] merged@[i], #[trigger] merged@[j]),
        decreases merged@.len(),
    {
        let ghost start = merged@;
        let ghost start_len = merged@.len();
        let mut changed: bool = false;
        let mut i: usize = 0;
        while i < merged.len()
            invariant
                swept(start, 0, 1) == swept(merged@, i as int, i + 1),
                !changed ==> merged@ == start,
                start_len == start.len(),
                merged@.len() <= start_len <= input.len(),
                changed ==> merged@.len() < start_len,
                forall|k: int| 0 <= k < merged@.len() ==> inside(#[trigger] merged@[k], fb),
                forall|x: int, y: int| #[trigger] covered(merged@, x, y) <==> covered(input, x, y),
                i <= merged@.len() || changed,
                !changed ==> forall|p: int, q: int|
                    0 <= p < i && p < q < merged@.len() ==> !mergeable(
                        #[trigger] merged@[p],
                        #[trigger] merged@[q],
                    ),
            decreases start_len - i,
        {
            let mut j: usize = i + 1;
            while j < merged.len()
                invariant
                    swept(start, 0, 1) == swept(merged@, i as int, j as int),
                    !changed ==> merged@ == start,
                    start_len == start.len(),
                    i < j,
                    i < merged@.len(),
                    merged@.len() <= start_len <= input.len(),
                    changed ==> merged@.len() < start_len,
                    forall|k: int| 0 <= k < merged@.len() ==> inside(#[trigger] merged@[k], fb),
                    forall|x: int, y: int| #[trigger]
                        covered(merged@, x, y) <==> covered(input, x, y),
                    !changed ==> forall|p: int, q: int|
                        0 <= p < i && p < q < merged@.len() ==> !mergeable(
                            #[trigger] merged@[p],
                            #[trigger] merged@[q],
                        ),
                    !changed ==> j <= merged@.len() && forall|q: int|
                        i < q < j ==> !mergeable(merged@[i as int], #[trigger] merged@[q]),
                decreases merged@.len() - j,
            {
                let a = merged[i];
                let b = merged[j];
                match merge(a, b, Ghost(fb)) {
                    Some(c) => {
                        let ghost before = merged@;
                        merged.set(i, c);
                        merged.swap_remove(j);
                        changed = true;
                        proof {
                            assert(merged@ =~= before.update(i as int, c).update(
                                j as int,
                                before.update(i as int, c).last(),
                            ).drop_last());
                            assert(merged@ == with_merged(before, i as int, j as int));
                            assert forall|x: int, y: int| #[trigger]
                                covered(merged@, x, y) <==> covered(input, x, y) by {
                                assert(c.has(x, y) <==> a.has(x, y) || b.has(x, y));
                                lemma_merged_covers(
                                    before,
                                    i as int,
                                    j as int,
                                    c,
                                    merged@,
                                    x,
                                    y,
                                );
                                assert(covered(before, x, y) <==> covered(input, x, y));
                            }
                            assert forall|k: int| 0 <= k < merged@.len() implies inside(
                                #[trigger] merged@[k],
                                fb,
                            ) by {
                                if k != i && k != j {
                                    assert(merged@[k] == before[k]);
                                } else if k == j {
                                    assert(merged@[k] == before[before.len() - 1]);
                                }
                            }
                        }
                    },
                    None => {
                        j = j + 1;
                    },
                }
            }
            i = i + 1;
        }
        if !changed {
            break;
        }
    }
    merged
}

/// The coordinates of damage on a target stay within 32 bits wherever they are moved.
pub open spec fn drawable(
    damage: Seq<Rectangle>,
    untransformed_dst: Rectangle,
    transform: Transform,
    screen_size: Size,
    fb_width: u32,
    fb_height: u32,
) -> bool {
    &&& fb_width <= i32::MAX
    &&& fb_height <= i32::MAX
    &&& untransformed_dst.in_range()
    &&& forall|k: int|
        0 <= k < damage.len() ==> {
            let rect = #[trigger] damage[k];
            &&& rect.size.w >= 0
            &&& rect.size.h >= 0
            &&& i32::MIN <= rect.loc.x + untransformed_dst.loc.x <= i32::MAX
            &&& i32::MIN <= rect.loc.y + untransformed_dst.loc.y <= i32::MAX
        }
    &&& transform is Normal || can_turn(untransformed_dst, screen_size)
}

/// See [`drawable`].
pub fn can_draw(
    damage: &Vec<Rectangle>,
    untransformed_dst: Rectangle,
    transform: Transform,
    screen_size: Size,
    fb_width: u32,
    fb_height: u32,
) -> (r: bool)
    ensures
        r == drawable(
            damage@,
            untransformed_dst,
            transform,
            screen_size,
            fb_width,
            fb_height,
        ),
{
    let dst: Rectangle = untransformed_dst;
    if fb_width > 0x7fff_ffff || fb_height > 0x7fff_ffff || !dst.is_in_range() {
        return false;
    }
    let mut k: usize = 0;
    while k < damage.len()
        invariant
            k <= damage@.len(),
            forall|m: int|
                0 <= m < k ==> {
                    let rect = #[trigger] damage@[m];
                    &&& rect.size.w >= 0
                    &&& rect.size.h >= 0
                    &&& i32::MIN <= rect.loc.x + dst.loc.x <= i32::MAX
                    &&& i32::MIN <= rect.loc.y + dst.loc.y <= i32::MAX
                },
            dst == untransformed_dst,
        decreases damage@.len() - k,
    {
        let rect: Rectangle = damage[k];
        let x: i64 = rect.loc.x as i64 + dst.loc.x as i64;
        let y: i64 = rect.loc.y as i64 + dst.loc.y as i64;
        if rect.size.w < 0 || rect.size.h < 0 || x < -0x8000_0000 || x > 0x7fff_ffff || y
            < -0x8000_0000 || y > 0x7fff_ffff {
            assert(damage@[k as int] == rect);
            return false;
        }
        k = k + 1;
    }
    let right: i64 = screen_size.w as i64 - dst.loc.x as i64;
    let below: i64 = screen_size.h as i64 - dst.loc.y as i64;
    transform == Transform::Normal || (right <= 0x7fff_ffff && below <= 0x7fff_ffff && right
        - dst.size.w as i64 >= -0x8000_0000 && below - dst.size.h as i64 >= -0x8000_0000)
}

/// The scissors for damage. They cover exactly the damaged pixels of the framebuffer, and no two
/// of them can be merged.
pub open spec fn covers_damage(
    scissors: Seq<Rect2D>,
    damage: Seq<Rectangle>,
    untransformed_dst: Rectangle,
    transform: Transform,
    screen_size: Size,
    fb_width: u32,
    fb_height: u32,
) -> bool {
    &&& scissors == damage_scissors(
        damage,
        untransformed_dst,
        transform,
        screen_size,
        Size { w: fb_width as i32, h: fb_height as i32 },
    )
    &&& scissors.len() <= damage.len()
    &&& forall|x: int, y: int| #[trigger]
        scissors_cover(scissors, x, y) <==> pixel_damaged(
            damage,
            untransformed_dst,
            transform,
            screen_size,
            Size { w: fb_width as i32, h: fb_height as i32 },
            x,
            y,
        )
    &&& forall|k: int|
        0 <= k < scissors.len() ==> inside(
            (#[trigger] scissors[k]).rect(),
            Size { w: fb_width as i32, h: fb_height as i32 },
        )
    &&& forall|i: int, j: int|
        0 <= i < j < scissors.len() ==> !mergeable(
            (#[trigger] scissors[i]).rect(),
            (#[trigger] scissors[j]).rect(),
        )
}

/// Scissor rectangles, in framebuffer coordinates, for damage that is given relative to the
/// untransformed destination.
pub fn calculate_damage_scissors(
    damage: &[Rectangle],
    untransformed_dst: Rectangle,
    transform: Transform,
    screen_size: Size,
    fb_width: u32,
    fb_height: u32,
) -> (r: Vec<Rect2D>)
    requires
        drawable(damage@, untransformed_dst, transform, screen_size, fb_width, fb_height),
    ensures
        covers_damage(
            r@,
            damage@,
            untransformed_dst,
            transform,
            screen_size,
            fb_width,
            fb_height,
        ),
{
    let fb = Size { w: fb_width as i32, h: fb_height as i32 };
    let mut raw_rects: Vec<Rectangle> = Vec::new();
    let mut k: usize = 0;
    assert(damage@.take(0) =~= seq![]);
    while k < damage.len()
        invariant
            k <= damage@.len(),
            fb_width <= i32::MAX,
            fb_height <= i32::MAX,
            fb == (Size { w: fb_width as i32, h: fb_height as i32 }),
            untransformed_dst.in_range(),
            forall|k: int|
                0 <= k < damage@.len() ==> {
                    let rect = #[trigger] damage@[k];
                    &&& rect.size.w >= 0
                    &&& rect.size.h >= 0
                    &&& i32::MIN <= rect.loc.x + untransformed_dst.loc.x <= i32::MAX
                    &&& i32::MIN <= rect.loc.y + untransformed_dst.loc.y <= i32::MAX
                },
            transform is Normal || can_turn(untransformed_dst, screen_size),
            raw_rects@ == damaged_parts(
                damage@.take(k as int),
                untransformed_dst,
                transform,
                screen_size,
                fb,
            ),
            raw_rects@.len() <= k,
            forall|m: int| 0 <= m < raw_rects@.len() ==> inside(#[trigger] raw_rects@[m], fb),
            forall|x: int, y: int| #[trigger]
                covered(raw_rects@, x, y) <==> pixel_damaged(
                    damage@.take(k as int),
                    untransformed_dst,
                    transform,
                    screen_size,
                    fb,
                    x,
                    y,
                ),
        decreases damage@.len() - k,
    {
        let rect = damage[k];
        let ghost before = raw_rects@;
        let r = Rectangle {
            loc: Point {
                x: rect.loc.x + untransformed_dst.loc.x,
                y: rect.loc.y + untransformed_dst.loc.y,
            },
            size: rect.size,
        };
        let ghost part = damaged_part(rect, untransformed_dst, transform, screen_size, fb);
        if let Some(intersection) = r.intersection(untransformed_dst) {
            proof {
                assert(intersection.in_range());
                assert(untransformed_dst.contains_rect_spec(intersection));
                if !(transform is Normal) {
                    assert(Transform::can_move(intersection, screen_size));
                }
            }
            let turned = transform.transform_rect_in(intersection, screen_size);
            if let Some(clipped) = turned.intersection(Rectangle::from_size(fb)) {
                if clipped.size.w > 0 && clipped.size.h > 0 {
                    raw_rects.push(clipped);
                }
            }
        }
        proof {
            assert(damage@.take(k + 1).drop_last() =~= damage@.take(k as int));
            assert(damage@.take(k + 1).last() == rect);
            assert(raw_rects@ == (match part {
                Some(p) => before.push(p),
                None => before,
            }));
            match part {
                Some(p) => {
                    assert(inside(p, fb));
                },
                None => {},
            }
            assert forall|x: int, y: int| #[trigger]
                covered(raw_rects@, x, y) <==> pixel_damaged(
                    damage@.take(k as int + 1),
                    untransformed_dst,
                    transform,
                    screen_size,
                    fb,
                    x,
                    y,
                ) by {
                lemma_one_more(
                    damage@,
                    k as int,
                    before,
                    raw_rects@,
                    untransformed_dst,
                    transform,
                    screen_size,
                    fb,
                    x,
                    y,
                );
            }
        }
        k = k + 1;
    }
    assert(damage@.take(k as int) =~= damage@);
    let merged = coalesce(raw_rects, Ghost(fb));
    let mut out: Vec<Rect2D> = Vec::new();
    let mut n: usize = 0;
    while n < merged.len()
        invariant
            n <= merged@.len(),
            out@.len() == n,
            forall|m: int| 0 <= m < merged@.len() ==> inside(#[trigger] merged@[m], fb),
            forall|m: int| 0 <= m < n ==> #[trigger] out@[m] == Rect2D::of(merged@[m]),
        decreases merged@.len() - n,
    {
        let rect = merged[n];
        assert(inside(merged@[n as int], fb));
        out.push(
            Rect2D {
                offset: Offset2D { x: rect.loc.x, y: rect.loc.y },
                extent: Extent2D { width: rect.size.w as u32, height: rect.size.h as u32 },
            },
        );
        n = n + 1;
    }
    proof {
        assert(out@ =~= merged@.map_values(|rect: Rectangle| Rect2D::of(rect)));
        assert forall|x: int, y: int| #[trigger] scissors_cover(out@, x, y) <==> pixel_damaged(
            damage@,
            untransformed_dst,
            transform,
            screen_size,
            fb,
            x,
            y,
        ) by {
            assert(covered(merged@, x, y) <==> pixel_damaged(
                damage@,
                untransformed_dst,
                transform,
                screen_size,
                fb,
                x,
                y,
            ));
            if covered(merged@, x, y) {
                let m = choose|m: int| 0 <= m < merged@.len() && (#[trigger] merged@[m]).has(x, y);
                assert(inside(merged@[m], fb));
                assert(out@[m].has(x, y));
            }
            if scissors_cover(out@, x, y) {
                let m = choose|m: int| 0 <= m < out@.len() && (#[trigger] out@[m]).has(x, y);
                assert(inside(merged@[m], fb));
                assert(merged@[m].has(x, y));
            }
        }
        assert forall|m: int| 0 <= m < out@.len() implies inside((#[trigger] out@[m]).rect(), fb) by {
            assert(inside(merged@[m], fb));
            assert(out@[m].rect() == merged@[m]);
        }
        assert forall|i: int, j: int| 0 <= i < j < out@.len() implies !mergeable(
            (#[trigger] out@[i]).rect(),
            (#[trigger] out@[j]).rect(),
        ) by {
            assert(inside(merged@[i], fb) && inside(merged@[j], fb));
            assert(!mergeable(merged@[i], merged@[j]));
        }
    }
    out
}

proof fn lemma_one_more(
    damage: Seq<Rectangle>,
    k: int,
    before: Seq<Rectangle>,
    after: Seq<Rectangle>,
    dst: Rectangle,
    transform: Transform,
    screen_size: Size,
    fb: Size,
    x: int,
    y: int,
)
    requires
        0 <= k < damage.len(),
        covered(before, x, y) <==> pixel_damaged(
            damage.take(k),
            dst,
            transform,
            screen_size,
            fb,
            x,
            y,
        ),
        after == (match damaged_part(damage[k], dst, transform, screen_size, fb) {
            Some(p) => before.push(p),
            None => before,
        }),
    ensures
        covered(after, x, y) <==> pixel_damaged(
            damage.take(k + 1),
            dst,
            transform,
            screen_size,
            fb,
            x,
            y,
        ),
{
    let some = damage.take(k);
    let more = damage.take(k + 1);
    if covered(after, x, y) {
        let m = choose|m: int| 0 <= m < after.len() && (#[trigger] after[m]).has(x, y);
        if m < before.len() {
            assert(before[m].has(x, y));
            let q = choose|q: int|
                0 <= q < some.len() && #[trigger] part_has(
                    some[q],
                    dst,
                    transform,
                    screen_size,
                    fb,
                    x,
                    y,
                );
            assert(part_has(more[q], dst, transform, screen_size, fb, x, y));
        } else {
            assert(part_has(more[k], dst, transform, screen_size, fb, x, y));
        }
    }
    if pixel_damaged(more, dst, transform, screen_size, fb, x, y) {
        let q = choose|q: int|
            0 <= q < more.len() && #[trigger] part_has(
                more[q],
                dst,
                transform,
                screen_size,
                fb,
                x,
                y,
            );
        if q < k {
            assert(part_has(some[q], dst, transform, screen_size, fb, x, y));
            let m = choose|m: int| 0 <= m < before.len() && (#[trigger] before[m]).has(x, y);
            assert(after[m].has(x, y));
        } else {
            assert(after[before.len() as int].has(x, y));
        }
    }
}

proof fn lemma_part_shows(
    rect: Rectangle,
    dst: Rectangle,
    t: Transform,
    screen: Size,
    fb: Size,
    x: int,
    y: int,
)
    requires
        fb.w >= 0,
        fb.h >= 0,
        dst.in_range(),
        rect.size.w >= 0,
        rect.size.h >= 0,
        i32::MIN <= rect.loc.x + dst.loc.x <= i32::MAX,
        i32::MIN <= rect.loc.y + dst.loc.y <= i32::MAX,
        t is Normal || can_turn(dst, screen),
    ensures
        ({
            let to = shown_at(t, x, y, screen);
            part_has(rect, dst, t, screen, fb, to.0, to.1) <==> dst.has(x, y) && rect.has(
                x - dst.loc.x,
                y - dst.loc.y,
            ) && 0 <= to.0 < fb.w && 0 <= to.1 < fb.h
        }),
{
    let to = shown_at(t, x, y, screen);
    let placed = moved_to(rect, dst);
    match placed.intersection_spec(dst) {
        None => {},
        Some(inside) => {
            assert(inside.in_range());
            assert(inside.has(x, y) <==> placed.has(x, y) && dst.has(x, y));
            assert(t is Normal || Transform::can_move(inside, screen));
            law_transform_moves_pixels(t, inside, screen, x, y);
            let there = t.transform_rect_spec(inside, screen);
            match there.intersection_spec(from_size_spec(fb)) {
                None => {
                    assert(!(there.has(to.0, to.1) && from_size_spec(fb).has(to.0, to.1)));
                },
                Some(part) => {
                    assert(part.has(to.0, to.1) <==> there.has(to.0, to.1) && from_size_spec(
                        fb,
                    ).has(to.0, to.1));
                },
            }
        },
    }
}

/// The scissors let exactly those pixels of the framebuffer through to which damaged pixels of the
/// target are turned.
pub proof fn law_scissors_show_the_damage(
    scissors: Seq<Rect2D>,
    damage: Seq<Rectangle>,
    dst: Rectangle,
    t: Transform,
    screen: Size,
    fb_width: u32,
    fb_height: u32,
    x: int,
    y: int,
)
    requires
        drawable(damage, dst, t, screen, fb_width, fb_height),
        covers_damage(scissors, damage, dst, t, screen, fb_width, fb_height),
    ensures
        ({
            let to = shown_at(t, x, y, screen);
            scissors_cover(scissors, to.0, to.1) <==> dst.has(x, y) && 0 <= to.0 < fb_width && 0
                <= to.1 < fb_height && exists|k: int|
                0 <= k < damage.len() && (#[trigger] damage[k]).has(x - dst.loc.x, y - dst.loc.y)
        }),
{
    let to = shown_at(t, x, y, screen);
    let fb = Size { w: fb_width as i32, h: fb_height as i32 };
    if scissors_cover(scissors, to.0, to.1) {
        let k = choose|k: int|
            0 <= k < damage.len() && #[trigger] part_has(
                damage[k],
                dst,
                t,
                screen,
                fb,
                to.0,
                to.1,
            );
        lemma_part_shows(damage[k], dst, t, screen, fb, x, y);
    }
    if dst.has(x, y) && 0 <= to.0 < fb_width && 0 <= to.1 < fb_height && exists|k: int|
        0 <= k < damage.len() && (#[trigger] damage[k]).has(x - dst.loc.x, y - dst.loc.y) {
        let k = choose|k: int|
            0 <= k < damage.len() && (#[trigger] damage[k]).has(x - dst.loc.x, y - dst.loc.y);
        lemma_part_shows(damage[k], dst, t, screen, fb, x, y);
        assert(part_has(damage[k], dst, t, screen, fb, to.0, to.1));
        assert(pixel_damaged(damage, dst, t, screen, fb, to.0, to.1));
    }
}

} // verus!
