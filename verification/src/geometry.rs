//! Axis-aligned bounding-box overlap test and side classification.
//!
//! Boxes are given by their center and their full size on each axis; a box
//! covers `center - size/2 ..= center + size/2`. To keep the arithmetic exact
//! on the integer grid, every bound below is handled doubled: `2*center -
//! size` and `2*center + size` are the doubled low and high edges.

use vstd::prelude::*;

verus! {

/// Largest magnitude a coordinate or a size component may have. Keeping all
/// boxes inside this range lets every edge and penetration depth below be
/// computed in `i64` without overflow.
pub const MAX_COORD: i64 = 0x100_0000_0000;

/// A two-dimensional fixed-point vector.
#[derive(Clone, Copy, PartialEq, Eq, Structural, Debug)]
pub struct Vec2 {
    pub x: i64,
    pub y: i64,
}

/// A three-dimensional fixed-point vector.
#[derive(Clone, Copy, PartialEq, Eq, Structural, Debug)]
pub struct Vec3 {
    pub x: i64,
    pub y: i64,
    pub z: i64,
}

impl Vec3 {
    pub open spec fn spec_truncate(self) -> Vec2 {
        Vec2 { x: self.x, y: self.y }
    }

    /// Drops the z component.
    pub fn truncate(self) -> (r: Vec2)
        ensures
            r == self.spec_truncate(),
    {
        Vec2 { x: self.x, y: self.y }
    }
}

pub open spec fn vec2_in_range(v: Vec2, bound: int) -> bool {
    &&& -bound <= v.x <= bound
    &&& -bound <= v.y <= bound
}

pub open spec fn vec3_in_range(v: Vec3, bound: int) -> bool {
    &&& -bound <= v.x <= bound
    &&& -bound <= v.y <= bound
    &&& -bound <= v.z <= bound
}

/// The side of box `b` that box `a` struck, named from `b`'s point of view:
/// `Left` means `a` hit `b`'s left side. `Inside` is the degenerate case in
/// which no single side can be named, because on both axes `a` neither enters
/// from below nor from above.
#[derive(Clone, Copy, PartialEq, Eq, Structural, Debug)]
pub enum Collision {
    Left,
    Right,
    Top,
    Bottom,
    Inside,
}

/// Doubled low edge of the box with center `c` and full size `s`.
pub open spec fn box_lo(c: int, s: int) -> int {
    2 * c - s
}

/// Doubled high edge of the box with center `c` and full size `s`.
pub open spec fn box_hi(c: int, s: int) -> int {
    2 * c + s
}

/// The two boxes overlap with positive area: strict on both axes, so boxes
/// that merely touch do not collide.
pub open spec fn boxes_overlap(a_pos: Vec2, a_size: Vec2, b_pos: Vec2, b_size: Vec2) -> bool {
    &&& box_lo(a_pos.x as int, a_size.x as int) < box_hi(b_pos.x as int, b_size.x as int)
    &&& box_hi(a_pos.x as int, a_size.x as int) > box_lo(b_pos.x as int, b_size.x as int)
    &&& box_lo(a_pos.y as int, a_size.y as int) < box_hi(b_pos.y as int, b_size.y as int)
    &&& box_hi(a_pos.y as int, a_size.y as int) > box_lo(b_pos.y as int, b_size.y as int)
}

/// Horizontal classification, assuming the boxes overlap: `a` entered across
/// `b`'s left or right edge, paired with the (doubled) penetration depth on
/// that axis; `None` when `a` neither entered from the left nor from the
/// right (it is embedded in, or spans, `b` horizontally).
pub open spec fn x_side(a_pos: Vec2, a_size: Vec2, b_pos: Vec2, b_size: Vec2) -> Option<
    (Collision, int),
> {
    let a_lo = box_lo(a_pos.x as int, a_size.x as int);
    let a_hi = box_hi(a_pos.x as int, a_size.x as int);
    let b_lo = box_lo(b_pos.x as int, b_size.x as int);
    let b_hi = box_hi(b_pos.x as int, b_size.x as int);
    if a_lo < b_lo && a_hi > b_lo && a_hi < b_hi {
        Some((Collision::Left, a_hi - b_lo))
    } else if a_lo > b_lo && a_lo < b_hi && a_hi > b_hi {
        Some((Collision::Right, b_hi - a_lo))
    } else {
        None
    }
}

/// Vertical classification, as `x_side`: entering across `b`'s bottom or top
/// edge, with the (doubled) penetration depth.
pub open spec fn y_side(a_pos: Vec2, a_size: Vec2, b_pos: Vec2, b_size: Vec2) -> Option<
    (Collision, int),
> {
    let a_lo = box_lo(a_pos.y as int, a_size.y as int);
    let a_hi = box_hi(a_pos.y as int, a_size.y as int);
    let b_lo = box_lo(b_pos.y as int, b_size.y as int);
    let b_hi = box_hi(b_pos.y as int, b_size.y as int);
    if a_lo < b_lo && a_hi > b_lo && a_hi < b_hi {
        Some((Collision::Bottom, a_hi - b_lo))
    } else if a_lo > b_lo && a_lo < b_hi && a_hi > b_hi {
        Some((Collision::Top, b_hi - a_lo))
    } else {
        None
    }
}

/// Overlap test and side classification. `None` when the boxes do not
/// overlap on both axes. Otherwise the axis of minimum penetration names the
/// struck side; the vertical side wins only where its depth is strictly
/// smaller, and where neither axis names a side the result is `Inside`.
pub open spec fn collide_spec(a_pos: Vec2, a_size: Vec2, b_pos: Vec2, b_size: Vec2) -> Option<
    Collision,
> {
    if !boxes_overlap(a_pos, a_size, b_pos, b_size) {
        None
    } else {
        match (x_side(a_pos, a_size, b_pos, b_size), y_side(a_pos, a_size, b_pos, b_size)) {
            (Some((xc, xd)), Some((yc, yd))) => if yd < xd {
                Some(yc)
            } else {
                Some(xc)
            },
            (Some((xc, _)), None) => Some(xc),
            (None, Some((yc, _))) => Some(yc),
            (None, None) => Some(Collision::Inside),
        }
    }
}

/// Overlap test and side classification of two axis-aligned boxes, each given
/// by center and full size.
pub fn collide(a_pos: Vec2, a_size: Vec2, b_pos: Vec2, b_size: Vec2) -> (r: Option<Collision>)
    requires
        vec2_in_range(a_pos, MAX_COORD as int),
        vec2_in_range(b_pos, MAX_COORD as int),
        vec2_in_range(a_size, MAX_COORD as int),
        vec2_in_range(b_size, MAX_COORD as int),
    ensures
        r == collide_spec(a_pos, a_size, b_pos, b_size),
{
    let a_lo_x: i64 = 2 * a_pos.x - a_size.x;
    let a_hi_x: i64 = 2 * a_pos.x + a_size.x;
    let b_lo_x: i64 = 2 * b_pos.x - b_size.x;
    let b_hi_x: i64 = 2 * b_pos.x + b_size.x;
    let a_lo_y: i64 = 2 * a_pos.y - a_size.y;
    let a_hi_y: i64 = 2 * a_pos.y + a_size.y;
    let b_lo_y: i64 = 2 * b_pos.y - b_size.y;
    let b_hi_y: i64 = 2 * b_pos.y + b_size.y;
    if !(a_lo_x < b_hi_x && a_hi_x > b_lo_x && a_lo_y < b_hi_y && a_hi_y > b_lo_y) {
        return None;
    }
    let x_hit: Option<(Collision, i64)> = if a_lo_x < b_lo_x && a_hi_x > b_lo_x && a_hi_x < b_hi_x {
        Some((Collision::Left, a_hi_x - b_lo_x))
    } else if a_lo_x > b_lo_x && a_lo_x < b_hi_x && a_hi_x > b_hi_x {
        Some((Collision::Right, b_hi_x - a_lo_x))
    } else {
        None
    };
    let y_hit: Option<(Collision, i64)> = if a_lo_y < b_lo_y && a_hi_y > b_lo_y && a_hi_y < b_hi_y {
        Some((Collision::Bottom, a_hi_y - b_lo_y))
    } else if a_lo_y > b_lo_y && a_lo_y < b_hi_y && a_hi_y > b_hi_y {
        Some((Collision::Top, b_hi_y - a_lo_y))
    } else {
        None
    };
    match (x_hit, y_hit) {
        (Some((xc, xd)), Some((yc, yd))) => if yd < xd {
            Some(yc)
        } else {
            Some(xc)
        },
        (Some((xc, _)), None) => Some(xc),
        (None, Some((yc, _))) => Some(yc),
        (None, None) => Some(Collision::Inside),
    }
}

} // verus!
