//! Points and the plane geometry that matching two polygons needs.
//!
//! Positions given by callers are `Point`s. Intermediate positions, which may lie
//! a little outside the range of a `Point`, are `Wide` points. Both stand for a
//! `Vector` with integer coordinates. Distances are compared by their squares,
//! which are exact integers.

use vstd::prelude::*;
use crate::units::{clamp, div_floor, lemma_round_div_bounds, round_div};

verus! {

/// A position with unbounded integer coordinates.
pub struct Vector {
    pub x: int,
    pub y: int,
}

/// A point of the plane, in length units.
#[derive(Clone, Copy, PartialEq, Eq, Structural, Debug)]
pub struct Point {
    pub x: i32,
    pub y: i32,
}

/// A point with room for the sums and differences of `Point` coordinates.
#[derive(Clone, Copy, PartialEq, Eq, Structural, Debug)]
pub struct Wide {
    pub x: i64,
    pub y: i64,
}

/// The largest size of a coordinate for which this module computes.
pub const REACH: i64 = 0x1_0000_0000;

impl View for Point {
    type V = Vector;

    open spec fn view(&self) -> Vector {
        Vector { x: self.x as int, y: self.y as int }
    }
}

impl View for Wide {
    type V = Vector;

    open spec fn view(&self) -> Vector {
        Vector { x: self.x as int, y: self.y as int }
    }
}

impl Point {
    /// The point with the given coordinates.
    pub fn new(x: i32, y: i32) -> (p: Point)
        ensures
            p == (Point { x, y }),
    {
        Point { x, y }
    }
}

/// Whether both coordinates are within `REACH` of zero.
pub open spec fn reachable(v: Vector) -> bool {
    -REACH <= v.x <= REACH && -REACH <= v.y <= REACH
}

/// Whether both coordinates fit a `Point`.
pub open spec fn fits_point(v: Vector) -> bool {
    i32::MIN <= v.x <= i32::MAX && i32::MIN <= v.y <= i32::MAX
}

/// The square of the distance between two positions.
pub open spec fn dist2(a: Vector, b: Vector) -> int {
    (a.x - b.x) * (a.x - b.x) + (a.y - b.y) * (a.y - b.y)
}

/// The position moved by `(dx, dy)`.
pub open spec fn moved(v: Vector, dx: int, dy: int) -> Vector {
    Vector { x: v.x + dx, y: v.y + dy }
}

/// The smallest horizontal coordinate among the points; the largest coordinate
/// that a `Point` can have where there are none.
pub open spec fn leftmost(points: Seq<Point>) -> int
    decreases points.len(),
{
    if points.len() == 0 {
        i32::MAX as int
    } else {
        let rest = leftmost(points.drop_last());
        if points.last().x < rest {
            points.last().x as int
        } else {
            rest
        }
    }
}

/// The smallest vertical coordinate among the points; the largest coordinate
/// that a `Point` can have where there are none.
pub open spec fn topmost(points: Seq<Point>) -> int
    decreases points.len(),
{
    if points.len() == 0 {
        i32::MAX as int
    } else {
        let rest = topmost(points.drop_last());
        if points.last().y < rest {
            points.last().y as int
        } else {
            rest
        }
    }
}

/// The position of the first candidate nearest to `target`; zero where there is none.
pub open spec fn nearest(target: Vector, candidates: Seq<Vector>) -> int
    decreases candidates.len(),
{
    if candidates.len() <= 1 {
        0
    } else {
        let best = nearest(target, candidates.drop_last());
        if dist2(target, candidates.last()) < dist2(target, candidates[best]) {
            candidates.len() - 1
        } else {
            best
        }
    }
}

/// The point of the segment from `a` to `b` nearest to `p`: the foot of the
/// perpendicular from `p` where that lies on the segment, else the nearer end;
/// each coordinate rounded to the nearest integer.
pub open spec fn project(a: Vector, b: Vector, p: Vector) -> Vector {
    let dx = b.x - a.x;
    let dy = b.y - a.y;
    let len2 = dx * dx + dy * dy;
    if len2 == 0 {
        a
    } else {
        let along = clamp(dx * (p.x - a.x) + dy * (p.y - a.y), 0, len2);
        Vector { x: a.x + round_div(dx * along, len2), y: a.y + round_div(dy * along, len2) }
    }
}

/// The nearest candidate is a candidate, none is nearer, and none before it is as near.
pub proof fn lemma_nearest(target: Vector, candidates: Seq<Vector>)
    requires
        candidates.len() > 0,
    ensures
        0 <= nearest(target, candidates) < candidates.len(),
        forall|j: int|
            0 <= j < candidates.len() ==> dist2(target, candidates[nearest(target, candidates)])
                <= dist2(target, #[trigger] candidates[j]),
        forall|j: int|
            0 <= j < nearest(target, candidates) ==> dist2(
                target,
                candidates[nearest(target, candidates)],
            ) < dist2(target, #[trigger] candidates[j]),
    decreases candidates.len(),
{
    if candidates.len() > 1 {
        let front = candidates.drop_last();
        lemma_nearest(target, front);
        assert forall|j: int| 0 <= j < candidates.len() implies dist2(
            target,
            candidates[nearest(target, candidates)],
        ) <= dist2(target, #[trigger] candidates[j]) by {
            if j < front.len() {
                assert(front[j] == candidates[j]);
            }
        }
        assert forall|j: int| 0 <= j < nearest(target, candidates) implies dist2(
            target,
            candidates[nearest(target, candidates)],
        ) < dist2(target, #[trigger] candidates[j]) by {
            if j < front.len() {
                assert(front[j] == candidates[j]);
            }
        }
    }
}

/// Each coordinate of a projection lies between those of the segment's ends.
pub proof fn lemma_project_between(a: Vector, b: Vector, p: Vector)
    ensures
        a.x <= b.x ==> a.x <= project(a, b, p).x <= b.x,
        b.x <= a.x ==> b.x <= project(a, b, p).x <= a.x,
        a.y <= b.y ==> a.y <= project(a, b, p).y <= b.y,
        b.y <= a.y ==> b.y <= project(a, b, p).y <= a.y,
{
    let dx = b.x - a.x;
    let dy = b.y - a.y;
    let len2 = dx * dx + dy * dy;
    assert(dx * dx >= 0 && dy * dy >= 0) by (nonlinear_arith);
    if len2 != 0 {
        let along = clamp(dx * (p.x - a.x) + dy * (p.y - a.y), 0, len2);
        lemma_scaled_between(dx, along, len2);
        lemma_scaled_between(dy, along, len2);
    }
}

/// A difference scaled by a part of the whole stays between zero and itself.
proof fn lemma_scaled_between(d: int, along: int, len2: int)
    requires
        0 <= along <= len2,
        len2 > 0,
    ensures
        d >= 0 ==> 0 <= round_div(d * along, len2) <= d,
        d <= 0 ==> d <= round_div(d * along, len2) <= 0,
{
    if d >= 0 {
        assert(0 * len2 <= d * along <= d * len2) by (nonlinear_arith)
            requires
                0 <= along <= len2,
                d >= 0,
        ;
        lemma_round_div_bounds(d * along, len2, 0, d);
    }
    if d <= 0 {
        assert(d * len2 <= d * along <= 0 * len2) by (nonlinear_arith)
            requires
                0 <= along <= len2,
                d <= 0,
        ;
        lemma_round_div_bounds(d * along, len2, d, 0);
    }
}

/// The square of the distance between two points.
pub fn distance_squared(a: Wide, b: Wide) -> (d: i128)
    requires
        reachable(a@),
        reachable(b@),
    ensures
        d == dist2(a@, b@),
        0 <= d <= 8 * REACH * REACH,
{
    let dx: i128 = a.x as i128 - b.x as i128;
    let dy: i128 = a.y as i128 - b.y as i128;
    assert(0 <= dx * dx <= 4 * REACH * REACH) by (nonlinear_arith)
        requires
            -2 * REACH <= dx <= 2 * REACH,
    ;
    assert(0 <= dy * dy <= 4 * REACH * REACH) by (nonlinear_arith)
        requires
            -2 * REACH <= dy <= 2 * REACH,
    ;
    dx * dx + dy * dy
}

/// The corner at the top left of the smallest upright box around the points.
pub fn top_left(points: &Vec<Point>) -> (corner: Point)
    ensures
        corner.x == leftmost(points@),
        corner.y == topmost(points@),
{
    let mut corner = Point { x: i32::MAX, y: i32::MAX };
    let mut i: usize = 0;
    assert(points@.take(0) =~= Seq::<Point>::empty());
    while i < points.len()
        invariant
            i <= points@.len(),
            corner.x == leftmost(points@.take(i as int)),
            corner.y == topmost(points@.take(i as int)),
        decreases points@.len() - i,
    {
        let p = points[i];
        proof {
            let upto = points@.take(i + 1);
            assert(upto.drop_last() =~= points@.take(i as int));
            assert(upto.last() == p);
        }
        if p.x < corner.x {
            corner.x = p.x;
        }
        if p.y < corner.y {
            corner.y = p.y;
        }
        i += 1;
    }
    assert(points@.take(i as int) =~= points@);
    corner
}

/// The points with `origin` taken as the new zero.
pub open spec fn translated(points: Seq<Point>, origin: Vector) -> Seq<Vector> {
    Seq::new(points.len(), |i: int| moved(points[i]@, -origin.x, -origin.y))
}

/// Moves the points so that `origin` becomes the new zero.
pub fn translate_points(points: &Vec<Point>, origin: Point) -> (r: Vec<Wide>)
    ensures
        r@.len() == points@.len(),
        forall|i: int| 0 <= i < r@.len() ==> (#[trigger] r@[i])@ == translated(points@, origin@)[i],
{
    let mut r: Vec<Wide> = Vec::with_capacity(points.len());
    let mut i: usize = 0;
    while i < points.len()
        invariant
            i <= points@.len(),
            r@.len() == i,
            forall|j: int| 0 <= j < i ==> (#[trigger] r@[j])@ == translated(points@, origin@)[j],
        decreases points@.len() - i,
    {
        let p = points[i];
        r.push(Wide { x: p.x as i64 - origin.x as i64, y: p.y as i64 - origin.y as i64 });
        i += 1;
    }
    r
}

/// The candidate nearest to `point`, the first of them where several are as
/// near, with its position among the candidates.
pub fn closest_point(point: Wide, candidates: &Vec<Wide>) -> (r: (usize, Wide))
    requires
        candidates@.len() > 0,
        reachable(point@),
        forall|i: int| 0 <= i < candidates@.len() ==> reachable((#[trigger] candidates@[i])@),
    ensures
        r.0 == nearest(point@, candidates@.map_values(|c: Wide| c@)),
        r.0 < candidates@.len(),
        r.1 == candidates@[r.0 as int],
{
    let ghost views = candidates@.map_values(|c: Wide| c@);
    let mut best: usize = 0;
    let mut least: i128 = distance_squared(point, candidates[0]);
    let mut i: usize = 1;
    assert(views.take(1).len() == 1);
    while i < candidates.len()
        invariant
            1 <= i <= candidates@.len(),
            views == candidates@.map_values(|c: Wide| c@),
            reachable(point@),
            forall|j: int| 0 <= j < candidates@.len() ==> reachable((#[trigger] candidates@[j])@),
            best == nearest(point@, views.take(i as int)),
            best < i,
            least == dist2(point@, views[best as int]),
        decreases candidates@.len() - i,
    {
        let d: i128 = distance_squared(point, candidates[i]);
        proof {
            let upto = views.take(i + 1);
            assert(upto.drop_last() =~= views.take(i as int));
            assert(upto.last() == candidates@[i as int]@);
            assert(upto[best as int] == views[best as int]);
        }
        if d < least {
            best = i;
            least = d;
        }
        i += 1;
    }
    assert(views.take(i as int) =~= views);
    (best, candidates[best])
}

/// The point of the segment from `line_a` to `line_b` nearest to `point`, and the
/// square of its distance from `point`.
pub fn cast_to_line(line_a: Wide, line_b: Wide, point: Wide) -> (r: (Wide, i128))
    requires
        reachable(line_a@),
        reachable(line_b@),
        reachable(point@),
    ensures
        r.0@ == project(line_a@, line_b@, point@),
        r.1 == dist2(point@, r.0@),
        reachable(r.0@),
{
    let dx: i128 = line_b.x as i128 - line_a.x as i128;
    let dy: i128 = line_b.y as i128 - line_a.y as i128;
    let px: i128 = point.x as i128 - line_a.x as i128;
    let py: i128 = point.y as i128 - line_a.y as i128;
    assert(0 <= dx * dx <= 4 * REACH * REACH) by (nonlinear_arith)
        requires
            -2 * REACH <= dx <= 2 * REACH,
    ;
    assert(0 <= dy * dy <= 4 * REACH * REACH) by (nonlinear_arith)
        requires
            -2 * REACH <= dy <= 2 * REACH,
    ;
    assert(-4 * REACH * REACH <= dx * px <= 4 * REACH * REACH) by (nonlinear_arith)
        requires
            -2 * REACH <= dx <= 2 * REACH,
            -2 * REACH <= px <= 2 * REACH,
    ;
    assert(-4 * REACH * REACH <= dy * py <= 4 * REACH * REACH) by (nonlinear_arith)
        requires
            -2 * REACH <= dy <= 2 * REACH,
            -2 * REACH <= py <= 2 * REACH,
    ;
    let len2: i128 = dx * dx + dy * dy;
    if len2 == 0 {
        return (line_a, distance_squared(point, line_a));
    }
    let dot: i128 = dx * px + dy * py;
    let along: i128 = if dot < 0 {
        0
    } else if dot > len2 {
        len2
    } else {
        dot
    };
    proof {
        lemma_project_between(line_a@, line_b@, point@);
        assert(-16 * REACH * REACH * REACH <= dx * along <= 16 * REACH * REACH * REACH)
            by (nonlinear_arith)
            requires
                -2 * REACH <= dx <= 2 * REACH,
                0 <= along <= 8 * REACH * REACH,
        ;
        assert(-16 * REACH * REACH * REACH <= dy * along <= 16 * REACH * REACH * REACH)
            by (nonlinear_arith)
            requires
                -2 * REACH <= dy <= 2 * REACH,
                0 <= along <= 8 * REACH * REACH,
        ;
    }
    let x: i128 = line_a.x as i128 + div_floor(2 * (dx * along) + len2, 2 * len2);
    let y: i128 = line_a.y as i128 + div_floor(2 * (dy * along) + len2, 2 * len2);
    let foot = Wide { x: x as i64, y: y as i64 };
    (foot, distance_squared(point, foot))
}

} // verus!
