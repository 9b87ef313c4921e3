use vstd::prelude::*;
use crate::intersection::Intersection;
use crate::scalar::abs_of;
use crate::scalar::close;
use crate::scalar::magnitude;
use crate::scalar::scalar_eq;
use crate::scalar::EPSILON;
use crate::scalar::TICKS_PER_UNIT;

verus! {

/// The span of ray parameters for which a ray is between the two planes
/// of one axis of a cube.
#[derive(Clone, Copy, Debug, PartialEq, Eq, Structural)]
pub struct TMinMax {
    pub tmin: i64,
    pub tmax: i64,
}

/// How far a cylinder or cone reaches along its axis, and whether its
/// ends are capped.
#[derive(Clone, Copy, Debug, PartialEq, Eq, Structural)]
pub struct Extent {
    pub minimum: i64,
    pub maximum: i64,
    pub closed: bool,
}

/// A root of the quadratic of a cylinder's or cone's wall: the ray
/// parameter, and the height at which the ray then is.
#[derive(Clone, Copy, Debug, PartialEq, Eq, Structural)]
pub struct Root {
    pub t: i64,
    pub y: i64,
}

/// Where a ray meets the plane of an end cap, and whether it does so
/// within the cap's radius.
#[derive(Clone, Copy, Debug, PartialEq, Eq, Structural)]
pub struct Cap {
    pub t: i64,
    pub within: bool,
}

/// The axes of a shape's local space.
#[derive(Clone, Copy, Debug, PartialEq, Eq, Structural)]
pub enum Axis {
    X,
    Y,
    Z,
}

/// The part of a cylinder's or cone's surface that a point lies on.
#[derive(Clone, Copy, Debug, PartialEq, Eq, Structural)]
pub enum Face {
    /// The cap at `maximum`: the normal points up.
    Top,
    /// The cap at `minimum`: the normal points down.
    Bottom,
    /// The wall.
    Side,
}

pub open spec fn max_of(a: int, b: int) -> int {
    if a >= b {
        a
    } else {
        b
    }
}

pub open spec fn min_of(a: int, b: int) -> int {
    if a <= b {
        a
    } else {
        b
    }
}

/// What a sphere answers to a ray whose quadratic has the given
/// discriminant and roots.
pub open spec fn sphere_hits(obj: usize, discriminant: i64, t0: i64, t1: i64) -> Seq<Intersection> {
    if discriminant < 0 {
        Seq::empty()
    } else {
        seq![Intersection { obj, t: t0 }, Intersection { obj, t: t1 }]
    }
}

/// The intersections of a ray with a sphere: none where the discriminant
/// is negative, else one for each root, the same twice where the ray
/// touches the sphere.
pub fn sphere_intersect(obj: usize, discriminant: i64, t0: i64, t1: i64) -> (r: Vec<Intersection>)
    ensures
        r@ == sphere_hits(obj, discriminant, t0, t1),
        r.len() == 0 || r.len() == 2,
{
    let mut out: Vec<Intersection> = Vec::new();
    if discriminant >= 0 {
        out.push(Intersection { obj, t: t0 });
        out.push(Intersection { obj, t: t1 });
        proof {
            assert(out@ =~= sphere_hits(obj, discriminant, t0, t1));
        }
    }
    out
}

/// What a plane answers to a ray that runs along `dir_y` across it and
/// would meet it at `t`.
pub open spec fn plane_hits(obj: usize, dir_y: i64, t: i64) -> Seq<Intersection> {
    if abs_of(dir_y as int) < EPSILON {
        Seq::empty()
    } else {
        seq![Intersection { obj, t }]
    }
}

/// The intersections of a ray with a plane: none where the ray runs
/// along the plane, else the one at `t`.
pub fn plane_intersect(obj: usize, dir_y: i64, t: i64) -> (r: Vec<Intersection>)
    ensures
        r@ == plane_hits(obj, dir_y, t),
{
    let mut out: Vec<Intersection> = Vec::new();
    if magnitude(dir_y) >= EPSILON as u64 {
        out.push(Intersection { obj, t });
        proof {
            assert(out@ =~= plane_hits(obj, dir_y, t));
        }
    }
    out
}

/// Puts the two ends of a span in ascending order.
pub fn check_axis(t1: i64, t2: i64) -> (r: TMinMax)
    ensures
        r.tmin == min_of(t1 as int, t2 as int),
        r.tmax == max_of(t1 as int, t2 as int),
{
    if t1 > t2 {
        TMinMax { tmin: t2, tmax: t1 }
    } else {
        TMinMax { tmin: t1, tmax: t2 }
    }
}

/// Where the three spans overlap: from the largest of their starts to the
/// smallest of their ends.
pub open spec fn overlap(x: TMinMax, y: TMinMax, z: TMinMax) -> TMinMax {
    TMinMax {
        tmin: max_of(max_of(x.tmin as int, y.tmin as int), z.tmin as int) as i64,
        tmax: min_of(min_of(x.tmax as int, y.tmax as int), z.tmax as int) as i64,
    }
}

/// What a cube answers to a ray, given the ray's span on each axis.
pub open spec fn cube_hits(obj: usize, x: TMinMax, y: TMinMax, z: TMinMax) -> Seq<Intersection> {
    let span = overlap(x, y, z);
    if span.tmin > span.tmax {
        Seq::empty()
    } else {
        seq![Intersection { obj, t: span.tmin }, Intersection { obj, t: span.tmax }]
    }
}

/// The intersections of a ray with a cube: none where the ray's spans on
/// the three axes do not overlap, else the two ends of the overlap.
pub fn cube_intersect(obj: usize, x: TMinMax, y: TMinMax, z: TMinMax) -> (r: Vec<Intersection>)
    ensures
        r@ == cube_hits(obj, x, y, z),
{
    let mut tmin = x.tmin;
    if y.tmin > tmin {
        tmin = y.tmin;
    }
    if z.tmin > tmin {
        tmin = z.tmin;
    }
    let mut tmax = x.tmax;
    if y.tmax < tmax {
        tmax = y.tmax;
    }
    if z.tmax < tmax {
        tmax = z.tmax;
    }
    let mut out: Vec<Intersection> = Vec::new();
    if tmin <= tmax {
        out.push(Intersection { obj, t: tmin });
        out.push(Intersection { obj, t: tmax });
        proof {
            assert(out@ =~= cube_hits(obj, x, y, z));
        }
    }
    out
}

/// The axis of a cube's normal at a point of its surface: that of the
/// coordinate with the largest absolute value, the earlier axis where two
/// are the same up to `EPSILON`.
pub open spec fn cube_normal_axis(x: i64, y: i64, z: i64) -> Axis {
    let largest = max_of(abs_of(x as int), max_of(abs_of(y as int), abs_of(z as int)));
    if largest - abs_of(x as int) < EPSILON {
        Axis::X
    } else if largest - abs_of(y as int) < EPSILON {
        Axis::Y
    } else {
        Axis::Z
    }
}

/// Decides along which axis a cube's normal points at a point of its
/// surface.
pub fn cube_normal(x: i64, y: i64, z: i64) -> (r: Axis)
    ensures
        r == cube_normal_axis(x, y, z),
{
    let ax = magnitude(x);
    let ay = magnitude(y);
    let az = magnitude(z);
    let mut largest = ay;
    if az > largest {
        largest = az;
    }
    if ax > largest {
        largest = ax;
    }
    if largest - ax < EPSILON as u64 {
        Axis::X
    } else if largest - ay < EPSILON as u64 {
        Axis::Y
    } else {
        Axis::Z
    }
}

/// The root's intersection where its height is strictly between the
/// bounds, else nothing.
pub open spec fn wall_hit(obj: usize, extent: Extent, root: Root) -> Seq<Intersection> {
    if extent.minimum < root.y && root.y < extent.maximum {
        seq![Intersection { obj, t: root.t }]
    } else {
        Seq::empty()
    }
}

/// The intersections with the wall: the two roots in ascending order of
/// `t`, each only where its height is strictly between the bounds.
pub open spec fn wall_hits(obj: usize, extent: Extent, r0: Root, r1: Root) -> Seq<Intersection> {
    if r0.t > r1.t {
        wall_hit(obj, extent, r1) + wall_hit(obj, extent, r0)
    } else {
        wall_hit(obj, extent, r0) + wall_hit(obj, extent, r1)
    }
}

/// The cap's intersection where the ray meets it within its radius.
pub open spec fn cap_hit(obj: usize, cap: Cap) -> Seq<Intersection> {
    if cap.within {
        seq![Intersection { obj, t: cap.t }]
    } else {
        Seq::empty()
    }
}

/// The intersections with the end caps, the lower cap first: none where
/// the shape is open.
pub open spec fn cap_hits(obj: usize, extent: Extent, lower: Cap, upper: Cap) -> Seq<Intersection> {
    if extent.closed {
        cap_hit(obj, lower) + cap_hit(obj, upper)
    } else {
        Seq::empty()
    }
}

/// What a cylinder answers to a ray. `a` is the leading coefficient of the
/// wall's quadratic and `discriminant` its discriminant.
pub open spec fn cylinder_hits(
    obj: usize,
    extent: Extent,
    a: i64,
    discriminant: i64,
    r0: Root,
    r1: Root,
    lower: Cap,
    upper: Cap,
) -> Seq<Intersection> {
    if close(a, 0) {
        cap_hits(obj, extent, lower, upper)
    } else if discriminant < 0 {
        Seq::empty()
    } else {
        wall_hits(obj, extent, r0, r1) + cap_hits(obj, extent, lower, upper)
    }
}

/// Below this many ticks the leading coefficient of a cone's quadratic
/// counts as zero, and the quadratic as linear.
pub const LINEAR_BELOW: i64 = 10;

/// What a cone answers to a ray. `a` and `b` are coefficients of the
/// wall's quadratic, `discriminant` is its discriminant, `linear_t` is the
/// root of the linear equation that is left where `a` vanishes, and
/// `dir_y` is the ray's direction along the axis.
pub open spec fn cone_hits(
    obj: usize,
    extent: Extent,
    a: i64,
    b: i64,
    discriminant: i64,
    linear_t: i64,
    dir_y: i64,
    r0: Root,
    r1: Root,
    lower: Cap,
    upper: Cap,
) -> Seq<Intersection> {
    let caps = if close(dir_y, 0) {
        Seq::empty()
    } else {
        cap_hits(obj, extent, lower, upper)
    };
    if close(a, 0) && close(b, 0) {
        caps
    } else if abs_of(a as int) < LINEAR_BELOW {
        seq![Intersection { obj, t: linear_t }] + caps
    } else if discriminant < 0 {
        Seq::empty()
    } else {
        wall_hits(obj, extent, r0, r1) + caps
    }
}

fn push_wall(out: &mut Vec<Intersection>, obj: usize, extent: &Extent, root: Root)
    ensures
        final(out)@ == old(out)@ + wall_hit(obj, *extent, root),
{
    if extent.minimum < root.y && root.y < extent.maximum {
        out.push(Intersection { obj, t: root.t });
        proof {
            assert(out@ =~= old(out)@ + wall_hit(obj, *extent, root));
        }
    } else {
        proof {
            assert(out@ =~= old(out)@ + wall_hit(obj, *extent, root));
        }
    }
}

fn push_walls(out: &mut Vec<Intersection>, obj: usize, extent: &Extent, r0: Root, r1: Root)
    ensures
        final(out)@ == old(out)@ + wall_hits(obj, *extent, r0, r1),
{
    if r0.t > r1.t {
        push_wall(out, obj, extent, r1);
        push_wall(out, obj, extent, r0);
        proof {
            assert(out@ =~= old(out)@ + wall_hits(obj, *extent, r0, r1));
        }
    } else {
        push_wall(out, obj, extent, r0);
        push_wall(out, obj, extent, r1);
        proof {
            assert(out@ =~= old(out)@ + wall_hits(obj, *extent, r0, r1));
        }
    }
}

/// Appends to `xs` the intersections with the end caps of a cylinder or
/// cone, the lower cap first; nothing where the shape is open.
pub fn intersect_caps(xs: &mut Vec<Intersection>, obj: usize, extent: &Extent, lower: Cap, upper: Cap)
    ensures
        final(xs)@ == old(xs)@ + cap_hits(obj, *extent, lower, upper),
{
    if extent.closed {
        if lower.within {
            xs.push(Intersection { obj, t: lower.t });
        }
        if upper.within {
            xs.push(Intersection { obj, t: upper.t });
        }
    }
    proof {
        assert(xs@ =~= old(xs)@ + cap_hits(obj, *extent, lower, upper));
    }
}

/// The intersections of a ray with a cylinder. A ray along the axis can
/// only meet the caps; one whose quadratic has no root meets nothing; any
/// other meets the wall where its roots lie strictly between the bounds,
/// and the caps.
pub fn cylinder_intersect(
    obj: usize,
    extent: &Extent,
    a: i64,
    discriminant: i64,
    r0: Root,
    r1: Root,
    lower: Cap,
    upper: Cap,
) -> (r: Vec<Intersection>)
    ensures
        r@ == cylinder_hits(obj, *extent, a, discriminant, r0, r1, lower, upper),
{
    let mut out: Vec<Intersection> = Vec::new();
    if scalar_eq(a, 0) {
        intersect_caps(&mut out, obj, extent, lower, upper);
    } else if discriminant < 0 {
    } else {
        push_walls(&mut out, obj, extent, r0, r1);
        intersect_caps(&mut out, obj, extent, lower, upper);
    }
    proof {
        assert(out@ =~= cylinder_hits(obj, *extent, a, discriminant, r0, r1, lower, upper));
    }
    out
}

/// The intersections of a ray with a cone. Where both coefficients
/// vanish the ray can only meet the caps; where the leading one alone
/// does, the wall is met once, at `linear_t`; else the cone answers as a
/// cylinder does. A ray across the axis meets no cap.
pub fn cone_intersect(
    obj: usize,
    extent: &Extent,
    a: i64,
    b: i64,
    discriminant: i64,
    linear_t: i64,
    dir_y: i64,
    r0: Root,
    r1: Root,
    lower: Cap,
    upper: Cap,
) -> (r: Vec<Intersection>)
    ensures
        r@ == cone_hits(obj, *extent, a, b, discriminant, linear_t, dir_y, r0, r1, lower, upper),
{
    let mut out: Vec<Intersection> = Vec::new();
    let flat = scalar_eq(dir_y, 0);
    if scalar_eq(a, 0) && scalar_eq(b, 0) {
        if !flat {
            intersect_caps(&mut out, obj, extent, lower, upper);
        }
    } else if -LINEAR_BELOW < a && a < LINEAR_BELOW {
        out.push(Intersection { obj, t: linear_t });
        if !flat {
            intersect_caps(&mut out, obj, extent, lower, upper);
        }
    } else if discriminant < 0 {
    } else {
        push_walls(&mut out, obj, extent, r0, r1);
        if !flat {
            intersect_caps(&mut out, obj, extent, lower, upper);
        }
    }
    proof {
        assert(out@ =~= cone_hits(
            obj,
            *extent,
            a,
            b,
            discriminant,
            linear_t,
            dir_y,
            r0,
            r1,
            lower,
            upper,
        ));
    }
    out
}

/// The part of a cylinder's surface that a point lies on. `dist2` is the
/// squared distance of the point from the axis and `y` its height: within
/// the radius and no more than `EPSILON` below `maximum` is the top cap,
/// within the radius and no more than `EPSILON` above `minimum` the bottom
/// cap, the top cap where both hold.
pub open spec fn cylinder_face(extent: Extent, dist2: i64, y: i64) -> Face {
    if dist2 < TICKS_PER_UNIT && y >= extent.maximum - EPSILON {
        Face::Top
    } else if dist2 < TICKS_PER_UNIT && y <= extent.minimum + EPSILON {
        Face::Bottom
    } else {
        Face::Side
    }
}

/// The part of a cone's surface that a point lies on. `dist` is the
/// distance of the point from the axis: a cap reaches as far from the axis
/// as it is from the apex.
pub open spec fn cone_face(extent: Extent, dist: i64, y: i64) -> Face {
    if dist < abs_of(extent.maximum as int) && y >= extent.maximum - EPSILON {
        Face::Top
    } else if dist < abs_of(extent.minimum as int) && y <= extent.minimum + EPSILON {
        Face::Bottom
    } else {
        Face::Side
    }
}

fn near_top(extent: &Extent, y: i64) -> (r: bool)
    ensures
        r <==> y >= extent.maximum - EPSILON,
{
    match extent.maximum.checked_sub(EPSILON) {
        Some(edge) => y >= edge,
        None => true,
    }
}

fn near_bottom(extent: &Extent, y: i64) -> (r: bool)
    ensures
        r <==> y <= extent.minimum + EPSILON,
{
    match extent.minimum.checked_add(EPSILON) {
        Some(edge) => y <= edge,
        None => true,
    }
}

/// Decides on which part of a cylinder's surface a point lies.
pub fn cylinder_normal(extent: &Extent, dist2: i64, y: i64) -> (r: Face)
    ensures
        r == cylinder_face(*extent, dist2, y),
{
    if dist2 < TICKS_PER_UNIT && near_top(extent, y) {
        Face::Top
    } else if dist2 < TICKS_PER_UNIT && near_bottom(extent, y) {
        Face::Bottom
    } else {
        Face::Side
    }
}

/// Decides on which part of a cone's surface a point lies.
pub fn cone_normal(extent: &Extent, dist: i64, y: i64) -> (r: Face)
    ensures
        r == cone_face(*extent, dist, y),
{
    let top_reach = magnitude(extent.maximum);
    let bottom_reach = magnitude(extent.minimum);
    if (dist < 0 || magnitude(dist) < top_reach) && near_top(extent, y) {
        Face::Top
    } else if (dist < 0 || magnitude(dist) < bottom_reach) && near_bottom(extent, y) {
        Face::Bottom
    } else {
        Face::Side
    }
}

} // verus!
