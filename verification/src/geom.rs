use vstd::prelude::*;
use crate::scalar::Scalar;

verus! {

/// A 3-component coordinate vector over a generic scalar.
#[derive(Clone, Copy)]
pub struct Vec3<S> {
    pub x: S,
    pub y: S,
    pub z: S,
}

/// The squared distance between two points: the sum of the squared
/// component differences, associated `(dx*dx + dy*dy) + dz*dz`.
pub open spec fn dist_sq_s<S: Scalar>(p: Vec3<S>, q: Vec3<S>) -> S {
    let dx = p.x.sub_s(q.x);
    let dy = p.y.sub_s(q.y);
    let dz = p.z.sub_s(q.z);
    dx.mul_s(dx).add_s(dy.mul_s(dy)).add_s(dz.mul_s(dz))
}

/// The value `opposite_angle` returns: the law-of-cosines angle at `p3`,
/// `acos((b2 + c2 - a2) / ((2 * sqrt(b2)) * sqrt(c2)))` over the squared
/// edge lengths `a2 = |p1-p2|^2`, `b2 = |p2-p3|^2`, `c2 = |p3-p1|^2`.
pub open spec fn opposite_angle_s<S: Scalar>(p1: Vec3<S>, p2: Vec3<S>, p3: Vec3<S>) -> S {
    let a2 = dist_sq_s(p1, p2);
    let b2 = dist_sq_s(p2, p3);
    let c2 = dist_sq_s(p3, p1);
    b2.add_s(c2).sub_s(a2).div_s(S::two_s().mul_s(b2.sqrt_s()).mul_s(c2.sqrt_s())).acos_s()
}

/// The cross product of two vectors.
pub open spec fn cross_s<S: Scalar>(u: Vec3<S>, v: Vec3<S>) -> Vec3<S> {
    Vec3 {
        x: u.y.mul_s(v.z).sub_s(u.z.mul_s(v.y)),
        y: u.z.mul_s(v.x).sub_s(u.x.mul_s(v.z)),
        z: u.x.mul_s(v.y).sub_s(u.y.mul_s(v.x)),
    }
}

/// The componentwise difference `p - q`.
pub open spec fn diff_s<S: Scalar>(p: Vec3<S>, q: Vec3<S>) -> Vec3<S> {
    Vec3 { x: p.x.sub_s(q.x), y: p.y.sub_s(q.y), z: p.z.sub_s(q.z) }
}

/// The value `triangle_area` returns: half the magnitude of the cross
/// product of the two edge vectors rooted at `p1`.
pub open spec fn triangle_area_s<S: Scalar>(p1: Vec3<S>, p2: Vec3<S>, p3: Vec3<S>) -> S {
    let c = cross_s(diff_s(p2, p1), diff_s(p3, p1));
    c.x.mul_s(c.x).add_s(c.y.mul_s(c.y)).add_s(c.z.mul_s(c.z)).sqrt_s().div_s(S::two_s())
}

/// The interior angle of the triangle `p1 p2 p3` at `p3`, i.e. the angle
/// subtended looking across the edge `p1-p2`, by the law of cosines.
///
/// For a degenerate triangle (a zero-length edge at `p3`, or an arc cosine
/// argument outside `[-1, 1]`) the scalar type's `acos` yields its invalid
/// value (`NaN` for floats), which the caller must treat as a
/// degenerate-geometry signal.
pub fn opposite_angle<S: Scalar>(p1: &Vec3<S>, p2: &Vec3<S>, p3: &Vec3<S>) -> (r: S)
    ensures
        r == opposite_angle_s(*p1, *p2, *p3),
{
    let a_squared = dist_sq(p1, p2);
    let b_squared = dist_sq(p2, p3);
    let c_squared = dist_sq(p3, p1);

    b_squared
        .add(c_squared)
        .sub(a_squared)
        .div(S::two().mul(b_squared.sqrt()).mul(c_squared.sqrt()))
        .acos()
}

/// The squared distance between two points.
pub fn dist_sq<S: Scalar>(p: &Vec3<S>, q: &Vec3<S>) -> (r: S)
    ensures
        r == dist_sq_s(*p, *q),
{
    let dx = p.x.sub(q.x);
    let dy = p.y.sub(q.y);
    let dz = p.z.sub(q.z);
    dx.mul(dx).add(dy.mul(dy)).add(dz.mul(dz))
}

/// The area of the triangle `p1 p2 p3`: half the magnitude of the cross
/// product of the two edge vectors rooted at `p1`. For collinear or
/// coincident input the exact value is zero; floating-point scalars return
/// zero up to rounding.
pub fn triangle_area<S: Scalar>(p1: &Vec3<S>, p2: &Vec3<S>, p3: &Vec3<S>) -> (r: S)
    ensures
        r == triangle_area_s(*p1, *p2, *p3),
{
    let ux = p2.x.sub(p1.x);
    let uy = p2.y.sub(p1.y);
    let uz = p2.z.sub(p1.z);
    let vx = p3.x.sub(p1.x);
    let vy = p3.y.sub(p1.y);
    let vz = p3.z.sub(p1.z);
    let cx = uy.mul(vz).sub(uz.mul(vy));
    let cy = uz.mul(vx).sub(ux.mul(vz));
    let cz = ux.mul(vy).sub(uy.mul(vx));
    cx.mul(cx).add(cy.mul(cy)).add(cz.mul(cz)).sqrt().div(S::two())
}

} // verus!
