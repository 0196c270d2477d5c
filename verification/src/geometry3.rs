use vstd::prelude::*;
use std::ops::{Add, BitXor, Mul, Sub};
use vstd::std_specs::cmp::PartialOrdSpec;
use vstd::std_specs::ops::{AddSpec, BitXorSpec, MulSpec, SubSpec};
use crate::geometry::{
    compares_greater, distinct_heights, greater, greater_is_asymmetric, greater_is_transitive,
    same_corners, Convert,
};

verus! {

/// A vector of space.
#[derive(PartialEq, Eq, Hash, Copy, Clone)]
pub struct Vec3<T>
    where T: Copy + Clone
{
    pub dx: T,
    pub dy: T,
    pub dz: T,
}

impl<T> Vec3<T>
    where T: Copy + Clone
{
    /// The vector whose components are the three arguments, each converted to `T`.
    pub fn from<T1, T2, T3>(_dx: T1, _dy: T2, _dz: T3) -> (r: Vec3<T>)
        where T1: Convert<T>, T2: Convert<T>, T3: Convert<T>
        ensures
            r == (Vec3 { dx: _dx.converted(), dy: _dy.converted(), dz: _dz.converted() }),
    {
        Vec3::<T> { dx: _dx.convert(), dy: _dy.convert(), dz: _dz.convert() }
    }
}

/// A point of space.
#[derive(PartialEq, Eq, Hash, Copy, Clone)]
pub struct Point3<T>
    where T: Copy + Clone
{
    pub x: T,
    pub y: T,
    pub z: T,
}

/// A triple `(x, y, z)` converts to the point with these coordinates.
impl<T> Convert<Point3<T>> for (T, T, T)
    where T: Copy + Clone
{
    open spec fn converted(self) -> Point3<T> {
        Point3 { x: self.0, y: self.1, z: self.2 }
    }

    fn convert(self) -> (r: Point3<T>)
        ensures
            coordinates3(r) == (self.0, self.1, self.2),
    {
        Point3 { x: self.0, y: self.1, z: self.2 }
    }
}

/// The difference of two points is the vector from `rhs` to `self`, component by component.
impl<T> Sub for Point3<T>
    where T: Sub<Output = T> + Copy
{
    type Output = Vec3<T>;

    fn sub(self, rhs: Self) -> (r: Vec3<T>) {
        Vec3::<T> { dx: self.x - rhs.x, dy: self.y - rhs.y, dz: self.z - rhs.z }
    }
}

impl<T> vstd::std_specs::ops::SubSpecImpl for Point3<T>
    where T: Sub<Output = T> + Copy
{
    open spec fn obeys_sub_spec() -> bool {
        T::obeys_sub_spec()
    }

    open spec fn sub_req(self, rhs: Self) -> bool {
        &&& self.x.sub_req(rhs.x)
        &&& self.y.sub_req(rhs.y)
        &&& self.z.sub_req(rhs.z)
    }

    open spec fn sub_spec(self, rhs: Self) -> Vec3<T> {
        Vec3 { dx: self.x.sub_spec(rhs.x), dy: self.y.sub_spec(rhs.y), dz: self.z.sub_spec(rhs.z) }
    }
}

/// The coordinates `(x, y, z)` of `p`.
pub open spec fn coordinates3<T: Copy>(p: Point3<T>) -> (T, T, T) {
    (p.x, p.y, p.z)
}

/// A segment of space, from `a` to `b`.
#[derive(PartialEq, Eq, Hash, Copy, Clone)]
pub struct Line3<T>
    where T: Copy + Clone
{
    pub a: Point3<T>,
    pub b: Point3<T>,
}

/// The difference `a * b - c * d` computed with `T`'s operators.
pub open spec fn mul_sub<T: Copy + Mul<Output = T> + Sub<Output = T>>(a: T, b: T, c: T, d: T) -> T {
    a.mul_spec(b).sub_spec(c.mul_spec(d))
}

/// `a * b - c * d` can be computed with `T`'s operators.
pub open spec fn mul_sub_req<T: Copy + Mul<Output = T> + Sub<Output = T>>(a: T, b: T, c: T, d: T) -> bool {
    &&& a.mul_req(b)
    &&& c.mul_req(d)
    &&& a.mul_spec(b).sub_req(c.mul_spec(d))
}

/// The `^` of two vectors is their cross product `rhs × self`:
/// `(dz·rhs.dy − dy·rhs.dz, dx·rhs.dz − dz·rhs.dx, dy·rhs.dx − dx·rhs.dy)`.
impl<T> BitXor for Vec3<T>
    where T: Copy + Mul<Output = T> + Sub<Output = T>
{
    type Output = Vec3<T>;

    fn bitxor(self, rhs: Self) -> (r: Vec3<T>) {
        Vec3::<T> {
            dx: self.dz * rhs.dy - self.dy * rhs.dz,
            dy: self.dx * rhs.dz - self.dz * rhs.dx,
            dz: self.dy * rhs.dx - self.dx * rhs.dy,
        }
    }
}

impl<T> vstd::std_specs::ops::BitXorSpecImpl for Vec3<T>
    where T: Copy + Mul<Output = T> + Sub<Output = T>
{
    open spec fn obeys_bitxor_spec() -> bool {
        T::obeys_mul_spec() && T::obeys_sub_spec()
    }

    open spec fn bitxor_req(self, rhs: Self) -> bool {
        &&& T::obeys_mul_spec()
        &&& T::obeys_sub_spec()
        &&& mul_sub_req(self.dz, rhs.dy, self.dy, rhs.dz)
        &&& mul_sub_req(self.dx, rhs.dz, self.dz, rhs.dx)
        &&& mul_sub_req(self.dy, rhs.dx, self.dx, rhs.dy)
    }

    open spec fn bitxor_spec(self, rhs: Self) -> Vec3<T> {
        Vec3 {
            dx: mul_sub(self.dz, rhs.dy, self.dy, rhs.dz),
            dy: mul_sub(self.dx, rhs.dz, self.dz, rhs.dx),
            dz: mul_sub(self.dy, rhs.dx, self.dx, rhs.dy),
        }
    }
}

/// The `*` of two vectors is their dot product `dz·rhs.dz + dy·rhs.dy + dx·rhs.dx`.
impl<T> Mul for Vec3<T>
    where T: Copy + Mul<Output = T> + Add<Output = T>
{
    type Output = T;

    fn mul(self, rhs: Self) -> (r: T) {
        self.dz * rhs.dz + self.dy * rhs.dy + self.dx * rhs.dx
    }
}

impl<T> vstd::std_specs::ops::MulSpecImpl for Vec3<T>
    where T: Copy + Mul<Output = T> + Add<Output = T>
{
    open spec fn obeys_mul_spec() -> bool {
        T::obeys_mul_spec() && T::obeys_add_spec()
    }

    open spec fn mul_req(self, rhs: Self) -> bool {
        let zz = self.dz.mul_spec(rhs.dz);
        let yy = self.dy.mul_spec(rhs.dy);
        let xx = self.dx.mul_spec(rhs.dx);
        &&& T::obeys_mul_spec()
        &&& T::obeys_add_spec()
        &&& self.dz.mul_req(rhs.dz)
        &&& self.dy.mul_req(rhs.dy)
        &&& self.dx.mul_req(rhs.dx)
        &&& zz.add_req(yy)
        &&& zz.add_spec(yy).add_req(xx)
    }

    open spec fn mul_spec(self, rhs: Self) -> T {
        self.dz.mul_spec(rhs.dz).add_spec(self.dy.mul_spec(rhs.dy)).add_spec(self.dx.mul_spec(rhs.dx))
    }
}

/// The `*` of a vector by a scalar multiplies each component by it.
impl<T> Mul<T> for Vec3<T>
    where T: Copy + Mul<Output = T>
{
    type Output = Vec3<T>;

    fn mul(self, f: T) -> (r: Vec3<T>) {
        Vec3::<T> { dx: self.dx * f, dy: self.dy * f, dz: self.dz * f }
    }
}

impl<T> vstd::std_specs::ops::MulSpecImpl<T> for Vec3<T>
    where T: Copy + Mul<Output = T>
{
    open spec fn obeys_mul_spec() -> bool {
        T::obeys_mul_spec()
    }

    open spec fn mul_req(self, f: T) -> bool {
        &&& self.dx.mul_req(f)
        &&& self.dy.mul_req(f)
        &&& self.dz.mul_req(f)
    }

    open spec fn mul_spec(self, f: T) -> Vec3<T> {
        Vec3 { dx: self.dx.mul_spec(f), dy: self.dy.mul_spec(f), dz: self.dz.mul_spec(f) }
    }
}

/// A triangle of space with corners `a`, `b` and `c`.
#[derive(PartialEq, Eq, Hash, Copy, Clone)]
pub struct Triangle3<T>
    where T: Copy + Clone + PartialOrd
{
    pub a: Point3<T>,
    pub b: Point3<T>,
    pub c: Point3<T>,
}

/// The corners `(a, b, c)` of `t`, in order.
pub open spec fn corners3<T: Copy + PartialOrd>(t: Triangle3<T>) -> (Point3<T>, Point3<T>, Point3<T>) {
    (t.a, t.b, t.c)
}

/// `t` with its first two corners exchanged when the first lies strictly above the second
/// (has the greater `y`).
pub open spec fn order3_ab<T: Copy + PartialOrd>(t: Triangle3<T>) -> Triangle3<T> {
    if greater(t.a.y, t.b.y) { Triangle3 { a: t.b, b: t.a, c: t.c } } else { t }
}

/// `t` with its last two corners exchanged when the second lies strictly above the third.
pub open spec fn order3_bc<T: Copy + PartialOrd>(t: Triangle3<T>) -> Triangle3<T> {
    if greater(t.b.y, t.c.y) { Triangle3 { a: t.a, b: t.c, c: t.b } } else { t }
}

/// The triangle that `normalize_by_y` makes of `t`: three compare-and-exchange steps on `y`.
pub open spec fn normalized3_by_y<T: Copy + PartialOrd>(t: Triangle3<T>) -> Triangle3<T> {
    order3_ab(order3_bc(order3_ab(t)))
}

impl<T> Triangle3<T>
    where T: Copy + Clone + PartialOrd + Mul<Output = T>
{
    /// The triangle whose corners are the three arguments, each converted to a point.
    pub fn from<T1, T2, T3>(a_: T1, b_: T2, c_: T3) -> (r: Triangle3<T>)
        where T1: Convert<Point3<T>>, T2: Convert<Point3<T>>, T3: Convert<Point3<T>>
        ensures
            r == (Triangle3 { a: a_.converted(), b: b_.converted(), c: c_.converted() }),
    {
        Triangle3 { a: a_.convert(), b: b_.convert(), c: c_.convert() }
    }

    /// Reorders the corners by `y`, so that after the call `b` lies between `a` and `c`.
    pub fn normalize_by_y(&mut self)
        ensures
            same_corners((final(self).a, final(self).b, final(self).c), (old(self).a, old(self).b, old(self).c)),
            T::obeys_partial_cmp_spec() ==> *final(self) == normalized3_by_y(*old(self)),
    {
        if compares_greater(&self.a.y, &self.b.y) {
            let t = self.a;
            self.a = self.b;
            self.b = t;
        }
        if compares_greater(&self.b.y, &self.c.y) {
            let t = self.b;
            self.b = self.c;
            self.c = t;
        }
        if compares_greater(&self.a.y, &self.b.y) {
            let t = self.a;
            self.a = self.b;
            self.b = t;
        }
    }
}

/// A triple converts to the triangle whose corners are its three members, each converted
/// to a point.
impl<T1, T2, T3, T> Convert<Triangle3<T>> for (T1, T2, T3)
    where T1: Convert<Point3<T>>, T2: Convert<Point3<T>>, T3: Convert<Point3<T>>,
          T: Copy + Clone + PartialOrd + Mul<Output = T>
{
    open spec fn converted(self) -> Triangle3<T> {
        Triangle3 { a: self.0.converted(), b: self.1.converted(), c: self.2.converted() }
    }

    fn convert(self) -> (r: Triangle3<T>)
        ensures
            corners3(r) == (self.0.converted(), self.1.converted(), self.2.converted()),
    {
        Triangle3::from(self.0.convert(), self.1.convert(), self.2.convert())
    }
}

/// After `normalize_by_y`, no corner lies strictly above the next one, for every `T` whose
/// "strictly greater" is asymmetric (for integers: `a.y <= b.y <= c.y`).
pub proof fn lemma_normalized3_by_y_is_sorted<T: Copy + PartialOrd>(t: Triangle3<T>)
    requires
        greater_is_asymmetric::<T>(),
    ensures
        !greater(normalized3_by_y(t).a.y, normalized3_by_y(t).b.y),
        !greater(normalized3_by_y(t).b.y, normalized3_by_y(t).c.y),
{
    let t1 = order3_ab(t);
    let t2 = order3_bc(t1);
    assert(!greater(t1.a.y, t1.b.y)) by {
        if greater(t.a.y, t.b.y) {
            assert(greater(t.a.y, t.b.y) ==> !greater(t.b.y, t.a.y));
        }
    }
    assert(!greater(t2.b.y, t2.c.y)) by {
        if greater(t1.b.y, t1.c.y) {
            assert(greater(t1.b.y, t1.c.y) ==> !greater(t1.c.y, t1.b.y));
        }
    }
    if greater(t2.a.y, t2.b.y) {
        assert(greater(t2.a.y, t2.b.y) ==> !greater(t2.b.y, t2.a.y));
    }
}

/// The triangle `normalized3_by_y` makes has the corners of `t`.
pub proof fn lemma_normalized3_by_y_permutes<T: Copy + PartialOrd>(t: Triangle3<T>)
    ensures
        same_corners(
            (normalized3_by_y(t).a, normalized3_by_y(t).b, normalized3_by_y(t).c),
            (t.a, t.b, t.c),
        ),
{
}

/// Normalizing twice gives what normalizing once gives, for every `T` whose "strictly
/// greater" is asymmetric.
pub proof fn lemma_normalize3_by_y_idempotent<T: Copy + PartialOrd>(t: Triangle3<T>)
    requires
        greater_is_asymmetric::<T>(),
    ensures
        normalized3_by_y(normalized3_by_y(t)) == normalized3_by_y(t),
{
    lemma_normalized3_by_y_is_sorted(t);
}

/// When no two corners are level, the normalized triangle depends only on the corners, not on
/// the order in which they are given, for every `T` whose "strictly greater" is asymmetric and
/// transitive.
pub proof fn lemma_normalize3_by_y_order_independent<T: Copy + PartialOrd>(s: Triangle3<T>, t: Triangle3<T>)
    requires
        greater_is_asymmetric::<T>(),
        greater_is_transitive::<T>(),
        same_corners((s.a, s.b, s.c), (t.a, t.b, t.c)),
        distinct_heights(t.a.y, t.b.y, t.c.y),
    ensures
        normalized3_by_y(s) == normalized3_by_y(t),
{
    lemma_normalized3_by_y_is_sorted(s);
    lemma_normalized3_by_y_is_sorted(t);
    lemma_normalized3_by_y_permutes(s);
    lemma_normalized3_by_y_permutes(t);
    let (p, q, r) = (t.a.y, t.b.y, t.c.y);
    assert(greater(p, q) ==> !greater(q, p));
    assert(greater(q, p) ==> !greater(p, q));
    assert(greater(q, r) ==> !greater(r, q));
    assert(greater(r, q) ==> !greater(q, r));
    assert(greater(p, r) ==> !greater(r, p));
    assert(greater(r, p) ==> !greater(p, r));
}

/// The cross product is orthogonal to both of its operands: for integer vectors `u` and `v`
/// whose products can be computed without overflow, `(u ^ v) * u == 0` and `(u ^ v) * v == 0`.
pub proof fn lemma_cross_is_orthogonal(u: Vec3<i32>, v: Vec3<i32>)
    requires
        u.bitxor_req(v),
        u.bitxor_spec(v).mul_req(u),
        u.bitxor_spec(v).mul_req(v),
    ensures
        u.bitxor_spec(v).mul_spec(u) == 0,
        u.bitxor_spec(v).mul_spec(v) == 0,
{
    let c = u.bitxor_spec(v);
    assert(c.dx == u.dz * v.dy - u.dy * v.dz);
    assert(c.dy == u.dx * v.dz - u.dz * v.dx);
    assert(c.dz == u.dy * v.dx - u.dx * v.dy);
    let (a1, a2, a3) = (u.dx as int, u.dy as int, u.dz as int);
    let (b1, b2, b3) = (v.dx as int, v.dy as int, v.dz as int);
    assert((a3 * b2 - a2 * b3) * a1 + (a1 * b3 - a3 * b1) * a2 + (a2 * b1 - a1 * b2) * a3 == 0)
        by (nonlinear_arith);
    assert((a3 * b2 - a2 * b3) * b1 + (a1 * b3 - a3 * b1) * b2 + (a2 * b1 - a1 * b2) * b3 == 0)
        by (nonlinear_arith);
    assert(c.dz * u.dz + c.dy * u.dy + c.dx * u.dx == 0) by (nonlinear_arith)
        requires
            c.dx == a3 * b2 - a2 * b3,
            c.dy == a1 * b3 - a3 * b1,
            c.dz == a2 * b1 - a1 * b2,
            (a3 * b2 - a2 * b3) * a1 + (a1 * b3 - a3 * b1) * a2 + (a2 * b1 - a1 * b2) * a3 == 0,
            u.dx == a1, u.dy == a2, u.dz == a3;
    assert(c.dz * v.dz + c.dy * v.dy + c.dx * v.dx == 0) by (nonlinear_arith)
        requires
            c.dx == a3 * b2 - a2 * b3,
            c.dy == a1 * b3 - a3 * b1,
            c.dz == a2 * b1 - a1 * b2,
            (a3 * b2 - a2 * b3) * b1 + (a1 * b3 - a3 * b1) * b2 + (a2 * b1 - a1 * b2) * b3 == 0,
            v.dx == b1, v.dy == b2, v.dz == b3;
}

/// `(u ^ v) * w` is the determinant of the matrix whose rows are `v`, `u` and `w` (the scalar
/// triple product `(v × u) · w`), for integer vectors whose products do not overflow.
pub proof fn lemma_cross_dot_is_determinant(u: Vec3<i32>, v: Vec3<i32>, w: Vec3<i32>)
    requires
        u.bitxor_req(v),
        u.bitxor_spec(v).mul_req(w),
    ensures
        u.bitxor_spec(v).mul_spec(w) as int
            == v.dx * (u.dy * w.dz - u.dz * w.dy)
            - v.dy * (u.dx * w.dz - u.dz * w.dx)
            + v.dz * (u.dx * w.dy - u.dy * w.dx),
{
    let c = u.bitxor_spec(v);
    assert(c.dx == u.dz * v.dy - u.dy * v.dz);
    assert(c.dy == u.dx * v.dz - u.dz * v.dx);
    assert(c.dz == u.dy * v.dx - u.dx * v.dy);
    let (a1, a2, a3) = (u.dx as int, u.dy as int, u.dz as int);
    let (b1, b2, b3) = (v.dx as int, v.dy as int, v.dz as int);
    let (e1, e2, e3) = (w.dx as int, w.dy as int, w.dz as int);
    let (c1, c2, c3) = (a3 * b2 - a2 * b3, a1 * b3 - a3 * b1, a2 * b1 - a1 * b2);
    assert(c3 * e3 == a2 * b1 * e3 - a1 * b2 * e3) by (nonlinear_arith)
        requires c3 == a2 * b1 - a1 * b2;
    assert(c2 * e2 == a1 * b3 * e2 - a3 * b1 * e2) by (nonlinear_arith)
        requires c2 == a1 * b3 - a3 * b1;
    assert(c1 * e1 == a3 * b2 * e1 - a2 * b3 * e1) by (nonlinear_arith)
        requires c1 == a3 * b2 - a2 * b3;
    assert(b1 * (a2 * e3 - a3 * e2) == a2 * b1 * e3 - a3 * b1 * e2) by (nonlinear_arith);
    assert(b2 * (a1 * e3 - a3 * e1) == a1 * b2 * e3 - a3 * b2 * e1) by (nonlinear_arith);
    assert(b3 * (a1 * e2 - a2 * e1) == a1 * b3 * e2 - a2 * b3 * e1) by (nonlinear_arith);
    assert(c.dz * w.dz == c3 * e3);
    assert(c.dy * w.dy == c2 * e2);
    assert(c.dx * w.dx == c1 * e1);
}

/// The dot product is symmetric, and a vector's product with itself is the sum of the squares
/// of its components, for integer vectors whose products do not overflow.
pub proof fn lemma_dot_symmetric(u: Vec3<i32>, v: Vec3<i32>)
    requires
        u.mul_req(v),
    ensures
        v.mul_req(u),
        u.mul_spec(v) == v.mul_spec(u),
        u.mul_spec(v) as int == u.dx * v.dx + u.dy * v.dy + u.dz * v.dz,
{
    assert(u.dx * v.dx == v.dx * u.dx) by (nonlinear_arith);
    assert(u.dy * v.dy == v.dy * u.dy) by (nonlinear_arith);
    assert(u.dz * v.dz == v.dz * u.dz) by (nonlinear_arith);
}

} // verus!
