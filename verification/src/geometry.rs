use vstd::prelude::*;
use std::cmp::Ordering;
use vstd::std_specs::cmp::PartialOrdSpec;

verus! {

/// `true` when `a` compares strictly greater than `b` under `T`'s ordering.
pub open spec fn greater<T: PartialOrd>(a: T, b: T) -> bool {
    a.partial_cmp_spec(&b) == Some(Ordering::Greater)
}

/// `true` when `a` compares strictly less than `b` under `T`'s ordering.
pub open spec fn less<T: PartialOrd>(a: T, b: T) -> bool {
    a.partial_cmp_spec(&b) == Some(Ordering::Less)
}

/// `T`'s comparison answers as `partial_cmp_spec` says (true of the integer types).
pub open spec fn order_specified<T: PartialOrd>() -> bool {
    T::obeys_partial_cmp_spec()
}

/// `T`'s "strictly greater" is asymmetric: no two values are each greater than the other.
pub open spec fn greater_is_asymmetric<T: PartialOrd>() -> bool {
    forall|a: T, b: T| #[trigger] greater(a, b) ==> !greater(b, a)
}

/// Whether `a.partial_cmp(&b)` answers `Some(Greater)`.
pub(crate) fn compares_greater<T: PartialOrd>(a: &T, b: &T) -> (r: bool)
    ensures
        T::obeys_partial_cmp_spec() ==> r == greater(*a, *b),
{
    match a.partial_cmp(b) {
        Some(Ordering::Greater) => true,
        _ => false,
    }
}

/// `T`'s "strictly greater" is transitive.
pub open spec fn greater_is_transitive<T: PartialOrd>() -> bool {
    forall|a: T, b: T, c: T| #[trigger] greater(a, b) && #[trigger] greater(b, c) ==> greater(a, c)
}

/// No two of `p`, `q` and `r` are level: of each pair, one lies strictly above the other.
pub open spec fn distinct_heights<T: PartialOrd>(p: T, q: T, r: T) -> bool {
    &&& greater(p, q) || greater(q, p)
    &&& greater(q, r) || greater(r, q)
    &&& greater(p, r) || greater(r, p)
}

/// The larger of two values: `a` when it compares greater than `b`, `b` otherwise
/// (also when the two cannot be compared).
pub fn mx<T>(a: T, b: T) -> (r: T)
    where T: Copy + Clone + PartialOrd
    ensures
        r == a || r == b,
        T::obeys_partial_cmp_spec() ==> r == (if greater(a, b) { a } else { b }),
{
    if compares_greater(&a, &b) { a } else { b }
}

/// The smaller of two values: `a` when it compares less than `b`, `b` otherwise
/// (also when the two cannot be compared).
pub fn mn<T>(a: T, b: T) -> (r: T)
    where T: Copy + Clone + PartialOrd
    ensures
        r == a || r == b,
        T::obeys_partial_cmp_spec() ==> r == (if less(a, b) { a } else { b }),
{
    match a.partial_cmp(&b) {
        Some(Ordering::Less) => a,
        _ => b,
    }
}

/// `mn` and `mx` split a pair: when one value compares below the other, `mn` gives the
/// smaller and `mx` the larger, and neither lies above the other; when neither compares below
/// the other, both give the second value. This holds for every `T` whose "less" is the
/// converse of its "greater" and whose "greater" is asymmetric.
pub proof fn lemma_mn_mx_split<T: PartialOrd>(a: T, b: T)
    requires
        forall|x: T, y: T| #[trigger] less(x, y) <==> greater(y, x),
        greater_is_asymmetric::<T>(),
    ensures
        ({
            let lo = if less(a, b) { a } else { b };
            let hi = if greater(a, b) { a } else { b };
            &&& (less(a, b) || greater(a, b)) ==> (lo, hi) == (a, b) || (lo, hi) == (b, a)
            &&& !(less(a, b) || greater(a, b)) ==> lo == b && hi == b
            &&& !greater(lo, hi)
        }),
{
    assert(less(a, b) <==> greater(b, a));
    assert(greater(a, b) ==> !greater(b, a));
    assert(greater(b, a) ==> !greater(a, b));
    assert(greater(b, b) ==> !greater(b, b));
}

/// A point of the plane.
#[derive(PartialEq, Eq, Hash, Copy, Clone)]
pub struct Point<T>
    where T: Copy + Clone
{
    pub x: T,
    pub y: T,
}

/// The coordinates `(x, y)` of `p`.
pub open spec fn coordinates<T: Copy>(p: Point<T>) -> (T, T) {
    (p.x, p.y)
}

/// A segment of the plane, from `a` to `b`.
#[derive(PartialEq, Eq, Hash, Copy, Clone)]
pub struct Line<T>
    where T: Copy + Clone
{
    pub a: Point<T>,
    pub b: Point<T>,
}

/// Conversion of a value into a `T`; `converted` says what the conversion gives.
pub trait Convert<T>: Sized {
    spec fn converted(self) -> T;

    fn convert(self) -> (r: T)
        ensures
            r == self.converted(),
    ;
}

/// Every value converts to its own type unchanged.
impl<T> Convert<T> for T {
    open spec fn converted(self) -> T {
        self
    }

    fn convert(self) -> (r: T) {
        self
    }
}

/// An `i32` converts to a `usize` as the cast `as usize` does (a negative value wraps around).
impl Convert<usize> for i32 {
    open spec fn converted(self) -> usize {
        self as usize
    }

    fn convert(self) -> (r: usize) {
        self as usize
    }
}

/// A pair `(x, y)` converts to the point with these coordinates.
impl<T> Convert<Point<T>> for (T, T)
    where T: Copy + Clone
{
    open spec fn converted(self) -> Point<T> {
        Point { x: self.0, y: self.1 }
    }

    fn convert(self) -> (r: Point<T>)
        ensures
            coordinates(r) == (self.0, self.1),
    {
        Point { x: self.0, y: self.1 }
    }
}

/// A triangle of the plane with corners `a`, `b` and `c`.
#[derive(PartialEq, Eq, Hash, Copy, Clone)]
pub struct Triangle<T>
    where T: Copy + Clone + PartialOrd
{
    pub a: Point<T>,
    pub b: Point<T>,
    pub c: Point<T>,
}

/// The corners `(a, b, c)` of `t`, in order.
pub open spec fn corners<T: Copy + PartialOrd>(t: Triangle<T>) -> (Point<T>, Point<T>, Point<T>) {
    (t.a, t.b, t.c)
}

/// `t` with its first two corners exchanged when the first lies strictly above the second
/// (has the greater `y`).
pub open spec fn order_ab<T: Copy + PartialOrd>(t: Triangle<T>) -> Triangle<T> {
    if greater(t.a.y, t.b.y) { Triangle { a: t.b, b: t.a, c: t.c } } else { t }
}

/// `t` with its last two corners exchanged when the second lies strictly above the third.
pub open spec fn order_bc<T: Copy + PartialOrd>(t: Triangle<T>) -> Triangle<T> {
    if greater(t.b.y, t.c.y) { Triangle { a: t.a, b: t.c, c: t.b } } else { t }
}

/// The triangle that `normalize_by_y` makes of `t`: three compare-and-exchange steps on `y`.
pub open spec fn normalized_by_y<T: Copy + PartialOrd>(t: Triangle<T>) -> Triangle<T> {
    order_ab(order_bc(order_ab(t)))
}

/// `s` has the corners of `t`, in some order.
pub open spec fn same_corners<P>(s: (P, P, P), t: (P, P, P)) -> bool {
    ||| s == (t.0, t.1, t.2)
    ||| s == (t.0, t.2, t.1)
    ||| s == (t.1, t.0, t.2)
    ||| s == (t.1, t.2, t.0)
    ||| s == (t.2, t.0, t.1)
    ||| s == (t.2, t.1, t.0)
}

impl<T> Triangle<T>
    where T: Copy + Clone + PartialOrd
{
    /// The triangle whose corners are the three arguments, each converted to a point.
    pub fn from<T1, T2, T3>(a_: T1, b_: T2, c_: T3) -> (r: Triangle<T>)
        where T1: Convert<Point<T>>, T2: Convert<Point<T>>, T3: Convert<Point<T>>
        ensures
            r == (Triangle { a: a_.converted(), b: b_.converted(), c: c_.converted() }),
    {
        Triangle { a: a_.convert(), b: b_.convert(), c: c_.convert() }
    }

    /// Reorders the corners by `y`, so that after the call `b` lies between `a` and `c`.
    pub fn normalize_by_y(&mut self)
        ensures
            same_corners((final(self).a, final(self).b, final(self).c), (old(self).a, old(self).b, old(self).c)),
            T::obeys_partial_cmp_spec() ==> *final(self) == normalized_by_y(*old(self)),
    {
        if compares_greater(&self.a.y, &self.b.y) {
            let t = self.a;
            self.a = self.b;
            self.b = t;
        }
        if compares_greater(&self.b.y, &self.c.y) {
            let t = self.b;
            self.b = self.c;
            self.c = t;
        }
        if compares_greater(&self.a.y, &self.b.y) {
            let t = self.a;
            self.a = self.b;
            self.b = t;
        }
    }
}

/// A triple converts to the triangle whose corners are its three members, each converted
/// to a point.
impl<T1, T2, T3, T> Convert<Triangle<T>> for (T1, T2, T3)
    where T1: Convert<Point<T>>, T2: Convert<Point<T>>, T3: Convert<Point<T>>, T: Copy + Clone + PartialOrd
{
    open spec fn converted(self) -> Triangle<T> {
        Triangle { a: self.0.converted(), b: self.1.converted(), c: self.2.converted() }
    }

    fn convert(self) -> (r: Triangle<T>)
        ensures
            corners(r) == (self.0.converted(), self.1.converted(), self.2.converted()),
    {
        Triangle::from(self.0.convert(), self.1.convert(), self.2.convert())
    }
}

/// After `normalize_by_y`, no corner lies strictly above the next one, for every `T` whose
/// "strictly greater" is asymmetric (for integers: `a.y <= b.y <= c.y`).
pub proof fn lemma_normalized_by_y_is_sorted<T: Copy + PartialOrd>(t: Triangle<T>)
    requires
        greater_is_asymmetric::<T>(),
    ensures
        !greater(normalized_by_y(t).a.y, normalized_by_y(t).b.y),
        !greater(normalized_by_y(t).b.y, normalized_by_y(t).c.y),
{
    let t1 = order_ab(t);
    let t2 = order_bc(t1);
    assert(!greater(t1.a.y, t1.b.y)) by {
        if greater(t.a.y, t.b.y) {
            assert(greater(t.a.y, t.b.y) ==> !greater(t.b.y, t.a.y));
        }
    }
    assert(!greater(t2.b.y, t2.c.y)) by {
        if greater(t1.b.y, t1.c.y) {
            assert(greater(t1.b.y, t1.c.y) ==> !greater(t1.c.y, t1.b.y));
        }
    }
    if greater(t2.a.y, t2.b.y) {
        assert(greater(t2.a.y, t2.b.y) ==> !greater(t2.b.y, t2.a.y));
    }
}

/// The triangle `normalized_by_y` makes has the corners of `t`.
pub proof fn lemma_normalized_by_y_permutes<T: Copy + PartialOrd>(t: Triangle<T>)
    ensures
        same_corners(
            (normalized_by_y(t).a, normalized_by_y(t).b, normalized_by_y(t).c),
            (t.a, t.b, t.c),
        ),
{
}

/// Normalizing twice gives what normalizing once gives, for every `T` whose "strictly
/// greater" is asymmetric.
pub proof fn lemma_normalize_by_y_idempotent<T: Copy + PartialOrd>(t: Triangle<T>)
    requires
        greater_is_asymmetric::<T>(),
    ensures
        normalized_by_y(normalized_by_y(t)) == normalized_by_y(t),
{
    lemma_normalized_by_y_is_sorted(t);
}

/// When no two corners are level, the normalized triangle depends only on the corners, not on
/// the order in which they are given, for every `T` whose "strictly greater" is asymmetric and
/// transitive.
pub proof fn lemma_normalize_by_y_order_independent<T: Copy + PartialOrd>(s: Triangle<T>, t: Triangle<T>)
    requires
        greater_is_asymmetric::<T>(),
        greater_is_transitive::<T>(),
        same_corners((s.a, s.b, s.c), (t.a, t.b, t.c)),
        distinct_heights(t.a.y, t.b.y, t.c.y),
    ensures
        normalized_by_y(s) == normalized_by_y(t),
{
    lemma_normalized_by_y_is_sorted(s);
    lemma_normalized_by_y_is_sorted(t);
    lemma_normalized_by_y_permutes(s);
    lemma_normalized_by_y_permutes(t);
    let (p, q, r) = (t.a.y, t.b.y, t.c.y);
    assert(greater(p, q) ==> !greater(q, p));
    assert(greater(q, p) ==> !greater(p, q));
    assert(greater(q, r) ==> !greater(r, q));
    assert(greater(r, q) ==> !greater(q, r));
    assert(greater(p, r) ==> !greater(r, p));
    assert(greater(r, p) ==> !greater(p, r));
}

} // verus!
