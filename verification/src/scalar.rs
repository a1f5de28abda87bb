//! The numbers that matrices hold.
//!
//! The library never computes with numbers itself. It asks a [`Scalar`] for
//! each sum, product or exponential, and its contracts say which operations
//! were applied to which operands, in which order. Every value is therefore
//! described by a relation: `is_sum(a, b, r)` reads "`r` is a result that
//! `a.plus(b)` can return".
use vstd::prelude::*;

verus! {

/// A number type with the operations that training needs.
///
/// No operation may fail: each one returns a value for all operands.
pub trait Scalar: Copy {
    /// The additive identity.
    fn zero() -> Self;

    /// The multiplicative identity.
    fn one() -> Self;

    /// The number of items `n`, as a scalar.
    fn from_count(n: usize) -> Self;

    /// `self + rhs`.
    fn plus(self, rhs: Self) -> Self;

    /// `self - rhs`.
    fn minus(self, rhs: Self) -> Self;

    /// `self * rhs`.
    fn times(self, rhs: Self) -> Self;

    /// `self / rhs`.
    fn over(self, rhs: Self) -> Self;

    /// `-self`.
    fn negated(self) -> Self;

    /// `e` raised to `self`.
    fn exp(self) -> Self;
}

/// `z` is a value that `T::zero()` can return.
pub open spec fn is_zero<T: Scalar>(z: T) -> bool {
    call_ensures(T::zero, (), z)
}

/// `o` is a value that `T::one()` can return.
pub open spec fn is_one<T: Scalar>(o: T) -> bool {
    call_ensures(T::one, (), o)
}

/// `r` is a value that `T::from_count(n)` can return.
pub open spec fn is_count<T: Scalar>(n: usize, r: T) -> bool {
    call_ensures(T::from_count, (n,), r)
}

/// `r` is a value that `a.plus(b)` can return.
pub open spec fn is_sum<T: Scalar>(a: T, b: T, r: T) -> bool {
    call_ensures(T::plus, (a, b), r)
}

/// `r` is a value that `a.minus(b)` can return.
pub open spec fn is_difference<T: Scalar>(a: T, b: T, r: T) -> bool {
    call_ensures(T::minus, (a, b), r)
}

/// `r` is a value that `a.times(b)` can return.
pub open spec fn is_product<T: Scalar>(a: T, b: T, r: T) -> bool {
    call_ensures(T::times, (a, b), r)
}

/// `r` is a value that `a.over(b)` can return.
pub open spec fn is_quotient<T: Scalar>(a: T, b: T, r: T) -> bool {
    call_ensures(T::over, (a, b), r)
}

/// `r` is a value that `a.negated()` can return.
pub open spec fn is_negation<T: Scalar>(a: T, r: T) -> bool {
    call_ensures(T::negated, (a,), r)
}

/// `r` is a value that `a.exp()` can return.
pub open spec fn is_exponential<T: Scalar>(a: T, r: T) -> bool {
    call_ensures(T::exp, (a,), r)
}

/// `y` is the logistic function of `x`, computed as `1 / (1 + exp(-x))`.
pub open spec fn is_sigmoid<T: Scalar>(x: T, y: T) -> bool {
    exists|n: T, e: T, o: T, d: T| #[trigger]
        sigmoid_steps(x, n, e, o, d, y)
}

/// The intermediate values of one evaluation of the logistic function.
pub open spec fn sigmoid_steps<T: Scalar>(x: T, n: T, e: T, o: T, d: T, y: T) -> bool {
    &&& is_negation(x, n)
    &&& is_exponential(n, e)
    &&& is_one(o)
    &&& is_sum(o, e, d)
    &&& is_quotient(o, d, y)
}

/// `s` is the slope of the logistic function where its value is `a`,
/// computed as `a * (1 - a)`.
pub open spec fn is_slope<T: Scalar>(a: T, s: T) -> bool {
    exists|o: T, c: T| #[trigger] slope_steps(a, o, c, s)
}

/// The intermediate values of one evaluation of the slope.
pub open spec fn slope_steps<T: Scalar>(a: T, o: T, c: T, s: T) -> bool {
    &&& is_one(o)
    &&& is_difference(o, a, c)
    &&& is_product(a, c, s)
}

/// `r` is the dot product of `a` and `b`, summed from index 0 upwards,
/// starting from zero.
pub open spec fn is_dot<T: Scalar>(a: Seq<T>, b: Seq<T>, r: T) -> bool
    recommends
        a.len() == b.len(),
    decreases a.len(),
{
    if a.len() == 0 {
        is_zero(r)
    } else {
        exists|p: T, m: T|
            is_dot(a.drop_last(), b.drop_last(), p) && #[trigger] is_term_added(
                p,
                a.last(),
                b.last(),
                m,
                r,
            )
    }
}

/// One step of a running sum of products: `m` is the product of `x` and
/// `y`, and `r` the sum of `p` and `m`.
pub open spec fn is_term_added<T: Scalar>(p: T, x: T, y: T, m: T, r: T) -> bool {
    is_product(x, y, m) && is_sum(p, m, r)
}

/// `r` is the sum of `p` and the product of `x` and `y`.
pub open spec fn is_product_added<T: Scalar>(p: T, x: T, y: T, r: T) -> bool {
    exists|m: T| #[trigger] is_term_added(p, x, y, m, r)
}

/// `r` is `low + u * (high - low)`: the point of the range from `low` to
/// `high` that the unit draw `u` selects.
pub open spec fn is_scaled<T: Scalar>(u: T, low: T, high: T, r: T) -> bool {
    exists|span: T, part: T| #[trigger] scaled_steps(u, low, high, span, part, r)
}

/// The intermediate values of scaling one unit draw.
pub open spec fn scaled_steps<T: Scalar>(u: T, low: T, high: T, span: T, part: T, r: T) -> bool {
    &&& is_difference(high, low, span)
    &&& is_product(u, span, part)
    &&& is_sum(part, low, r)
}

/// A dot product grows by one term: where `p` is the dot product of the
/// first `k` elements, `m` the product of the elements at `k` and `r` their
/// sum, `r` is the dot product of the first `k + 1` elements.
pub proof fn lemma_dot_extend<T: Scalar>(a: Seq<T>, b: Seq<T>, k: int, p: T, m: T, r: T)
    requires
        0 <= k < a.len(),
        k < b.len(),
        is_dot(a.take(k), b.take(k), p),
        is_product(a[k], b[k], m),
        is_sum(p, m, r),
    ensures
        is_dot(a.take(k + 1), b.take(k + 1), r),
{
    assert(a.take(k + 1).drop_last() =~= a.take(k));
    assert(b.take(k + 1).drop_last() =~= b.take(k));
    assert(is_term_added(p, a.take(k + 1).last(), b.take(k + 1).last(), m, r));
}

/// Maps a unit draw `u` into the range from `low` to `high`.
pub fn scale<T: Scalar>(u: T, low: T, high: T) -> (r: T)
    ensures
        is_scaled(u, low, high, r),
{
    let span = high.minus(low);
    let part = u.times(span);
    let r = part.plus(low);
    assert(scaled_steps(u, low, high, span, part, r));
    r
}

/// The logistic function `1 / (1 + exp(-x))`.
pub fn sigmoid<T: Scalar>(x: T) -> (y: T)
    ensures
        is_sigmoid(x, y),
{
    let n = x.negated();
    let e = n.exp();
    let o = T::one();
    let d = o.plus(e);
    let y = o.over(d);
    assert(sigmoid_steps(x, n, e, o, d, y));
    y
}

/// The slope of the logistic function at the point where its value is `a`.
pub fn sigmoid_slope<T: Scalar>(a: T) -> (s: T)
    ensures
        is_slope(a, s),
{
    let o = T::one();
    let c = o.minus(a);
    let s = a.times(c);
    assert(slope_steps(a, o, c, s));
    s
}

} // verus!
