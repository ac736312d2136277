//! Sums over a commutative semiring, and the rearrangements of them that
//! the laws of matrix products rest on.

use vstd::prelude::*;
use crate::matrix::dot_prefix;

verus! {

/// `plus` and `times` are associative and commutative, `zero` is the identity
/// of `plus` and absorbs under `times`, and `times` distributes over `plus`.
#[verifier::opaque]
pub open spec fn is_commutative_semiring<T>(
    zero: T,
    plus: spec_fn(T, T) -> T,
    times: spec_fn(T, T) -> T,
) -> bool {
    &&& forall|x: T, y: T, z: T|
        #[trigger] plus(plus(x, y), z) == plus(x, plus(y, z))
    &&& forall|x: T, y: T| #[trigger] plus(x, y) == plus(y, x)
    &&& forall|x: T| #[trigger] plus(zero, x) == x
    &&& forall|x: T, y: T, z: T|
        #[trigger] times(times(x, y), z) == times(x, times(y, z))
    &&& forall|x: T, y: T| #[trigger] times(x, y) == times(y, x)
    &&& forall|x: T| #[trigger] times(zero, x) == zero
    &&& forall|x: T, y: T, z: T|
        #[trigger] times(x, plus(y, z)) == plus(times(x, y), times(x, z))
}

/// `(x + y) + z = x + (y + z)`.
pub(crate) proof fn add_assoc<T>(zero: T, plus: spec_fn(T, T) -> T, times: spec_fn(T, T) -> T, x: T, y: T, z: T)
    requires
        is_commutative_semiring(zero, plus, times),
    ensures
        plus(plus(x, y), z) == plus(x, plus(y, z)),
{
    reveal(is_commutative_semiring);
}

/// `x + y = y + x`.
pub(crate) proof fn add_comm<T>(zero: T, plus: spec_fn(T, T) -> T, times: spec_fn(T, T) -> T, x: T, y: T)
    requires
        is_commutative_semiring(zero, plus, times),
    ensures
        plus(x, y) == plus(y, x),
{
    reveal(is_commutative_semiring);
}

/// `0 + x = x = x + 0`.
pub(crate) proof fn add_zero<T>(zero: T, plus: spec_fn(T, T) -> T, times: spec_fn(T, T) -> T, x: T)
    requires
        is_commutative_semiring(zero, plus, times),
    ensures
        plus(zero, x) == x,
        plus(x, zero) == x,
{
    reveal(is_commutative_semiring);
    assert(plus(x, zero) == plus(zero, x));
}

/// `(x y) z = x (y z)`.
pub(crate) proof fn mul_assoc<T>(zero: T, plus: spec_fn(T, T) -> T, times: spec_fn(T, T) -> T, x: T, y: T, z: T)
    requires
        is_commutative_semiring(zero, plus, times),
    ensures
        times(times(x, y), z) == times(x, times(y, z)),
{
    reveal(is_commutative_semiring);
}

/// `x y = y x`.
pub(crate) proof fn mul_comm<T>(zero: T, plus: spec_fn(T, T) -> T, times: spec_fn(T, T) -> T, x: T, y: T)
    requires
        is_commutative_semiring(zero, plus, times),
    ensures
        times(x, y) == times(y, x),
{
    reveal(is_commutative_semiring);
}

/// `0 x = 0 = x 0`.
pub(crate) proof fn mul_zero<T>(zero: T, plus: spec_fn(T, T) -> T, times: spec_fn(T, T) -> T, x: T)
    requires
        is_commutative_semiring(zero, plus, times),
    ensures
        times(zero, x) == zero,
        times(x, zero) == zero,
{
    reveal(is_commutative_semiring);
    assert(times(x, zero) == times(zero, x));
}

/// `x (y + z) = x y + x z`.
pub(crate) proof fn mul_distrib<T>(zero: T, plus: spec_fn(T, T) -> T, times: spec_fn(T, T) -> T, x: T, y: T, z: T)
    requires
        is_commutative_semiring(zero, plus, times),
    ensures
        times(x, plus(y, z)) == plus(times(x, y), times(x, z)),
{
    reveal(is_commutative_semiring);
}

/// `f(0) + f(1) + ... + f(k - 1)`, added up from the left starting at `zero`.
pub open spec fn sum_of<T>(f: spec_fn(int) -> T, k: int, zero: T, plus: spec_fn(T, T) -> T) -> T
    decreases k,
{
    if k <= 0 {
        zero
    } else {
        plus(sum_of(f, k - 1, zero, plus), f(k - 1))
    }
}

/// A row times a column is the sum of the products of their entries.
pub proof fn lemma_dot_is_sum<T>(
    u: Seq<T>,
    v: Seq<T>,
    k: int,
    zero: T,
    plus: spec_fn(T, T) -> T,
    times: spec_fn(T, T) -> T,
)
    ensures
        dot_prefix(u, v, k, zero, plus, times) == sum_of(|j: int| times(u[j], v[j]), k, zero, plus),
    decreases k,
{
    if k > 0 {
        lemma_dot_is_sum(u, v, k - 1, zero, plus, times);
    }
}

/// Sums of terms that agree are equal.
pub proof fn lemma_sum_congruent<T>(
    f: spec_fn(int) -> T,
    g: spec_fn(int) -> T,
    k: int,
    zero: T,
    plus: spec_fn(T, T) -> T,
)
    requires
        forall|j: int| 0 <= j < k ==> #[trigger] f(j) == g(j),
    ensures
        sum_of(f, k, zero, plus) == sum_of(g, k, zero, plus),
    decreases k,
{
    if k > 0 {
        lemma_sum_congruent(f, g, k - 1, zero, plus);
    }
}

/// A sum over `a + b` terms is the sum of the first `a` plus the sum of the
/// following `b`.
pub proof fn lemma_sum_split<T>(
    f: spec_fn(int) -> T,
    a: int,
    b: int,
    zero: T,
    plus: spec_fn(T, T) -> T,
    times: spec_fn(T, T) -> T,
)
    requires
        0 <= a,
        0 <= b,
        is_commutative_semiring(zero, plus, times),
    ensures
        sum_of(f, a + b, zero, plus) == plus(sum_of(f, a, zero, plus), sum_of(|y: int| f(a + y), b, zero, plus)),
    decreases b,
{
    let g = |y: int| f(a + y);
    if b == 0 {
        add_zero(zero, plus, times, sum_of(f, a, zero, plus));
    } else {
        lemma_sum_split(f, a, b - 1, zero, plus, times);
        let sa = sum_of(f, a, zero, plus);
        let tb = sum_of(g, b - 1, zero, plus);
        add_assoc(zero, plus, times, sa, tb, f(a + b - 1));
        assert(g(b - 1) == f(a + b - 1));
    }
}

/// A sum over `n * q` terms, taken in blocks of `q`, is the sum of the block sums.
pub proof fn lemma_sum_flatten<T>(
    g: spec_fn(int) -> T,
    n: int,
    q: int,
    zero: T,
    plus: spec_fn(T, T) -> T,
    times: spec_fn(T, T) -> T,
)
    requires
        0 <= n,
        0 <= q,
        is_commutative_semiring(zero, plus, times),
    ensures
        sum_of(g, n * q, zero, plus) == sum_of(
            |x: int| sum_of(|y: int| g(x * q + y), q, zero, plus),
            n,
            zero,
            plus,
        ),
    decreases n,
{
    let h = |x: int| sum_of(|y: int| g(x * q + y), q, zero, plus);
    if n == 0 {
        assert(n * q == 0);
    } else {
        lemma_sum_flatten(g, n - 1, q, zero, plus, times);
        assert(n * q == (n - 1) * q + q) by (nonlinear_arith);
        assert((n - 1) * q >= 0) by (nonlinear_arith)
            requires
                n >= 1,
                q >= 0,
        ;
        lemma_sum_split(g, (n - 1) * q, q, zero, plus, times);
        let blk = |y: int| g((n - 1) * q + y);
        assert(sum_of(g, (n - 1) * q, zero, plus) == sum_of(h, n - 1, zero, plus));
        assert(h(n - 1) == sum_of(blk, q, zero, plus));
        assert(sum_of(g, n * q, zero, plus) == plus(sum_of(h, n - 1, zero, plus), h(n - 1)));
        assert(sum_of(h, n, zero, plus) == plus(sum_of(h, n - 1, zero, plus), h(n - 1)));
    }
}

/// `c * (f(0) + ... + f(k - 1)) = c * f(0) + ... + c * f(k - 1)`.
pub proof fn lemma_mul_sum_left<T>(
    c: T,
    f: spec_fn(int) -> T,
    k: int,
    zero: T,
    plus: spec_fn(T, T) -> T,
    times: spec_fn(T, T) -> T,
)
    requires
        is_commutative_semiring(zero, plus, times),
    ensures
        times(c, sum_of(f, k, zero, plus)) == sum_of(|j: int| times(c, f(j)), k, zero, plus),
    decreases k,
{
    if k <= 0 {
        mul_zero(zero, plus, times, c);
    } else {
        lemma_mul_sum_left(c, f, k - 1, zero, plus, times);
        let s = sum_of(f, k - 1, zero, plus);
        mul_distrib(zero, plus, times, c, s, f(k - 1));
    }
}

/// `(u(0) + ... + u(n - 1)) * (v(0) + ... + v(q - 1))` is the sum over `x`
/// of the sums over `y` of `u(x) * v(y)`.
pub proof fn lemma_product_of_sums<T>(
    u: spec_fn(int) -> T,
    v: spec_fn(int) -> T,
    n: int,
    q: int,
    zero: T,
    plus: spec_fn(T, T) -> T,
    times: spec_fn(T, T) -> T,
)
    requires
        is_commutative_semiring(zero, plus, times),
    ensures
        times(sum_of(u, n, zero, plus), sum_of(v, q, zero, plus)) == sum_of(
            |x: int| sum_of(|y: int| times(u(x), v(y)), q, zero, plus),
            n,
            zero,
            plus,
        ),
{
    let sv = sum_of(v, q, zero, plus);
    let su = sum_of(u, n, zero, plus);
    mul_comm(zero, plus, times, su, sv);
    lemma_mul_sum_left(sv, u, n, zero, plus, times);
    let f1 = |x: int| times(sv, u(x));
    let f2 = |x: int| sum_of(|y: int| times(u(x), v(y)), q, zero, plus);
    assert forall|x: int| 0 <= x < n implies #[trigger] f1(x) == f2(x) by {
        mul_comm(zero, plus, times, sv, u(x));
        lemma_mul_sum_left(u(x), v, q, zero, plus, times);
    }
    lemma_sum_congruent(f1, f2, n, zero, plus);
}

/// `(a b)(c d) = (a c)(b d)`.
pub proof fn lemma_mul_interchange<T>(
    a: T,
    b: T,
    c: T,
    d: T,
    zero: T,
    plus: spec_fn(T, T) -> T,
    times: spec_fn(T, T) -> T,
)
    requires
        is_commutative_semiring(zero, plus, times),
    ensures
        times(times(a, b), times(c, d)) == times(times(a, c), times(b, d)),
{
    let ab = times(a, b);
    let cd = times(c, d);
    // (a b)(c d) = a (b (c d)) = a ((b c) d) = a ((c b) d) = a (c (b d)) = (a c)(b d)
    mul_assoc(zero, plus, times, a, b, cd);
    mul_assoc(zero, plus, times, b, c, d);
    mul_comm(zero, plus, times, b, c);
    mul_assoc(zero, plus, times, c, b, d);
    mul_assoc(zero, plus, times, a, c, times(b, d));
}

/// `(y + z) x = y x + z x`.
pub(crate) proof fn mul_distrib_right<T>(
    zero: T,
    plus: spec_fn(T, T) -> T,
    times: spec_fn(T, T) -> T,
    x: T,
    y: T,
    z: T,
)
    requires
        is_commutative_semiring(zero, plus, times),
    ensures
        times(plus(y, z), x) == plus(times(y, x), times(z, x)),
{
    mul_comm(zero, plus, times, plus(y, z), x);
    mul_distrib(zero, plus, times, x, y, z);
    mul_comm(zero, plus, times, x, y);
    mul_comm(zero, plus, times, x, z);
}

/// A sum of terms that are all `zero` is `zero`.
pub proof fn lemma_sum_zeros<T>(
    f: spec_fn(int) -> T,
    k: int,
    zero: T,
    plus: spec_fn(T, T) -> T,
    times: spec_fn(T, T) -> T,
)
    requires
        is_commutative_semiring(zero, plus, times),
        forall|j: int| 0 <= j < k ==> #[trigger] f(j) == zero,
    ensures
        sum_of(f, k, zero, plus) == zero,
    decreases k,
{
    if k > 0 {
        lemma_sum_zeros(f, k - 1, zero, plus, times);
        add_zero(zero, plus, times, zero);
    }
}

/// Adding `delta` to one term of a sum adds `delta` to the sum.
pub proof fn lemma_sum_update<T>(
    f: spec_fn(int) -> T,
    g: spec_fn(int) -> T,
    k: int,
    j: int,
    delta: T,
    zero: T,
    plus: spec_fn(T, T) -> T,
    times: spec_fn(T, T) -> T,
)
    requires
        is_commutative_semiring(zero, plus, times),
        0 <= j < k,
        g(j) == plus(f(j), delta),
        forall|i: int| 0 <= i < k && i != j ==> #[trigger] g(i) == f(i),
    ensures
        sum_of(g, k, zero, plus) == plus(sum_of(f, k, zero, plus), delta),
    decreases k,
{
    let sf = sum_of(f, k - 1, zero, plus);
    if j == k - 1 {
        lemma_sum_congruent(g, f, k - 1, zero, plus);
        add_assoc(zero, plus, times, sf, f(j), delta);
    } else {
        lemma_sum_update(f, g, k - 1, j, delta, zero, plus, times);
        add_assoc(zero, plus, times, sf, delta, f(k - 1));
        add_comm(zero, plus, times, delta, f(k - 1));
        add_assoc(zero, plus, times, sf, f(k - 1), delta);
    }
}

} // verus!
