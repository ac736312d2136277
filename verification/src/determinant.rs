//! Determinants, by expansion along the first row.

use vstd::prelude::*;
use crate::algebra::{is_commutative_semiring, sum_of, lemma_sum_congruent, lemma_mul_sum_left, mul_assoc, mul_comm};
use crate::structured::power_of;

verus! {

/// The `(n - 1) x (n - 1)` matrix left when row 0 and column `j` are taken
/// out of the `n x n` matrix `m` (for `n > 0`).
pub open spec fn minor_of<T>(m: Seq<Seq<T>>, n: nat, j: int) -> Seq<Seq<T>> {
    Seq::new(
        (n - 1) as nat,
        |r: int| Seq::new((n - 1) as nat, |c: int| if c < j { m[r + 1][c] } else { m[r + 1][c + 1] }),
    )
}

/// The terms of the expansion of the determinant of the `n x n` matrix `m`
/// along its first row: term `j` is `minus_one^j * m[0][j] * det(minor_of(m, n, j))`.
pub open spec fn expansion_terms<T>(
    m: Seq<Seq<T>>,
    n: nat,
    zero: T,
    one: T,
    minus_one: T,
    plus: spec_fn(T, T) -> T,
    times: spec_fn(T, T) -> T,
) -> spec_fn(int) -> T
    decreases n, 0int,
{
    |j: int|
        times(
            times(power_of(minus_one, j as nat, one, times), m[0][j]),
            if n > 0 {
                det_of(minor_of(m, n, j), (n - 1) as nat, zero, one, minus_one, plus, times)
            } else {
                one
            },
        )
}

/// The determinant of the `n x n` matrix `m`, expanded along the first row,
/// with the signs the powers of `minus_one`: over a commutative ring, with
/// `minus_one` the negative of `one`, this is the determinant.
pub open spec fn det_of<T>(
    m: Seq<Seq<T>>,
    n: nat,
    zero: T,
    one: T,
    minus_one: T,
    plus: spec_fn(T, T) -> T,
    times: spec_fn(T, T) -> T,
) -> T
    decreases n, 1int,
{
    if n == 0 {
        one
    } else {
        sum_of(expansion_terms(m, n, zero, one, minus_one, plus, times), n as int, zero, plus)
    }
}

/// The `n x n` matrix `m` with every entry multiplied by `c` on the left.
pub open spec fn scaled_of<T>(c: T, m: Seq<Seq<T>>, n: nat, times: spec_fn(T, T) -> T) -> Seq<Seq<T>> {
    Seq::new(n, |r: int| Seq::new(n, |k: int| times(c, m[r][k])))
}

/// `(s (c a)) (P D) = (P c) ((s a) D)`.
proof fn lemma_rearrange<T>(zero: T, plus: spec_fn(T, T) -> T, times: spec_fn(T, T) -> T, s: T, c: T, a: T, p: T, d: T)
    requires
        is_commutative_semiring(zero, plus, times),
    ensures
        times(times(s, times(c, a)), times(p, d)) == times(times(p, c), times(times(s, a), d)),
{
    // s (c a) = c (s a)
    mul_assoc(zero, plus, times, s, c, a);
    mul_comm(zero, plus, times, s, c);
    mul_assoc(zero, plus, times, c, s, a);
    let sa = times(s, a);
    // (c sa)(p d) = c (sa (p d)) = c ((sa p) d) = c ((p sa) d) = c (p (sa d)) = (c p)(sa d) = (p c)(sa d)
    mul_assoc(zero, plus, times, c, sa, times(p, d));
    mul_assoc(zero, plus, times, sa, p, d);
    mul_comm(zero, plus, times, sa, p);
    mul_assoc(zero, plus, times, p, sa, d);
    mul_assoc(zero, plus, times, c, p, times(sa, d));
    mul_comm(zero, plus, times, c, p);
}

/// Multiplying every entry of an `n x n` matrix by `c` multiplies its
/// determinant by `c^n`, whenever the entries form a commutative semiring
/// with `one` as the identity of `times`.
pub proof fn lemma_det_scaled<T>(
    c: T,
    m: Seq<Seq<T>>,
    n: nat,
    zero: T,
    one: T,
    minus_one: T,
    plus: spec_fn(T, T) -> T,
    times: spec_fn(T, T) -> T,
)
    requires
        is_commutative_semiring(zero, plus, times),
        forall|x: T| #[trigger] times(one, x) == x,
    ensures
        det_of(scaled_of(c, m, n, times), n, zero, one, minus_one, plus, times) == times(
            power_of(c, n, one, times),
            det_of(m, n, zero, one, minus_one, plus, times),
        ),
    decreases n,
{
    if n == 0 {
        assert(times(one, one) == one);
    } else {
        let n1 = (n - 1) as nat;
        let cn = power_of(c, n, one, times);
        let p = power_of(c, n1, one, times);
        let sm = scaled_of(c, m, n, times);
        let t = expansion_terms(m, n, zero, one, minus_one, plus, times);
        let ts = expansion_terms(sm, n, zero, one, minus_one, plus, times);
        let g = |j: int| times(cn, t(j));
        assert forall|j: int| 0 <= j < n implies #[trigger] ts(j) == g(j) by {
            let mj = minor_of(m, n, j);
            assert(minor_of(sm, n, j) =~~= scaled_of(c, mj, n1, times));
            lemma_det_scaled(c, mj, n1, zero, one, minus_one, plus, times);
            let s = power_of(minus_one, j as nat, one, times);
            lemma_rearrange(zero, plus, times, s, c, m[0][j], p, det_of(mj, n1, zero, one, minus_one, plus, times));
        }
        lemma_sum_congruent(ts, g, n as int, zero, plus);
        lemma_mul_sum_left(cn, t, n as int, zero, plus, times);
    }
}

/// The determinant of the `1 x 1` matrix `a` is its entry.
pub proof fn lemma_det_single<T>(
    a: Seq<Seq<T>>,
    zero: T,
    one: T,
    minus_one: T,
    plus: spec_fn(T, T) -> T,
    times: spec_fn(T, T) -> T,
)
    requires
        is_commutative_semiring(zero, plus, times),
        forall|x: T| #[trigger] times(one, x) == x,
    ensures
        det_of(a, 1, zero, one, minus_one, plus, times) == a[0][0],
{
    reveal(is_commutative_semiring);
    let t = expansion_terms(a, 1, zero, one, minus_one, plus, times);
    assert(det_of(minor_of(a, 1, 0), 0, zero, one, minus_one, plus, times) == one);
    assert(power_of(minus_one, 0, one, times) == one);
    assert(t(0) == times(times(one, a[0][0]), one));
    assert(times(a[0][0], one) == times(one, a[0][0]));
    assert(sum_of(t, 0, zero, plus) == zero);
    assert(sum_of(t, 1, zero, plus) == plus(zero, t(0)));
}

} // verus!
