//! Quantities read off a matrix.

use vstd::prelude::*;
use crate::matrix::{Matrix, is_binary_op, is_matrix, realized2, call2, op_of, computes, lemma_computed, transpose_of};
use crate::algebra::{sum_of, lemma_sum_congruent};

verus! {

/// The first `k` diagonal entries `m[0][0], m[1][1], ...` added up from the
/// left, starting at `zero`.
pub open spec fn diagonal_sum<T>(m: Seq<Seq<T>>, k: int, zero: T, plus: spec_fn(T, T) -> T) -> T
    decreases k,
{
    if k <= 0 {
        zero
    } else {
        plus(diagonal_sum(m, k - 1, zero, plus), m[k - 1][k - 1])
    }
}

/// Every partial sum named in `diagonal_sum(m, k, zero, ..)` is a result that
/// `add` gave back.
pub open spec fn diagonal_realized<T, A: Fn(T, T) -> T>(m: Seq<Seq<T>>, k: int, zero: T, add: A) -> bool {
    forall|j: int| 0 <= j < k ==> #[trigger] realized2(add, diagonal_sum(m, j, zero, op_of(add)), m[j][j])
}

/// The number of diagonal entries of an `r x c` matrix.
pub open spec fn diagonal_len(r: nat, c: nat) -> nat {
    if r <= c {
        r
    } else {
        c
    }
}

/// Where every partial sum named in `diagonal_sum(m, k, ..)` was a call of
/// `add`, and `add` computes `g`, the sum is the one taken with `g`.
proof fn lemma_diagonal_computed<T, A: Fn(T, T) -> T>(m: Seq<Seq<T>>, k: int, zero: T, add: A, g: spec_fn(T, T) -> T)
    requires
        diagonal_realized(m, k, zero, add),
        computes(add, g),
    ensures
        diagonal_sum(m, k, zero, op_of(add)) == diagonal_sum(m, k, zero, g),
    decreases k,
{
    if k > 0 {
        lemma_diagonal_computed(m, k - 1, zero, add, g);
        assert(realized2(add, diagonal_sum(m, k - 1, zero, op_of(add)), m[k - 1][k - 1]));
        lemma_computed(add, g, diagonal_sum(m, k - 1, zero, op_of(add)), m[k - 1][k - 1]);
    }
}

/// Trace of a matrix: the entries `a[i][i]` for `i` below both dimensions,
/// added up from the left starting at `zero`.
pub fn trace<T: Copy, A: Fn(T, T) -> T>(a: &Matrix<T>, zero: T, add: A) -> (r: T)
    requires
        a.wf(),
        is_binary_op(add),
    ensures
        r == diagonal_sum(a@, diagonal_len(a.nrows_spec(), a.ncols_spec()) as int, zero, op_of(add)),
        diagonal_realized(a@, diagonal_len(a.nrows_spec(), a.ncols_spec()) as int, zero, add),
        forall|g: spec_fn(T, T) -> T|
            #[trigger] computes(add, g) ==> r == diagonal_sum(
                a@,
                diagonal_len(a.nrows_spec(), a.ncols_spec()) as int,
                zero,
                g,
            ),
{
    let n = if a.nrows() <= a.ncols() {
        a.nrows()
    } else {
        a.ncols()
    };
    let mut acc = zero;
    for i in 0..n
        invariant
            a.wf(),
            is_binary_op(add),
            n == diagonal_len(a.nrows_spec(), a.ncols_spec()),
            acc == diagonal_sum(a@, i as int, zero, op_of(add)),
            diagonal_realized(a@, i as int, zero, add),
    {
        acc = call2(&add, acc, a.get(i, i));
    }
    assert forall|g: spec_fn(T, T) -> T| #[trigger] computes(add, g) implies acc == diagonal_sum(
        a@,
        n as int,
        zero,
        g,
    ) by {
        lemma_diagonal_computed(a@, n as int, zero, add, g);
    }
    acc
}

/// A matrix with `r` rows and `c` columns has `min(r, c)` diagonal entries.
pub proof fn lemma_diagonal_len(r: nat, c: nat)
    ensures
        diagonal_len(r, c) <= r,
        diagonal_len(r, c) <= c,
        diagonal_len(r, c) == r || diagonal_len(r, c) == c,
{
}

/// The diagonal sum is the fold of `plus` over `m[0][0], m[1][1], ...`, from the left.
pub proof fn lemma_diagonal_sum_is_sum<T>(m: Seq<Seq<T>>, k: int, zero: T, plus: spec_fn(T, T) -> T)
    ensures
        diagonal_sum(m, k, zero, plus) == sum_of(|i: int| m[i][i], k, zero, plus),
    decreases k,
{
    if k > 0 {
        lemma_diagonal_sum_is_sum(m, k - 1, zero, plus);
    }
}

/// A matrix and its transpose have the same trace.
pub proof fn lemma_trace_transpose<T>(m: Seq<Seq<T>>, r: nat, c: nat, zero: T, plus: spec_fn(T, T) -> T)
    requires
        is_matrix(m, r, c),
    ensures
        diagonal_sum(transpose_of(m, r, c), diagonal_len(c, r) as int, zero, plus) == diagonal_sum(
            m,
            diagonal_len(r, c) as int,
            zero,
            plus,
        ),
{
    let t = transpose_of(m, r, c);
    let k = diagonal_len(r, c) as int;
    lemma_diagonal_sum_is_sum(t, k, zero, plus);
    lemma_diagonal_sum_is_sum(m, k, zero, plus);
    lemma_sum_congruent(|i: int| t[i][i], |i: int| m[i][i], k, zero, plus);
}

} // verus!
