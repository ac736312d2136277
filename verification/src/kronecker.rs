//! Kronecker products and Kronecker sums.

use vstd::prelude::*;
use crate::matrix::{
    Matrix, is_matrix, is_binary_op, apply2, realized2, call2, transpose_of, identity_of, zip_of,
    mat_mul_of, column_of, op_of, computes, lemma_computed,
};
use crate::determinant::{det_of, scaled_of, lemma_det_scaled, lemma_det_single};
use crate::structured::power_of;
use crate::algebra::{
    is_commutative_semiring, sum_of, lemma_dot_is_sum, lemma_sum_congruent, lemma_sum_flatten,
    lemma_product_of_sums, lemma_mul_interchange, mul_zero, mul_comm,
};

verus! {

/// The Kronecker product of the `m x n` matrix `a` and the `p x q` matrix `b`:
/// the `mp x nq` matrix whose entry `(i p + k, j q + l)` is `a[i][j] * b[k][l]`.
pub open spec fn kron_of<T>(
    a: Seq<Seq<T>>,
    b: Seq<Seq<T>>,
    m: nat,
    n: nat,
    p: nat,
    q: nat,
    times: spec_fn(T, T) -> T,
) -> Seq<Seq<T>> {
    Seq::new(
        m * p,
        |r: int|
            Seq::new(
                n * q,
                |c: int| times(a[r / (p as int)][c / (q as int)], b[r % (p as int)][c % (q as int)]),
            ),
    )
}

/// Every product named in `kron_of(a, b, m, n, p, q, op_of(mul))` is a result that
/// `mul` gave back.
pub open spec fn kron_realized<T, M: Fn(T, T) -> T>(
    a: Seq<Seq<T>>,
    b: Seq<Seq<T>>,
    m: nat,
    n: nat,
    p: nat,
    q: nat,
    mul: M,
) -> bool {
    forall|r: int, c: int|
        0 <= r < m * p && 0 <= c < n * q ==> #[trigger] realized2(
            mul,
            a[r / (p as int)][c / (q as int)],
            b[r % (p as int)][c % (q as int)],
        )
}

/// The Kronecker sum `A ⊗ I_p + I_m ⊗ B` of the `m x m` matrix `a` and the
/// `p x p` matrix `b`, with the identities built from `zero` and `one`.
pub open spec fn kron_sum_of<T>(
    a: Seq<Seq<T>>,
    b: Seq<Seq<T>>,
    m: nat,
    p: nat,
    zero: T,
    one: T,
    plus: spec_fn(T, T) -> T,
    times: spec_fn(T, T) -> T,
) -> Seq<Seq<T>> {
    zip_of(
        kron_of(a, identity_of(p, zero, one), m, m, p, p, times),
        kron_of(identity_of(m, zero, one), b, m, m, p, p, times),
        m * p,
        m * p,
        plus,
    )
}

/// Every sum and product named in `kron_sum_of(a, b, m, p, zero, one, op_of(add), op_of(mul))`
/// is a result that `add` or `mul` gave back.
pub open spec fn kron_sum_realized<T, A: Fn(T, T) -> T, M: Fn(T, T) -> T>(
    a: Seq<Seq<T>>,
    b: Seq<Seq<T>>,
    m: nat,
    p: nat,
    zero: T,
    one: T,
    add: A,
    mul: M,
) -> bool {
    let left = kron_of(a, identity_of(p, zero, one), m, m, p, p, op_of(mul));
    let right = kron_of(identity_of(m, zero, one), b, m, m, p, p, op_of(mul));
    &&& kron_realized(a, identity_of(p, zero, one), m, m, p, p, mul)
    &&& kron_realized(identity_of(m, zero, one), b, m, m, p, p, mul)
    &&& forall|i: int, j: int|
        0 <= i < m * p && 0 <= j < m * p ==> #[trigger] realized2(add, left[i][j], right[i][j])
}

/// Splitting an index below `bound * d` into a block and an offset inside the block.
proof fn lemma_split_index(x: int, d: int, bound: int)
    requires
        0 <= x < bound * d,
        0 < d,
    ensures
        0 <= x / d < bound,
        0 <= x % d < d,
        x == (x / d) * d + x % d,
{
    vstd::arithmetic::div_mod::lemma_fundamental_div_mod(x, d);
    vstd::arithmetic::div_mod::lemma_mod_pos_bound(x, d);
    vstd::arithmetic::div_mod::lemma_div_pos_is_pos(x, d);
    let qq = x / d;
    let rr = x % d;
    assert(qq < bound) by (nonlinear_arith)
        requires
            x == d * qq + rr,
            0 <= rr,
            x < bound * d,
            0 < d,
    ;
    assert(x == qq * d + rr) by (nonlinear_arith)
        requires
            x == d * qq + rr,
    ;
}

/// The index `block * d + offset` splits back into `block` and `offset`.
proof fn lemma_join_index(block: int, d: int, offset: int)
    requires
        0 <= offset < d,
    ensures
        (block * d + offset) / d == block,
        (block * d + offset) % d == offset,
{
    vstd::arithmetic::div_mod::lemma_fundamental_div_mod_converse(block * d + offset, d, block, offset);
}

/// Kronecker product of two matrices: `A ⊗ B`.
/// If `A` is `m x n` and `B` is `p x q`, then `A ⊗ B` is `mp x nq`.
pub fn kron<T: Copy, M: Fn(T, T) -> T>(a: &Matrix<T>, b: &Matrix<T>, mul: M) -> (r: Matrix<T>)
    requires
        a.wf(),
        b.wf(),
        is_binary_op(mul),
        a.nrows_spec() * b.nrows_spec() <= usize::MAX,
        a.ncols_spec() * b.ncols_spec() <= usize::MAX,
    ensures
        r.wf(),
        r.nrows_spec() == a.nrows_spec() * b.nrows_spec(),
        r.ncols_spec() == a.ncols_spec() * b.ncols_spec(),
        r@ == kron_of(a@, b@, a.nrows_spec(), a.ncols_spec(), b.nrows_spec(), b.ncols_spec(), op_of(mul)),
        kron_realized(a@, b@, a.nrows_spec(), a.ncols_spec(), b.nrows_spec(), b.ncols_spec(), mul),
        forall|g: spec_fn(T, T) -> T|
            #[trigger] computes(mul, g) ==> r@ == kron_of(
                a@,
                b@,
                a.nrows_spec(),
                a.ncols_spec(),
                b.nrows_spec(),
                b.ncols_spec(),
                g,
            ),
{
    kron_by_ref(a, b, &mul)
}

/// `kron` with the multiplication borrowed, so that it can be used more than once.
fn kron_by_ref<T: Copy, M: Fn(T, T) -> T>(a: &Matrix<T>, b: &Matrix<T>, mul: &M) -> (r: Matrix<T>)
    requires
        a.wf(),
        b.wf(),
        is_binary_op(*mul),
        a.nrows_spec() * b.nrows_spec() <= usize::MAX,
        a.ncols_spec() * b.ncols_spec() <= usize::MAX,
    ensures
        r.wf(),
        r.nrows_spec() == a.nrows_spec() * b.nrows_spec(),
        r.ncols_spec() == a.ncols_spec() * b.ncols_spec(),
        r@ == kron_of(a@, b@, a.nrows_spec(), a.ncols_spec(), b.nrows_spec(), b.ncols_spec(), op_of(*mul)),
        kron_realized(a@, b@, a.nrows_spec(), a.ncols_spec(), b.nrows_spec(), b.ncols_spec(), *mul),
        forall|g: spec_fn(T, T) -> T|
            #[trigger] computes(*mul, g) ==> r@ == kron_of(
                a@,
                b@,
                a.nrows_spec(),
                a.ncols_spec(),
                b.nrows_spec(),
                b.ncols_spec(),
                g,
            ),
{
    let m = a.nrows();
    let n = a.ncols();
    let p = b.nrows();
    let q = b.ncols();
    let ghost kr = kron_of(a@, b@, m as nat, n as nat, p as nat, q as nat, op_of(*mul));
    let mut rows: Vec<Vec<T>> = Vec::new();
    for i in 0..m
        invariant
            a.wf(),
            b.wf(),
            is_binary_op(*mul),
            m == a.nrows_spec(),
            n == a.ncols_spec(),
            p == b.nrows_spec(),
            q == b.ncols_spec(),
            m * p <= usize::MAX,
            n * q <= usize::MAX,
            kr == kron_of(a@, b@, m as nat, n as nat, p as nat, q as nat, op_of(*mul)),
            rows@.len() == i * p,
            forall|rr: int| 0 <= rr < rows@.len() ==> #[trigger] rows@[rr]@ == kr[rr],
            forall|rr: int, c: int|
                0 <= rr < rows@.len() && 0 <= c < n * q ==> #[trigger] realized2(
                    *mul,
                    a@[rr / (p as int)][c / (q as int)],
                    b@[rr % (p as int)][c % (q as int)],
                ),
    {
        for k in 0..p
            invariant
                a.wf(),
                b.wf(),
                is_binary_op(*mul),
                m == a.nrows_spec(),
                n == a.ncols_spec(),
                p == b.nrows_spec(),
                q == b.ncols_spec(),
                m * p <= usize::MAX,
                n * q <= usize::MAX,
                i < m,
                kr == kron_of(a@, b@, m as nat, n as nat, p as nat, q as nat, op_of(*mul)),
                rows@.len() == i * p + k,
                forall|rr: int| 0 <= rr < rows@.len() ==> #[trigger] rows@[rr]@ == kr[rr],
                forall|rr: int, c: int|
                    0 <= rr < rows@.len() && 0 <= c < n * q ==> #[trigger] realized2(
                        *mul,
                        a@[rr / (p as int)][c / (q as int)],
                        b@[rr % (p as int)][c % (q as int)],
                    ),
        {
            let mut row: Vec<T> = Vec::new();
            assert(0 * q == 0) by (nonlinear_arith);
            for j in 0..n
                invariant
                    a.wf(),
                    b.wf(),
                    is_binary_op(*mul),
                    m == a.nrows_spec(),
                    n == a.ncols_spec(),
                    p == b.nrows_spec(),
                    q == b.ncols_spec(),
                    i < m,
                    k < p,
                    row@.len() == j * q,
                    forall|c: int|
                        0 <= c < row@.len() ==> #[trigger] row@[c] == apply2(
                            *mul,
                            a@[i as int][c / (q as int)],
                            b@[k as int][c % (q as int)],
                        ),
                    forall|c: int|
                        0 <= c < row@.len() ==> #[trigger] realized2(
                            *mul,
                            a@[i as int][c / (q as int)],
                            b@[k as int][c % (q as int)],
                        ),
            {
                let aij = a.get(i, j);
                for l in 0..q
                    invariant
                        a.wf(),
                        b.wf(),
                        is_binary_op(*mul),
                        m == a.nrows_spec(),
                        n == a.ncols_spec(),
                        p == b.nrows_spec(),
                        q == b.ncols_spec(),
                        i < m,
                        j < n,
                        k < p,
                        aij == a@[i as int][j as int],
                        row@.len() == j * q + l,
                        forall|c: int|
                            0 <= c < row@.len() ==> #[trigger] row@[c] == apply2(
                                *mul,
                                a@[i as int][c / (q as int)],
                                b@[k as int][c % (q as int)],
                            ),
                        forall|c: int|
                            0 <= c < row@.len() ==> #[trigger] realized2(
                                *mul,
                                a@[i as int][c / (q as int)],
                                b@[k as int][c % (q as int)],
                            ),
                {
                    let e = call2(mul, aij, b.get(k, l));
                    proof {
                        lemma_join_index(j as int, q as int, l as int);
                    }
                    row.push(e);
                }
                assert(j * q + q == (j + 1) * q) by (nonlinear_arith);
            }
            proof {
                lemma_join_index(i as int, p as int, k as int);
                let rr = i * p + k;
                assert(rr < m * p) by (nonlinear_arith)
                    requires
                        rr == i * p + k,
                        i < m,
                        k < p,
                ;
                assert(row@ =~= kr[rr as int]);
            }
            rows.push(row);
        }
        assert(i * p + p == (i + 1) * p) by (nonlinear_arith);
    }
    let ghost shaped = rows@.map_values(|v: Vec<T>| v@);
    assert(shaped =~= kr);
    proof {
        assert forall|g: spec_fn(T, T) -> T| #[trigger] computes(*mul, g) implies kr == kron_of(
            a@,
            b@,
            m as nat,
            n as nat,
            p as nat,
            q as nat,
            g,
        ) by {
            lemma_kron_computed(a@, b@, m as nat, n as nat, p as nat, q as nat, *mul, g);
        }
    }
    Matrix::from_rows(rows, m * p, n * q)
}

/// Where every product named in `kron_of(a, b, ..)` was a call of `mul`, and
/// `mul` computes `g`, the product is the one taken with `g`.
proof fn lemma_kron_computed<T, M: Fn(T, T) -> T>(
    a: Seq<Seq<T>>,
    b: Seq<Seq<T>>,
    m: nat,
    n: nat,
    p: nat,
    q: nat,
    mul: M,
    g: spec_fn(T, T) -> T,
)
    requires
        kron_realized(a, b, m, n, p, q, mul),
        computes(mul, g),
    ensures
        kron_of(a, b, m, n, p, q, op_of(mul)) == kron_of(a, b, m, n, p, q, g),
{
    let k1 = kron_of(a, b, m, n, p, q, op_of(mul));
    let k2 = kron_of(a, b, m, n, p, q, g);
    assert forall|r: int| 0 <= r < m * p implies #[trigger] k1[r] =~= k2[r] by {
        assert forall|c: int| 0 <= c < n * q implies #[trigger] k1[r][c] == k2[r][c] by {
            lemma_computed(mul, g, a[r / (p as int)][c / (q as int)], b[r % (p as int)][c % (q as int)]);
        }
    }
    assert(k1 =~= k2);
}

/// Kronecker sum: `A ⊕ B = A ⊗ I_p + I_m ⊗ B` for `A` `m x m` and `B` `p x p`.
/// Returns `None` when `A` or `B` is not square.
pub fn kron_sum<T: Copy, A: Fn(T, T) -> T, M: Fn(T, T) -> T>(
    a: &Matrix<T>,
    b: &Matrix<T>,
    zero: T,
    one: T,
    add: A,
    mul: M,
) -> (r: Option<Matrix<T>>)
    requires
        a.wf(),
        b.wf(),
        is_binary_op(add),
        is_binary_op(mul),
        a.nrows_spec() == a.ncols_spec() && b.nrows_spec() == b.ncols_spec() ==> a.nrows_spec()
            * b.nrows_spec() <= usize::MAX,
    ensures
        r is Some <==> (a.nrows_spec() == a.ncols_spec() && b.nrows_spec() == b.ncols_spec()),
        r matches Some(s) ==> {
            &&& s.wf()
            &&& s.nrows_spec() == a.nrows_spec() * b.nrows_spec()
            &&& s.ncols_spec() == a.nrows_spec() * b.nrows_spec()
            &&& s@ == kron_sum_of(a@, b@, a.nrows_spec(), b.nrows_spec(), zero, one, op_of(add), op_of(mul))
            &&& kron_sum_realized(a@, b@, a.nrows_spec(), b.nrows_spec(), zero, one, add, mul)
        },
        forall|ga: spec_fn(T, T) -> T, gm: spec_fn(T, T) -> T|
            #![trigger computes(add, ga), computes(mul, gm)]
            computes(add, ga) && computes(mul, gm) ==> (r matches Some(s) ==> s@ == kron_sum_of(
                a@,
                b@,
                a.nrows_spec(),
                b.nrows_spec(),
                zero,
                one,
                ga,
                gm,
            )),
{
    let m = a.nrows();
    let p = b.nrows();
    if m != a.ncols() || p != b.ncols() {
        return None;
    }
    let im = Matrix::identity(m, zero, one);
    let ip = Matrix::identity(p, zero, one);
    let left = kron_by_ref(a, &ip, &mul);
    let right = kron_by_ref(&im, b, &mul);
    Some(left.zip_with(&right, add))
}

/// The transpose of a Kronecker product is the Kronecker product of the
/// transposes: `(A ⊗ B)ᵀ = Aᵀ ⊗ Bᵀ`.
pub proof fn lemma_kron_transpose<T>(
    a: Seq<Seq<T>>,
    b: Seq<Seq<T>>,
    m: nat,
    n: nat,
    p: nat,
    q: nat,
    times: spec_fn(T, T) -> T,
)
    requires
        is_matrix(a, m, n),
        is_matrix(b, p, q),
    ensures
        transpose_of(kron_of(a, b, m, n, p, q, times), m * p, n * q) == kron_of(
            transpose_of(a, m, n),
            transpose_of(b, p, q),
            n,
            m,
            q,
            p,
            times,
        ),
{
    let lhs = transpose_of(kron_of(a, b, m, n, p, q, times), m * p, n * q);
    let rhs = kron_of(transpose_of(a, m, n), transpose_of(b, p, q), n, m, q, p, times);
    assert(m * p == p * m && n * q == q * n) by (nonlinear_arith);
    assert forall|c: int| 0 <= c < n * q implies #[trigger] lhs[c] =~= rhs[c] by {
        assert forall|r: int| 0 <= r < m * p implies #[trigger] lhs[c][r] == rhs[c][r] by {
            assert(p > 0 && q > 0) by (nonlinear_arith)
                requires
                    0 <= r < m * p,
                    0 <= c < n * q,
            ;
            lemma_split_index(r, p as int, m as int);
            lemma_split_index(c, q as int, n as int);
        }
    }
    assert(lhs =~= rhs);
}

/// The mixed-product property `(A ⊗ B)(C ⊗ D) = (AC) ⊗ (BD)`, for `A` `m x n`,
/// `B` `p x q`, `C` `n x r` and `D` `q x s`, whenever addition and
/// multiplication of the entries form a commutative semiring.
pub proof fn lemma_kron_mixed_product<T>(
    a: Seq<Seq<T>>,
    b: Seq<Seq<T>>,
    c: Seq<Seq<T>>,
    d: Seq<Seq<T>>,
    m: nat,
    n: nat,
    p: nat,
    q: nat,
    r: nat,
    s: nat,
    zero: T,
    plus: spec_fn(T, T) -> T,
    times: spec_fn(T, T) -> T,
)
    requires
        is_matrix(a, m, n),
        is_matrix(b, p, q),
        is_matrix(c, n, r),
        is_matrix(d, q, s),
        is_commutative_semiring(zero, plus, times),
    ensures
        mat_mul_of(
            kron_of(a, b, m, n, p, q, times),
            kron_of(c, d, n, r, q, s, times),
            m * p,
            n * q,
            r * s,
            zero,
            plus,
            times,
        ) == kron_of(
            mat_mul_of(a, c, m, n, r, zero, plus, times),
            mat_mul_of(b, d, p, q, s, zero, plus, times),
            m,
            r,
            p,
            s,
            times,
        ),
{
    let k1 = kron_of(a, b, m, n, p, q, times);
    let k2 = kron_of(c, d, n, r, q, s, times);
    let ac = mat_mul_of(a, c, m, n, r, zero, plus, times);
    let bd = mat_mul_of(b, d, p, q, s, zero, plus, times);
    let lhs = mat_mul_of(k1, k2, m * p, n * q, r * s, zero, plus, times);
    let rhs = kron_of(ac, bd, m, r, p, s, times);
    assert forall|rr: int| 0 <= rr < m * p implies #[trigger] lhs[rr] =~= rhs[rr] by {
        assert forall|ss: int| 0 <= ss < r * s implies #[trigger] lhs[rr][ss] == rhs[rr][ss] by {
            lemma_mixed_product_entry(a, b, c, d, m, n, p, q, r, s, zero, plus, times, rr, ss);
        }
    }
    assert(lhs =~= rhs);
}

/// One entry of the mixed-product property.
proof fn lemma_mixed_product_entry<T>(
    a: Seq<Seq<T>>,
    b: Seq<Seq<T>>,
    c: Seq<Seq<T>>,
    d: Seq<Seq<T>>,
    m: nat,
    n: nat,
    p: nat,
    q: nat,
    r: nat,
    s: nat,
    zero: T,
    plus: spec_fn(T, T) -> T,
    times: spec_fn(T, T) -> T,
    rr: int,
    ss: int,
)
    requires
        is_matrix(a, m, n),
        is_matrix(b, p, q),
        is_matrix(c, n, r),
        is_matrix(d, q, s),
        is_commutative_semiring(zero, plus, times),
        0 <= rr < m * p,
        0 <= ss < r * s,
    ensures
        mat_mul_of(
            kron_of(a, b, m, n, p, q, times),
            kron_of(c, d, n, r, q, s, times),
            m * p,
            n * q,
            r * s,
            zero,
            plus,
            times,
        )[rr][ss] == kron_of(
            mat_mul_of(a, c, m, n, r, zero, plus, times),
            mat_mul_of(b, d, p, q, s, zero, plus, times),
            m,
            r,
            p,
            s,
            times,
        )[rr][ss],
{
    let k1 = kron_of(a, b, m, n, p, q, times);
    let k2 = kron_of(c, d, n, r, q, s, times);
    assert(p > 0 && s > 0) by (nonlinear_arith)
        requires
            0 <= rr < m * p,
            0 <= ss < r * s,
    ;
    lemma_split_index(rr, p as int, m as int);
    lemma_split_index(ss, s as int, r as int);
    let i = rr / (p as int);
    let kk = rr % (p as int);
    let j = ss / (s as int);
    let l = ss % (s as int);
    let nq = (n * q) as int;
    let col = column_of(k2, ss);
    let t0 = |cc: int| times(k1[rr][cc], col[cc]);
    let u = |x: int| times(a[i][x], c[x][j]);
    let v = |y: int| times(b[kk][y], d[y][l]);
    // The entry is a sum over n q terms ...
    lemma_dot_is_sum(k1[rr], col, nq, zero, plus, times);
    // ... taken in n blocks of q ...
    lemma_sum_flatten(t0, n as int, q as int, zero, plus, times);
    let blocks = |x: int| sum_of(|y: int| t0(x * (q as int) + y), q as int, zero, plus);
    let products = |x: int| sum_of(|y: int| times(u(x), v(y)), q as int, zero, plus);
    assert forall|x: int| 0 <= x < n implies #[trigger] blocks(x) == products(x) by {
        let f = |y: int| t0(x * (q as int) + y);
        let g = |y: int| times(u(x), v(y));
        assert forall|y: int| 0 <= y < q implies #[trigger] f(y) == g(y) by {
            let cc = x * (q as int) + y;
            assert(cc < nq) by (nonlinear_arith)
                requires
                    cc == x * (q as int) + y,
                    0 <= x < n,
                    0 <= y < q,
                    nq == n * q,
            ;
            assert(0 <= cc) by (nonlinear_arith)
                requires
                    cc == x * (q as int) + y,
                    0 <= x,
                    0 <= y,
                    0 <= q,
            ;
            lemma_join_index(x, q as int, y);
            assert(col[cc] == k2[cc][ss]);
            lemma_mul_interchange(a[i][x], b[kk][y], c[x][j], d[y][l], zero, plus, times);
        }
        lemma_sum_congruent(f, g, q as int, zero, plus);
    }
    lemma_sum_congruent(blocks, products, n as int, zero, plus);
    // ... which is the product of the two sums.
    lemma_product_of_sums(u, v, n as int, q as int, zero, plus, times);
    lemma_dot_is_sum(a[i], column_of(c, j), n as int, zero, plus, times);
    lemma_sum_congruent(|x: int| times(a[i][x], column_of(c, j)[x]), u, n as int, zero, plus);
    lemma_dot_is_sum(b[kk], column_of(d, l), q as int, zero, plus, times);
    lemma_sum_congruent(|y: int| times(b[kk][y], column_of(d, l)[y]), v, q as int, zero, plus);
}

/// The Kronecker product of two identities is an identity: `I_m ⊗ I_p = I_mp`.
pub proof fn lemma_kron_identity<T>(
    m: nat,
    p: nat,
    zero: T,
    one: T,
    plus: spec_fn(T, T) -> T,
    times: spec_fn(T, T) -> T,
)
    requires
        is_commutative_semiring(zero, plus, times),
        times(one, one) == one,
    ensures
        kron_of(identity_of(m, zero, one), identity_of(p, zero, one), m, m, p, p, times) == identity_of(
            m * p,
            zero,
            one,
        ),
{
    let lhs = kron_of(identity_of(m, zero, one), identity_of(p, zero, one), m, m, p, p, times);
    let rhs = identity_of(m * p, zero, one);
    mul_zero(zero, plus, times, one);
    mul_zero(zero, plus, times, zero);
    assert forall|rr: int| 0 <= rr < m * p implies #[trigger] lhs[rr] =~= rhs[rr] by {
        assert forall|ss: int| 0 <= ss < m * p implies #[trigger] lhs[rr][ss] == rhs[rr][ss] by {
            assert(p > 0) by (nonlinear_arith)
                requires
                    0 <= rr < m * p,
            ;
            lemma_split_index(rr, p as int, m as int);
            lemma_split_index(ss, p as int, m as int);
        }
    }
    assert(lhs =~= rhs);
}

/// The Kronecker product of inverses is an inverse: if `A A' = I` and
/// `B B' = I` then `(A ⊗ B)(A' ⊗ B') = I`, and if also `A' A = I` and
/// `B' B = I` then `(A' ⊗ B')(A ⊗ B) = I`, for entries forming a commutative
/// semiring with `one * one = one`.
pub proof fn lemma_kron_inverse<T>(
    a: Seq<Seq<T>>,
    a_inv: Seq<Seq<T>>,
    b: Seq<Seq<T>>,
    b_inv: Seq<Seq<T>>,
    m: nat,
    p: nat,
    zero: T,
    one: T,
    plus: spec_fn(T, T) -> T,
    times: spec_fn(T, T) -> T,
)
    requires
        is_matrix(a, m, m),
        is_matrix(a_inv, m, m),
        is_matrix(b, p, p),
        is_matrix(b_inv, p, p),
        is_commutative_semiring(zero, plus, times),
        times(one, one) == one,
        mat_mul_of(a, a_inv, m, m, m, zero, plus, times) == identity_of(m, zero, one),
        mat_mul_of(b, b_inv, p, p, p, zero, plus, times) == identity_of(p, zero, one),
    ensures
        mat_mul_of(
            kron_of(a, b, m, m, p, p, times),
            kron_of(a_inv, b_inv, m, m, p, p, times),
            m * p,
            m * p,
            m * p,
            zero,
            plus,
            times,
        ) == identity_of(m * p, zero, one),
        mat_mul_of(a_inv, a, m, m, m, zero, plus, times) == identity_of(m, zero, one) && mat_mul_of(
            b_inv,
            b,
            p,
            p,
            p,
            zero,
            plus,
            times,
        ) == identity_of(p, zero, one) ==> mat_mul_of(
            kron_of(a_inv, b_inv, m, m, p, p, times),
            kron_of(a, b, m, m, p, p, times),
            m * p,
            m * p,
            m * p,
            zero,
            plus,
            times,
        ) == identity_of(m * p, zero, one),
{
    lemma_kron_mixed_product(a, b, a_inv, b_inv, m, m, p, p, m, p, zero, plus, times);
    lemma_kron_mixed_product(a_inv, b_inv, a, b, m, m, p, p, m, p, zero, plus, times);
    lemma_kron_identity(m, p, zero, one, plus, times);
}

/// The determinant of a Kronecker product, `det(A ⊗ B) = det(A)^p det(B)^m`
/// for `A` `m x m` and `B` `p x p`, in the case where one of the two factors
/// is `1 x 1`; the entries form a commutative semiring with `one` as the
/// identity of `times`, and the determinant is the expansion of `det_of`.
pub proof fn lemma_kron_det_one_factor_single<T>(
    a: Seq<Seq<T>>,
    b: Seq<Seq<T>>,
    m: nat,
    p: nat,
    zero: T,
    one: T,
    minus_one: T,
    plus: spec_fn(T, T) -> T,
    times: spec_fn(T, T) -> T,
)
    requires
        is_matrix(a, m, m),
        is_matrix(b, p, p),
        m == 1 || p == 1,
        is_commutative_semiring(zero, plus, times),
        forall|x: T| #[trigger] times(one, x) == x,
    ensures
        det_of(kron_of(a, b, m, m, p, p, times), m * p, zero, one, minus_one, plus, times) == times(
            power_of(det_of(a, m, zero, one, minus_one, plus, times), p, one, times),
            power_of(det_of(b, p, zero, one, minus_one, plus, times), m, one, times),
        ),
{
    let k = kron_of(a, b, m, m, p, p, times);
    if m == 1 {
        let x = a[0][0];
        assert(m * p == p) by (nonlinear_arith)
            requires
                m == 1,
        ;
        assert forall|r: int| 0 <= r < p implies #[trigger] k[r] =~= scaled_of(x, b, p, times)[r] by {
            assert forall|c: int| 0 <= c < p implies #[trigger] k[r][c] == scaled_of(x, b, p, times)[r][c] by {
                lemma_join_index(0, p as int, r);
                lemma_join_index(0, p as int, c);
            }
        }
        assert(k =~= scaled_of(x, b, p, times));
        lemma_det_scaled(x, b, p, zero, one, minus_one, plus, times);
        lemma_det_single(a, zero, one, minus_one, plus, times);
        let db = det_of(b, p, zero, one, minus_one, plus, times);
        assert(power_of(db, 1, one, times) == times(power_of(db, 0, one, times), db));
    } else {
        let y = b[0][0];
        assert(m * p == m) by (nonlinear_arith)
            requires
                p == 1,
        ;
        assert forall|r: int| 0 <= r < m implies #[trigger] k[r] =~= scaled_of(y, a, m, times)[r] by {
            assert forall|c: int| 0 <= c < m implies #[trigger] k[r][c] == scaled_of(y, a, m, times)[r][c] by {
                lemma_join_index(r, 1, 0);
                lemma_join_index(c, 1, 0);
                mul_comm(zero, plus, times, a[r][c], y);
            }
        }
        assert(k =~= scaled_of(y, a, m, times));
        lemma_det_scaled(y, a, m, zero, one, minus_one, plus, times);
        lemma_det_single(b, zero, one, minus_one, plus, times);
        let da = det_of(a, m, zero, one, minus_one, plus, times);
        assert(power_of(da, 1, one, times) == times(power_of(da, 0, one, times), da));
        mul_comm(zero, plus, times, power_of(y, m, one, times), da);
    }
}

/// Entry `(i p + k, j q + l)` of the Kronecker product of the `m x n` matrix
/// `a` and the `p x q` matrix `b` is `a[i][j] * b[k][l]`.
pub proof fn lemma_kron_entry<T>(
    a: Seq<Seq<T>>,
    b: Seq<Seq<T>>,
    m: nat,
    n: nat,
    p: nat,
    q: nat,
    times: spec_fn(T, T) -> T,
    i: int,
    j: int,
    k: int,
    l: int,
)
    requires
        0 <= i < m,
        0 <= j < n,
        0 <= k < p,
        0 <= l < q,
    ensures
        0 <= i * p + k < m * p,
        0 <= j * q + l < n * q,
        kron_of(a, b, m, n, p, q, times).len() == m * p,
        kron_of(a, b, m, n, p, q, times)[i * p + k].len() == n * q,
        kron_of(a, b, m, n, p, q, times)[i * p + k][j * q + l] == times(a[i][j], b[k][l]),
{
    assert(0 <= i * p + k < m * p) by (nonlinear_arith)
        requires
            0 <= i < m,
            0 <= k < p,
    ;
    assert(0 <= j * q + l < n * q) by (nonlinear_arith)
        requires
            0 <= j < n,
            0 <= l < q,
    ;
    lemma_join_index(i, p as int, k);
    lemma_join_index(j, q as int, l);
}

/// Entry `(i p + k, j p + l)` of the Kronecker sum `A ⊕ B` of the `m x m`
/// matrix `a` and the `p x p` matrix `b` is `a[i][j] * [k = l] + [i = j] * b[k][l]`,
/// where `[..]` is `one` when it holds and `zero` otherwise.
pub proof fn lemma_kron_sum_entry<T>(
    a: Seq<Seq<T>>,
    b: Seq<Seq<T>>,
    m: nat,
    p: nat,
    zero: T,
    one: T,
    plus: spec_fn(T, T) -> T,
    times: spec_fn(T, T) -> T,
    i: int,
    j: int,
    k: int,
    l: int,
)
    requires
        0 <= i < m,
        0 <= j < m,
        0 <= k < p,
        0 <= l < p,
    ensures
        kron_sum_of(a, b, m, p, zero, one, plus, times).len() == m * p,
        kron_sum_of(a, b, m, p, zero, one, plus, times)[i * p + k].len() == m * p,
        kron_sum_of(a, b, m, p, zero, one, plus, times)[i * p + k][j * p + l] == plus(
            times(a[i][j], if k == l { one } else { zero }),
            times(if i == j { one } else { zero }, b[k][l]),
        ),
{
    lemma_kron_entry(a, identity_of(p, zero, one), m, m, p, p, times, i, j, k, l);
    lemma_kron_entry(identity_of(m, zero, one), b, m, m, p, p, times, i, j, k, l);
}

} // verus!
