//! Structured matrices: Toeplitz, circulant, Vandermonde and Hankel.

use vstd::prelude::*;
use crate::matrix::{
    Matrix, is_binary_op, realized2, call2, transpose_of, dot_prefix, dot_realized, mat_vec_of, op_of,
    computes, lemma_computed, lemma_dot_computed,
};

verus! {

/// The Toeplitz matrix with first column `col` and first row `row`: the entry
/// `(i, j)` is `row[j - i]` on and above the diagonal and `col[i - j]` below it.
pub open spec fn toeplitz_of<T>(col: Seq<T>, row: Seq<T>) -> Seq<Seq<T>> {
    Seq::new(
        col.len(),
        |i: int| Seq::new(row.len(), |j: int| if j >= i { row[j - i] } else { col[i - j] }),
    )
}

/// The `n x n` circulant matrix with first row `row`: row `i` is `row`
/// shifted cyclically `i` places to the right.
pub open spec fn circulant_of<T>(row: Seq<T>) -> Seq<Seq<T>> {
    Seq::new(
        row.len(),
        |i: int| Seq::new(row.len(), |j: int| row[(j + row.len() - i) % (row.len() as int)]),
    )
}

/// The Hankel matrix with first column `col` and last row `row`: the entry
/// `(i, j)` is `col[i + j]` while `i + j` is inside `col`, then `row[i + j - n + 1]`.
pub open spec fn hankel_of<T>(col: Seq<T>, row: Seq<T>) -> Seq<Seq<T>> {
    Seq::new(
        col.len(),
        |i: int|
            Seq::new(
                row.len(),
                |j: int| if i + j < col.len() { col[i + j] } else { row[i + j - col.len() + 1] },
            ),
    )
}

/// `x` multiplied `j` times into `one`.
pub open spec fn power_of<T>(x: T, j: nat, one: T, times: spec_fn(T, T) -> T) -> T
    decreases j,
{
    if j == 0 {
        one
    } else {
        times(power_of(x, (j - 1) as nat, one, times), x)
    }
}

/// The Vandermonde matrix with `m` columns: the entry `(i, j)` is `x[i]` to the power `j`.
pub open spec fn vandermonde_of<T>(x: Seq<T>, m: nat, one: T, times: spec_fn(T, T) -> T) -> Seq<Seq<T>> {
    Seq::new(x.len(), |i: int| Seq::new(m, |j: int| power_of(x[i], j as nat, one, times)))
}

/// Every product `x * x * ...` named in `power_of(x, j, one, op_of(mul))` is a
/// result that `mul` gave back.
pub open spec fn power_realized<T, M: Fn(T, T) -> T>(x: T, j: nat, one: T, mul: M) -> bool {
    forall|jj: nat| jj < j ==> #[trigger] realized2(mul, power_of(x, jj, one, op_of(mul)), x)
}

/// Where every product named in `power_of(x, j, one, ..)` was a call of `mul`,
/// and `mul` computes `g`, the power is the one taken with `g`.
proof fn lemma_power_computed<T, M: Fn(T, T) -> T>(x: T, j: nat, one: T, mul: M, g: spec_fn(T, T) -> T)
    requires
        power_realized(x, j, one, mul),
        computes(mul, g),
    ensures
        power_of(x, j, one, op_of(mul)) == power_of(x, j, one, g),
    decreases j,
{
    if j > 0 {
        let jj = (j - 1) as nat;
        lemma_power_computed(x, jj, one, mul, g);
        assert(realized2(mul, power_of(x, jj, one, op_of(mul)), x));
        lemma_computed(mul, g, power_of(x, jj, one, op_of(mul)), x);
    }
}

/// Position in the first row of the entry `(i, j)` of an `n x n` circulant matrix.
fn circulant_index(n: usize, i: usize, j: usize) -> (r: usize)
    requires
        i < n,
        j < n,
    ensures
        r == (j + n - i) % (n as int),
        r < n,
{
    proof {
        if j >= i {
            vstd::arithmetic::div_mod::lemma_mod_add_multiples_vanish((j - i) as int, n as int);
            vstd::arithmetic::div_mod::lemma_small_mod((j - i) as nat, n as nat);
        } else {
            vstd::arithmetic::div_mod::lemma_small_mod((j + n - i) as nat, n as nat);
        }
    }
    if j >= i {
        j - i
    } else {
        j + (n - i)
    }
}

/// Creates a Toeplitz matrix from its first column `col` and first row `row`.
/// Below the diagonal the entries come from `col`, on and above it from `row`.
pub fn toeplitz<T: Copy>(col: &[T], row: &[T]) -> (m: Matrix<T>)
    ensures
        m.wf(),
        m.nrows_spec() == col@.len(),
        m.ncols_spec() == row@.len(),
        m@ == toeplitz_of(col@, row@),
{
    let n = col.len();
    let w = row.len();
    let ghost t = toeplitz_of(col@, row@);
    let mut rows: Vec<Vec<T>> = Vec::new();
    for i in 0..n
        invariant
            n == col@.len(),
            w == row@.len(),
            t == toeplitz_of(col@, row@),
            rows@.len() == i,
            forall|k: int| 0 <= k < i ==> #[trigger] rows@[k]@ == t[k],
    {
        let mut r: Vec<T> = Vec::new();
        for j in 0..w
            invariant
                n == col@.len(),
                w == row@.len(),
                i < n,
                r@.len() == j,
                forall|jj: int| 0 <= jj < j ==> #[trigger] r@[jj] == (if jj >= i { row@[jj - i] } else { col@[i - jj] }),
        {
            if j >= i {
                r.push(row[j - i]);
            } else {
                r.push(col[i - j]);
            }
        }
        assert(r@ =~= t[i as int]);
        rows.push(r);
    }
    assert(rows@.map_values(|v: Vec<T>| v@) =~= t);
    Matrix::from_rows(rows, n, w)
}

/// Creates a symmetric Toeplitz matrix from its first column.
pub fn toeplitz_symmetric<T: Copy>(col: &[T]) -> (m: Matrix<T>)
    ensures
        m.wf(),
        m.nrows_spec() == col@.len(),
        m.ncols_spec() == col@.len(),
        m@ == toeplitz_of(col@, col@),
{
    toeplitz(col, col)
}

/// Creates a circulant matrix from its first row.
pub fn circulant<T: Copy>(first_row: &[T]) -> (m: Matrix<T>)
    ensures
        m.wf(),
        m.nrows_spec() == first_row@.len(),
        m.ncols_spec() == first_row@.len(),
        m@ == circulant_of(first_row@),
{
    let n = first_row.len();
    let ghost c = circulant_of(first_row@);
    let mut rows: Vec<Vec<T>> = Vec::new();
    for i in 0..n
        invariant
            n == first_row@.len(),
            c == circulant_of(first_row@),
            rows@.len() == i,
            forall|k: int| 0 <= k < i ==> #[trigger] rows@[k]@ == c[k],
    {
        let mut r: Vec<T> = Vec::new();
        for j in 0..n
            invariant
                n == first_row@.len(),
                i < n,
                r@.len() == j,
                forall|jj: int| 0 <= jj < j ==> #[trigger] r@[jj] == first_row@[(jj + n - i) % (n as int)],
        {
            let idx = circulant_index(n, i, j);
            r.push(first_row[idx]);
        }
        assert(r@ =~= c[i as int]);
        rows.push(r);
    }
    assert(rows@.map_values(|v: Vec<T>| v@) =~= c);
    Matrix::from_rows(rows, n, n)
}

/// Creates a Hankel matrix (constant anti-diagonals) from its first column
/// `col` and its last row `row`.
pub fn hankel<T: Copy>(col: &[T], row: &[T]) -> (m: Matrix<T>)
    ensures
        m.wf(),
        m.nrows_spec() == col@.len(),
        m.ncols_spec() == row@.len(),
        m@ == hankel_of(col@, row@),
{
    let n = col.len();
    let w = row.len();
    let ghost h = hankel_of(col@, row@);
    let mut rows: Vec<Vec<T>> = Vec::new();
    for i in 0..n
        invariant
            n == col@.len(),
            w == row@.len(),
            h == hankel_of(col@, row@),
            rows@.len() == i,
            forall|k: int| 0 <= k < i ==> #[trigger] rows@[k]@ == h[k],
    {
        let mut r: Vec<T> = Vec::new();
        for j in 0..w
            invariant
                n == col@.len(),
                w == row@.len(),
                i < n,
                r@.len() == j,
                forall|jj: int|
                    0 <= jj < j ==> #[trigger] r@[jj] == (if i + jj < n { col@[i + jj] } else { row@[i + jj - n + 1] }),
        {
            if j < n - i {
                r.push(col[i + j]);
            } else {
                r.push(row[j - (n - i) + 1]);
            }
        }
        assert(r@ =~= h[i as int]);
        rows.push(r);
    }
    assert(rows@.map_values(|v: Vec<T>| v@) =~= h);
    Matrix::from_rows(rows, n, w)
}

/// Multiplies the circulant matrix with first row `first_row` by the vector `v`,
/// reading the entries straight from `first_row`.
pub fn circulant_mul<T: Copy, A: Fn(T, T) -> T, M: Fn(T, T) -> T>(
    first_row: &[T],
    v: &[T],
    zero: T,
    add: A,
    mul: M,
) -> (r: Vec<T>)
    requires
        v@.len() == first_row@.len(),
        is_binary_op(add),
        is_binary_op(mul),
    ensures
        r@ == mat_vec_of(circulant_of(first_row@), v@, zero, op_of(add), op_of(mul)),
        forall|i: int|
            0 <= i < first_row@.len() ==> #[trigger] dot_realized(
                circulant_of(first_row@)[i],
                v@,
                first_row@.len() as int,
                zero,
                add,
                mul,
            ),
        forall|ga: spec_fn(T, T) -> T, gm: spec_fn(T, T) -> T|
            #![trigger computes(add, ga), computes(mul, gm)]
            computes(add, ga) && computes(mul, gm) ==> r@ == mat_vec_of(circulant_of(first_row@), v@, zero, ga, gm),
{
    let n = first_row.len();
    let ghost c = circulant_of(first_row@);
    let ghost target = mat_vec_of(c, v@, zero, op_of(add), op_of(mul));
    let mut result: Vec<T> = Vec::new();
    for i in 0..n
        invariant
            n == first_row@.len(),
            v@.len() == n,
            is_binary_op(add),
            is_binary_op(mul),
            c == circulant_of(first_row@),
            target == mat_vec_of(c, v@, zero, op_of(add), op_of(mul)),
            result@.len() == i,
            forall|k: int| 0 <= k < i ==> #[trigger] result@[k] == target[k],
            forall|k: int| 0 <= k < i ==> #[trigger] dot_realized(c[k], v@, n as int, zero, add, mul),
    {
        let mut acc = zero;
        for j in 0..n
            invariant
                n == first_row@.len(),
                v@.len() == n,
                is_binary_op(add),
                is_binary_op(mul),
                c == circulant_of(first_row@),
                i < n,
                acc == dot_prefix(c[i as int], v@, j as int, zero, op_of(add), op_of(mul)),
                dot_realized(c[i as int], v@, j as int, zero, add, mul),
        {
            let idx = circulant_index(n, i, j);
            assert(c[i as int][j as int] == first_row@[idx as int]);
            let p = call2(&mul, first_row[idx], v[j]);
            acc = call2(&add, acc, p);
        }
        result.push(acc);
    }
    assert(result@ =~= target);
    assert forall|ga: spec_fn(T, T) -> T, gm: spec_fn(T, T) -> T|
        #![trigger computes(add, ga), computes(mul, gm)]
        computes(add, ga) && computes(mul, gm) implies result@ == mat_vec_of(c, v@, zero, ga, gm) by {
        let tg = mat_vec_of(c, v@, zero, ga, gm);
        assert forall|i: int| 0 <= i < n implies #[trigger] target[i] == tg[i] by {
            lemma_dot_computed(c[i], v@, n as int, zero, add, mul, ga, gm);
        }
        assert(target =~= tg);
    }
    result
}

/// Creates the Vandermonde matrix with `m` columns whose entry `(i, j)` is
/// `x[i]` to the power `j`, each power one multiplication on from the last.
pub fn vandermonde<T: Copy, M: Fn(T, T) -> T>(x: &[T], m: usize, one: T, mul: M) -> (v: Matrix<T>)
    requires
        is_binary_op(mul),
    ensures
        v.wf(),
        v.nrows_spec() == x@.len(),
        v.ncols_spec() == m,
        v@ == vandermonde_of(x@, m as nat, one, op_of(mul)),
        forall|i: int| 0 <= i < x@.len() ==> #[trigger] power_realized(x@[i], m as nat, one, mul),
        forall|g: spec_fn(T, T) -> T| #[trigger] computes(mul, g) ==> v@ == vandermonde_of(x@, m as nat, one, g),
{
    let n = x.len();
    let ghost vm = vandermonde_of(x@, m as nat, one, op_of(mul));
    let mut rows: Vec<Vec<T>> = Vec::new();
    for i in 0..n
        invariant
            n == x@.len(),
            is_binary_op(mul),
            vm == vandermonde_of(x@, m as nat, one, op_of(mul)),
            rows@.len() == i,
            forall|k: int| 0 <= k < i ==> #[trigger] rows@[k]@ == vm[k],
            forall|k: int| 0 <= k < i ==> #[trigger] power_realized(x@[k], m as nat, one, mul),
    {
        let mut r: Vec<T> = Vec::new();
        let mut pow = one;
        for j in 0..m
            invariant
                n == x@.len(),
                i < n,
                is_binary_op(mul),
                r@.len() == j,
                pow == power_of(x@[i as int], j as nat, one, op_of(mul)),
                power_realized(x@[i as int], j as nat, one, mul),
                forall|jj: int| 0 <= jj < j ==> #[trigger] r@[jj] == power_of(x@[i as int], jj as nat, one, op_of(mul)),
        {
            r.push(pow);
            pow = call2(&mul, pow, x[i]);
        }
        assert(r@ =~= vm[i as int]);
        rows.push(r);
    }
    assert(rows@.map_values(|w: Vec<T>| w@) =~= vm);
    assert forall|g: spec_fn(T, T) -> T| #[trigger] computes(mul, g) implies vm == vandermonde_of(x@, m as nat, one, g) by {
        let vg = vandermonde_of(x@, m as nat, one, g);
        assert forall|i: int| 0 <= i < n implies #[trigger] vm[i] =~= vg[i] by {
            assert forall|j: int| 0 <= j < m implies #[trigger] vm[i][j] == vg[i][j] by {
                assert(power_realized(x@[i], m as nat, one, mul));
                lemma_power_computed(x@[i], j as nat, one, mul, g);
            }
        }
        assert(vm =~= vg);
    }
    Matrix::from_rows(rows, n, m)
}

/// A Toeplitz matrix is constant along each diagonal.
pub proof fn lemma_toeplitz_constant_diagonals<T>(col: Seq<T>, row: Seq<T>, i: int, j: int)
    requires
        0 <= i,
        0 <= j,
        i + 1 < col.len(),
        j + 1 < row.len(),
    ensures
        toeplitz_of(col, row)[i + 1][j + 1] == toeplitz_of(col, row)[i][j],
{
}

/// The Toeplitz matrix built from one sequence as both first column and
/// first row is symmetric.
pub proof fn lemma_toeplitz_symmetric<T>(col: Seq<T>)
    ensures
        transpose_of(toeplitz_of(col, col), col.len(), col.len()) == toeplitz_of(col, col),
{
    let t = toeplitz_of(col, col);
    let tt = transpose_of(t, col.len(), col.len());
    assert forall|i: int| 0 <= i < col.len() implies #[trigger] tt[i] =~= t[i] by {}
    assert(tt =~= t);
}

/// A Hankel matrix is constant along each anti-diagonal.
pub proof fn lemma_hankel_constant_antidiagonals<T>(col: Seq<T>, row: Seq<T>, i: int, j: int)
    requires
        0 <= i,
        0 <= j,
        i + 1 < col.len(),
        j + 1 < row.len(),
    ensures
        hankel_of(col, row)[i][j + 1] == hankel_of(col, row)[i + 1][j],
{
}

/// Each row of a circulant matrix is the row above shifted cyclically one
/// place to the right.
pub proof fn lemma_circulant_shift<T>(row: Seq<T>, i: int, j: int)
    requires
        0 <= i,
        0 <= j,
        i + 1 < row.len(),
        j < row.len(),
    ensures
        circulant_of(row)[i + 1][(j + 1) % (row.len() as int)] == circulant_of(row)[i][j],
{
    let n = row.len() as int;
    let j1 = (j + 1) % n;
    if j + 1 < n {
        vstd::arithmetic::div_mod::lemma_small_mod((j + 1) as nat, n as nat);
    } else {
        vstd::arithmetic::div_mod::lemma_mod_self_0(n);
    }
    assert((j1 + n - (i + 1)) % n == (j + n - i) % n) by {
        if j + 1 < n {
        } else {
            vstd::arithmetic::div_mod::lemma_mod_add_multiples_vanish(n - i - 1, n);
            vstd::arithmetic::div_mod::lemma_small_mod((n - i - 1) as nat, n as nat);
        }
    }
}

/// A circulant matrix is the Toeplitz matrix whose first row is `row` and
/// whose first column is `row[0], row[n-1], ..., row[1]`.
pub proof fn lemma_circulant_is_toeplitz<T>(row: Seq<T>)
    ensures
        circulant_of(row) == toeplitz_of(Seq::new(row.len(), |i: int| row[(row.len() - i) % (row.len() as int)]), row),
{
    let n = row.len() as int;
    let col = Seq::new(row.len(), |i: int| row[(row.len() - i) % (row.len() as int)]);
    let c = circulant_of(row);
    let t = toeplitz_of(col, row);
    assert forall|i: int| 0 <= i < n implies #[trigger] c[i] =~= t[i] by {
        assert forall|j: int| 0 <= j < n implies #[trigger] c[i][j] == t[i][j] by {
            if j >= i {
                vstd::arithmetic::div_mod::lemma_mod_add_multiples_vanish(j - i, n);
                vstd::arithmetic::div_mod::lemma_small_mod((j - i) as nat, n as nat);
            } else {
                vstd::arithmetic::div_mod::lemma_small_mod((j + n - i) as nat, n as nat);
                vstd::arithmetic::div_mod::lemma_small_mod((n - (i - j)) as nat, n as nat);
            }
        }
    }
    assert(c =~= t);
}

/// Every row of a Vandermonde matrix starts with `one`, and each entry is
/// the one before it times the row's node.
pub proof fn lemma_vandermonde_steps<T>(x: Seq<T>, m: nat, one: T, times: spec_fn(T, T) -> T, i: int, j: int)
    requires
        0 <= i < x.len(),
        0 <= j,
        j + 1 < m,
    ensures
        vandermonde_of(x, m, one, times)[i][0] == one,
        vandermonde_of(x, m, one, times)[i][j + 1] == times(vandermonde_of(x, m, one, times)[i][j], x[i]),
{
}

/// The first row of a Toeplitz matrix is `row`, whatever the shape.
pub proof fn lemma_toeplitz_first_row<T>(col: Seq<T>, row: Seq<T>)
    requires
        col.len() > 0,
    ensures
        toeplitz_of(col, row)[0] == row,
{
    assert(toeplitz_of(col, row)[0] =~= row);
}

/// Below the first row, the first column of a Toeplitz matrix is `col`.
pub proof fn lemma_toeplitz_first_column<T>(col: Seq<T>, row: Seq<T>, i: int)
    requires
        1 <= i < col.len(),
        row.len() > 0,
    ensures
        toeplitz_of(col, row)[i][0] == col[i],
{
}

/// The first column of a Hankel matrix is `col`.
pub proof fn lemma_hankel_first_column<T>(col: Seq<T>, row: Seq<T>, i: int)
    requires
        0 <= i < col.len(),
        row.len() > 0,
    ensures
        hankel_of(col, row)[i][0] == col[i],
{
}

/// After its first entry, the last row of a Hankel matrix is `row`, whatever
/// the shape.
pub proof fn lemma_hankel_last_row<T>(col: Seq<T>, row: Seq<T>, j: int)
    requires
        col.len() > 0,
        1 <= j < row.len(),
    ensures
        hankel_of(col, row)[col.len() - 1][j] == row[j],
{
}

/// The first row of a circulant matrix is `row`.
pub proof fn lemma_circulant_first_row<T>(row: Seq<T>)
    requires
        row.len() > 0,
    ensures
        circulant_of(row)[0] == row,
{
    let n = row.len() as int;
    assert forall|j: int| 0 <= j < n implies #[trigger] circulant_of(row)[0][j] == row[j] by {
        vstd::arithmetic::div_mod::lemma_mod_add_multiples_vanish(j, n);
        vstd::arithmetic::div_mod::lemma_small_mod(j as nat, n as nat);
    }
    assert(circulant_of(row)[0] =~= row);
}

} // verus!
