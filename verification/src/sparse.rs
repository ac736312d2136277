//! Sparse matrices in coordinate (COO) format.

use vstd::prelude::*;
use crate::matrix::{
    Matrix, is_matrix, is_binary_op, apply2, realized2, call2, transpose_of, column_of, dot_prefix,
    mat_vec_of, mat_mul_of, op_of, computes, lemma_computed, filled_of,
};
use crate::algebra::{
    is_commutative_semiring, lemma_dot_is_sum, lemma_sum_zeros, lemma_sum_update,
    mul_zero, mul_distrib_right,
};

verus! {

/// The values stored at position `(r, c)` among the first `k` entries, added
/// up from the left in the order they were stored, starting at `zero`.
pub open spec fn entry_sum<T>(
    rows: Seq<usize>,
    cols: Seq<usize>,
    vals: Seq<T>,
    k: int,
    r: int,
    c: int,
    zero: T,
    plus: spec_fn(T, T) -> T,
) -> T
    decreases k,
{
    if k <= 0 {
        zero
    } else {
        let prev = entry_sum(rows, cols, vals, k - 1, r, c, zero, plus);
        if rows[k - 1] == r && cols[k - 1] == c {
            plus(prev, vals[k - 1])
        } else {
            prev
        }
    }
}

/// Row `r` of the stored matrix times the vector `x`, over the first `k`
/// entries: each entry `(r, c, v)` adds `v * x[c]`, in the order they were
/// stored, starting at `zero`.
pub open spec fn row_product<T>(
    rows: Seq<usize>,
    cols: Seq<usize>,
    vals: Seq<T>,
    k: int,
    r: int,
    x: Seq<T>,
    zero: T,
    plus: spec_fn(T, T) -> T,
    times: spec_fn(T, T) -> T,
) -> T
    decreases k,
{
    if k <= 0 {
        zero
    } else {
        let prev = row_product(rows, cols, vals, k - 1, r, x, zero, plus, times);
        if rows[k - 1] == r {
            plus(prev, times(vals[k - 1], x[cols[k - 1] as int]))
        } else {
            prev
        }
    }
}

/// Every sum named in `entry_sum` over the first `n` entries, at the
/// position of the entry being added, is a result that `add` gave back.
pub open spec fn entry_sum_realized<T, A: Fn(T, T) -> T>(
    rows: Seq<usize>,
    cols: Seq<usize>,
    vals: Seq<T>,
    n: int,
    zero: T,
    add: A,
) -> bool {
    forall|k: int|
        0 <= k < n ==> #[trigger] realized2(
            add,
            entry_sum(rows, cols, vals, k, rows[k] as int, cols[k] as int, zero, op_of(add)),
            vals[k],
        )
}

/// The product and the sum that entry `k` adds to `row_product` are results
/// that `mul` and `add` gave back.
pub open spec fn row_step_realized<T, A: Fn(T, T) -> T, M: Fn(T, T) -> T>(
    rows: Seq<usize>,
    cols: Seq<usize>,
    vals: Seq<T>,
    k: int,
    x: Seq<T>,
    zero: T,
    add: A,
    mul: M,
) -> bool {
    &&& realized2(mul, vals[k], x[cols[k] as int])
    &&& realized2(
        add,
        row_product(rows, cols, vals, k, rows[k] as int, x, zero, op_of(add), op_of(mul)),
        apply2(mul, vals[k], x[cols[k] as int]),
    )
}

/// Every product and sum named in `row_product` over the first `n` entries,
/// in the row of the entry being added, is a result that `mul` or `add` gave back.
pub open spec fn row_product_realized<T, A: Fn(T, T) -> T, M: Fn(T, T) -> T>(
    rows: Seq<usize>,
    cols: Seq<usize>,
    vals: Seq<T>,
    n: int,
    x: Seq<T>,
    zero: T,
    add: A,
    mul: M,
) -> bool {
    forall|k: int| 0 <= k < n ==> #[trigger] row_step_realized(rows, cols, vals, k, x, zero, add, mul)
}

/// Where every sum named in `entry_sum` over the first `n` entries was a call
/// of `add`, and `add` computes `g`, the sums are the ones taken with `g`.
proof fn lemma_entry_sum_computed<T, A: Fn(T, T) -> T>(
    rows: Seq<usize>,
    cols: Seq<usize>,
    vals: Seq<T>,
    n: int,
    r: int,
    c: int,
    zero: T,
    add: A,
    g: spec_fn(T, T) -> T,
)
    requires
        entry_sum_realized(rows, cols, vals, n, zero, add),
        computes(add, g),
    ensures
        entry_sum(rows, cols, vals, n, r, c, zero, op_of(add)) == entry_sum(rows, cols, vals, n, r, c, zero, g),
    decreases n,
{
    if n > 0 {
        let k = n - 1;
        lemma_entry_sum_computed(rows, cols, vals, k, r, c, zero, add, g);
        if rows[k] == r && cols[k] == c {
            assert(realized2(add, entry_sum(rows, cols, vals, k, rows[k] as int, cols[k] as int, zero, op_of(add)), vals[k]));
            lemma_computed(add, g, entry_sum(rows, cols, vals, k, r, c, zero, op_of(add)), vals[k]);
        }
    }
}

/// Where every product and sum named in `row_product` over the first `n`
/// entries was a call of `mul` or `add`, and these compute `gm` and `ga`, the
/// row product is the one taken with `ga` and `gm`.
proof fn lemma_row_product_computed<T, A: Fn(T, T) -> T, M: Fn(T, T) -> T>(
    rows: Seq<usize>,
    cols: Seq<usize>,
    vals: Seq<T>,
    n: int,
    r: int,
    x: Seq<T>,
    zero: T,
    add: A,
    mul: M,
    ga: spec_fn(T, T) -> T,
    gm: spec_fn(T, T) -> T,
)
    requires
        row_product_realized(rows, cols, vals, n, x, zero, add, mul),
        computes(add, ga),
        computes(mul, gm),
    ensures
        row_product(rows, cols, vals, n, r, x, zero, op_of(add), op_of(mul)) == row_product(
            rows,
            cols,
            vals,
            n,
            r,
            x,
            zero,
            ga,
            gm,
        ),
    decreases n,
{
    if n > 0 {
        let k = n - 1;
        lemma_row_product_computed(rows, cols, vals, k, r, x, zero, add, mul, ga, gm);
        if rows[k] == r {
            assert(row_step_realized(rows, cols, vals, k, x, zero, add, mul));
            let xc = x[cols[k] as int];
            lemma_computed(mul, gm, vals[k], xc);
            lemma_computed(add, ga, row_product(rows, cols, vals, k, r, x, zero, op_of(add), op_of(mul)), apply2(mul, vals[k], xc));
        }
    }
}

/// A copy of `v`.
fn copy_vec<T: Copy>(v: &Vec<T>) -> (r: Vec<T>)
    ensures
        r@ == v@,
{
    let mut r: Vec<T> = Vec::new();
    for i in 0..v.len()
        invariant
            r@ == v@.subrange(0, i as int),
    {
        r.push(v[i]);
        assert(r@ =~= v@.subrange(0, i + 1));
    }
    assert(r@ =~= v@);
    r
}

/// A sparse matrix in COOrdinate format: entry `k` holds the value
/// `vals[k]` at row `rows[k]` and column `cols[k]`.
pub struct SparseCOO<T> {
    pub nrows: usize,
    pub ncols: usize,
    pub rows: Vec<usize>,
    pub cols: Vec<usize>,
    pub vals: Vec<T>,
}

impl<T> SparseCOO<T> {
    /// Each value has a row and a column inside the matrix. The entries are
    /// the first `vals.len()` positions; `rows` and `cols` may run longer, and
    /// what they hold past that is not read.
    pub open spec fn wf(&self) -> bool {
        &&& self.rows@.len() >= self.vals@.len()
        &&& self.cols@.len() >= self.vals@.len()
        &&& forall|k: int| 0 <= k < self.vals@.len() ==> #[trigger] self.rows@[k] < self.nrows
        &&& forall|k: int| 0 <= k < self.vals@.len() ==> #[trigger] self.cols@[k] < self.ncols
    }

    /// The dense matrix with the stored values at each position added up.
    pub open spec fn dense_of(&self, zero: T, plus: spec_fn(T, T) -> T) -> Seq<Seq<T>> {
        Seq::new(
            self.nrows as nat,
            |r: int|
                Seq::new(
                    self.ncols as nat,
                    |c: int|
                        entry_sum(self.rows@, self.cols@, self.vals@, self.vals@.len() as int, r, c, zero, plus),
                ),
        )
    }

    /// The product of the stored entries and the `ncols x p` matrix `b`: the
    /// entry `(i, c)` adds up `v * b[j][c]` over the stored entries `(i, j, v)`,
    /// in the order they were stored, starting at `zero`.
    pub open spec fn mul_dense_of(
        &self,
        b: Seq<Seq<T>>,
        p: nat,
        zero: T,
        plus: spec_fn(T, T) -> T,
        times: spec_fn(T, T) -> T,
    ) -> Seq<Seq<T>> {
        Seq::new(
            self.nrows as nat,
            |i: int|
                Seq::new(
                    p,
                    |c: int|
                        row_product(self.rows@, self.cols@, self.vals@, self.vals@.len() as int, i, column_of(b, c), zero, plus, times),
                ),
        )
    }

    /// The product of the stored entries and the vector `x`: row `i` adds up
    /// `v * x[j]` over the stored entries `(i, j, v)`, in the order they were
    /// stored, starting at `zero`.
    pub open spec fn mul_vec_of(&self, x: Seq<T>, zero: T, plus: spec_fn(T, T) -> T, times: spec_fn(T, T) -> T) -> Seq<T> {
        Seq::new(
            self.nrows as nat,
            |i: int| row_product(self.rows@, self.cols@, self.vals@, self.vals@.len() as int, i, x, zero, plus, times),
        )
    }

    /// `self` holds the entries of `other` with rows and columns swapped.
    pub open spec fn is_transpose_of(&self, other: &SparseCOO<T>) -> bool {
        &&& self.nrows == other.ncols
        &&& self.ncols == other.nrows
        &&& self.rows@ == other.cols@
        &&& self.cols@ == other.rows@
        &&& self.vals@ == other.vals@
    }

    /// Creates a new empty sparse matrix.
    pub fn new(nrows: usize, ncols: usize) -> (s: SparseCOO<T>)
        ensures
            s.wf(),
            s.nrows == nrows,
            s.ncols == ncols,
            s.rows@ == Seq::<usize>::empty(),
            s.cols@ == Seq::<usize>::empty(),
            s.vals@ == Seq::<T>::empty(),
    {
        SparseCOO { nrows, ncols, rows: Vec::new(), cols: Vec::new(), vals: Vec::new() }
    }

    /// Adds an entry with value `v` at row `i` and column `j`.
    pub fn add_entry(&mut self, i: usize, j: usize, v: T)
        requires
            i < old(self).nrows,
            j < old(self).ncols,
        ensures
            final(self).nrows == old(self).nrows,
            final(self).ncols == old(self).ncols,
            final(self).rows@ == old(self).rows@.push(i),
            final(self).cols@ == old(self).cols@.push(j),
            final(self).vals@ == old(self).vals@.push(v),
            old(self).wf() && old(self).rows@.len() == old(self).vals@.len() && old(self).cols@.len()
                == old(self).vals@.len() ==> final(self).wf(),
    {
        self.rows.push(i);
        self.cols.push(j);
        self.vals.push(v);
    }

    /// Number of stored entries.
    pub fn nnz(&self) -> (r: usize)
        ensures
            r == self.vals@.len(),
    {
        self.vals.len()
    }
}

impl<T: Copy> SparseCOO<T> {
    /// The transpose: every stored entry with its row and column swapped.
    pub fn transpose(&self) -> (t: SparseCOO<T>)
        ensures
            t.is_transpose_of(self),
            self.wf() ==> t.wf(),
    {
        SparseCOO {
            nrows: self.ncols,
            ncols: self.nrows,
            rows: copy_vec(&self.cols),
            cols: copy_vec(&self.rows),
            vals: copy_vec(&self.vals),
        }
    }

    /// The dense matrix: the values stored at the same position are added
    /// up in the order they were stored, starting at `zero`.
    pub fn to_dense<A: Fn(T, T) -> T>(&self, zero: T, add: A) -> (m: Matrix<T>)
        requires
            self.wf(),
            is_binary_op(add),
        ensures
            m.wf(),
            m.nrows_spec() == self.nrows,
            m.ncols_spec() == self.ncols,
            m@ == self.dense_of(zero, op_of(add)),
            entry_sum_realized(self.rows@, self.cols@, self.vals@, self.vals@.len() as int, zero, add),
            forall|g: spec_fn(T, T) -> T| #[trigger] computes(add, g) ==> m@ == self.dense_of(zero, g),
    {
        let mut m = Matrix::filled(self.nrows, self.ncols, zero);
        let ghost rs = self.rows@;
        let ghost cs = self.cols@;
        let ghost vs = self.vals@;
        for idx in 0..self.vals.len()
            invariant
                self.wf(),
                is_binary_op(add),
                rs == self.rows@,
                cs == self.cols@,
                vs == self.vals@,
                m.wf(),
                m.nrows_spec() == self.nrows,
                m.ncols_spec() == self.ncols,
                entry_sum_realized(rs, cs, vs, idx as int, zero, add),
                forall|r: int, c: int|
                    0 <= r < self.nrows && 0 <= c < self.ncols ==> #[trigger] m@[r][c] == entry_sum(
                        rs,
                        cs,
                        vs,
                        idx as int,
                        r,
                        c,
                        zero,
                        op_of(add),
                    ),
        {
            let i = self.rows[idx];
            let j = self.cols[idx];
            let old_val = m.get(i, j);
            let new_val = call2(&add, old_val, self.vals[idx]);
            let ghost before = m@;
            m.set(i, j, new_val);
            assert forall|r: int, c: int| 0 <= r < self.nrows && 0 <= c < self.ncols implies #[trigger] m@[r][c] == entry_sum(
                rs,
                cs,
                vs,
                idx + 1,
                r,
                c,
                zero,
                op_of(add),
            ) by {
                if r == i && c == j {
                } else {
                    assert(m@[r][c] == before[r][c]);
                }
            }
        }
        assert forall|r: int| 0 <= r < self.nrows implies #[trigger] m@[r] =~= self.dense_of(zero, op_of(add))[r] by {}
        assert(m@ =~= self.dense_of(zero, op_of(add)));
        assert forall|g: spec_fn(T, T) -> T| #[trigger] computes(add, g) implies m@ == self.dense_of(zero, g) by {
            let d1 = self.dense_of(zero, op_of(add));
            let d2 = self.dense_of(zero, g);
            assert forall|r: int| 0 <= r < self.nrows implies #[trigger] d1[r] =~= d2[r] by {
                assert forall|c: int| 0 <= c < self.ncols implies #[trigger] d1[r][c] == d2[r][c] by {
                    lemma_entry_sum_computed(rs, cs, vs, vs.len() as int, r, c, zero, add, g);
                }
            }
            assert(d1 =~= d2);
        }
        m
    }

    /// Multiplies the sparse matrix by the dense matrix `b`: each stored entry
    /// `(i, j, x)` adds `x * b[j][c]` to the entry `(i, c)` of the result, in
    /// the order they were stored.
    pub fn mul_dense<A: Fn(T, T) -> T, M: Fn(T, T) -> T>(&self, b: &Matrix<T>, zero: T, add: A, mul: M) -> (r: Matrix<T>)
        requires
            self.wf(),
            b.wf(),
            b.nrows_spec() == self.ncols,
            is_binary_op(add),
            is_binary_op(mul),
        ensures
            r.wf(),
            r.nrows_spec() == self.nrows,
            r.ncols_spec() == b.ncols_spec(),
            r@ == self.mul_dense_of(b@, b.ncols_spec(), zero, op_of(add), op_of(mul)),
            forall|c: int|
                0 <= c < b.ncols_spec() ==> #[trigger] row_product_realized(
                    self.rows@,
                    self.cols@,
                    self.vals@,
                    self.vals@.len() as int,
                    column_of(b@, c),
                    zero,
                    add,
                    mul,
                ),
            forall|ga: spec_fn(T, T) -> T, gm: spec_fn(T, T) -> T|
                #![trigger computes(add, ga), computes(mul, gm)]
                computes(add, ga) && computes(mul, gm) ==> r@ == self.mul_dense_of(b@, b.ncols_spec(), zero, ga, gm),
    {
        let p = b.ncols();
        let mut m = Matrix::filled(self.nrows, p, zero);
        for idx in 0..self.vals.len()
            invariant
                self.wf(),
                b.wf(),
                b.nrows_spec() == self.ncols,
                p == b.ncols_spec(),
                is_binary_op(add),
                is_binary_op(mul),
                m.wf(),
                m.nrows_spec() == self.nrows,
                m.ncols_spec() == p,
                forall|c: int, k: int|
                    0 <= c < p && 0 <= k < idx ==> #[trigger] row_step_realized(
                        self.rows@,
                        self.cols@,
                        self.vals@,
                        k,
                        column_of(b@, c),
                        zero,
                        add,
                        mul,
                    ),
                forall|r: int, c: int|
                    0 <= r < self.nrows && 0 <= c < p ==> #[trigger] m@[r][c] == row_product(
                        self.rows@,
                        self.cols@,
                        self.vals@,
                        idx as int,
                        r,
                        column_of(b@, c),
                        zero,
                        op_of(add),
                        op_of(mul),
                    ),
        {
            let i = self.rows[idx];
            let j = self.cols[idx];
            let x = self.vals[idx];
            for col in 0..p
                invariant
                    self.wf(),
                    b.wf(),
                    b.nrows_spec() == self.ncols,
                    p == b.ncols_spec(),
                    is_binary_op(add),
                    is_binary_op(mul),
                    idx < self.vals@.len(),
                    i == self.rows@[idx as int],
                    j == self.cols@[idx as int],
                    x == self.vals@[idx as int],
                    m.wf(),
                    m.nrows_spec() == self.nrows,
                    m.ncols_spec() == p,
                    forall|c: int, k: int|
                        0 <= c < p && 0 <= k < idx ==> #[trigger] row_step_realized(
                            self.rows@,
                            self.cols@,
                            self.vals@,
                            k,
                            column_of(b@, c),
                            zero,
                            add,
                            mul,
                        ),
                    forall|c: int|
                        0 <= c < col ==> #[trigger] row_step_realized(
                            self.rows@,
                            self.cols@,
                            self.vals@,
                            idx as int,
                            column_of(b@, c),
                            zero,
                            add,
                            mul,
                        ),
                    forall|r: int, c: int|
                        0 <= r < self.nrows && 0 <= c < p ==> #[trigger] m@[r][c] == row_product(
                            self.rows@,
                            self.cols@,
                            self.vals@,
                            if r == i && c < col { idx + 1 } else { idx as int },
                            r,
                            column_of(b@, c),
                            zero,
                            op_of(add),
                            op_of(mul),
                        ),
            {
                assert(column_of(b@, col as int)[j as int] == b@[j as int][col as int]);
                let prod = call2(&mul, x, b.get(j, col));
                let sum = call2(&add, m.get(i, col), prod);
                let ghost before = m@;
                proof {
                    let xs = column_of(b@, col as int);
                    assert(xs[j as int] == b@[j as int][col as int]);
                    assert(row_step_realized(self.rows@, self.cols@, self.vals@, idx as int, xs, zero, add, mul));
                }
                m.set(i, col, sum);
                assert forall|r: int, c: int| 0 <= r < self.nrows && 0 <= c < p implies #[trigger] m@[r][c] == row_product(
                    self.rows@,
                    self.cols@,
                    self.vals@,
                    if r == i && c < col + 1 { idx + 1 } else { idx as int },
                    r,
                    column_of(b@, c),
                    zero,
                    op_of(add),
                    op_of(mul),
                ) by {
                    if r == i && c == col {
                    } else {
                        assert(m@[r][c] == before[r][c]);
                    }
                }
            }
            assert forall|r: int, c: int| 0 <= r < self.nrows && 0 <= c < p implies #[trigger] m@[r][c] == row_product(
                self.rows@,
                self.cols@,
                self.vals@,
                idx + 1,
                r,
                column_of(b@, c),
                zero,
                op_of(add),
                op_of(mul),
            ) by {
                if r != i {
                    assert(row_product(self.rows@, self.cols@, self.vals@, idx + 1, r, column_of(b@, c), zero, op_of(add), op_of(mul))
                        == row_product(self.rows@, self.cols@, self.vals@, idx as int, r, column_of(b@, c), zero, op_of(add), op_of(mul)));
                }
            }
        }
        let ghost target = self.mul_dense_of(b@, p as nat, zero, op_of(add), op_of(mul));
        assert forall|r: int| 0 <= r < self.nrows implies #[trigger] m@[r] =~= target[r] by {}
        assert(m@ =~= target);
        assert forall|c: int| 0 <= c < p implies #[trigger] row_product_realized(
            self.rows@,
            self.cols@,
            self.vals@,
            self.vals@.len() as int,
            column_of(b@, c),
            zero,
            add,
            mul,
        ) by {}
        assert forall|ga: spec_fn(T, T) -> T, gm: spec_fn(T, T) -> T|
            #![trigger computes(add, ga), computes(mul, gm)]
            computes(add, ga) && computes(mul, gm) implies m@ == self.mul_dense_of(b@, p as nat, zero, ga, gm) by {
            let tg = self.mul_dense_of(b@, p as nat, zero, ga, gm);
            assert forall|i: int| 0 <= i < self.nrows implies #[trigger] target[i] =~= tg[i] by {
                assert forall|c: int| 0 <= c < p implies #[trigger] target[i][c] == tg[i][c] by {
                    lemma_row_product_computed(
                        self.rows@,
                        self.cols@,
                        self.vals@,
                        self.vals@.len() as int,
                        i,
                        column_of(b@, c),
                        zero,
                        add,
                        mul,
                        ga,
                        gm,
                    );
                }
            }
            assert(target =~= tg);
        }
        m
    }

    /// Multiplies the sparse matrix by the dense vector `v`: each stored entry
    /// `(i, j, x)` adds `x * v[j]` to row `i`, in the order they were stored.
    pub fn mul_vec<A: Fn(T, T) -> T, M: Fn(T, T) -> T>(&self, v: &[T], zero: T, add: A, mul: M) -> (r: Vec<T>)
        requires
            self.wf(),
            v@.len() == self.ncols,
            is_binary_op(add),
            is_binary_op(mul),
        ensures
            r@ == self.mul_vec_of(v@, zero, op_of(add), op_of(mul)),
            row_product_realized(self.rows@, self.cols@, self.vals@, self.vals@.len() as int, v@, zero, add, mul),
            forall|ga: spec_fn(T, T) -> T, gm: spec_fn(T, T) -> T|
                #![trigger computes(add, ga), computes(mul, gm)]
                computes(add, ga) && computes(mul, gm) ==> r@ == self.mul_vec_of(v@, zero, ga, gm),
    {
        let mut result: Vec<T> = Vec::new();
        for i in 0..self.nrows
            invariant
                result@ == Seq::new(i as nat, |ii: int| zero),
        {
            result.push(zero);
            assert(result@ =~= Seq::new((i + 1) as nat, |ii: int| zero));
        }
        for idx in 0..self.vals.len()
            invariant
                self.wf(),
                v@.len() == self.ncols,
                is_binary_op(add),
                is_binary_op(mul),
                result@.len() == self.nrows,
                row_product_realized(self.rows@, self.cols@, self.vals@, idx as int, v@, zero, add, mul),
                forall|r: int| 0 <= r < self.nrows ==> #[trigger] result@[r] == row_product(
                    self.rows@,
                    self.cols@,
                    self.vals@,
                    idx as int,
                    r,
                    v@,
                    zero,
                    op_of(add),
                    op_of(mul),
                ),
        {
            let i = self.rows[idx];
            let j = self.cols[idx];
            let p = call2(&mul, self.vals[idx], v[j]);
            let s = call2(&add, result[i], p);
            result.set(i, s);
        }
        assert(result@ =~= self.mul_vec_of(v@, zero, op_of(add), op_of(mul)));
        assert forall|ga: spec_fn(T, T) -> T, gm: spec_fn(T, T) -> T|
            #![trigger computes(add, ga), computes(mul, gm)]
            computes(add, ga) && computes(mul, gm) implies result@ == self.mul_vec_of(v@, zero, ga, gm) by {
            let tg = self.mul_vec_of(v@, zero, ga, gm);
            assert forall|i: int| 0 <= i < self.nrows implies #[trigger] result@[i] == tg[i] by {
                lemma_row_product_computed(
                    self.rows@,
                    self.cols@,
                    self.vals@,
                    self.vals@.len() as int,
                    i,
                    v@,
                    zero,
                    add,
                    mul,
                    ga,
                    gm,
                );
            }
            assert(result@ =~= tg);
        }
        result
    }
}

/// Swapping rows and columns does not change which values are added up at a
/// position, only the position's name.
proof fn lemma_entry_sum_swap<T>(
    rows: Seq<usize>,
    cols: Seq<usize>,
    vals: Seq<T>,
    k: int,
    r: int,
    c: int,
    zero: T,
    plus: spec_fn(T, T) -> T,
)
    ensures
        entry_sum(cols, rows, vals, k, c, r, zero, plus) == entry_sum(rows, cols, vals, k, r, c, zero, plus),
    decreases k,
{
    if k > 0 {
        lemma_entry_sum_swap(rows, cols, vals, k - 1, r, c, zero, plus);
    }
}

/// Transposing twice gives back the same matrix: `(Sᵀ)ᵀ = S`.
pub proof fn lemma_transpose_twice<T>(s: &SparseCOO<T>, t: &SparseCOO<T>, u: &SparseCOO<T>)
    requires
        t.is_transpose_of(s),
        u.is_transpose_of(t),
    ensures
        u.nrows == s.nrows,
        u.ncols == s.ncols,
        u.rows@ == s.rows@,
        u.cols@ == s.cols@,
        u.vals@ == s.vals@,
{
}

/// The dense form of the transpose is the transpose of the dense form:
/// `dense(Sᵀ) = dense(S)ᵀ`.
pub proof fn lemma_transpose_dense<T>(s: &SparseCOO<T>, t: &SparseCOO<T>, zero: T, plus: spec_fn(T, T) -> T)
    requires
        t.is_transpose_of(s),
    ensures
        t.dense_of(zero, plus) == transpose_of(s.dense_of(zero, plus), s.nrows as nat, s.ncols as nat),
{
    let lhs = t.dense_of(zero, plus);
    let rhs = transpose_of(s.dense_of(zero, plus), s.nrows as nat, s.ncols as nat);
    assert forall|c: int| 0 <= c < s.ncols implies #[trigger] lhs[c] =~= rhs[c] by {
        assert forall|r: int| 0 <= r < s.nrows implies #[trigger] lhs[c][r] == rhs[c][r] by {
            lemma_entry_sum_swap(s.rows@, s.cols@, s.vals@, s.vals@.len() as int, r, c, zero, plus);
        }
    }
    assert(lhs =~= rhs);
}

/// Row `r` of the dense form of the first `n` entries.
spec fn dense_row_prefix<T>(
    rows: Seq<usize>,
    cols: Seq<usize>,
    vals: Seq<T>,
    n: int,
    r: int,
    ncols: nat,
    zero: T,
    plus: spec_fn(T, T) -> T,
) -> Seq<T> {
    Seq::new(ncols, |c: int| entry_sum(rows, cols, vals, n, r, c, zero, plus))
}

/// Row `r` of the first `n` entries times `x`, taken entry by entry, is the
/// dense row times `x`.
proof fn lemma_row_product_is_dense<T>(
    rows: Seq<usize>,
    cols: Seq<usize>,
    vals: Seq<T>,
    n: int,
    r: int,
    x: Seq<T>,
    zero: T,
    plus: spec_fn(T, T) -> T,
    times: spec_fn(T, T) -> T,
)
    requires
        0 <= n <= vals.len(),
        n <= rows.len(),
        n <= cols.len(),
        forall|k: int| 0 <= k < n ==> #[trigger] cols[k] < x.len(),
        is_commutative_semiring(zero, plus, times),
    ensures
        row_product(rows, cols, vals, n, r, x, zero, plus, times) == dot_prefix(
            dense_row_prefix(rows, cols, vals, n, r, x.len(), zero, plus),
            x,
            x.len() as int,
            zero,
            plus,
            times,
        ),
    decreases n,
{
    let w = x.len() as int;
    let d1 = dense_row_prefix(rows, cols, vals, n, r, x.len(), zero, plus);
    let g = |c: int| times(d1[c], x[c]);
    lemma_dot_is_sum(d1, x, w, zero, plus, times);
    if n == 0 {
        assert forall|c: int| 0 <= c < w implies #[trigger] g(c) == zero by {
            mul_zero(zero, plus, times, x[c]);
        }
        lemma_sum_zeros(g, w, zero, plus, times);
    } else {
        let k = n - 1;
        lemma_row_product_is_dense(rows, cols, vals, k, r, x, zero, plus, times);
        let d0 = dense_row_prefix(rows, cols, vals, k, r, x.len(), zero, plus);
        let f = |c: int| times(d0[c], x[c]);
        lemma_dot_is_sum(d0, x, w, zero, plus, times);
        if rows[k] != r {
            assert(d1 =~= d0);
        } else {
            let ck = cols[k] as int;
            let delta = times(vals[k], x[ck]);
            mul_distrib_right(zero, plus, times, x[ck], d0[ck], vals[k]);
            assert(g(ck) == plus(f(ck), delta));
            lemma_sum_update(f, g, w, ck, delta, zero, plus, times);
        }
    }
}

/// Multiplying by a vector through the stored entries gives the product of
/// the dense form and the vector: `S v = dense(S) v`, whenever addition and
/// multiplication of the entries form a commutative semiring.
pub proof fn lemma_mul_vec_is_dense_product<T>(
    s: &SparseCOO<T>,
    x: Seq<T>,
    zero: T,
    plus: spec_fn(T, T) -> T,
    times: spec_fn(T, T) -> T,
)
    requires
        s.wf(),
        x.len() == s.ncols,
        is_commutative_semiring(zero, plus, times),
    ensures
        s.mul_vec_of(x, zero, plus, times) == mat_vec_of(s.dense_of(zero, plus), x, zero, plus, times),
{
    let lhs = s.mul_vec_of(x, zero, plus, times);
    let rhs = mat_vec_of(s.dense_of(zero, plus), x, zero, plus, times);
    assert forall|i: int| 0 <= i < s.nrows implies #[trigger] lhs[i] == rhs[i] by {
        lemma_row_product_is_dense(s.rows@, s.cols@, s.vals@, s.vals@.len() as int, i, x, zero, plus, times);
        assert(dense_row_prefix(s.rows@, s.cols@, s.vals@, s.vals@.len() as int, i, x.len(), zero, plus)
            =~= s.dense_of(zero, plus)[i]);
    }
    assert(lhs =~= rhs);
}

/// Multiplying by a dense matrix through the stored entries gives the product
/// of the dense form and the matrix: `S B = dense(S) B`, whenever addition and
/// multiplication of the entries form a commutative semiring.
pub proof fn lemma_mul_dense_is_dense_product<T>(
    s: &SparseCOO<T>,
    b: Seq<Seq<T>>,
    p: nat,
    zero: T,
    plus: spec_fn(T, T) -> T,
    times: spec_fn(T, T) -> T,
)
    requires
        s.wf(),
        is_matrix(b, s.ncols as nat, p),
        is_commutative_semiring(zero, plus, times),
    ensures
        s.mul_dense_of(b, p, zero, plus, times) == mat_mul_of(
            s.dense_of(zero, plus),
            b,
            s.nrows as nat,
            s.ncols as nat,
            p,
            zero,
            plus,
            times,
        ),
{
    let lhs = s.mul_dense_of(b, p, zero, plus, times);
    let rhs = mat_mul_of(s.dense_of(zero, plus), b, s.nrows as nat, s.ncols as nat, p, zero, plus, times);
    assert forall|i: int| 0 <= i < s.nrows implies #[trigger] lhs[i] =~= rhs[i] by {
        assert forall|c: int| 0 <= c < p implies #[trigger] lhs[i][c] == rhs[i][c] by {
            let x = column_of(b, c);
            lemma_row_product_is_dense(s.rows@, s.cols@, s.vals@, s.vals@.len() as int, i, x, zero, plus, times);
            assert(dense_row_prefix(s.rows@, s.cols@, s.vals@, s.vals@.len() as int, i, x.len(), zero, plus)
                =~= s.dense_of(zero, plus)[i]);
        }
    }
    assert(lhs =~= rhs);
}

/// Sums over the first `n` entries agree when the first `n` entries agree.
proof fn lemma_entry_sum_prefix<T>(
    rows1: Seq<usize>,
    cols1: Seq<usize>,
    vals1: Seq<T>,
    rows2: Seq<usize>,
    cols2: Seq<usize>,
    vals2: Seq<T>,
    n: int,
    r: int,
    c: int,
    zero: T,
    plus: spec_fn(T, T) -> T,
)
    requires
        forall|k: int| 0 <= k < n ==> rows1[k] == rows2[k] && cols1[k] == cols2[k] && vals1[k] == vals2[k],
    ensures
        entry_sum(rows1, cols1, vals1, n, r, c, zero, plus) == entry_sum(rows2, cols2, vals2, n, r, c, zero, plus),
    decreases n,
{
    if n > 0 {
        lemma_entry_sum_prefix(rows1, cols1, vals1, rows2, cols2, vals2, n - 1, r, c, zero, plus);
    }
}

/// Row products over the first `n` entries agree when the first `n` entries agree.
proof fn lemma_row_product_prefix<T>(
    rows1: Seq<usize>,
    cols1: Seq<usize>,
    vals1: Seq<T>,
    rows2: Seq<usize>,
    cols2: Seq<usize>,
    vals2: Seq<T>,
    n: int,
    r: int,
    x: Seq<T>,
    zero: T,
    plus: spec_fn(T, T) -> T,
    times: spec_fn(T, T) -> T,
)
    requires
        forall|k: int| 0 <= k < n ==> rows1[k] == rows2[k] && cols1[k] == cols2[k] && vals1[k] == vals2[k],
    ensures
        row_product(rows1, cols1, vals1, n, r, x, zero, plus, times) == row_product(
            rows2,
            cols2,
            vals2,
            n,
            r,
            x,
            zero,
            plus,
            times,
        ),
    decreases n,
{
    if n > 0 {
        lemma_row_product_prefix(rows1, cols1, vals1, rows2, cols2, vals2, n - 1, r, x, zero, plus, times);
    }
}

/// A sparse matrix with no entries is the matrix of `zero`s.
pub proof fn lemma_dense_of_no_entries<T>(s: &SparseCOO<T>, zero: T, plus: spec_fn(T, T) -> T)
    requires
        s.vals@.len() == 0,
    ensures
        s.dense_of(zero, plus) == filled_of(s.nrows as nat, s.ncols as nat, zero),
{
    let d = s.dense_of(zero, plus);
    let f = filled_of(s.nrows as nat, s.ncols as nat, zero);
    assert forall|r: int| 0 <= r < s.nrows implies #[trigger] d[r] =~= f[r] by {}
    assert(d =~= f);
}

/// Adding the entry `(i, j, v)` adds `v` to position `(i, j)` of the dense
/// form, after what was there, and leaves every other position as it was.
pub proof fn lemma_dense_of_add_entry<T>(
    s: &SparseCOO<T>,
    t: &SparseCOO<T>,
    i: usize,
    j: usize,
    v: T,
    zero: T,
    plus: spec_fn(T, T) -> T,
    r: int,
    c: int,
)
    requires
        s.rows@.len() == s.vals@.len(),
        s.cols@.len() == s.vals@.len(),
        t.nrows == s.nrows,
        t.ncols == s.ncols,
        t.rows@ == s.rows@.push(i),
        t.cols@ == s.cols@.push(j),
        t.vals@ == s.vals@.push(v),
        0 <= r < s.nrows,
        0 <= c < s.ncols,
    ensures
        t.dense_of(zero, plus)[r][c] == if r == i && c == j {
            plus(s.dense_of(zero, plus)[r][c], v)
        } else {
            s.dense_of(zero, plus)[r][c]
        },
{
    let n = s.vals@.len() as int;
    lemma_entry_sum_prefix(t.rows@, t.cols@, t.vals@, s.rows@, s.cols@, s.vals@, n, r, c, zero, plus);
}

/// Adding the entry `(i, j, v)` adds `v * x[j]` to row `i` of the product with
/// the vector `x`, after what was there, and leaves every other row as it was.
pub proof fn lemma_mul_vec_of_add_entry<T>(
    s: &SparseCOO<T>,
    t: &SparseCOO<T>,
    i: usize,
    j: usize,
    v: T,
    x: Seq<T>,
    zero: T,
    plus: spec_fn(T, T) -> T,
    times: spec_fn(T, T) -> T,
    r: int,
)
    requires
        s.rows@.len() == s.vals@.len(),
        s.cols@.len() == s.vals@.len(),
        t.nrows == s.nrows,
        t.rows@ == s.rows@.push(i),
        t.cols@ == s.cols@.push(j),
        t.vals@ == s.vals@.push(v),
        0 <= r < s.nrows,
    ensures
        t.mul_vec_of(x, zero, plus, times)[r] == if r == i {
            plus(s.mul_vec_of(x, zero, plus, times)[r], times(v, x[j as int]))
        } else {
            s.mul_vec_of(x, zero, plus, times)[r]
        },
{
    let n = s.vals@.len() as int;
    lemma_row_product_prefix(t.rows@, t.cols@, t.vals@, s.rows@, s.cols@, s.vals@, n, r, x, zero, plus, times);
}

/// A sparse matrix with no entries times any vector is the vector of `zero`s.
pub proof fn lemma_mul_vec_of_no_entries<T>(
    s: &SparseCOO<T>,
    x: Seq<T>,
    zero: T,
    plus: spec_fn(T, T) -> T,
    times: spec_fn(T, T) -> T,
)
    requires
        s.vals@.len() == 0,
    ensures
        s.mul_vec_of(x, zero, plus, times) == Seq::new(s.nrows as nat, |i: int| zero),
{
    assert(s.mul_vec_of(x, zero, plus, times) =~= Seq::new(s.nrows as nat, |i: int| zero));
}

/// Column `c` of the product with the dense matrix `b` is the product with
/// column `c` of `b`.
pub proof fn lemma_mul_dense_of_columns<T>(
    s: &SparseCOO<T>,
    b: Seq<Seq<T>>,
    p: nat,
    zero: T,
    plus: spec_fn(T, T) -> T,
    times: spec_fn(T, T) -> T,
    i: int,
    c: int,
)
    requires
        0 <= i < s.nrows,
        0 <= c < p,
    ensures
        s.mul_dense_of(b, p, zero, plus, times).len() == s.nrows,
        s.mul_dense_of(b, p, zero, plus, times)[i].len() == p,
        s.mul_dense_of(b, p, zero, plus, times)[i][c] == s.mul_vec_of(column_of(b, c), zero, plus, times)[i],
{
}

} // verus!
