//! A dense matrix stored row by row, and the binary operations its entries
//! are combined with.

use vstd::prelude::*;

verus! {

/// `f` can be called on any two entries and gives back one result for them.
pub open spec fn is_binary_op<T, F: Fn(T, T) -> T>(f: F) -> bool {
    &&& forall|x: T, y: T| #[trigger] call_requires(f, (x, y))
    &&& forall|x: T, y: T, r1: T, r2: T|
        #![trigger call_ensures(f, (x, y), r1), call_ensures(f, (x, y), r2)]
        call_ensures(f, (x, y), r1) && call_ensures(f, (x, y), r2) ==> r1 == r2
}

/// The result of `f` on `x` and `y`.
pub open spec fn apply2<T, F: Fn(T, T) -> T>(f: F, x: T, y: T) -> T {
    choose|r: T| call_ensures(f, (x, y), r)
}

/// `apply2(f, x, y)` is a result that a call of `f` on `x` and `y` gave back.
pub open spec fn realized2<T, F: Fn(T, T) -> T>(f: F, x: T, y: T) -> bool {
    call_ensures(f, (x, y), apply2(f, x, y))
}

/// `f` read as a function on entries: `op_of(f)(x, y) == apply2(f, x, y)`.
pub open spec fn op_of<T, F: Fn(T, T) -> T>(f: F) -> spec_fn(T, T) -> T {
    |x: T, y: T| apply2(f, x, y)
}

/// Every result that `f` gives back on `x` and `y` is `g(x, y)`.
pub open spec fn computes<T, F: Fn(T, T) -> T>(f: F, g: spec_fn(T, T) -> T) -> bool {
    forall|x: T, y: T, r: T| #[trigger] call_ensures(f, (x, y), r) ==> r == g(x, y)
}

/// Where `f` was called on `x` and `y`, and `f` computes `g`, the result is `g(x, y)`.
pub proof fn lemma_computed<T, F: Fn(T, T) -> T>(f: F, g: spec_fn(T, T) -> T, x: T, y: T)
    requires
        computes(f, g),
        realized2(f, x, y),
    ensures
        op_of(f)(x, y) == g(x, y),
{
}

/// Calls `f` on `x` and `y`.
pub(crate) fn call2<T, F: Fn(T, T) -> T>(f: &F, x: T, y: T) -> (r: T)
    requires
        is_binary_op(*f),
    ensures
        r == apply2(*f, x, y),
        realized2(*f, x, y),
{
    let r = f(x, y);
    assert(call_ensures(*f, (x, y), apply2(*f, x, y)));
    r
}

/// `m` has `r` rows of `c` entries each.
pub open spec fn is_matrix<T>(m: Seq<Seq<T>>, r: nat, c: nat) -> bool {
    &&& m.len() == r
    &&& forall|i: int| 0 <= i < r ==> #[trigger] m[i].len() == c
}

/// The `c x r` transpose of the `r x c` matrix `m`.
pub open spec fn transpose_of<T>(m: Seq<Seq<T>>, r: nat, c: nat) -> Seq<Seq<T>> {
    Seq::new(c, |j: int| Seq::new(r, |i: int| m[i][j]))
}

/// The `r x c` matrix with `v` everywhere.
pub open spec fn filled_of<T>(r: nat, c: nat, v: T) -> Seq<Seq<T>> {
    Seq::new(r, |i: int| Seq::new(c, |j: int| v))
}

/// The `n x n` matrix with `one` on the diagonal and `zero` elsewhere.
pub open spec fn identity_of<T>(n: nat, zero: T, one: T) -> Seq<Seq<T>> {
    Seq::new(n, |i: int| Seq::new(n, |j: int| if i == j { one } else { zero }))
}

/// `f` applied entry by entry to the `r x c` matrices `a` and `b`.
pub open spec fn zip_of<T>(a: Seq<Seq<T>>, b: Seq<Seq<T>>, r: nat, c: nat, f: spec_fn(T, T) -> T) -> Seq<Seq<T>> {
    Seq::new(r, |i: int| Seq::new(c, |j: int| f(a[i][j], b[i][j])))
}

/// Column `j` of the matrix `b`.
pub open spec fn column_of<T>(b: Seq<Seq<T>>, j: int) -> Seq<T> {
    Seq::new(b.len(), |i: int| b[i][j])
}

/// The products `u[j] * v[j]` for `j < k` added up from the left, starting at `zero`.
pub open spec fn dot_prefix<T>(
    u: Seq<T>,
    v: Seq<T>,
    k: int,
    zero: T,
    plus: spec_fn(T, T) -> T,
    times: spec_fn(T, T) -> T,
) -> T
    decreases k,
{
    if k <= 0 {
        zero
    } else {
        plus(dot_prefix(u, v, k - 1, zero, plus, times), times(u[k - 1], v[k - 1]))
    }
}

/// Every product and partial sum named in `dot_prefix(u, v, k, zero, op_of(add), op_of(mul))`
/// is a result that `mul` or `add` gave back.
pub open spec fn dot_realized<T, A: Fn(T, T) -> T, M: Fn(T, T) -> T>(
    u: Seq<T>,
    v: Seq<T>,
    k: int,
    zero: T,
    add: A,
    mul: M,
) -> bool {
    forall|j: int|
        0 <= j < k ==> #[trigger] realized2(mul, u[j], v[j]) && realized2(
            add,
            dot_prefix(u, v, j, zero, op_of(add), op_of(mul)),
            apply2(mul, u[j], v[j]),
        )
}

/// Where every step named in `dot_prefix(u, v, k, ..)` was a call of `add` or
/// `mul`, and these compute `ga` and `gm`, the sum is the one taken with `ga` and `gm`.
pub proof fn lemma_dot_computed<T, A: Fn(T, T) -> T, M: Fn(T, T) -> T>(
    u: Seq<T>,
    v: Seq<T>,
    k: int,
    zero: T,
    add: A,
    mul: M,
    ga: spec_fn(T, T) -> T,
    gm: spec_fn(T, T) -> T,
)
    requires
        dot_realized(u, v, k, zero, add, mul),
        computes(add, ga),
        computes(mul, gm),
    ensures
        dot_prefix(u, v, k, zero, op_of(add), op_of(mul)) == dot_prefix(u, v, k, zero, ga, gm),
    decreases k,
{
    if k > 0 {
        lemma_dot_computed(u, v, k - 1, zero, add, mul, ga, gm);
        assert(realized2(mul, u[k - 1], v[k - 1]));
        lemma_computed(mul, gm, u[k - 1], v[k - 1]);
        lemma_computed(add, ga, dot_prefix(u, v, k - 1, zero, op_of(add), op_of(mul)), apply2(mul, u[k - 1], v[k - 1]));
    }
}

/// The product of the matrix `m` and the vector `v`, each row summed from the left.
pub open spec fn mat_vec_of<T>(
    m: Seq<Seq<T>>,
    v: Seq<T>,
    zero: T,
    plus: spec_fn(T, T) -> T,
    times: spec_fn(T, T) -> T,
) -> Seq<T> {
    Seq::new(m.len(), |i: int| dot_prefix(m[i], v, m[i].len() as int, zero, plus, times))
}

/// The product of the `r x s` matrix `x` and the `s x t` matrix `y`: each
/// entry is a row of `x` times a column of `y`, summed from the left.
pub open spec fn mat_mul_of<T>(
    x: Seq<Seq<T>>,
    y: Seq<Seq<T>>,
    r: nat,
    s: nat,
    t: nat,
    zero: T,
    plus: spec_fn(T, T) -> T,
    times: spec_fn(T, T) -> T,
) -> Seq<Seq<T>> {
    Seq::new(r, |i: int| Seq::new(t, |j: int| dot_prefix(x[i], column_of(y, j), s as int, zero, plus, times)))
}

/// A dense `nrows x ncols` matrix stored as a vector of rows.
pub struct Matrix<T> {
    nrows: usize,
    ncols: usize,
    rows: Vec<Vec<T>>,
}

impl<T> View for Matrix<T> {
    type V = Seq<Seq<T>>;

    closed spec fn view(&self) -> Seq<Seq<T>> {
        self.rows@.map_values(|r: Vec<T>| r@)
    }
}

impl<T> Matrix<T> {
    /// Number of rows.
    pub closed spec fn nrows_spec(&self) -> nat {
        self.nrows as nat
    }

    /// Number of columns.
    pub closed spec fn ncols_spec(&self) -> nat {
        self.ncols as nat
    }

    /// The entries form an `nrows x ncols` matrix.
    pub open spec fn wf(&self) -> bool {
        is_matrix(self@, self.nrows_spec(), self.ncols_spec())
    }

    /// Builds the `nrows x ncols` matrix whose rows are `rows`.
    pub fn from_rows(rows: Vec<Vec<T>>, nrows: usize, ncols: usize) -> (m: Matrix<T>)
        requires
            is_matrix(rows@.map_values(|r: Vec<T>| r@), nrows as nat, ncols as nat),
        ensures
            m.wf(),
            m.nrows_spec() == nrows,
            m.ncols_spec() == ncols,
            m@ == rows@.map_values(|r: Vec<T>| r@),
    {
        Matrix { nrows, ncols, rows }
    }

    /// Number of rows.
    pub fn nrows(&self) -> (r: usize)
        ensures
            r == self.nrows_spec(),
    {
        self.nrows
    }

    /// Number of columns.
    pub fn ncols(&self) -> (r: usize)
        ensures
            r == self.ncols_spec(),
    {
        self.ncols
    }

    /// The rows of the matrix.
    pub fn as_rows(&self) -> (r: &Vec<Vec<T>>)
        ensures
            r@.map_values(|v: Vec<T>| v@) == self@,
    {
        &self.rows
    }
}

impl<T: Copy> Matrix<T> {
    /// The entry in row `i` and column `j`.
    pub fn get(&self, i: usize, j: usize) -> (r: T)
        requires
            self.wf(),
            i < self.nrows_spec(),
            j < self.ncols_spec(),
        ensures
            r == self@[i as int][j as int],
    {
        assert(self.rows@[i as int]@ == self@[i as int]);
        self.rows[i][j]
    }

    /// Replaces the entry in row `i` and column `j` by `v`.
    pub fn set(&mut self, i: usize, j: usize, v: T)
        requires
            old(self).wf(),
            i < old(self).nrows_spec(),
            j < old(self).ncols_spec(),
        ensures
            final(self).wf(),
            final(self).nrows_spec() == old(self).nrows_spec(),
            final(self).ncols_spec() == old(self).ncols_spec(),
            final(self)@ == old(self)@.update(i as int, old(self)@[i as int].update(j as int, v)),
    {
        assert(self.rows@[i as int]@ == self@[i as int]);
        self.rows[i][j] = v;
        assert(self@ =~= old(self)@.update(i as int, old(self)@[i as int].update(j as int, v)));
    }

    /// The `nrows x ncols` matrix with `v` everywhere.
    pub fn filled(nrows: usize, ncols: usize, v: T) -> (m: Matrix<T>)
        ensures
            m.wf(),
            m.nrows_spec() == nrows,
            m.ncols_spec() == ncols,
            m@ == filled_of(nrows as nat, ncols as nat, v),
    {
        let mut rows: Vec<Vec<T>> = Vec::new();
        for i in 0..nrows
            invariant
                rows@.len() == i,
                forall|k: int| 0 <= k < i ==> #[trigger] rows@[k]@ == Seq::new(ncols as nat, |j: int| v),
        {
            let mut row: Vec<T> = Vec::new();
            for j in 0..ncols
                invariant
                    row@ == Seq::new(j as nat, |jj: int| v),
            {
                row.push(v);
            }
            rows.push(row);
        }
        let m = Matrix { nrows, ncols, rows };
        assert(m@ =~= filled_of(nrows as nat, ncols as nat, v));
        m
    }

    /// The `nrows x ncols` matrix whose entries are read row by row from `data`.
    pub fn from_row_slice(nrows: usize, ncols: usize, data: &[T]) -> (m: Matrix<T>)
        requires
            data@.len() == nrows * ncols,
        ensures
            m.wf(),
            m.nrows_spec() == nrows,
            m.ncols_spec() == ncols,
            forall|i: int, j: int|
                0 <= i < nrows && 0 <= j < ncols ==> #[trigger] m@[i][j] == data@[i * ncols + j],
    {
        let mut rows: Vec<Vec<T>> = Vec::new();
        let mut offset: usize = 0;
        let dlen: usize = data.len();
        for i in 0..nrows
            invariant
                rows@.len() == i,
                dlen == data@.len(),
                offset == i * ncols,
                data@.len() == nrows * ncols,
                forall|k: int| 0 <= k < i ==> #[trigger] rows@[k]@.len() == ncols,
                forall|k: int, j: int|
                    0 <= k < i && 0 <= j < ncols ==> #[trigger] rows@[k]@[j] == data@[k * ncols + j],
        {
            proof {
                vstd::arithmetic::mul::lemma_mul_is_distributive_add_other_way(ncols as int, i as int, 1);
                vstd::arithmetic::mul::lemma_mul_inequality(i + 1, nrows as int, ncols as int);
                assert((i + 1) * ncols == i * ncols + ncols);
                assert(offset + ncols <= data@.len());
            }
            let mut row: Vec<T> = Vec::new();
            for j in 0..ncols
                invariant
                    row@.len() == j,
                    offset == i * ncols,
                    offset + ncols <= data@.len(),
                    dlen == data@.len(),
                    forall|jj: int| 0 <= jj < j ==> #[trigger] row@[jj] == data@[offset + jj],
            {
                row.push(data[offset + j]);
            }
            rows.push(row);
            offset = offset + ncols;
        }
        let m = Matrix { nrows, ncols, rows };
        assert forall|i: int, j: int| 0 <= i < nrows && 0 <= j < ncols implies #[trigger] m@[i][j] == data@[i * ncols + j] by {
            assert(m@[i] == m.rows@[i]@);
        }
        m
    }

    /// The `n x n` matrix with `one` on the diagonal and `zero` elsewhere.
    pub fn identity(n: usize, zero: T, one: T) -> (m: Matrix<T>)
        ensures
            m.wf(),
            m.nrows_spec() == n,
            m.ncols_spec() == n,
            m@ == identity_of(n as nat, zero, one),
    {
        let mut rows: Vec<Vec<T>> = Vec::new();
        for i in 0..n
            invariant
                rows@.len() == i,
                forall|k: int| 0 <= k < i ==> #[trigger] rows@[k]@ == identity_of(n as nat, zero, one)[k],
        {
            let mut row: Vec<T> = Vec::new();
            for j in 0..n
                invariant
                    row@.len() == j,
                    forall|jj: int| 0 <= jj < j ==> #[trigger] row@[jj] == (if i == jj { one } else { zero }),
            {
                if i == j {
                    row.push(one);
                } else {
                    row.push(zero);
                }
            }
            assert(row@ =~= identity_of(n as nat, zero, one)[i as int]);
            rows.push(row);
        }
        let m = Matrix { nrows: n, ncols: n, rows };
        assert(m@ =~= identity_of(n as nat, zero, one));
        m
    }

    /// The transpose of the matrix.
    pub fn transpose(&self) -> (m: Matrix<T>)
        requires
            self.wf(),
        ensures
            m.wf(),
            m.nrows_spec() == self.ncols_spec(),
            m.ncols_spec() == self.nrows_spec(),
            m@ == transpose_of(self@, self.nrows_spec(), self.ncols_spec()),
    {
        let ghost t = transpose_of(self@, self.nrows_spec(), self.ncols_spec());
        let mut rows: Vec<Vec<T>> = Vec::new();
        for j in 0..self.ncols
            invariant
                self.wf(),
                rows@.len() == j,
                j <= self.ncols,
                t == transpose_of(self@, self.nrows_spec(), self.ncols_spec()),
                forall|k: int| 0 <= k < j ==> #[trigger] rows@[k]@ == t[k],
        {
            let mut row: Vec<T> = Vec::new();
            for i in 0..self.nrows
                invariant
                    self.wf(),
                    j < self.ncols,
                    row@.len() == i,
                    forall|ii: int| 0 <= ii < i ==> #[trigger] row@[ii] == self@[ii][j as int],
            {
                row.push(self.get(i, j));
            }
            assert(row@ =~= t[j as int]);
            rows.push(row);
        }
        let m = Matrix { nrows: self.ncols, ncols: self.nrows, rows };
        assert(m@ =~= t);
        m
    }

    /// `f` applied entry by entry to this matrix and `other`.
    pub fn zip_with<F: Fn(T, T) -> T>(&self, other: &Matrix<T>, f: F) -> (m: Matrix<T>)
        requires
            self.wf(),
            other.wf(),
            self.nrows_spec() == other.nrows_spec(),
            self.ncols_spec() == other.ncols_spec(),
            is_binary_op(f),
        ensures
            m.wf(),
            m.nrows_spec() == self.nrows_spec(),
            m.ncols_spec() == self.ncols_spec(),
            m@ == zip_of(self@, other@, self.nrows_spec(), self.ncols_spec(), op_of(f)),
            forall|i: int, j: int|
                0 <= i < self.nrows_spec() && 0 <= j < self.ncols_spec() ==> #[trigger] realized2(
                    f,
                    self@[i][j],
                    other@[i][j],
                ),
            forall|g: spec_fn(T, T) -> T|
                #[trigger] computes(f, g) ==> m@ == zip_of(self@, other@, self.nrows_spec(), self.ncols_spec(), g),
    {
        let ghost z = zip_of(self@, other@, self.nrows_spec(), self.ncols_spec(), op_of(f));
        let mut rows: Vec<Vec<T>> = Vec::new();
        for i in 0..self.nrows
            invariant
                self.wf(),
                other.wf(),
                self.nrows_spec() == other.nrows_spec(),
                self.ncols_spec() == other.ncols_spec(),
                is_binary_op(f),
                rows@.len() == i,
                i <= self.nrows,
                z == zip_of(self@, other@, self.nrows_spec(), self.ncols_spec(), op_of(f)),
                forall|k: int| 0 <= k < i ==> #[trigger] rows@[k]@ == z[k],
                forall|k: int, jj: int|
                    0 <= k < i && 0 <= jj < self.ncols_spec() ==> #[trigger] realized2(f, self@[k][jj], other@[k][jj]),
        {
            let mut row: Vec<T> = Vec::new();
            for j in 0..self.ncols
                invariant
                    self.wf(),
                    other.wf(),
                    self.nrows_spec() == other.nrows_spec(),
                    self.ncols_spec() == other.ncols_spec(),
                    is_binary_op(f),
                    i < self.nrows,
                    row@.len() == j,
                    forall|jj: int| 0 <= jj < j ==> #[trigger] row@[jj] == apply2(f, self@[i as int][jj], other@[i as int][jj]),
                    forall|k: int, jj: int|
                        0 <= k < i && 0 <= jj < self.ncols_spec() ==> #[trigger] realized2(f, self@[k][jj], other@[k][jj]),
                    forall|jj: int| 0 <= jj < j ==> #[trigger] realized2(f, self@[i as int][jj], other@[i as int][jj]),
            {
                let x = self.get(i, j);
                let y = other.get(i, j);
                row.push(call2(&f, x, y));
            }
            assert(row@ =~= z[i as int]);
            rows.push(row);
        }
        let m = Matrix { nrows: self.nrows, ncols: self.ncols, rows };
        assert(m@ =~= z);
        assert forall|g: spec_fn(T, T) -> T| #[trigger] computes(f, g) implies m@ == zip_of(
            self@,
            other@,
            self.nrows_spec(),
            self.ncols_spec(),
            g,
        ) by {
            let zg = zip_of(self@, other@, self.nrows_spec(), self.ncols_spec(), g);
            assert forall|i: int| 0 <= i < self.nrows_spec() implies #[trigger] z[i] =~= zg[i] by {
                assert forall|j: int| 0 <= j < self.ncols_spec() implies #[trigger] z[i][j] == zg[i][j] by {
                    lemma_computed(f, g, self@[i][j], other@[i][j]);
                }
            }
            assert(z =~= zg);
        }
        m
    }
}

} // verus!
