# lau_matrix_analysis

Matrix analysis in Rust, with the parts that do not depend on floating-point
arithmetic verified by Verus.

## Layout

- `src/` — the verified library. Its functions are generic over the entry
  type `T`; where entries are combined, the caller hands in the addition and
  multiplication (and `zero`/`one`), and the contracts state the result in
  terms of those operations. Each such contract also states the result over
  any specification functions `ga`, `gm` that the operations compute
  (`computes(add, ga)`), so the laws, which are stated over specification
  functions, apply to what the executable functions return.
  - `matrix.rs`: the dense `Matrix<T>` (rows of equal length), its view as a
    sequence of rows, transposition, identity, entry-wise combination, and
    the specifications of matrix-vector and matrix-matrix products.
  - `structured.rs`: Toeplitz, symmetric Toeplitz, circulant, Vandermonde and
    Hankel matrices, the circulant-vector product, and their structural laws.
  - `kronecker.rs`: Kronecker product and Kronecker sum, the transpose law
    `(A ⊗ B)ᵀ = Aᵀ ⊗ Bᵀ`, and, for entries forming a commutative semiring, the
    mixed-product law `(A ⊗ B)(C ⊗ D) = AC ⊗ BD`, the inverse law, and the
    determinant law `det(A ⊗ B) = det(A)^p det(B)^m` where one factor is `1 x 1`.
  - `sparse.rs`: sparse matrices in coordinate format, densification,
    sparse-vector and sparse-dense products, and their laws.
  - `norms.rs`: the trace, the diagonal added up from the left.
  - `determinant.rs`: the determinant as an expansion along the first row,
    and how scaling every entry changes it.
  - `algebra.rs`: sums over a commutative semiring and the rearrangements the
    product laws rest on.
- `app/` — the `f64` front end on `nalgebra` types: the numerical algorithms
  (LU, QR, Cholesky, SVD, eigendecomposition, norms, perturbation bounds,
  positive-definiteness, matrix functions, agent similarity analysis), and
  `f64` wrappers around the verified structured, Kronecker and sparse
  functions.
- `tests/` — tests of the library on concrete values.
