//! The MDS matrix, the matrices derived from it, and its factorization into
//! sparse matrices for the partial rounds.
use crate::error::ParamError;
use crate::field::{modulus, Fe};
use crate::algebra::{lemma_vec_mat_assoc, lemma_vec_mat_identity};
use crate::linalg::{copy_matrix, invert, matrix_eq};
use crate::matrix::{
    apply_matrix, column, identity, mat_mul, mat_val, mat_vec, matrix_mul, square_wf, vec_mat,
    vec_val, vec_wf, Matrix,
};
use vstd::prelude::*;

verus! {

/// The largest width accepted.
pub const MAX_WIDTH: usize = 1024;

/// The Cauchy matrix `M[i][j] = 1 / (x_i + y_j)` with `x_i = i` and `y_j = n + j`.
pub open spec fn is_cauchy(m: Seq<Seq<int>>, n: nat) -> bool {
    forall|i: int, j: int|
        0 <= i < n && 0 <= j < n ==> (#[trigger] m[i][j] * (i + n + j)) % modulus() == 1
}

/// The matrix without its first row and first column.
pub open spec fn minor_spec(m: Seq<Seq<int>>, n: nat) -> Seq<Seq<int>> {
    Seq::new((n - 1) as nat, |i: int| Seq::new((n - 1) as nat, |j: int| m[i + 1][j + 1]))
}

/// `M'`: the identity in the first row and column, the minor of `m` elsewhere.
pub open spec fn prime_spec(m: Seq<Seq<int>>, n: nat) -> Seq<Seq<int>> {
    Seq::new(
        n,
        |i: int|
            Seq::new(
                n,
                |j: int|
                    if i == 0 && j == 0 {
                        1
                    } else if i == 0 || j == 0 {
                        0
                    } else {
                        m[i][j]
                    },
            ),
    )
}

/// The first column of `m` below its first row.
pub open spec fn w_spec(m: Seq<Seq<int>>, n: nat) -> Seq<int> {
    Seq::new((n - 1) as nat, |i: int| m[i + 1][0])
}

/// `M''`: the first row of `m`, `ŵ = M̂⁻¹·w` below it in the first column, and the
/// identity elsewhere.
pub open spec fn double_prime_spec(m: Seq<Seq<int>>, w_hat: Seq<int>, n: nat) -> Seq<Seq<int>> {
    Seq::new(
        n,
        |i: int|
            Seq::new(
                n,
                |j: int|
                    if i == 0 {
                        m[0][j]
                    } else if j == 0 {
                        w_hat[i - 1]
                    } else if i == j {
                        1
                    } else {
                        0
                    },
            ),
    )
}

/// The `n × n` Cauchy matrix over the points `0..n` and `n..2n`.
pub fn cauchy_matrix(n: usize) -> (r: Matrix)
    requires
        1 <= n <= MAX_WIDTH,
    ensures
        square_wf(r@, n as nat),
        is_cauchy(mat_val(r@), n as nat),
{
    let mut r: Matrix = Vec::new();
    let mut i: usize = 0;
    while i < n
        invariant
            1 <= n <= MAX_WIDTH,
            i <= n,
            r@.len() == i,
            forall|k: int| 0 <= k < i ==> #[trigger] r@[k]@.len() == n && vec_wf(r@[k]@),
            forall|k: int, l: int|
                0 <= k < i && 0 <= l < n ==> ((#[trigger] r@[k]@[l]).val() * (k + n + l))
                    % modulus() == 1,
        decreases n - i,
    {
        let mut row: Vec<Fe> = Vec::new();
        let mut j: usize = 0;
        while j < n
            invariant
                1 <= n <= MAX_WIDTH,
                i < n,
                j <= n,
                row@.len() == j,
                vec_wf(row@),
                forall|l: int|
                    0 <= l < j ==> ((#[trigger] row@[l]).val() * (i + n + l)) % modulus() == 1,
            decreases n - j,
        {
            let s = Fe::from_u64((i + n + j) as u64);
            let x = match s.inverse() {
                Some(x) => x,
                None => {
                    proof {
                        assert(false);
                    }
                    Fe::zero()
                },
            };
            row.push(x);
            j = j + 1;
        }
        r.push(row);
        i = i + 1;
    }
    assert forall|k: int, l: int| 0 <= k < n && 0 <= l < n implies (#[trigger] mat_val(r@)[k][l]
        * (k + n + l)) % modulus() == 1 by {
        assert(mat_val(r@)[k][l] == r@[k]@[l].val());
    }
    r
}

/// The matrix without its first row and first column.
pub fn minor(m: &Matrix) -> (r: Matrix)
    requires
        (m@.len() as nat) >= 1,
        square_wf(m@, (m@.len() as nat)),
    ensures
        square_wf(r@, ((m@.len() as nat) - 1) as nat),
        mat_val(r@) == minor_spec(mat_val(m@), (m@.len() as nat)),
{
    let n: Ghost<nat> = Ghost(m@.len() as nat);
    let size = m.len();
    let mut r: Matrix = Vec::new();
    let mut i: usize = 1;
    while i < size
        invariant
            size == n@ >= 1,
            1 <= i <= size,
            square_wf(m@, n@),
            r@.len() == i - 1,
            forall|k: int| 0 <= k < i - 1 ==> #[trigger] r@[k]@.len() == n@ - 1 && vec_wf(r@[k]@),
            forall|k: int, l: int|
                0 <= k < i - 1 && 0 <= l < n@ - 1 ==> #[trigger] r@[k]@[l] == m@[k + 1]@[l + 1],
        decreases size - i,
    {
        let mut row: Vec<Fe> = Vec::new();
        let mut j: usize = 1;
        assert(vec_wf(m@[i as int]@));
        while j < size
            invariant
                size == n@,
                1 <= i < size,
                1 <= j <= size,
                square_wf(m@, n@),
                vec_wf(m@[i as int]@),
                row@.len() == j - 1,
                vec_wf(row@),
                forall|l: int| 0 <= l < j - 1 ==> #[trigger] row@[l] == m@[i as int]@[l + 1],
            decreases size - j,
        {
            row.push(m[i][j]);
            j = j + 1;
        }
        r.push(row);
        i = i + 1;
    }
    assert(mat_val(r@) =~= minor_spec(mat_val(m@), n@)) by {
        assert forall|k: int| 0 <= k < n@ - 1 implies mat_val(r@)[k] =~= minor_spec(
            mat_val(m@),
            n@,
        )[k] by {}
    }
    r
}

/// `M'` of a square matrix: see `prime_spec`.
pub fn make_prime(m: &Matrix) -> (r: Matrix)
    requires
        (m@.len() as nat) >= 1,
        square_wf(m@, (m@.len() as nat)),
    ensures
        square_wf(r@, (m@.len() as nat)),
        mat_val(r@) == prime_spec(mat_val(m@), (m@.len() as nat)),
{
    let n: Ghost<nat> = Ghost(m@.len() as nat);
    let size = m.len();
    let mut r: Matrix = Vec::new();
    let mut i: usize = 0;
    while i < size
        invariant
            size == n@ >= 1,
            i <= size,
            square_wf(m@, n@),
            r@.len() == i,
            forall|k: int| 0 <= k < i ==> #[trigger] r@[k]@.len() == n@ && vec_wf(r@[k]@),
            forall|k: int, l: int|
                0 <= k < i && 0 <= l < n@ ==> (#[trigger] r@[k]@[l]).val() == prime_spec(
                    mat_val(m@),
                    n@,
                )[k][l],
        decreases size - i,
    {
        let mut row: Vec<Fe> = Vec::new();
        let mut j: usize = 0;
        assert(vec_wf(m@[i as int]@));
        while j < size
            invariant
                size == n@,
                i < size,
                j <= size,
                square_wf(m@, n@),
                vec_wf(m@[i as int]@),
                row@.len() == j,
                vec_wf(row@),
                forall|l: int|
                    0 <= l < j ==> (#[trigger] row@[l]).val() == prime_spec(mat_val(m@), n@)[i as int][l],
            decreases size - j,
        {
            if i == 0 && j == 0 {
                row.push(Fe::one());
            } else if i == 0 || j == 0 {
                row.push(Fe::zero());
            } else {
                row.push(m[i][j]);
            }
            j = j + 1;
        }
        r.push(row);
        i = i + 1;
    }
    assert(mat_val(r@) =~= prime_spec(mat_val(m@), n@)) by {
        assert forall|k: int| 0 <= k < n@ implies mat_val(r@)[k] =~= prime_spec(mat_val(m@), n@)[k] by {}
    }
    r
}

/// `M''` of a square matrix, given `ŵ`: see `double_prime_spec`.
pub fn make_double_prime(m: &Matrix, w_hat: &Vec<Fe>) -> (r: Matrix)
    requires
        (m@.len() as nat) >= 1,
        square_wf(m@, (m@.len() as nat)),
        w_hat@.len() == (m@.len() as nat) - 1,
        vec_wf(w_hat@),
    ensures
        square_wf(r@, (m@.len() as nat)),
        mat_val(r@) == double_prime_spec(mat_val(m@), vec_val(w_hat@), (m@.len() as nat)),
{
    let n: Ghost<nat> = Ghost(m@.len() as nat);
    let size = m.len();
    let mut r: Matrix = Vec::new();
    let mut i: usize = 0;
    assert(vec_wf(m@[0]@));
    while i < size
        invariant
            size == n@ >= 1,
            i <= size,
            square_wf(m@, n@),
            vec_wf(m@[0]@),
            w_hat@.len() == n@ - 1,
            vec_wf(w_hat@),
            r@.len() == i,
            forall|k: int| 0 <= k < i ==> #[trigger] r@[k]@.len() == n@ && vec_wf(r@[k]@),
            forall|k: int, l: int|
                0 <= k < i && 0 <= l < n@ ==> (#[trigger] r@[k]@[l]).val() == double_prime_spec(
                    mat_val(m@),
                    vec_val(w_hat@),
                    n@,
                )[k][l],
        decreases size - i,
    {
        let mut row: Vec<Fe> = Vec::new();
        let mut j: usize = 0;
        while j < size
            invariant
                size == n@,
                i < size,
                j <= size,
                square_wf(m@, n@),
                vec_wf(m@[0]@),
                w_hat@.len() == n@ - 1,
                vec_wf(w_hat@),
                row@.len() == j,
                vec_wf(row@),
                forall|l: int|
                    0 <= l < j ==> (#[trigger] row@[l]).val() == double_prime_spec(
                        mat_val(m@),
                        vec_val(w_hat@),
                        n@,
                    )[i as int][l],
            decreases size - j,
        {
            if i == 0 {
                row.push(m[0][j]);
            } else if j == 0 {
                row.push(w_hat[i - 1]);
            } else if i == j {
                row.push(Fe::one());
            } else {
                row.push(Fe::zero());
            }
            j = j + 1;
        }
        r.push(row);
        i = i + 1;
    }
    assert(mat_val(r@) =~= double_prime_spec(mat_val(m@), vec_val(w_hat@), n@)) by {
        assert forall|k: int| 0 <= k < n@ implies mat_val(r@)[k] =~= double_prime_spec(
            mat_val(m@),
            vec_val(w_hat@),
            n@,
        )[k] by {}
    }
    r
}

/// The first column of a square matrix below its first row.
pub fn first_column_rest(m: &Matrix) -> (r: Vec<Fe>)
    requires
        (m@.len() as nat) >= 1,
        square_wf(m@, (m@.len() as nat)),
    ensures
        r@.len() == (m@.len() as nat) - 1,
        vec_wf(r@),
        vec_val(r@) == w_spec(mat_val(m@), (m@.len() as nat)),
{
    let n: Ghost<nat> = Ghost(m@.len() as nat);
    let mut r: Vec<Fe> = Vec::new();
    let mut i: usize = 1;
    while i < m.len()
        invariant
            m@.len() == n@ >= 1,
            1 <= i <= m@.len(),
            square_wf(m@, n@),
            r@.len() == i - 1,
            vec_wf(r@),
            forall|k: int| 0 <= k < i - 1 ==> #[trigger] r@[k] == m@[k + 1]@[0],
        decreases m.len() - i,
    {
        assert(vec_wf(m@[i as int]@));
        r.push(m[i][0]);
        i = i + 1;
    }
    assert(vec_val(r@) =~= w_spec(mat_val(m@), n@));
    r
}

/// A matrix together with the matrices derived from it for the sparse
/// factorization.
#[derive(Clone, Debug)]
pub struct MdsMatrices {
    pub m: Matrix,
    pub m_inv: Matrix,
    pub m_hat: Matrix,
    pub m_hat_inv: Matrix,
    pub m_prime: Matrix,
    pub m_double_prime: Matrix,
}

impl MdsMatrices {
    /// The derived matrices are those of `base`, a `n × n` matrix.
    pub open spec fn derived_from(self, base: Seq<Seq<int>>, n: nat) -> bool {
        &&& n >= 2
        &&& square_wf(self.m@, n)
        &&& square_wf(self.m_inv@, n)
        &&& square_wf(self.m_hat@, (n - 1) as nat)
        &&& square_wf(self.m_hat_inv@, (n - 1) as nat)
        &&& square_wf(self.m_prime@, n)
        &&& square_wf(self.m_double_prime@, n)
        &&& mat_val(self.m@) == base
        &&& mat_mul(base, mat_val(self.m_inv@), n) == identity(n)
        &&& mat_mul(mat_val(self.m_inv@), base, n) == identity(n)
        &&& mat_val(self.m_hat@) == minor_spec(base, n)
        &&& mat_mul(mat_val(self.m_hat@), mat_val(self.m_hat_inv@), (n - 1) as nat) == identity(
            (n - 1) as nat,
        )
        &&& mat_mul(mat_val(self.m_hat_inv@), mat_val(self.m_hat@), (n - 1) as nat) == identity(
            (n - 1) as nat,
        )
        &&& mat_val(self.m_prime@) == prime_spec(base, n)
        &&& mat_val(self.m_double_prime@) == double_prime_spec(
            base,
            mat_vec(mat_val(self.m_hat_inv@), w_spec(base, n)),
            n,
        )
    }

    /// Derives the inverse, the minor, its inverse, `M'` and `M''` of a square
    /// matrix; fails when the matrix or its minor is singular.
    pub fn derive(m: &Matrix) -> (r: Result<MdsMatrices, ParamError>)
        requires
            (m@.len() as nat) >= 2,
            square_wf(m@, (m@.len() as nat)),
        ensures
            r matches Ok(d) ==> d.derived_from(mat_val(m@), (m@.len() as nat)),
            r matches Err(e) ==> e == ParamError::SingularMatrix,
    {
        let n: Ghost<nat> = Ghost(m@.len() as nat);
        let m_inv = match invert(m) {
            Some(x) => x,
            None => {
                return Err(ParamError::SingularMatrix);
            },
        };
        let n1: Ghost<nat> = Ghost((n@ - 1) as nat);
        let m_hat = minor(m);
        let m_hat_inv = match invert(&m_hat) {
            Some(x) => x,
            None => {
                return Err(ParamError::SingularMatrix);
            },
        };
        let m_prime = make_prime(m);
        let w = first_column_rest(m);
        let w_hat = apply_matrix(&m_hat_inv, &w);
        let m_double_prime = make_double_prime(m, &w_hat);
        let copy = copy_matrix(m);
        Ok(MdsMatrices { m: copy, m_inv, m_hat, m_hat_inv, m_prime, m_double_prime })
    }

    /// The Cauchy MDS matrix of the given width and its derived matrices.
    pub fn new(width: usize) -> (r: Result<MdsMatrices, ParamError>)
        ensures
            (2 <= width <= MAX_WIDTH) ==> (r matches Ok(d) ==> d.derived_from(mat_val(d.m@), width as nat)
                && is_cauchy(mat_val(d.m@), width as nat)),
            r matches Err(e) ==> if 2 <= width <= MAX_WIDTH {
                e == ParamError::SingularMatrix
            } else {
                e == ParamError::InvalidWidth
            },
    {
        if width < 2 || width > MAX_WIDTH {
            return Err(ParamError::InvalidWidth);
        }
        let m = cauchy_matrix(width);
        MdsMatrices::derive(&m)
    }
}

/// A sparse `n × n` matrix: its first column is `w_hat`, the rest of its first
/// row is `v_rest`, and the rest is the identity.
#[derive(Clone, Debug)]
pub struct SparseMatrix {
    pub w_hat: Vec<Fe>,
    pub v_rest: Vec<Fe>,
}

/// The dense form of a sparse matrix.
pub open spec fn sparse_spec(w_hat: Seq<int>, v_rest: Seq<int>, n: nat) -> Seq<Seq<int>> {
    Seq::new(
        n,
        |i: int|
            Seq::new(
                n,
                |j: int|
                    if j == 0 {
                        w_hat[i]
                    } else if i == 0 {
                        v_rest[j - 1]
                    } else if i == j {
                        1
                    } else {
                        0
                    },
            ),
    )
}

impl SparseMatrix {
    pub open spec fn wf(self, n: nat) -> bool {
        &&& n >= 1
        &&& self.w_hat@.len() == n
        &&& self.v_rest@.len() == n - 1
        &&& vec_wf(self.w_hat@)
        &&& vec_wf(self.v_rest@)
    }

    pub open spec fn dense(self, n: nat) -> Seq<Seq<int>> {
        sparse_spec(vec_val(self.w_hat@), vec_val(self.v_rest@), n)
    }

    /// The dense `n × n` form.
    pub fn to_dense(&self, n: usize) -> (r: Matrix)
        requires
            self.wf(n as nat),
        ensures
            square_wf(r@, n as nat),
            mat_val(r@) == self.dense(n as nat),
    {
        let mut r: Matrix = Vec::new();
        let mut i: usize = 0;
        while i < n
            invariant
                self.wf(n as nat),
                i <= n,
                r@.len() == i,
                forall|k: int| 0 <= k < i ==> #[trigger] r@[k]@.len() == n && vec_wf(r@[k]@),
                forall|k: int, l: int|
                    0 <= k < i && 0 <= l < n ==> (#[trigger] r@[k]@[l]).val() == self.dense(
                        n as nat,
                    )[k][l],
            decreases n - i,
        {
            let mut row: Vec<Fe> = Vec::new();
            let mut j: usize = 0;
            while j < n
                invariant
                    self.wf(n as nat),
                    i < n,
                    j <= n,
                    row@.len() == j,
                    vec_wf(row@),
                    forall|l: int|
                        0 <= l < j ==> (#[trigger] row@[l]).val() == self.dense(n as nat)[i as int][l],
                decreases n - j,
            {
                if j == 0 {
                    row.push(self.w_hat[i]);
                } else if i == 0 {
                    row.push(self.v_rest[j - 1]);
                } else if i == j {
                    row.push(Fe::one());
                } else {
                    row.push(Fe::zero());
                }
                j = j + 1;
            }
            r.push(row);
            i = i + 1;
        }
        assert(mat_val(r@) =~= self.dense(n as nat)) by {
            assert forall|k: int| 0 <= k < n implies mat_val(r@)[k] =~= self.dense(n as nat)[k] by {}
        }
        r
    }

    /// The sparse form of an `M''` matrix.
    pub fn from_double_prime(m: &Matrix) -> (r: SparseMatrix)
        requires
            (m@.len() as nat) >= 1,
            square_wf(m@, (m@.len() as nat)),
        ensures
            r.wf((m@.len() as nat)),
            vec_val(r.w_hat@) == column(mat_val(m@), 0),
            vec_val(r.v_rest@) == mat_val(m@)[0].subrange(1, (m@.len() as nat) as int),
    {
        let n: Ghost<nat> = Ghost(m@.len() as nat);
        let mut w_hat: Vec<Fe> = Vec::new();
        let mut i: usize = 0;
        while i < m.len()
            invariant
                i <= m@.len() == n@,
                square_wf(m@, n@),
                w_hat@.len() == i,
                vec_wf(w_hat@),
                forall|k: int| 0 <= k < i ==> #[trigger] w_hat@[k] == m@[k]@[0],
            decreases m.len() - i,
        {
            assert(vec_wf(m@[i as int]@));
            w_hat.push(m[i][0]);
            i = i + 1;
        }
        let mut v_rest: Vec<Fe> = Vec::new();
        let mut j: usize = 1;
        assert(vec_wf(m@[0]@));
        while j < m.len()
            invariant
                1 <= j <= m@.len() == n@,
                square_wf(m@, n@),
                vec_wf(m@[0]@),
                v_rest@.len() == j - 1,
                vec_wf(v_rest@),
                forall|k: int| 0 <= k < j - 1 ==> #[trigger] v_rest@[k] == m@[0]@[k + 1],
            decreases m.len() - j,
        {
            v_rest.push(m[0][j]);
            j = j + 1;
        }
        assert(vec_val(w_hat@) =~= column(mat_val(m@), 0));
        assert(vec_val(v_rest@) =~= mat_val(m@)[0].subrange(1, n@ as int));
        SparseMatrix { w_hat, v_rest }
    }
}

/// `b^k`, an `n × n` matrix.
pub open spec fn mat_pow(b: Seq<Seq<int>>, n: nat, k: nat) -> Seq<Seq<int>>
    decreases k,
{
    if k == 0 {
        identity(n)
    } else {
        mat_mul(mat_pow(b, n, (k - 1) as nat), b, n)
    }
}

/// `pre` followed by the first `k` sparse matrices, multiplied out.
pub open spec fn sparse_chain(pre: Seq<Seq<int>>, sparse: Seq<SparseMatrix>, n: nat, k: nat) -> Seq<
    Seq<int>,
>
    decreases k,
{
    if k == 0 {
        pre
    } else {
        mat_mul(sparse_chain(pre, sparse, n, (k - 1) as nat), sparse[k - 1].dense(n), n)
    }
}

/// The row vector `v` multiplied by the first `k` sparse matrices in turn.
pub open spec fn apply_sparse_chain(v: Seq<int>, sparse: Seq<SparseMatrix>, n: nat, k: nat) -> Seq<int>
    decreases k,
{
    if k == 0 {
        v
    } else {
        vec_mat(apply_sparse_chain(v, sparse, n, (k - 1) as nat), sparse[k - 1].dense(n), n)
    }
}

/// The row vector `v` multiplied by `b` `k` times in turn.
pub open spec fn apply_pow(v: Seq<int>, b: Seq<Seq<int>>, n: nat, k: nat) -> Seq<int>
    decreases k,
{
    if k == 0 {
        v
    } else {
        vec_mat(apply_pow(v, b, n, (k - 1) as nat), b, n)
    }
}

proof fn lemma_chain_as_product(v: Seq<int>, pre: Seq<Seq<int>>, sparse: Seq<SparseMatrix>, n: nat, k: nat)
    requires
        v.len() == n,
        pre.len() == n,
        forall|i: int| 0 <= i < n ==> #[trigger] pre[i].len() == n,
    ensures
        apply_sparse_chain(vec_mat(v, pre, n), sparse, n, k) == vec_mat(v, sparse_chain(pre, sparse, n, k), n),
        sparse_chain(pre, sparse, n, k).len() == n,
        forall|i: int| 0 <= i < n ==> #[trigger] sparse_chain(pre, sparse, n, k)[i].len() == n,
    decreases k,
{
    if k > 0 {
        lemma_chain_as_product(v, pre, sparse, n, (k - 1) as nat);
        lemma_vec_mat_assoc(v, sparse_chain(pre, sparse, n, (k - 1) as nat), sparse[k - 1].dense(n), n);
    }
}

proof fn lemma_pow_as_product(v: Seq<int>, b: Seq<Seq<int>>, n: nat, k: nat)
    requires
        v.len() == n,
        forall|i: int| 0 <= i < n ==> 0 <= #[trigger] v[i] < modulus(),
        b.len() == n,
        forall|i: int| 0 <= i < n ==> #[trigger] b[i].len() == n,
    ensures
        apply_pow(v, b, n, k) == vec_mat(v, mat_pow(b, n, k), n),
        mat_pow(b, n, k).len() == n,
        forall|i: int| 0 <= i < n ==> #[trigger] mat_pow(b, n, k)[i].len() == n,
    decreases k,
{
    if k == 0 {
        lemma_vec_mat_identity(v, n);
    } else {
        lemma_pow_as_product(v, b, n, (k - 1) as nat);
        lemma_vec_mat_assoc(v, mat_pow(b, n, (k - 1) as nat), b, n);
    }
}

/// Sparse factorization: when `pre` followed by the sparse matrices multiplies
/// out to `b^(k+1)`, multiplying any vector by `pre` and then by each sparse
/// matrix in turn gives the same as multiplying it by `b` `k + 1` times.
pub proof fn lemma_sparse_factorization(
    v: Seq<int>,
    pre: Seq<Seq<int>>,
    sparse: Seq<SparseMatrix>,
    b: Seq<Seq<int>>,
    n: nat,
    k: nat,
)
    requires
        v.len() == n,
        forall|i: int| 0 <= i < n ==> 0 <= #[trigger] v[i] < modulus(),
        pre.len() == n,
        forall|i: int| 0 <= i < n ==> #[trigger] pre[i].len() == n,
        b.len() == n,
        forall|i: int| 0 <= i < n ==> #[trigger] b[i].len() == n,
        sparse_chain(pre, sparse, n, k) == mat_pow(b, n, k + 1),
    ensures
        apply_sparse_chain(vec_mat(v, pre, n), sparse, n, k) == apply_pow(v, b, n, k + 1),
{
    lemma_chain_as_product(v, pre, sparse, n, k);
    lemma_pow_as_product(v, b, n, k + 1);
}

/// Factors `partial_rounds + 1` applications of `base` into one dense matrix
/// followed by `partial_rounds` sparse matrices.
pub fn factor_to_sparse_matrixes(base: &Matrix, partial_rounds: usize) -> (r: Result<
    (Matrix, Vec<SparseMatrix>),
    ParamError,
>)
    requires
        (base@.len() as nat) >= 2,
        square_wf(base@, (base@.len() as nat)),
    ensures
        r matches Ok((pre, sparse)) ==> square_wf(pre@, (base@.len() as nat)) && sparse@.len() == partial_rounds
            && (forall|k: int| 0 <= k < partial_rounds ==> (#[trigger] sparse@[k]).wf((base@.len() as nat)))
            && sparse_chain(mat_val(pre@), sparse@, base@.len() as nat, partial_rounds as nat)
            == mat_pow(mat_val(base@), base@.len() as nat, (partial_rounds + 1) as nat),
        r matches Err(e) ==> e == ParamError::SingularMatrix || e == ParamError::FactorizationMismatch,
{
    let n: Ghost<nat> = Ghost(base@.len() as nat);
    let mut curr: Matrix = copy_matrix(base);
    let mut acc: Vec<SparseMatrix> = Vec::new();
    let mut k: usize = 0;
    while k < partial_rounds
        invariant
            n@ >= 2,
            k <= partial_rounds,
            square_wf(base@, n@),
            square_wf(curr@, n@),
            acc@.len() == k,
            forall|i: int| 0 <= i < k ==> (#[trigger] acc@[i]).wf(n@),
        decreases partial_rounds - k,
    {
        let d = MdsMatrices::derive(&curr)?;
        acc.push(SparseMatrix::from_double_prime(&d.m_double_prime));
        curr = matrix_mul(base, &d.m_prime);
        k = k + 1;
    }
    // the last derived sparse matrix is applied first
    let mut sparse: Vec<SparseMatrix> = Vec::new();
    while acc.len() > 0
        invariant
            acc@.len() + sparse@.len() == partial_rounds,
            forall|i: int| 0 <= i < acc@.len() ==> (#[trigger] acc@[i]).wf(n@),
            forall|i: int| 0 <= i < sparse@.len() ==> (#[trigger] sparse@[i]).wf(n@),
        decreases acc.len(),
    {
        let s = acc.pop().unwrap();
        sparse.push(s);
    }
    // the factors multiply back to the power of the base matrix
    let size = base.len();
    let mut q = copy_matrix(&curr);
    let mut k: usize = 0;
    while k < sparse.len()
        invariant
            size == n@ >= 2,
            k <= sparse@.len() == partial_rounds,
            square_wf(curr@, n@),
            square_wf(q@, n@),
            forall|i: int| 0 <= i < sparse@.len() ==> (#[trigger] sparse@[i]).wf(n@),
            mat_val(q@) == sparse_chain(mat_val(curr@), sparse@, n@, k as nat),
        decreases sparse.len() - k,
    {
        let d = sparse[k].to_dense(size);
        q = matrix_mul(&q, &d);
        k = k + 1;
    }
    let mut pw = crate::matrix::identity_matrix(size);
    let mut k: usize = 0;
    while k < partial_rounds
        invariant
            size == n@ >= 2,
            k <= partial_rounds,
            square_wf(base@, n@),
            square_wf(pw@, n@),
            mat_val(pw@) == mat_pow(mat_val(base@), n@, k as nat),
        decreases partial_rounds - k,
    {
        pw = matrix_mul(&pw, base);
        k = k + 1;
    }
    pw = matrix_mul(&pw, base);
    if !matrix_eq(&q, &pw) {
        return Err(ParamError::FactorizationMismatch);
    }
    Ok((curr, sparse))
}

} // verus!
