//! Row operations and matrix inversion by Gauss–Jordan elimination.
use crate::field::{modulus, Fe};
use crate::matrix::{
    identity, identity_matrix, mat_mul, mat_val, matrix_mul, square_wf, vec_val, vec_wf,
    Matrix,
};
use vstd::prelude::*;

verus! {

/// A row-major matrix with `rows` rows of `cols` canonical entries each.
pub open spec fn rect_wf(m: Seq<Vec<Fe>>, rows: nat, cols: nat) -> bool {
    &&& m.len() == rows
    &&& forall|i: int| 0 <= i < rows ==> #[trigger] m[i]@.len() == cols && vec_wf(m[i]@)
}

/// A copy of a vector.
pub fn copy_vec(v: &Vec<Fe>) -> (r: Vec<Fe>)
    ensures
        r@ == v@,
{
    let mut r: Vec<Fe> = Vec::new();
    let mut i: usize = 0;
    while i < v.len()
        invariant
            i <= v@.len(),
            r@ == v@.take(i as int),
        decreases v.len() - i,
    {
        r.push(v[i]);
        i = i + 1;
        assert(r@ =~= v@.take(i as int));
    }
    assert(v@.take(v@.len() as int) =~= v@);
    r
}

/// A copy of a matrix.
pub fn copy_matrix(m: &Matrix) -> (r: Matrix)
    ensures
        r@.len() == m@.len(),
        forall|k: int| 0 <= k < m@.len() ==> #[trigger] r@[k]@ == m@[k]@,
        mat_val(r@) == mat_val(m@),
{
    let mut r: Matrix = Vec::new();
    let mut i: usize = 0;
    while i < m.len()
        invariant
            i <= m@.len(),
            r@.len() == i,
            forall|k: int| 0 <= k < i ==> #[trigger] r@[k]@ == m@[k]@,
        decreases m.len() - i,
    {
        r.push(copy_vec(&m[i]));
        i = i + 1;
    }
    assert(mat_val(r@) =~= mat_val(m@)) by {
        assert forall|k: int| 0 <= k < m@.len() implies mat_val(r@)[k] == mat_val(m@)[k] by {
            assert(r@[k]@ == m@[k]@);
        }
    }
    r
}

/// Every entry of `v` multiplied by `c`.
pub fn scale_vec(v: &Vec<Fe>, c: &Fe) -> (r: Vec<Fe>)
    requires
        vec_wf(v@),
        c.wf(),
    ensures
        r@.len() == v@.len(),
        vec_wf(r@),
        forall|i: int|
            0 <= i < v@.len() ==> #[trigger] r@[i].val() == (v@[i].val() * c.val()) % modulus(),
{
    let mut r: Vec<Fe> = Vec::new();
    let mut i: usize = 0;
    while i < v.len()
        invariant
            i <= v@.len(),
            vec_wf(v@),
            c.wf(),
            r@.len() == i,
            vec_wf(r@),
            forall|k: int|
                0 <= k < i ==> #[trigger] r@[k].val() == (v@[k].val() * c.val()) % modulus(),
        decreases v.len() - i,
    {
        r.push(v[i].mul(c));
        i = i + 1;
    }
    r
}

/// `v - c·w`, entry by entry.
pub fn sub_scaled(v: &Vec<Fe>, w: &Vec<Fe>, c: &Fe) -> (r: Vec<Fe>)
    requires
        vec_wf(v@),
        vec_wf(w@),
        v@.len() == w@.len(),
        c.wf(),
    ensures
        r@.len() == v@.len(),
        vec_wf(r@),
{
    let mut r: Vec<Fe> = Vec::new();
    let mut i: usize = 0;
    while i < v.len()
        invariant
            i <= v@.len(),
            v@.len() == w@.len(),
            vec_wf(v@),
            vec_wf(w@),
            c.wf(),
            r@.len() == i,
            vec_wf(r@),
        decreases v.len() - i,
    {
        let t = w[i].mul(c);
        r.push(v[i].sub(&t));
        i = i + 1;
    }
    r
}

/// Whether two square matrices of the same size hold the same values.
pub fn matrix_eq(a: &Matrix, b: &Matrix) -> (r: bool)
    requires
        square_wf(a@, (a@.len() as nat)),
        square_wf(b@, (a@.len() as nat)),
    ensures
        r == (mat_val(a@) == mat_val(b@)),
{
    let n: Ghost<nat> = Ghost(a@.len() as nat);
    let mut i: usize = 0;
    while i < a.len()
        invariant
            i <= a@.len(),
            square_wf(a@, n@),
            square_wf(b@, n@),
            forall|k: int| 0 <= k < i ==> #[trigger] vec_val(a@[k]@) == vec_val(b@[k]@),
        decreases a.len() - i,
    {
        let mut j: usize = 0;
        while j < a[i].len()
            invariant
                i < a@.len(),
                j <= a@[i as int]@.len(),
                square_wf(a@, n@),
                square_wf(b@, n@),
                forall|l: int|
                    0 <= l < j ==> (#[trigger] a@[i as int]@[l]).val() == b@[i as int]@[l].val(),
            decreases a[i as int]@.len() - j,
        {
            assert(vec_wf(a@[i as int]@) && vec_wf(b@[i as int]@));
            if !a[i][j].same(&b[i][j]) {
                proof {
                    assert(mat_val(a@)[i as int][j as int] != mat_val(b@)[i as int][j as int]);
                }
                return false;
            }
            j = j + 1;
        }
        assert(vec_val(a@[i as int]@) =~= vec_val(b@[i as int]@));
        i = i + 1;
    }
    assert(mat_val(a@) =~= mat_val(b@)) by {
        assert forall|k: int| 0 <= k < a@.len() implies mat_val(a@)[k] == mat_val(b@)[k] by {}
    }
    true
}

/// The inverse of a square matrix, by Gauss–Jordan elimination. The result is
/// checked against the identity before it is returned: `None` means that the
/// matrix is singular.
pub fn invert(m: &Matrix) -> (r: Option<Matrix>)
    requires
        square_wf(m@, (m@.len() as nat)),
    ensures
        r matches Some(b) ==> square_wf(b@, (m@.len() as nat)) && mat_mul(mat_val(m@), mat_val(b@), (m@.len() as nat))
            == identity((m@.len() as nat)) && mat_mul(mat_val(b@), mat_val(m@), (m@.len() as nat))
            == identity((m@.len() as nat)),
{
    let n: Ghost<nat> = Ghost(m@.len() as nat);
    let size = m.len();
    if size >= usize::MAX / 2 {
        return None;
    }
    let id = identity_matrix(size);
    // the augmented matrix [m | id]
    let mut aug: Matrix = Vec::new();
    let mut i: usize = 0;
    while i < size
        invariant
            size == n@,
            size < usize::MAX / 2,
            i <= size,
            square_wf(m@, n@),
            square_wf(id@, n@),
            rect_wf(aug@, i as nat, 2 * n@),
        decreases size - i,
    {
        let mut row = copy_vec(&m[i]);
        let mut j: usize = 0;
        while j < size
            invariant
                size == n@,
                i < size,
                j <= size,
                square_wf(id@, n@),
                row@.len() == size + j,
                vec_wf(row@),
            decreases size - j,
        {
            assert(vec_wf(id@[i as int]@));
            row.push(id[i][j]);
            j = j + 1;
        }
        aug.push(row);
        i = i + 1;
    }
    let mut col: usize = 0;
    while col < size
        invariant
            size == n@,
            size < usize::MAX / 2,
            col <= size,
            square_wf(m@, n@),
            rect_wf(aug@, n@, 2 * n@),
        decreases size - col,
    {
        // find a pivot
        let mut p: usize = col;
        while p < size && aug[p][col].is_zero()
            invariant
                col <= p <= size,
                size == n@,
                col < size,
                rect_wf(aug@, n@, 2 * n@),
            decreases size - p,
        {
            p = p + 1;
        }
        if p == size {
            return None;
        }
        assert(vec_wf(aug@[p as int]@));
        let piv = aug[p][col];
        let inv = match piv.inverse() {
            Some(x) => x,
            None => {
                return None;
            },
        };
        let pivot_row = scale_vec(&aug[p], &inv);
        let old_col = copy_vec(&aug[col]);
        aug.set(p, old_col);
        aug.set(col, pivot_row);
        let mut k: usize = 0;
        while k < size
            invariant
                size == n@,
                col < size,
                k <= size,
                rect_wf(aug@, n@, 2 * n@),
            decreases size - k,
        {
            if k != col {
                let f = aug[k][col];
                if !f.is_zero() {
                    let new_row = sub_scaled(&aug[k], &aug[col], &f);
                    aug.set(k, new_row);
                }
            }
            k = k + 1;
        }
        col = col + 1;
    }
    // the right half is the candidate inverse
    let mut b: Matrix = Vec::new();
    let mut i: usize = 0;
    while i < size
        invariant
            size == n@,
            size < usize::MAX / 2,
            i <= size,
            rect_wf(aug@, n@, 2 * n@),
            b@.len() == i,
            forall|k: int| 0 <= k < i ==> #[trigger] b@[k]@.len() == n@ && vec_wf(b@[k]@),
        decreases size - i,
    {
        let mut row: Vec<Fe> = Vec::new();
        let mut j: usize = 0;
        while j < size
            invariant
                size == n@,
                size < usize::MAX / 2,
                i < size,
                j <= size,
                rect_wf(aug@, n@, 2 * n@),
                row@.len() == j,
                vec_wf(row@),
            decreases size - j,
        {
            assert(vec_wf(aug@[i as int]@));
            row.push(aug[i][size + j]);
            j = j + 1;
        }
        b.push(row);
        i = i + 1;
    }
    let prod = matrix_mul(m, &b);
    let prod_left = matrix_mul(&b, m);
    if matrix_eq(&prod, &id) && matrix_eq(&prod_left, &id) {
        Some(b)
    } else {
        None
    }
}

} // verus!
