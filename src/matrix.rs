//! Dense vectors and matrices of field elements, with their arithmetic.
use crate::field::{modulus, Fe};
use vstd::arithmetic::div_mod::{lemma_add_mod_noop, lemma_small_mod};
use vstd::prelude::*;

verus! {

pub type Matrix = Vec<Vec<Fe>>;

/// The values of a vector of field elements.
pub open spec fn vec_val(v: Seq<Fe>) -> Seq<int> {
    v.map_values(|x: Fe| x.val())
}

/// The values of a matrix of field elements, row by row.
pub open spec fn mat_val(m: Seq<Vec<Fe>>) -> Seq<Seq<int>> {
    m.map_values(|r: Vec<Fe>| vec_val(r@))
}

pub open spec fn vec_wf(v: Seq<Fe>) -> bool {
    forall|i: int| 0 <= i < v.len() ==> #[trigger] v[i].wf()
}

/// A square `n × n` matrix in canonical form.
pub open spec fn square_wf(m: Seq<Vec<Fe>>, n: nat) -> bool {
    &&& m.len() == n
    &&& forall|i: int| 0 <= i < n ==> #[trigger] m[i]@.len() == n && vec_wf(m[i]@)
}

/// The integer inner product of the first `a.len()` entries.
pub open spec fn dot(a: Seq<int>, b: Seq<int>) -> int
    decreases a.len(),
{
    if a.len() == 0 {
        0
    } else {
        dot(a.drop_last(), b) + a.last() * b[a.len() - 1]
    }
}

pub open spec fn column(m: Seq<Seq<int>>, j: int) -> Seq<int> {
    Seq::new(m.len(), |i: int| m[i][j])
}

/// The matrix applied to a column vector, in the field.
pub open spec fn mat_vec(m: Seq<Seq<int>>, v: Seq<int>) -> Seq<int> {
    Seq::new(m.len(), |i: int| dot(m[i], v) % modulus())
}

/// A row vector multiplied by a matrix, in the field.
pub open spec fn vec_mat(v: Seq<int>, m: Seq<Seq<int>>, n: nat) -> Seq<int> {
    Seq::new(n, |j: int| dot(v, column(m, j)) % modulus())
}

/// The product of two `n × n` matrices, in the field.
pub open spec fn mat_mul(a: Seq<Seq<int>>, b: Seq<Seq<int>>, n: nat) -> Seq<Seq<int>> {
    Seq::new(n, |i: int| Seq::new(n, |j: int| dot(a[i], column(b, j)) % modulus()))
}

pub open spec fn identity(n: nat) -> Seq<Seq<int>> {
    Seq::new(n, |i: int| Seq::new(n, |j: int| if i == j { 1int } else { 0int }))
}

/// The inner product of two vectors, in the field.
pub fn inner_product(a: &Vec<Fe>, b: &Vec<Fe>) -> (r: Fe)
    requires
        a@.len() <= b@.len(),
        vec_wf(a@),
        vec_wf(b@),
    ensures
        r.wf(),
        r.val() == dot(vec_val(a@), vec_val(b@)) % modulus(),
{
    let mut acc = Fe::zero();
    let mut k: usize = 0;
    while k < a.len()
        invariant
            k <= a@.len() <= b@.len(),
            vec_wf(a@),
            vec_wf(b@),
            acc.wf(),
            acc.val() == dot(vec_val(a@).take(k as int), vec_val(b@)) % modulus(),
        decreases a.len() - k,
    {
        let p = a[k].mul(&b[k]);
        proof {
            let av = vec_val(a@);
            let bv = vec_val(b@);
            assert(av.take(k + 1).drop_last() =~= av.take(k as int));
            let d = dot(av.take(k as int), bv);
            lemma_add_mod_noop(d, av[k as int] * bv[k as int], modulus());
            lemma_small_mod(p.val() as nat, modulus() as nat);
        }
        acc = acc.add(&p);
        k = k + 1;
    }
    proof {
        assert(vec_val(a@).take(a@.len() as int) =~= vec_val(a@));
    }
    acc
}

/// The matrix applied to a column vector.
pub fn apply_matrix(m: &Matrix, v: &Vec<Fe>) -> (r: Vec<Fe>)
    requires
        square_wf(m@, v@.len()),
        vec_wf(v@),
    ensures
        r@.len() == v@.len(),
        vec_wf(r@),
        vec_val(r@) == mat_vec(mat_val(m@), vec_val(v@)),
{
    let mut r: Vec<Fe> = Vec::new();
    let mut i: usize = 0;
    while i < m.len()
        invariant
            i <= m@.len(),
            square_wf(m@, v@.len()),
            vec_wf(v@),
            r@.len() == i,
            vec_wf(r@),
            forall|k: int|
                0 <= k < i ==> #[trigger] r@[k].val() == dot(vec_val(m@[k]@), vec_val(v@))
                    % modulus(),
        decreases m.len() - i,
    {
        let x = inner_product(&m[i], v);
        r.push(x);
        i = i + 1;
    }
    assert(vec_val(r@) =~= mat_vec(mat_val(m@), vec_val(v@)));
    r
}

/// Column `j` of a matrix.
pub fn column_of(m: &Matrix, j: usize) -> (r: Vec<Fe>)
    requires
        square_wf(m@, (m@.len() as nat)),
        j < (m@.len() as nat),
    ensures
        r@.len() == (m@.len() as nat),
        vec_wf(r@),
        vec_val(r@) == column(mat_val(m@), j as int),
{
    let n: Ghost<nat> = Ghost(m@.len() as nat);
    let mut r: Vec<Fe> = Vec::new();
    let mut i: usize = 0;
    while i < m.len()
        invariant
            i <= m@.len(),
            square_wf(m@, n@),
            j < n@,
            r@.len() == i,
            vec_wf(r@),
            forall|k: int| 0 <= k < i ==> #[trigger] r@[k] == m@[k]@[j as int],
        decreases m.len() - i,
    {
        r.push(m[i][j]);
        i = i + 1;
    }
    assert(vec_val(r@) =~= column(mat_val(m@), j as int));
    r
}

/// The product `a · b` of two square matrices of the same size.
pub fn matrix_mul(a: &Matrix, b: &Matrix) -> (r: Matrix)
    requires
        square_wf(a@, (a@.len() as nat)),
        square_wf(b@, (a@.len() as nat)),
    ensures
        square_wf(r@, (a@.len() as nat)),
        mat_val(r@) == mat_mul(mat_val(a@), mat_val(b@), (a@.len() as nat)),
{
    let n: Ghost<nat> = Ghost(a@.len() as nat);
    let size = a.len();
    let mut r: Matrix = Vec::new();
    let mut i: usize = 0;
    while i < size
        invariant
            size == n@,
            i <= size,
            square_wf(a@, n@),
            square_wf(b@, n@),
            r@.len() == i,
            forall|k: int| 0 <= k < i ==> #[trigger] r@[k]@.len() == n@ && vec_wf(r@[k]@),
            forall|k: int, l: int|
                0 <= k < i && 0 <= l < n@ ==> (#[trigger] r@[k]@[l]).val() == dot(
                    mat_val(a@)[k],
                    column(mat_val(b@), l),
                ) % modulus(),
        decreases size - i,
    {
        let mut row: Vec<Fe> = Vec::new();
        let mut j: usize = 0;
        while j < size
            invariant
                size == n@,
                i < size,
                j <= size,
                square_wf(a@, n@),
                square_wf(b@, n@),
                row@.len() == j,
                vec_wf(row@),
                forall|l: int|
                    0 <= l < j ==> (#[trigger] row@[l]).val() == dot(
                        mat_val(a@)[i as int],
                        column(mat_val(b@), l),
                    ) % modulus(),
            decreases size - j,
        {
            let c = column_of(b, j);
            assert(a@[i as int]@.len() == n@);
            let x = inner_product(&a[i], &c);
            row.push(x);
            j = j + 1;
        }
        r.push(row);
        i = i + 1;
    }
    assert(mat_val(r@) =~= mat_mul(mat_val(a@), mat_val(b@), n@)) by {
        assert forall|k: int| 0 <= k < n@ implies mat_val(r@)[k] =~= mat_mul(
            mat_val(a@),
            mat_val(b@),
            n@,
        )[k] by {}
    }
    r
}

/// The row vector `v` multiplied by the square matrix `m`.
pub fn left_apply(v: &Vec<Fe>, m: &Matrix) -> (r: Vec<Fe>)
    requires
        square_wf(m@, v@.len()),
        vec_wf(v@),
    ensures
        r@.len() == v@.len(),
        vec_wf(r@),
        vec_val(r@) == vec_mat(vec_val(v@), mat_val(m@), v@.len()),
{
    let n: Ghost<nat> = Ghost(v@.len());
    let mut r: Vec<Fe> = Vec::new();
    let mut j: usize = 0;
    while j < v.len()
        invariant
            n@ == v@.len(),
            j <= v@.len(),
            square_wf(m@, n@),
            vec_wf(v@),
            r@.len() == j,
            vec_wf(r@),
            forall|l: int|
                0 <= l < j ==> (#[trigger] r@[l]).val() == dot(
                    vec_val(v@),
                    column(mat_val(m@), l),
                ) % modulus(),
        decreases v.len() - j,
    {
        let c = column_of(m, j);
        let x = inner_product(v, &c);
        r.push(x);
        j = j + 1;
    }
    assert(vec_val(r@) =~= vec_mat(vec_val(v@), mat_val(m@), v@.len()));
    r
}

/// The `n × n` identity matrix.
pub fn identity_matrix(n: usize) -> (r: Matrix)
    ensures
        square_wf(r@, n as nat),
        mat_val(r@) == identity(n as nat),
{
    let mut r: Matrix = Vec::new();
    let mut i: usize = 0;
    while i < n
        invariant
            i <= n,
            r@.len() == i,
            forall|k: int| 0 <= k < i ==> #[trigger] r@[k]@.len() == n && vec_wf(r@[k]@),
            forall|k: int, l: int|
                0 <= k < i && 0 <= l < n ==> (#[trigger] r@[k]@[l]).val() == if k == l {
                    1int
                } else {
                    0int
                },
        decreases n - i,
    {
        let mut row: Vec<Fe> = Vec::new();
        let mut j: usize = 0;
        while j < n
            invariant
                i < n,
                j <= n,
                row@.len() == j,
                vec_wf(row@),
                forall|l: int|
                    0 <= l < j ==> (#[trigger] row@[l]).val() == if i == l {
                        1int
                    } else {
                        0int
                    },
            decreases n - j,
        {
            if i == j {
                row.push(Fe::one());
            } else {
                row.push(Fe::zero());
            }
            j = j + 1;
        }
        r.push(row);
        i = i + 1;
    }
    assert(mat_val(r@) =~= identity(n as nat)) by {
        assert forall|k: int| 0 <= k < n implies mat_val(r@)[k] =~= identity(n as nat)[k] by {}
    }
    r
}

} // verus!
