//! Algebraic facts about the field's vector and matrix products.
use crate::field::modulus;
use crate::matrix::{column, dot, identity, mat_mul, vec_mat};
use vstd::arithmetic::div_mod::{
    lemma_add_mod_noop, lemma_mul_mod_noop_left, lemma_mul_mod_noop_right, lemma_small_mod,
};
use vstd::prelude::*;

verus! {

/// The inner product depends on the first vector's entries modulo the prime only.
pub proof fn lemma_dot_mod_left(a: Seq<int>, a2: Seq<int>, b: Seq<int>)
    requires
        a.len() == a2.len(),
        forall|i: int| 0 <= i < a.len() ==> #[trigger] (a[i] % modulus()) == a2[i] % modulus(),
    ensures
        dot(a, b) % modulus() == dot(a2, b) % modulus(),
    decreases a.len(),
{
    if a.len() > 0 {
        let l = a.len() - 1;
        lemma_dot_mod_left(a.drop_last(), a2.drop_last(), b);
        let p = modulus();
        lemma_add_mod_noop(dot(a.drop_last(), b), a[l] * b[l], p);
        lemma_add_mod_noop(dot(a2.drop_last(), b), a2[l] * b[l], p);
        lemma_mul_mod_noop_left(a[l], b[l], p);
        lemma_mul_mod_noop_left(a2[l], b[l], p);
    }
}

/// The inner product depends on the second vector's entries modulo the prime only.
pub proof fn lemma_dot_mod_right(a: Seq<int>, b: Seq<int>, b2: Seq<int>)
    requires
        a.len() <= b.len(),
        a.len() <= b2.len(),
        forall|i: int| 0 <= i < a.len() ==> #[trigger] (b[i] % modulus()) == b2[i] % modulus(),
    ensures
        dot(a, b) % modulus() == dot(a, b2) % modulus(),
    decreases a.len(),
{
    if a.len() > 0 {
        let l = a.len() - 1;
        lemma_dot_mod_right(a.drop_last(), b, b2);
        let p = modulus();
        lemma_add_mod_noop(dot(a.drop_last(), b), a[l] * b[l], p);
        lemma_add_mod_noop(dot(a.drop_last(), b2), a[l] * b2[l], p);
        lemma_mul_mod_noop_right(a[l], b[l], p);
        lemma_mul_mod_noop_right(a[l], b2[l], p);
    }
}

/// The inner product is linear in its first argument.
pub proof fn lemma_dot_linear(a: Seq<int>, x: Seq<int>, y: Seq<int>, s: int, c: Seq<int>)
    requires
        a.len() == x.len(),
        a.len() == y.len(),
        forall|k: int| 0 <= k < a.len() ==> #[trigger] a[k] == x[k] + s * y[k],
    ensures
        dot(a, c) == dot(x, c) + s * dot(y, c),
    decreases a.len(),
{
    if a.len() > 0 {
        let l = a.len() - 1;
        lemma_dot_linear(a.drop_last(), x.drop_last(), y.drop_last(), s, c);
        assert(a[l] * c[l] == x[l] * c[l] + s * (y[l] * c[l])) by (nonlinear_arith)
            requires
                a[l] == x[l] + s * y[l],
        ;
        assert(s * dot(y, c) == s * dot(y.drop_last(), c) + s * (y[l] * c[l])) by (nonlinear_arith)
            requires
                dot(y, c) == dot(y.drop_last(), c) + y[l] * c[l],
        ;
    }
}

proof fn lemma_dot_zero(a: Seq<int>, c: Seq<int>)
    requires
        forall|k: int| 0 <= k < a.len() ==> #[trigger] a[k] == 0,
    ensures
        dot(a, c) == 0,
    decreases a.len(),
{
    if a.len() > 0 {
        lemma_dot_zero(a.drop_last(), c);
    }
}

/// Exchange of the two sums in `v · A · c`, without reduction.
proof fn lemma_exchange(v: Seq<int>, a: Seq<Seq<int>>, c: Seq<int>, n: nat, m: int)
    requires
        v.len() == n,
        a.len() == n,
        c.len() == n,
        forall|i: int| 0 <= i < n ==> #[trigger] a[i].len() == n,
        0 <= m <= n,
    ensures
        dot(Seq::new(n, |k: int| dot(v.take(m), column(a, k))), c) == dot(
            v.take(m),
            Seq::new(n, |l: int| dot(a[l], c)),
        ),
    decreases m,
{
    let w = Seq::new(n, |l: int| dot(a[l], c));
    if m == 0 {
        lemma_dot_zero(Seq::new(n, |k: int| dot(v.take(0), column(a, k))), c);
    } else {
        lemma_exchange(v, a, c, n, m - 1);
        let x = Seq::new(n, |k: int| dot(v.take(m - 1), column(a, k)));
        let y = a[m - 1];
        let s = v[m - 1];
        let u = Seq::new(n, |k: int| dot(v.take(m), column(a, k)));
        assert forall|k: int| 0 <= k < n implies #[trigger] u[k] == x[k] + s * y[k] by {
            assert(v.take(m).drop_last() =~= v.take(m - 1));
            assert(column(a, k)[m - 1] == y[k]);
            assert(s * y[k] == v.take(m).last() * column(a, k)[m - 1]);
        }
        lemma_dot_linear(u, x, y, s, c);
        assert(v.take(m).drop_last() =~= v.take(m - 1));
    }
}

/// `(v · A) · B == v · (A · B)` in the field.
pub proof fn lemma_vec_mat_assoc(v: Seq<int>, a: Seq<Seq<int>>, b: Seq<Seq<int>>, n: nat)
    requires
        v.len() == n,
        a.len() == n,
        b.len() == n,
        forall|i: int| 0 <= i < n ==> #[trigger] a[i].len() == n,
        forall|i: int| 0 <= i < n ==> #[trigger] b[i].len() == n,
    ensures
        vec_mat(vec_mat(v, a, n), b, n) == vec_mat(v, mat_mul(a, b, n), n),
{
    let p = modulus();
    let lhs = vec_mat(vec_mat(v, a, n), b, n);
    let rhs = vec_mat(v, mat_mul(a, b, n), n);
    assert forall|j: int| 0 <= j < n implies lhs[j] == rhs[j] by {
        let c = column(b, j);
        let u = vec_mat(v, a, n);
        let u2 = Seq::new(n, |k: int| dot(v.take(n as int), column(a, k)));
        assert(v.take(n as int) =~= v);
        assert forall|k: int| 0 <= k < n implies #[trigger] (u[k] % p) == u2[k] % p by {
            vstd::arithmetic::div_mod::lemma_mod_twice(dot(v, column(a, k)), p);
        }
        lemma_dot_mod_left(u, u2, c);
        lemma_exchange(v, a, c, n, n as int);
        let w = Seq::new(n, |l: int| dot(a[l], c));
        let cab = column(mat_mul(a, b, n), j);
        assert forall|l: int| 0 <= l < n implies #[trigger] (w[l] % p) == cab[l] % p by {
            vstd::arithmetic::div_mod::lemma_mod_twice(dot(a[l], c), p);
        }
        lemma_dot_mod_right(v, w, cab);
    }
    assert(lhs =~= rhs);
}

/// Multiplying by the identity leaves a vector of field values unchanged.
pub proof fn lemma_vec_mat_identity(v: Seq<int>, n: nat)
    requires
        v.len() == n,
        forall|i: int| 0 <= i < n ==> 0 <= #[trigger] v[i] < modulus(),
    ensures
        vec_mat(v, identity(n), n) == v,
{
    assert forall|j: int| 0 <= j < n implies vec_mat(v, identity(n), n)[j] == v[j] by {
        let c = column(identity(n), j);
        lemma_dot_unit(v, c, j, n as int);
        assert(v.take(n as int) =~= v);
        lemma_small_mod(v[j] as nat, modulus() as nat);
    }
    assert(vec_mat(v, identity(n), n) =~= v);
}

proof fn lemma_dot_unit(v: Seq<int>, c: Seq<int>, j: int, m: int)
    requires
        c.len() == v.len(),
        0 <= j < v.len(),
        0 <= m <= v.len(),
        forall|i: int| 0 <= i < c.len() ==> #[trigger] c[i] == if i == j { 1int } else { 0int },
    ensures
        dot(v.take(m), c) == if m > j { v[j] } else { 0 },
    decreases m,
{
    if m > 0 {
        assert(v.take(m).drop_last() =~= v.take(m - 1));
        lemma_dot_unit(v, c, j, m - 1);
    }
}

} // verus!
