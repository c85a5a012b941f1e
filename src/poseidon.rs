//! Evaluation of the Poseidon permutation with a parameter set: the plain
//! schedule over the dense MDS matrix, and the optimized schedule over the
//! compressed constants and the sparse matrices.
use crate::constants::PoseidonConstants;
use crate::field::{modulus, Fe};
use crate::matrix::{
    column, dot, inner_product, left_apply, mat_val, square_wf, vec_mat, vec_val, vec_wf,
};
use vstd::arithmetic::div_mod::{lemma_add_mod_noop, lemma_small_mod};
use crate::mds::{sparse_spec, SparseMatrix};
use vstd::prelude::*;

verus! {

proof fn lemma_mul_le(w: int, a: int, b: int)
    requires
        0 <= w,
        a <= b,
    ensures
        w * a <= w * b,
{
    assert(w * a <= w * b) by (nonlinear_arith)
        requires
            0 <= w,
            a <= b,
    ;
}

proof fn lemma_split(w: int, a: int, b: int)
    ensures
        w * a + w * b == w * (a + b),
{
    assert(w * a + w * b == w * (a + b)) by (nonlinear_arith);
}

proof fn lemma_step(w: int, m: int)
    ensures
        w * (m + 1) == w * m + w,
{
    assert(w * (m + 1) == w * m + w) by (nonlinear_arith);
}

/// `x^5 mod p`.
pub open spec fn quintic_spec(x: int) -> int {
    (x * x * x * x * x) % modulus()
}

/// The constants `c[off..]` added to the state, entry by entry.
pub open spec fn add_spec(s: Seq<int>, c: Seq<int>, off: int) -> Seq<int> {
    Seq::new(s.len(), |i: int| (s[i] + c[off + i]) % modulus())
}

/// The S-box applied to every entry (`all`) or to the first entry only.
pub open spec fn sbox_spec(s: Seq<int>, all: bool) -> Seq<int> {
    Seq::new(s.len(), |i: int| if all || i == 0 { quintic_spec(s[i]) } else { s[i] })
}

/// The S-box `x ↦ x^5`.
pub fn quintic(x: &Fe) -> (r: Fe)
    requires
        x.wf(),
    ensures
        r.wf(),
        r.val() == quintic_spec(x.val()),
{
    let x2 = x.mul(x);
    let x4 = x2.mul(&x2);
    let r = x4.mul(x);
    proof {
        let a = x.val();
        let p = modulus();
        vstd::arithmetic::div_mod::lemma_mul_mod_noop(a * a, a * a, p);
        vstd::arithmetic::div_mod::lemma_mul_mod_noop(a * a * a * a, a, p);
        vstd::arithmetic::div_mod::lemma_small_mod(a as nat, p as nat);
        assert(a * a * (a * a) == a * a * a * a) by (nonlinear_arith);
    }
    r
}

proof fn lemma_dot_sparse_column(s: Seq<int>, col: Seq<int>, j: int, v: int, k: int)
    requires
        col.len() == s.len(),
        1 <= j < s.len(),
        0 <= k <= s.len(),
        col[0] == v,
        col[j] == 1,
        forall|i: int| 0 <= i < s.len() && i != 0 && i != j ==> col[i] == 0,
    ensures
        dot(s.take(k), col) == (if k > 0 { s[0] * v } else { 0 }) + (if k > j { s[j] } else { 0 }),
    decreases k,
{
    if k > 0 {
        assert(s.take(k).drop_last() =~= s.take(k - 1));
        lemma_dot_sparse_column(s, col, j, v, k - 1);
    }
}

proof fn lemma_sparse_entry(sv: Seq<int>, w_hat: Seq<int>, v_rest: Seq<int>, j: int)
    requires
        w_hat.len() == sv.len(),
        v_rest.len() == sv.len() - 1,
        1 <= j < sv.len(),
        0 <= sv[j] < modulus(),
    ensures
        (sv[j] + (v_rest[j - 1] * sv[0]) % modulus()) % modulus() == dot(
            sv,
            column(sparse_spec(w_hat, v_rest, sv.len()), j),
        ) % modulus(),
{
    let n = sv.len();
    let col = column(sparse_spec(w_hat, v_rest, n), j);
    let v = v_rest[j - 1];
    assert(col[0] == v);
    assert(col[j] == 1);
    lemma_dot_sparse_column(sv, col, j, v, n as int);
    assert(sv.take(n as int) =~= sv);
    lemma_add_mod_noop(sv[j], v * sv[0], modulus());
    lemma_small_mod(sv[j] as nat, modulus() as nat);
    assert(v * sv[0] == sv[0] * v) by (nonlinear_arith);
}

/// The row vector `s` multiplied by the dense form of a sparse matrix.
pub fn apply_sparse(s: &Vec<Fe>, m: &SparseMatrix) -> (r: Vec<Fe>)
    requires
        m.wf(s@.len()),
        vec_wf(s@),
    ensures
        r@.len() == s@.len(),
        vec_wf(r@),
        vec_val(r@) == vec_mat(vec_val(s@), m.dense(s@.len()), s@.len()),
{
    let ghost n = s@.len();
    let ghost d = m.dense(n);
    let first = inner_product(s, &m.w_hat);
    proof {
        assert(column(d, 0) =~= vec_val(m.w_hat@));
    }
    let mut r: Vec<Fe> = Vec::new();
    r.push(first);
    let mut j: usize = 1;
    while j < s.len()
        invariant
            n == s@.len(),
            d == m.dense(n),
            1 <= j <= s@.len(),
            m.wf(s@.len()),
            vec_wf(s@),
            r@.len() == j,
            vec_wf(r@),
            forall|l: int|
                0 <= l < j ==> #[trigger] r@[l].val() == dot(vec_val(s@), column(d, l))
                    % modulus(),
        decreases s.len() - j,
    {
        let t = m.v_rest[j - 1].mul(&s[0]);
        let x = s[j].add(&t);
        proof {
            assert(s@[j as int].wf());
            lemma_sparse_entry(vec_val(s@), vec_val(m.w_hat@), vec_val(m.v_rest@), j as int);
        }
        r.push(x);
        j = j + 1;
    }
    assert(vec_val(r@) =~= vec_mat(vec_val(s@), d, n));
    r
}

impl PoseidonConstants {
    /// Whether round `k` is a full round.
    pub open spec fn is_full_round(self, k: int) -> bool {
        k < self.half_full_rounds || k >= self.half_full_rounds + self.partial_rounds
    }

    /// The first `k` rounds of the plain schedule applied to the state `s`.
    pub open spec fn plain_rounds(self, s: Seq<int>, k: nat) -> Seq<int>
        decreases k,
    {
        if k == 0 {
            s
        } else {
            let t = self.plain_rounds(s, (k - 1) as nat);
            let a = add_spec(t, vec_val(self.round_constants@), (k - 1) * self.width);
            vec_mat(
                sbox_spec(a, self.is_full_round(k - 1)),
                mat_val(self.mds_matrices.m@),
                self.width as nat,
            )
        }
    }

    pub open spec fn cvals(self) -> Seq<int> {
        vec_val(self.compressed_round_constants@)
    }

    /// `j` more full rounds of the first half, with constants from `off` on; the
    /// last of them multiplies by the matrix before the sparse ones.
    pub open spec fn first_rounds(self, t: Seq<int>, off: int, j: nat) -> Seq<int>
        decreases j,
    {
        if j == 0 {
            t
        } else {
            let b = add_spec(sbox_spec(t, true), self.cvals(), off);
            let m = if j == 1 {
                mat_val(self.pre_sparse_matrix@)
            } else {
                mat_val(self.mds_matrices.m@)
            };
            self.first_rounds(vec_mat(b, m, self.width as nat), off + self.width, (j - 1) as nat)
        }
    }

    /// `j` more partial rounds from the `k`-th sparse matrix on, with constants
    /// from `off` on.
    pub open spec fn partial_rounds_from(self, t: Seq<int>, off: int, k: nat, j: nat) -> Seq<int>
        decreases j,
    {
        if j == 0 {
            t
        } else {
            let a = t.update(0, (quintic_spec(t[0]) + self.cvals()[off]) % modulus());
            self.partial_rounds_from(
                vec_mat(a, self.sparse_matrixes@[k as int].dense(self.width as nat), self.width as nat),
                off + 1,
                k + 1,
                (j - 1) as nat,
            )
        }
    }

    /// `j` more full rounds of the second half, with constants from `off` on;
    /// the last of them adds none.
    pub open spec fn last_rounds(self, t: Seq<int>, off: int, j: nat) -> Seq<int>
        decreases j,
    {
        if j == 0 {
            t
        } else {
            let a = sbox_spec(t, true);
            let b = if j > 1 {
                add_spec(a, self.cvals(), off)
            } else {
                a
            };
            self.last_rounds(
                vec_mat(b, mat_val(self.mds_matrices.m@), self.width as nat),
                off + self.width,
                (j - 1) as nat,
            )
        }
    }

    /// The hash of the inputs: the second entry of the permuted state that
    /// starts with the domain tag.
    pub open spec fn hash_spec(self, inputs: Seq<int>) -> int {
        self.optimized(seq![self.domain_tag.val()] + inputs)[1]
    }

    /// The optimized schedule applied to the state `s`.
    pub open spec fn optimized(self, s: Seq<int>) -> Seq<int> {
        let w = self.width as int;
        let h = self.half_full_rounds as int;
        let p = self.partial_rounds as int;
        let t1 = self.first_rounds(add_spec(s, self.cvals(), 0), w, h as nat);
        let t2 = self.partial_rounds_from(t1, w * (h + 1), 0, p as nat);
        self.last_rounds(t2, w * (h + 1) + p, h as nat)
    }

    /// Adds the constants at `offset`, one to each entry of the state.
    fn add_constants(&self, s: &Vec<Fe>, c: &Vec<Fe>, offset: usize) -> (r: Vec<Fe>)
        requires
            offset + s@.len() <= c@.len(),
            vec_wf(s@),
            vec_wf(c@),
        ensures
            r@.len() == s@.len(),
            vec_wf(r@),
            vec_val(r@) == add_spec(vec_val(s@), vec_val(c@), offset as int),
    {
        let clen = c.len();
        let mut r: Vec<Fe> = Vec::new();
        let mut i: usize = 0;
        while i < s.len()
            invariant
                i <= s@.len(),
                clen == c@.len(),
                offset + s@.len() <= c@.len(),
                vec_wf(s@),
                vec_wf(c@),
                r@.len() == i,
                vec_wf(r@),
                forall|k: int|
                    0 <= k < i ==> #[trigger] r@[k].val() == (s@[k].val() + c@[offset + k].val())
                        % modulus(),
            decreases s.len() - i,
        {
            r.push(s[i].add(&c[offset + i]));
            i = i + 1;
        }
        assert(vec_val(r@) =~= add_spec(vec_val(s@), vec_val(c@), offset as int));
        r
    }

    /// The S-box on every entry (`all`) or on the first entry only.
    fn sbox_layer(&self, s: &Vec<Fe>, all: bool) -> (r: Vec<Fe>)
        requires
            vec_wf(s@),
        ensures
            r@.len() == s@.len(),
            vec_wf(r@),
            vec_val(r@) == sbox_spec(vec_val(s@), all),
    {
        let mut r: Vec<Fe> = Vec::new();
        let mut i: usize = 0;
        while i < s.len()
            invariant
                i <= s@.len(),
                vec_wf(s@),
                r@.len() == i,
                vec_wf(r@),
                forall|k: int|
                    0 <= k < i ==> #[trigger] r@[k].val() == sbox_spec(vec_val(s@), all)[k],
            decreases s.len() - i,
        {
            if all || i == 0 {
                r.push(quintic(&s[i]));
            } else {
                r.push(s[i]);
            }
            i = i + 1;
        }
        assert(vec_val(r@) =~= sbox_spec(vec_val(s@), all));
        r
    }

    /// The permutation by its plain schedule: each round adds its constants,
    /// applies the S-box (to every entry in a full round, to the first in a
    /// partial round) and multiplies by the MDS matrix.
    pub fn permute_unoptimized(&self, state: &Vec<Fe>) -> (r: Vec<Fe>)
        requires
            self.wf(),
            state@.len() == self.width,
            vec_wf(state@),
        ensures
            r@.len() == self.width,
            vec_wf(r@),
            vec_val(r@) == self.plain_rounds(
                vec_val(state@),
                (self.full_rounds + self.partial_rounds) as nat,
            ),
    {
        let w = self.width;
        let rounds = self.full_rounds + self.partial_rounds;
        let rclen = self.round_constants.len();
        let mut s = crate::linalg::copy_vec(state);
        let mut k: usize = 0;
        while k < rounds
            invariant
                rclen == self.round_constants@.len(),
                self.wf(),
                w == self.width,
                rounds == self.full_rounds + self.partial_rounds,
                k <= rounds,
                s@.len() == w,
                vec_wf(s@),
                vec_val(s@) == self.plain_rounds(vec_val(state@), k as nat),
            decreases rounds - k,
        {
            proof {
                lemma_mul_le(w as int, k + 1, rounds as int);
                lemma_step(w as int, k as int);
                assert(k * w == w * k) by (nonlinear_arith);
            }
            let a = self.add_constants(&s, &self.round_constants, k * w);
            let full = k < self.half_full_rounds || k >= self.half_full_rounds
                + self.partial_rounds;
            let b = self.sbox_layer(&a, full);
            s = left_apply(&b, &self.mds_matrices.m);
            k = k + 1;
        }
        s
    }

    /// The permutation by its optimized schedule: the compressed constants, the
    /// matrix before the sparse ones at the end of the first full rounds, and
    /// one sparse matrix per partial round.
    pub fn permute(&self, state: &Vec<Fe>) -> (r: Vec<Fe>)
        requires
            self.wf(),
            state@.len() == self.width,
            vec_wf(state@),
        ensures
            r@.len() == self.width,
            vec_wf(r@),
            vec_val(r@) == self.optimized(vec_val(state@)),
    {
        let w = self.width;
        let h = self.half_full_rounds;
        let c = &self.compressed_round_constants;
        let clen = c.len();
        proof {
            lemma_mul_le(w as int, 1, self.full_rounds as int);
            lemma_step(w as int, 0);
        }
        let mut s = self.add_constants(state, c, 0);
        let ghost t0 = vec_val(s@);
        let mut offset: usize = w;
        let mut k: usize = 0;
        while k < h
            invariant
                self.first_rounds(vec_val(s@), offset as int, (h - k) as nat) == self.first_rounds(
                    t0,
                    w as int,
                    h as nat,
                ),
                self.wf(),
                w == self.width,
                h == self.half_full_rounds,
                c == &self.compressed_round_constants,
                clen == c@.len(),
                k <= h,
                offset == w * (k + 1),
                s@.len() == w,
                vec_wf(s@),
            decreases h - k,
        {
            proof {
                lemma_mul_le(w as int, k + 2, self.full_rounds as int);
                lemma_step(w as int, k + 1);
            }
            let a = self.sbox_layer(&s, true);
            let b = self.add_constants(&a, c, offset);
            offset = offset + w;
            if k + 1 == h {
                s = left_apply(&b, &self.pre_sparse_matrix);
            } else {
                s = left_apply(&b, &self.mds_matrices.m);
            }
            k = k + 1;
        }
        proof {
            lemma_step(w as int, (h - 1) as int);
        }
        let ghost t1 = vec_val(s@);
        let mut k: usize = 0;
        while k < self.partial_rounds
            invariant
                self.partial_rounds_from(vec_val(s@), offset as int, k as nat, (self.partial_rounds - k) as nat)
                    == self.partial_rounds_from(t1, w * (h + 1), 0, self.partial_rounds as nat),
                self.wf(),
                w == self.width,
                h == self.half_full_rounds,
                c == &self.compressed_round_constants,
                clen == c@.len(),
                k <= self.partial_rounds,
                offset == w * (h + 1) + k,
                s@.len() == w,
                vec_wf(s@),
            decreases self.partial_rounds - k,
        {
            proof {
                lemma_mul_le(w as int, h + 1, self.full_rounds as int);
            }
            let mut a = crate::linalg::copy_vec(&s);
            let x = quintic(&s[0]).add(&c[offset]);
            a.set(0, x);
            proof {
                assert(vec_val(a@) =~= vec_val(s@).update(
                    0,
                    (quintic_spec(vec_val(s@)[0]) + self.cvals()[offset as int]) % modulus(),
                ));
            }
            offset = offset + 1;
            s = apply_sparse(&a, &self.sparse_matrixes[k]);
            k = k + 1;
        }
        proof {
            lemma_step(w as int, h as int);
            lemma_split(w as int, (h + 1) as int, (h - 1) as int);
            assert(clen == w * self.full_rounds + self.partial_rounds);
        }
        let ghost t2 = vec_val(s@);
        let ghost offset_start = offset;
        let mut needed: usize = h - 1;
        let mut k: usize = 0;
        while k < h
            invariant
                self.last_rounds(vec_val(s@), offset as int, (h - k) as nat) == self.last_rounds(
                    t2,
                    offset_start as int,
                    h as nat,
                ),
                square_wf(self.mds_matrices.m@, w as nat),
                c == &self.compressed_round_constants,
                w == self.width,
                vec_wf(c@),
                clen == c@.len(),
                k <= h,
                k < h ==> needed == h - 1 - k,
                offset + w * needed == clen,
                s@.len() == w,
                vec_wf(s@),
            decreases h - k,
        {
            let ghost old_s = vec_val(s@);
            let ghost old_off = offset as int;
            let a = self.sbox_layer(&s, true);
            if k + 1 < h {
                proof {
                    lemma_mul_le(w as int, 1, needed as int);
                    lemma_step(w as int, needed - 1);
                }
                let b = self.add_constants(&a, c, offset);
                offset = offset + w;
                needed = needed - 1;
                s = left_apply(&b, &self.mds_matrices.m);
                proof {
                    assert(vec_val(s@) == vec_mat(
                        add_spec(sbox_spec(old_s, true), self.cvals(), old_off),
                        mat_val(self.mds_matrices.m@),
                        w as nat,
                    ));
                    assert(self.last_rounds(old_s, old_off, (h - k) as nat) == self.last_rounds(
                        vec_val(s@),
                        offset as int,
                        (h - k - 1) as nat,
                    ));
                }
            } else {
                let ghost off = offset as int;
                s = left_apply(&a, &self.mds_matrices.m);
                proof {
                    assert(vec_val(s@) == vec_mat(
                        sbox_spec(old_s, true),
                        mat_val(self.mds_matrices.m@),
                        w as nat,
                    ));
                    assert(self.last_rounds(vec_val(s@), off + w, 0) == vec_val(s@));
                    assert(self.last_rounds(old_s, old_off, 1) == vec_val(s@));
                }
            }
            k = k + 1;
        }
        s
    }

    /// The initial state for hashing: the domain tag followed by the inputs.
    pub fn initial_state(&self, inputs: &Vec<Fe>) -> (r: Vec<Fe>)
        requires
            self.wf(),
            inputs@.len() + 1 == self.width,
            vec_wf(inputs@),
        ensures
            r@ == seq![self.domain_tag] + inputs@,
            vec_wf(r@),
    {
        let mut r: Vec<Fe> = Vec::new();
        r.push(self.domain_tag);
        let mut i: usize = 0;
        while i < inputs.len()
            invariant
                i <= inputs@.len(),
                r@ == seq![self.domain_tag] + inputs@.subrange(0, i as int),
            decreases inputs.len() - i,
        {
            r.push(inputs[i]);
            i = i + 1;
            assert(r@ =~= seq![self.domain_tag] + inputs@.subrange(0, i as int));
        }
        assert(inputs@.subrange(0, inputs@.len() as int) =~= inputs@);
        r
    }

    /// The hash of `width - 1` inputs: the second entry of the permuted state.
    pub fn hash(&self, inputs: &Vec<Fe>) -> (r: Fe)
        requires
            self.wf(),
            inputs@.len() + 1 == self.width,
            vec_wf(inputs@),
        ensures
            r.wf(),
            r.val() == self.hash_spec(vec_val(inputs@)),
    {
        let s = self.initial_state(inputs);
        assert(vec_val(s@) =~= seq![self.domain_tag.val()] + vec_val(inputs@));
        let out = self.permute(&s);
        out[1]
    }

    /// The hash of two inputs with a width-3 parameter set.
    pub fn hash_two(&self, a: &Fe, b: &Fe) -> (r: Fe)
        requires
            self.wf(),
            self.width == 3,
            a.wf(),
            b.wf(),
        ensures
            r.wf(),
            r.val() == self.hash_spec(seq![a.val(), b.val()]),
    {
        let inputs = vec![*a, *b];
        assert(vec_val(inputs@) =~= seq![a.val(), b.val()]);
        self.hash(&inputs)
    }
}

} // verus!
