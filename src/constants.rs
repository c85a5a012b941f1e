//! The complete parameter set of the Poseidon permutation for one width.
use crate::error::ParamError;
use crate::field::{lemma_limbs_injective, limbs_value, modulus, Fe, MODULUS_BITS};
use crate::matrix::{mat_val, square_wf, vec_mat, vec_val, vec_wf, Matrix};
use crate::mds::{
    apply_pow, apply_sparse_chain, factor_to_sparse_matrixes, is_cauchy, lemma_sparse_factorization, mat_pow, sparse_chain, MdsMatrices, SparseMatrix, MAX_WIDTH,
};
use crate::preprocessing::{compress_round_constants, compressed_spec};
use crate::round_constant::{generate_round_constants, limbs_of, round_constants_spec};
use vstd::arithmetic::power2::{lemma_pow2_unfold, pow2};
use vstd::arithmetic::div_mod::{
    lemma_add_mod_noop, lemma_mul_mod_noop_left, lemma_mul_mod_noop_right, lemma_small_mod,
};
use vstd::prelude::*;

verus! {

/// Round counts accepted: the constant generator's seed holds each in ten bits.
pub const MAX_ROUNDS: usize = 1023;

#[derive(Clone, Debug)]
pub struct PoseidonConstants {
    pub width: usize,
    pub mds_matrices: MdsMatrices,
    pub round_constants: Vec<Fe>,
    pub compressed_round_constants: Vec<Fe>,
    pub pre_sparse_matrix: Matrix,
    pub sparse_matrixes: Vec<SparseMatrix>,
    pub domain_tag: Fe,
    pub full_rounds: usize,
    pub half_full_rounds: usize,
    pub partial_rounds: usize,
}

/// `2^(width - 1) - 1` in the field.
pub open spec fn domain_tag_spec(width: nat) -> int {
    (pow2((width - 1) as nat) as int - 1) % modulus()
}

/// Whether a round schedule is accepted for the given width.
pub open spec fn schedule_ok(width: usize, full_rounds: usize, partial_rounds: usize) -> bool {
    &&& 2 <= width <= MAX_WIDTH
    &&& 2 <= full_rounds <= MAX_ROUNDS
    &&& full_rounds % 2 == 0
    &&& partial_rounds <= MAX_ROUNDS
}

impl PoseidonConstants {
    /// The parameters are consistent with one another.
    pub open spec fn wf(self) -> bool {
        &&& schedule_ok(self.width, self.full_rounds, self.partial_rounds)
        &&& self.half_full_rounds * 2 == self.full_rounds
        &&& self.mds_matrices.derived_from(mat_val(self.mds_matrices.m@), self.width as nat)
        &&& self.width * (self.full_rounds + self.partial_rounds) <= self.round_constants@.len()
        &&& vec_wf(self.round_constants@)
        &&& self.compressed_round_constants@.len() == self.width * self.full_rounds
            + self.partial_rounds
        &&& vec_wf(self.compressed_round_constants@)
        &&& square_wf(self.pre_sparse_matrix@, self.width as nat)
        &&& self.sparse_matrixes@.len() == self.partial_rounds
        &&& forall|k: int|
            0 <= k < self.partial_rounds ==> (#[trigger] self.sparse_matrixes@[k]).wf(
                self.width as nat,
            )
        &&& self.domain_tag.wf()
        &&& self.domain_tag.val() == domain_tag_spec(self.width as nat)
    }

    /// What generation yields for a width and a round schedule: consistent
    /// parameters, the Grain LFSR's constants and the Cauchy matrix.
    pub open spec fn generated_for(self, width: usize, full_rounds: usize, partial_rounds: usize) -> bool {
        &&& self.wf()
        &&& vec_val(self.compressed_round_constants@) == compressed_spec(
            vec_val(self.round_constants@),
            width as int,
            mat_val(self.mds_matrices.m_inv@),
            (full_rounds / 2) as int,
            partial_rounds as int,
        )
        &&& sparse_chain(
            mat_val(self.pre_sparse_matrix@),
            self.sparse_matrixes@,
            width as nat,
            partial_rounds as nat,
        ) == mat_pow(mat_val(self.mds_matrices.m@), width as nat, (partial_rounds + 1) as nat)
        &&& self.width == width
        &&& self.full_rounds == full_rounds
        &&& self.partial_rounds == partial_rounds
        &&& self.round_constants@.len() == width * (full_rounds + partial_rounds)
        &&& round_constants_spec(
            MODULUS_BITS as nat,
            width as nat,
            full_rounds as nat,
            partial_rounds as nat,
        ) == Some(limbs_of(self.round_constants@))
        &&& is_cauchy(mat_val(self.mds_matrices.m@), width as nat)
    }

    /// Builds the parameter set of the given width and round schedule from the
    /// given round constants. Fails when the schedule is not accepted, when
    /// there are fewer than `width * (full_rounds + partial_rounds)` constants,
    /// or when a matrix to be inverted is singular.
    pub fn assemble(
        width: usize,
        full_rounds: usize,
        partial_rounds: usize,
        round_constants: Vec<Fe>,
    ) -> (r: Result<PoseidonConstants, ParamError>)
        requires
            vec_wf(round_constants@),
        ensures
            r matches Err(ParamError::InvalidWidth) <==> !(2 <= width <= MAX_WIDTH),
            r matches Err(ParamError::InvalidRounds) <==> 2 <= width <= MAX_WIDTH && !schedule_ok(
                width,
                full_rounds,
                partial_rounds,
            ),
            r matches Err(ParamError::NotEnoughRoundConstants) <==> schedule_ok(
                width,
                full_rounds,
                partial_rounds,
            ) && width * (full_rounds + partial_rounds) > round_constants@.len(),
            r matches Err(ParamError::ConstantsExhausted) ==> false,
            r matches Ok(p) ==> {
                &&& p.wf()
                &&& vec_val(p.compressed_round_constants@) == compressed_spec(
                    vec_val(p.round_constants@),
                    width as int,
                    mat_val(p.mds_matrices.m_inv@),
                    (full_rounds / 2) as int,
                    partial_rounds as int,
                )
                &&& sparse_chain(
                    mat_val(p.pre_sparse_matrix@),
                    p.sparse_matrixes@,
                    width as nat,
                    partial_rounds as nat,
                ) == mat_pow(mat_val(p.mds_matrices.m@), width as nat, (partial_rounds + 1) as nat)
                &&& p.width == width
                &&& p.full_rounds == full_rounds
                &&& p.partial_rounds == partial_rounds
                &&& p.round_constants@ == round_constants@
                &&& is_cauchy(mat_val(p.mds_matrices.m@), width as nat)
            },
    {
        if width < 2 || width > MAX_WIDTH {
            return Err(ParamError::InvalidWidth);
        }
        if full_rounds < 2 || full_rounds > MAX_ROUNDS || full_rounds % 2 != 0 || partial_rounds
            > MAX_ROUNDS {
            return Err(ParamError::InvalidRounds);
        }
        proof {
            assert(width * (full_rounds + partial_rounds) <= 1024 * 2046) by (nonlinear_arith)
                requires
                    width <= 1024,
                    full_rounds + partial_rounds <= 2046,
            ;
        }
        if width * (full_rounds + partial_rounds) > round_constants.len() {
            return Err(ParamError::NotEnoughRoundConstants);
        }
        let mds_matrices = MdsMatrices::new(width)?;
        let compressed_round_constants = compress_round_constants(
            width,
            full_rounds,
            partial_rounds,
            &round_constants,
            &mds_matrices.m_inv,
        );
        let (pre_sparse_matrix, sparse_matrixes) = factor_to_sparse_matrixes(
            &mds_matrices.m,
            partial_rounds,
        )?;
        let domain_tag = domain_tag(width);
        Ok(PoseidonConstants {
            width,
            mds_matrices,
            round_constants,
            compressed_round_constants,
            pre_sparse_matrix,
            sparse_matrixes,
            domain_tag,
            full_rounds,
            half_full_rounds: full_rounds / 2,
            partial_rounds,
        })
    }

    /// Generates all parameters of the given width and round schedule: the
    /// round constants come from the Grain LFSR seeded with the field size,
    /// the width and the round counts.
    pub fn generate(width: usize, full_rounds: usize, partial_rounds: usize) -> (r: Result<
        PoseidonConstants,
        ParamError,
    >)
        ensures
            r matches Err(ParamError::InvalidWidth) <==> !(2 <= width <= MAX_WIDTH),
            r matches Err(ParamError::InvalidRounds) <==> 2 <= width <= MAX_WIDTH && !schedule_ok(
                width,
                full_rounds,
                partial_rounds,
            ),
            r matches Err(ParamError::NotEnoughRoundConstants) ==> false,
            r matches Err(ParamError::ConstantsExhausted) <==> schedule_ok(
                width,
                full_rounds,
                partial_rounds,
            ) && round_constants_spec(
                MODULUS_BITS as nat,
                width as nat,
                full_rounds as nat,
                partial_rounds as nat,
            ) is None,
            r matches Ok(p) ==> p.generated_for(width, full_rounds, partial_rounds),
    {
        if width < 2 || width > MAX_WIDTH {
            return Err(ParamError::InvalidWidth);
        }
        if full_rounds < 2 || full_rounds > MAX_ROUNDS || full_rounds % 2 != 0 || partial_rounds
            > MAX_ROUNDS {
            return Err(ParamError::InvalidRounds);
        }
        let round_constants = generate_round_constants(
            MODULUS_BITS,
            width as u64,
            full_rounds as u64,
            partial_rounds as u64,
        )?;
        PoseidonConstants::assemble(width, full_rounds, partial_rounds, round_constants)
    }
}

proof fn lemma_inverse_unique(x: int, y: int, a: int)
    requires
        0 <= x < modulus(),
        0 <= y < modulus(),
        (x * a) % modulus() == 1,
        (y * a) % modulus() == 1,
    ensures
        x == y,
{
    let p = modulus();
    lemma_mul_mod_noop_left(x * a, y, p);
    lemma_mul_mod_noop_right(x, a * y, p);
    assert(x * a * y == x * (a * y)) by (nonlinear_arith);
    assert(a * y == y * a) by (nonlinear_arith);
    lemma_small_mod(x as nat, p as nat);
    lemma_small_mod(y as nat, p as nat);
}

proof fn lemma_val_bounds(x: Fe)
    requires
        x.wf(),
    ensures
        0 <= x.val() < modulus(),
{
    let l = x.limbs;
    assert(0 <= limbs_value(l)) by (nonlinear_arith)
        requires
            0 <= l[0],
            0 <= l[1],
            0 <= l[2],
            0 <= l[3],
    ;
}

/// Generation is deterministic: two parameter sets generated for the same
/// width and round schedule hold the same round constants, the same MDS matrix
/// and the same domain tag.
pub proof fn lemma_generation_deterministic(
    a: PoseidonConstants,
    b: PoseidonConstants,
    width: usize,
    full_rounds: usize,
    partial_rounds: usize,
)
    requires
        a.generated_for(width, full_rounds, partial_rounds),
        b.generated_for(width, full_rounds, partial_rounds),
    ensures
        a.round_constants@ == b.round_constants@,
        mat_val(a.mds_matrices.m@) == mat_val(b.mds_matrices.m@),
        a.domain_tag == b.domain_tag,
{
    let n = width as nat;
    assert(limbs_of(a.round_constants@) == limbs_of(b.round_constants@));
    assert forall|i: int| 0 <= i < a.round_constants@.len() implies a.round_constants@[i]
        == b.round_constants@[i] by {
        assert(limbs_of(a.round_constants@)[i] == limbs_of(b.round_constants@)[i]);
    }
    assert(a.round_constants@ =~= b.round_constants@);
    lemma_limbs_injective(a.domain_tag.limbs, b.domain_tag.limbs);
    let ma = a.mds_matrices.m@;
    let mb = b.mds_matrices.m@;
    assert forall|i: int| 0 <= i < n implies mat_val(ma)[i] =~= mat_val(mb)[i] by {
        assert(ma[i]@.len() == n && vec_wf(ma[i]@));
        assert(mb[i]@.len() == n && vec_wf(mb[i]@));
        assert forall|j: int| 0 <= j < n implies mat_val(ma)[i][j] == mat_val(mb)[i][j] by {
            assert(ma[i]@[j].wf());
            assert(mb[i]@[j].wf());
            lemma_val_bounds(ma[i]@[j]);
            lemma_val_bounds(mb[i]@[j]);
            assert((mat_val(ma)[i][j] * (i + n + j)) % modulus() == 1);
            assert((mat_val(mb)[i][j] * (i + n + j)) % modulus() == 1);
            lemma_inverse_unique(mat_val(ma)[i][j], mat_val(mb)[i][j], i + n + j);
        }
    }
    assert(mat_val(ma) =~= mat_val(mb));
}

/// Sparse factorization of generated parameters: for every state `v`, the
/// matrix before the sparse ones followed by each sparse matrix in turn gives
/// the same as `partial_rounds + 1` applications of the MDS matrix.
pub proof fn lemma_generated_factorization(
    p: PoseidonConstants,
    width: usize,
    full_rounds: usize,
    partial_rounds: usize,
    v: Seq<int>,
)
    requires
        p.generated_for(width, full_rounds, partial_rounds),
        v.len() == width,
        forall|i: int| 0 <= i < width ==> 0 <= #[trigger] v[i] < modulus(),
    ensures
        apply_sparse_chain(
            vec_mat(v, mat_val(p.pre_sparse_matrix@), width as nat),
            p.sparse_matrixes@,
            width as nat,
            partial_rounds as nat,
        ) == apply_pow(v, mat_val(p.mds_matrices.m@), width as nat, (partial_rounds + 1) as nat),
{
    let n = width as nat;
    let pre = mat_val(p.pre_sparse_matrix@);
    let m = mat_val(p.mds_matrices.m@);
    assert forall|i: int| 0 <= i < n implies #[trigger] pre[i].len() == n by {
        assert(p.pre_sparse_matrix@[i]@.len() == n);
    }
    assert forall|i: int| 0 <= i < n implies #[trigger] m[i].len() == n by {
        assert(p.mds_matrices.m@[i]@.len() == n);
    }
    lemma_sparse_factorization(v, pre, p.sparse_matrixes@, m, n, partial_rounds as nat);
}

/// `2^(width - 1) - 1` as a field element.
pub fn domain_tag(width: usize) -> (r: Fe)
    requires
        width >= 1,
    ensures
        r.wf(),
        r.val() == domain_tag_spec(width as nat),
{
    let mut p = Fe::one();
    let mut k: usize = 0;
    proof {
        vstd::arithmetic::power2::lemma2_to64();
    }
    while k + 1 < width
        invariant
            k + 1 <= width,
            p.wf(),
            p.val() == (pow2(k as nat) as int) % modulus(),
        decreases width - k,
    {
        proof {
            lemma_pow2_unfold((k + 1) as nat);
            lemma_add_mod_noop(pow2(k as nat) as int, pow2(k as nat) as int, modulus());
        }
        p = p.add(&p);
        k = k + 1;
    }
    let one = Fe::one();
    let r = p.sub(&one);
    proof {
        vstd::arithmetic::div_mod::lemma_sub_mod_noop(pow2(k as nat) as int, 1, modulus());
        vstd::arithmetic::div_mod::lemma_small_mod(1, modulus() as nat);
    }
    r
}

} // verus!
