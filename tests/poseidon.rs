use ark_bls12_377::Fr;
use ark_ff::{PrimeField, UniformRand};
use poseidon_params::constants::{domain_tag, PoseidonConstants};
use poseidon_params::error::ParamError;
use poseidon_params::field::Fe;
use poseidon_params::linalg::invert;
use poseidon_params::matrix::{left_apply, Matrix};
use poseidon_params::mds::{factor_to_sparse_matrixes, MdsMatrices};
use poseidon_params::poseidon::apply_sparse;
use poseidon_params::round_constant::generate_round_constants;
use poseidon_params::token::Token;

fn rounds(width: usize) -> (usize, usize) {
    match width {
        2 | 3 => (8, 55),
        4 | 5 => (8, 56),
        _ => (8, 57),
    }
}

fn params(width: usize) -> PoseidonConstants {
    let (f, p) = rounds(width);
    PoseidonConstants::generate(width, f, p).unwrap()
}

fn random_fe(rng: &mut impl rand::RngCore) -> Fe {
    Fe { limbs: Fr::rand(rng).into_repr().0 }
}

fn sub_matrix(m: &Matrix, k: usize) -> Matrix {
    m[..k].iter().map(|r| r[..k].to_vec()).collect()
}

fn subsets(n: usize, k: usize) -> Vec<Vec<usize>> {
    (0u32..(1 << n))
        .filter(|b| b.count_ones() as usize == k)
        .map(|b| (0..n).filter(|i| b & (1 << i) != 0).collect())
        .collect()
}

#[test]
fn token_address_computation() {
    let mut rng = ark_std::test_rng();
    let vp = vec![random_fe(&mut rng), random_fe(&mut rng)];
    let xan = Token::new(vp);
    let p = params(3);
    xan.address(&p).unwrap();
}

#[test]
fn token_address_needs_two_elements() {
    let p = params(3);
    assert!(Token::new(vec![Fe::from_u64(1)]).address(&p).is_none());
    let a = Token::new(vec![Fe::from_u64(1), Fe::from_u64(2)]).address(&p).unwrap();
    assert_eq!(a, p.hash_two(&Fe::from_u64(1), &Fe::from_u64(2)));
}

#[test]
fn generated_schedules_are_consistent() {
    for w in 2..=9 {
        let p = params(w);
        assert_eq!(p.full_rounds % 2, 0);
        assert_eq!(p.half_full_rounds * 2, p.full_rounds);
        assert!(w * (p.full_rounds + p.partial_rounds) <= p.round_constants.len());
        assert_eq!(p.compressed_round_constants.len(), w * p.full_rounds + p.partial_rounds);
        assert_eq!(p.sparse_matrixes.len(), p.partial_rounds);
    }
}

#[test]
fn mds_leading_minors_are_invertible() {
    for w in [3usize, 5] {
        let m = MdsMatrices::new(w).unwrap();
        for k in 1..=w {
            assert!(invert(&sub_matrix(&m.m, k)).is_some());
        }
        // the Cauchy construction: M[i][j] * (i + w + j) == 1
        for i in 0..w {
            for j in 0..w {
                let s = Fe::from_u64((i + w + j) as u64);
                assert_eq!(m.m[i][j].mul(&s), Fe::one());
            }
        }
    }
}

#[test]
fn mds_every_square_submatrix_is_invertible() {
    for w in [3usize, 5] {
        let m = MdsMatrices::new(w).unwrap().m;
        for k in 1..=w {
            for rows in subsets(w, k) {
                for cols in subsets(w, k) {
                    let sub: Matrix = rows
                        .iter()
                        .map(|&i| cols.iter().map(|&j| m[i][j]).collect())
                        .collect();
                    assert!(invert(&sub).is_some());
                }
            }
        }
    }
}

#[test]
fn compression_keeps_first_round_constants() {
    let p = params(3);
    assert_eq!(p.compressed_round_constants[..3], p.round_constants[..3]);
    assert_ne!(p.compressed_round_constants[3..6], p.round_constants[3..6]);
}

#[test]
fn sparse_factorization_matches_dense_powers() {
    let mut rng = ark_std::test_rng();
    for w in [3usize, 5] {
        let p = params(w);
        let m = &p.mds_matrices.m;
        for _ in 0..5 {
            let s: Vec<Fe> = (0..w).map(|_| random_fe(&mut rng)).collect();
            let mut dense = s.clone();
            for _ in 0..p.partial_rounds + 1 {
                dense = left_apply(&dense, m);
            }
            let mut sparse = left_apply(&s, &p.pre_sparse_matrix);
            for sm in &p.sparse_matrixes {
                sparse = apply_sparse(&sparse, sm);
            }
            assert_eq!(dense, sparse);
        }
    }
}

#[test]
fn compressed_permutation_matches_plain() {
    let mut rng = ark_std::test_rng();
    for w in [2usize, 3, 5] {
        let p = params(w);
        for _ in 0..5 {
            let s: Vec<Fe> = (0..w).map(|_| random_fe(&mut rng)).collect();
            assert_eq!(p.permute(&s), p.permute_unoptimized(&s));
        }
    }
}

#[test]
fn generation_is_deterministic() {
    for w in [3usize, 5] {
        let a = params(w);
        let b = params(w);
        assert_eq!(a.round_constants, b.round_constants);
        assert_eq!(a.mds_matrices.m, b.mds_matrices.m);
        assert_eq!(a.domain_tag, b.domain_tag);
        assert_eq!(a.compressed_round_constants, b.compressed_round_constants);
    }
}

#[test]
fn domain_tags() {
    assert_eq!(params(3).domain_tag, Fe::from_u64(3));
    assert_eq!(params(5).domain_tag, Fe::from_u64(15));
    assert_eq!(domain_tag(1), Fe::zero());
    assert_eq!(domain_tag(65), Fe { limbs: [u64::MAX, 0, 0, 0] });
}

#[test]
fn hash_two_is_stable_and_matches_plain_schedule() {
    let p = params(3);
    let a = Fe::from_u64(1);
    let b = Fe::from_u64(2);
    let h = p.hash_two(&a, &b);
    assert_eq!(h, params(3).hash_two(&a, &b));
    let plain = p.permute_unoptimized(&vec![p.domain_tag, a, b]);
    assert_eq!(h, plain[1]);
    assert_ne!(h, p.hash_two(&b, &a));
}

#[test]
fn truncated_constants_are_rejected() {
    let (f, p) = rounds(3);
    let rc = generate_round_constants(253, 3, f as u64, p as u64).unwrap();
    let short = rc[..rc.len() - 1].to_vec();
    assert_eq!(
        PoseidonConstants::assemble(3, f, p, short).unwrap_err(),
        ParamError::NotEnoughRoundConstants
    );
    assert!(PoseidonConstants::assemble(3, f, p, rc.clone()).is_ok());
    let mut longer = rc;
    longer.push(Fe::one());
    assert!(PoseidonConstants::assemble(3, f, p, longer).is_ok());
}

#[test]
fn invalid_schedules_are_rejected() {
    assert_eq!(PoseidonConstants::generate(1, 8, 55).unwrap_err(), ParamError::InvalidWidth);
    assert_eq!(PoseidonConstants::generate(3, 7, 55).unwrap_err(), ParamError::InvalidRounds);
    assert_eq!(PoseidonConstants::generate(3, 0, 55).unwrap_err(), ParamError::InvalidRounds);
    assert_eq!(PoseidonConstants::generate(3, 8, 5000).unwrap_err(), ParamError::InvalidRounds);
}

#[test]
fn singular_matrix_is_reported() {
    let zero: Matrix = vec![vec![Fe::zero(); 3]; 3];
    assert!(invert(&zero).is_none());
    assert_eq!(
        factor_to_sparse_matrixes(&zero, 2).unwrap_err(),
        ParamError::SingularMatrix
    );
}

#[test]
fn round_constants_have_the_scheduled_length() {
    let rc = generate_round_constants(253, 5, 8, 56).unwrap();
    assert_eq!(rc.len(), 5 * 64);
    assert_ne!(rc[0], rc[1]);
    assert_ne!(rc[0], Fe::zero());
}

#[test]
fn field_arithmetic() {
    let a = Fe::from_u64(7);
    let b = Fe::from_u64(5);
    assert_eq!(a.add(&b), Fe::from_u64(12));
    assert_eq!(a.sub(&b), Fe::from_u64(2));
    assert_eq!(a.mul(&b), Fe::from_u64(35));
    // 5 - 7 = p - 2
    let m2 = b.sub(&a);
    assert_eq!(m2.add(&Fe::from_u64(2)), Fe::zero());
    assert_eq!(a.inverse().unwrap().mul(&a), Fe::one());
    assert!(Fe::zero().inverse().is_none());
    assert!(poseidon_params::field::fe_from_limbs([u64::MAX; 4]).is_none());
    let m = poseidon_params::field::MODULUS_LIMBS;
    assert!(poseidon_params::field::fe_from_limbs(m).is_none());
    let below = [m[0] - 1, m[1], m[2], m[3]];
    assert_eq!(poseidon_params::field::fe_from_limbs(below).unwrap().add(&Fe::one()), Fe::zero());
    assert_eq!(Fe { limbs: Fr::from(5u64).into_repr().0 }, Fe::from_u64(5));
    assert_eq!(poseidon_params::field::fe_from_limbs([9, 0, 0, 0]), Some(Fe::from_u64(9)));
}

#[test]
fn quintic_sbox() {
    assert_eq!(poseidon_params::poseidon::quintic(&Fe::from_u64(3)), Fe::from_u64(243));
}
