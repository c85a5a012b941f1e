//! Elements of the scalar field of BLS12-377, held as four little-endian
//! 64-bit limbs in canonical form. Arithmetic is delegated to `ark_ff`.
use ark_bls12_377::Fr;
use ark_ff::{BigInteger256, Field, PrimeField};
use vstd::prelude::*;

verus! {

/// The prime order of the field.
pub open spec fn modulus() -> int {
    8444461749428370424248824938781546531375899335154063827935233455917409239041int
}

/// Bit length of the field modulus.
pub const MODULUS_BITS: u64 = 253;

pub open spec fn limbs_value(l: [u64; 4]) -> int {
    l[0] as int + l[1] as int * 0x1_0000_0000_0000_0000int + l[2] as int
        * 0x1_0000_0000_0000_0000_0000_0000_0000_0000int + l[3] as int
        * 0x1_0000_0000_0000_0000_0000_0000_0000_0000_0000_0000_0000_0000int
}

/// A field element. Its value is `limbs[0] + limbs[1]·2^64 + limbs[2]·2^128 + limbs[3]·2^192`.
#[derive(Clone, Copy, Debug, PartialEq, Eq)]
pub struct Fe {
    pub limbs: [u64; 4],
}

impl Fe {
    pub open spec fn val(self) -> int {
        limbs_value(self.limbs)
    }

    /// Canonical form: the value is below the modulus.
    pub open spec fn wf(self) -> bool {
        self.val() < modulus()
    }

    pub fn from_u64(n: u64) -> (r: Fe)
        ensures
            r.wf(),
            r.val() == n as int,
    {
        Fe { limbs: [n, 0, 0, 0] }
    }

    pub fn zero() -> (r: Fe)
        ensures
            r.wf(),
            r.val() == 0,
    {
        Fe::from_u64(0)
    }

    pub fn one() -> (r: Fe)
        ensures
            r.wf(),
            r.val() == 1,
    {
        Fe::from_u64(1)
    }

    pub fn is_zero(&self) -> (r: bool)
        ensures
            r == (self.val() == 0),
    {
        let r = self.limbs[0] == 0 && self.limbs[1] == 0 && self.limbs[2] == 0 && self.limbs[3]
            == 0;
        proof {
            let l = self.limbs;
            if self.val() == 0 {
                assert(l[0] == 0 && l[1] == 0 && l[2] == 0 && l[3] == 0) by (nonlinear_arith)
                    requires
                        limbs_value(l) == 0,
                ;
            }
        }
        r
    }

    /// Equality of field elements in canonical form.
    pub fn same(&self, o: &Fe) -> (r: bool)
        requires
            self.wf(),
            o.wf(),
        ensures
            r == (self.val() == o.val()),
    {
        let r = self.limbs[0] == o.limbs[0] && self.limbs[1] == o.limbs[1] && self.limbs[2]
            == o.limbs[2] && self.limbs[3] == o.limbs[3];
        proof {
            if self.val() == o.val() {
                lemma_limbs_injective(self.limbs, o.limbs);
            }
        }
        r
    }

    pub fn add(&self, o: &Fe) -> (r: Fe)
        requires
            self.wf(),
            o.wf(),
        ensures
            r.wf(),
            r.val() == (self.val() + o.val()) % modulus(),
    {
        fr_add(self, o)
    }

    pub fn sub(&self, o: &Fe) -> (r: Fe)
        requires
            self.wf(),
            o.wf(),
        ensures
            r.wf(),
            r.val() == (self.val() - o.val()) % modulus(),
    {
        fr_sub(self, o)
    }

    pub fn mul(&self, o: &Fe) -> (r: Fe)
        requires
            self.wf(),
            o.wf(),
        ensures
            r.wf(),
            r.val() == (self.val() * o.val()) % modulus(),
    {
        fr_mul(self, o)
    }

    /// The multiplicative inverse; `None` exactly for zero.
    pub fn inverse(&self) -> (r: Option<Fe>)
        requires
            self.wf(),
        ensures
            r.is_none() <==> self.val() == 0,
            r matches Some(x) ==> x.wf() && (x.val() * self.val()) % modulus() == 1,
    {
        fr_inverse(self)
    }
}

pub proof fn lemma_limbs_injective(a: [u64; 4], b: [u64; 4])
    requires
        limbs_value(a) == limbs_value(b),
    ensures
        a == b,
{
    let k: int = 0x1_0000_0000_0000_0000int;
    assert(a[0] == b[0] && a[1] == b[1] && a[2] == b[2] && a[3] == b[3]) by (nonlinear_arith)
        requires
            k == 0x1_0000_0000_0000_0000int,
            0 <= a[0] < k, 0 <= a[1] < k, 0 <= a[2] < k, 0 <= a[3] < k,
            0 <= b[0] < k, 0 <= b[1] < k, 0 <= b[2] < k, 0 <= b[3] < k,
            a[0] + a[1] * k + a[2] * (k * k) + a[3] * (k * k * k) == b[0] + b[1] * k + b[2] * (k
                * k) + b[3] * (k * k * k),
    ;
    assert(a =~= b);
}

/// Relies on `Add` of `ark_ff`'s prime field: the sum modulo the prime, returned
/// in canonical form by `into_repr`; `from_repr` accepts the canonical arguments.
#[verifier::external_body]
fn fr_add(a: &Fe, b: &Fe) -> (r: Fe)
    requires
        a.wf(),
        b.wf(),
    ensures
        r.wf(),
        r.val() == (a.val() + b.val()) % modulus(),
{
    Fe { limbs: (Fr::from_repr(BigInteger256(a.limbs)).unwrap() + Fr::from_repr(BigInteger256(b.limbs)).unwrap()).into_repr().0 }
}

/// Relies on `Sub` of `ark_ff`'s prime field: the difference modulo the prime,
/// returned in canonical form by `into_repr`.
#[verifier::external_body]
fn fr_sub(a: &Fe, b: &Fe) -> (r: Fe)
    requires
        a.wf(),
        b.wf(),
    ensures
        r.wf(),
        r.val() == (a.val() - b.val()) % modulus(),
{
    Fe { limbs: (Fr::from_repr(BigInteger256(a.limbs)).unwrap() - Fr::from_repr(BigInteger256(b.limbs)).unwrap()).into_repr().0 }
}

/// Relies on `Mul` of `ark_ff`'s prime field: the product modulo the prime,
/// returned in canonical form by `into_repr`.
#[verifier::external_body]
fn fr_mul(a: &Fe, b: &Fe) -> (r: Fe)
    requires
        a.wf(),
        b.wf(),
    ensures
        r.wf(),
        r.val() == (a.val() * b.val()) % modulus(),
{
    Fe { limbs: (Fr::from_repr(BigInteger256(a.limbs)).unwrap() * Fr::from_repr(BigInteger256(b.limbs)).unwrap()).into_repr().0 }
}

/// Relies on `Field::inverse`: `None` for zero, else the element whose product
/// with the argument is one.
#[verifier::external_body]
fn fr_inverse(a: &Fe) -> (r: Option<Fe>)
    requires
        a.wf(),
    ensures
        r.is_none() <==> a.val() == 0,
        r matches Some(x) ==> x.wf() && (x.val() * a.val()) % modulus() == 1,
{
    Fr::from_repr(BigInteger256(a.limbs)).unwrap().inverse().map(|x| Fe { limbs: x.into_repr().0 })
}

/// The element whose canonical limbs are `l`, if `l` is below the modulus.
pub fn fe_from_limbs(l: [u64; 4]) -> (r: Option<Fe>)
    ensures
        r.is_some() <==> limbs_value(l) < modulus(),
        r matches Some(x) ==> x.limbs == l && x.wf(),
{
    let m: [u64; 4] = MODULUS_LIMBS;
    let below = l[3] < m[3] || (l[3] == m[3] && (l[2] < m[2] || (l[2] == m[2] && (l[1] < m[1] || (
    l[1] == m[1] && l[0] < m[0])))));
    proof {
        assert(limbs_value(m) == modulus());
        let k: int = 0x1_0000_0000_0000_0000int;
        let lo2_l = l[0] as int + l[1] as int * k + l[2] as int * (k * k);
        let lo2_m = m[0] as int + m[1] as int * k + m[2] as int * (k * k);
        let lo1_l = l[0] as int + l[1] as int * k;
        let lo1_m = m[0] as int + m[1] as int * k;
        lemma_low_bound(l);
        lemma_low_bound(m);
        lemma_digit_lt(l[1] as int, l[0] as int, m[1] as int, m[0] as int, k);
        lemma_digit_lt(l[2] as int, lo1_l, m[2] as int, lo1_m, k * k);
        lemma_digit_lt(l[3] as int, lo2_l, m[3] as int, lo2_m, k * k * k);
        assert(limbs_value(l) == lo2_l + l[3] as int * (k * k * k));
        assert(limbs_value(m) == lo2_m + m[3] as int * (k * k * k));
        assert(lo1_l + l[2] as int * (k * k) == lo2_l);
        assert(lo1_m + m[2] as int * (k * k) == lo2_m);
    }
    if below {
        Some(Fe { limbs: l })
    } else {
        None
    }
}

/// The modulus as four little-endian limbs.
pub const MODULUS_LIMBS: [u64; 4] = [
    725501752471715841,
    6461107452199829505,
    6968279316240510977,
    1345280370688173398,
];

proof fn lemma_low_bound(l: [u64; 4])
    ensures
        0 <= l[0] as int + l[1] as int * 0x1_0000_0000_0000_0000int < 0x1_0000_0000_0000_0000int
            * 0x1_0000_0000_0000_0000int,
        0 <= l[0] as int + l[1] as int * 0x1_0000_0000_0000_0000int + l[2] as int * (
        0x1_0000_0000_0000_0000int * 0x1_0000_0000_0000_0000int) < 0x1_0000_0000_0000_0000int
            * 0x1_0000_0000_0000_0000int * 0x1_0000_0000_0000_0000int,
{
    let k: int = 0x1_0000_0000_0000_0000int;
    let a = l[0] as int;
    let b = l[1] as int;
    let c = l[2] as int;
    assert(0 <= a + b * k < k * k) by (nonlinear_arith)
        requires
            0 <= a < k,
            0 <= b < k,
    ;
    assert(0 <= a + b * k + c * (k * k) < k * k * k) by (nonlinear_arith)
        requires
            0 <= a + b * k < k * k,
            0 <= c < k,
            k > 0,
    ;
}

/// Comparing two numbers `hi·k + lo` with `lo < k` goes by the high digit first.
proof fn lemma_digit_lt(xh: int, xl: int, yh: int, yl: int, k: int)
    requires
        k > 0,
        0 <= xl < k,
        0 <= yl < k,
        xh >= 0,
        yh >= 0,
    ensures
        (xl + xh * k < yl + yh * k) <==> (xh < yh || (xh == yh && xl < yl)),
{
    if xh < yh {
        assert(xl + xh * k < yl + yh * k) by (nonlinear_arith)
            requires
                xh < yh,
                0 <= xl < k,
                0 <= yl,
        ;
    } else if xh > yh {
        assert(xl + xh * k >= yl + yh * k) by (nonlinear_arith)
            requires
                xh > yh,
                0 <= yl < k,
                0 <= xl,
        ;
    }
}

} // verus!
