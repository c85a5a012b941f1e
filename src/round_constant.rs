//! Round constants from the Grain LFSR, sampled by rejection against the
//! field modulus.
use crate::error::ParamError;
use crate::field::{fe_from_limbs, limbs_value, modulus, Fe};
use crate::matrix::vec_wf;
use vstd::arithmetic::power2::{lemma2_to64, lemma2_to64_rest, lemma_pow2_pos, lemma_pow2_unfold, lemma_pow2_strictly_increases, pow2};
use vstd::prelude::*;

verus! {

/// Attempts allowed per output before the generator is deemed exhausted.
pub const MAX_ATTEMPTS: usize = 1000;

/// One step of the LFSR: the feedback bit is appended and the oldest bit dropped.
pub open spec fn feedback(s: Seq<bool>) -> bool {
    s[62] ^ s[51] ^ s[38] ^ s[23] ^ s[13] ^ s[0]
}

pub open spec fn lfsr_step(s: Seq<bool>) -> Seq<bool> {
    s.drop_first().push(feedback(s))
}

/// The `n` low bits of `value`, most significant first.
pub open spec fn bits_msb_first(value: nat, n: nat) -> Seq<bool>
    decreases n,
{
    if n == 0 {
        seq![]
    } else {
        seq![(value / pow2((n - 1) as nat)) % 2 == 1] + bits_msb_first(value, (n - 1) as nat)
    }
}

/// The 80-bit seed: field kind 1, S-box kind 0, then the field size, width,
/// full and partial rounds, and thirty ones.
pub open spec fn seed_bits(field_size: nat, t: nat, r_f: nat, r_p: nat) -> Seq<bool> {
    bits_msb_first(1, 2) + bits_msb_first(0, 4) + bits_msb_first(field_size, 12)
        + bits_msb_first(t, 12) + bits_msb_first(r_f, 10) + bits_msb_first(r_p, 10)
        + bits_msb_first(0x3fff_ffff, 30)
}

proof fn lemma_bits_len(value: nat, n: nat)
    ensures
        bits_msb_first(value, n).len() == n,
    decreases n,
{
    if n > 0 {
        lemma_bits_len(value, (n - 1) as nat);
    }
}

/// Appends the `n` low bits of `value` to `bits`, most significant first.
pub fn append_bits(bits: &mut Vec<bool>, n: u32, value: u64)
    requires
        n <= 63,
    ensures
        final(bits)@ == old(bits)@ + bits_msb_first(value as nat, n as nat),
        final(bits)@.len() == old(bits)@.len() + n,
{
    proof {
        lemma_bits_len(value as nat, n as nat);
    }
    let mut i: u32 = n;
    let ghost start = old(bits)@;
    while i > 0
        invariant
            i <= n <= 63,
            bits@ + bits_msb_first(value as nat, i as nat) == start + bits_msb_first(
                value as nat,
                n as nat,
            ),
        decreases i,
    {
        i = i - 1;
        let p: u64 = pow2_exec(i);
        proof {
            lemma_pow2_pos(i as nat);
        }
        let b = (value / p) % 2 == 1;
        proof {
            assert(bits_msb_first(value as nat, (i + 1) as nat) == seq![b] + bits_msb_first(
                value as nat,
                i as nat,
            ));
            assert(bits@.push(b) + bits_msb_first(value as nat, i as nat) =~= bits@ + (seq![b]
                + bits_msb_first(value as nat, i as nat)));
        }
        bits.push(b);
    }
    assert(bits@ + bits_msb_first(value as nat, 0) =~= bits@);
}

/// `2^i` for `i < 64`.
fn pow2_exec(i: u32) -> (r: u64)
    requires
        i < 64,
    ensures
        r as nat == pow2(i as nat),
{
    let mut r: u64 = 1;
    let mut k: u32 = 0;
    proof {
        lemma2_to64();
    }
    while k < i
        invariant
            k <= i < 64,
            r as nat == pow2(k as nat),
        decreases i - k,
    {
        proof {
            lemma2_to64();
            if k + 1 < 63 {
                lemma_pow2_strictly_increases((k + 1) as nat, 63);
            }
            lemma2_to64_rest();
            lemma_pow2_unfold((k + 1) as nat);
        }
        r = r * 2;
        k = k + 1;
    }
    r
}

/// `n` clocks of the register.
pub open spec fn clocked(s: Seq<bool>, n: nat) -> Seq<bool>
    decreases n,
{
    if n == 0 {
        s
    } else {
        clocked(lfsr_step(s), (n - 1) as nat)
    }
}

/// The next output bit within `tries` pairs, and the register afterwards.
pub open spec fn next_bit_spec(s: Seq<bool>, tries: nat) -> (Option<bool>, Seq<bool>)
    decreases tries,
{
    if tries == 0 {
        (None, s)
    } else {
        let s1 = lfsr_step(s);
        let s2 = lfsr_step(s1);
        if feedback(s) {
            (Some(feedback(s1)), s2)
        } else {
            next_bit_spec(s2, (tries - 1) as nat)
        }
    }
}

pub open spec fn half() -> int {
    0x8000_0000_0000_0000
}

/// The 256-bit number `l` shifted left by one with `b` as its new low bit.
pub open spec fn shift_in(l: [u64; 4], b: bool) -> [u64; 4] {
    [
        ((l[0] as int % half()) * 2 + if b { 1int } else { 0int }) as u64,
        ((l[1] as int % half()) * 2 + if l[0] as int >= half() { 1int } else { 0int }) as u64,
        ((l[2] as int % half()) * 2 + if l[1] as int >= half() { 1int } else { 0int }) as u64,
        ((l[3] as int % half()) * 2 + if l[2] as int >= half() { 1int } else { 0int }) as u64,
    ]
}

/// `remaining` more output bits shifted into `l`, and the register afterwards.
pub open spec fn next_limbs_spec(s: Seq<bool>, l: [u64; 4], remaining: nat) -> (
    Option<[u64; 4]>,
    Seq<bool>,
)
    decreases remaining,
{
    if remaining == 0 {
        (Some(l), s)
    } else {
        let (b, s2) = next_bit_spec(s, MAX_ATTEMPTS as nat);
        match b {
            None => (None, s2),
            Some(b) => next_limbs_spec(s2, shift_in(l, b), (remaining - 1) as nat),
        }
    }
}

/// The first candidate below the modulus within `tries` candidates.
pub open spec fn next_element_spec(s: Seq<bool>, field_size: nat, tries: nat) -> (
    Option<[u64; 4]>,
    Seq<bool>,
)
    decreases tries,
{
    if tries == 0 {
        (None, s)
    } else {
        let (c, s2) = next_limbs_spec(s, [0u64, 0u64, 0u64, 0u64], field_size);
        match c {
            None => (None, s2),
            Some(l) => if limbs_value(l) < modulus() {
                (Some(l), s2)
            } else {
                next_element_spec(s2, field_size, (tries - 1) as nat)
            },
        }
    }
}

/// The first `k` field elements drawn from the register `s`, and the register
/// afterwards; `None` when the generator is exhausted first.
pub open spec fn draw(s: Seq<bool>, field_size: nat, k: nat) -> Option<(Seq<[u64; 4]>, Seq<bool>)>
    decreases k,
{
    if k == 0 {
        Some((seq![], s))
    } else {
        match draw(s, field_size, (k - 1) as nat) {
            None => None,
            Some((out, s1)) => {
                let (e, s2) = next_element_spec(s1, field_size, MAX_ATTEMPTS as nat);
                match e {
                    None => None,
                    Some(l) => Some((out.push(l), s2)),
                }
            },
        }
    }
}

/// The round constants for these parameters, as limbs; `None` when the
/// generator is exhausted.
pub open spec fn round_constants_spec(field_size: nat, t: nat, r_f: nat, r_p: nat) -> Option<
    Seq<[u64; 4]>,
> {
    match draw(clocked(seed_bits(field_size, t, r_f, r_p), 160), field_size, t * (r_f + r_p)) {
        None => None,
        Some((out, _)) => Some(out),
    }
}

pub open spec fn limbs_of(v: Seq<Fe>) -> Seq<[u64; 4]> {
    v.map_values(|x: Fe| x.limbs)
}

/// The Grain LFSR in self-shrinking mode.
pub struct Grain {
    pub state: Vec<bool>,
}

impl Grain {
    pub open spec fn wf(self) -> bool {
        self.state@.len() == 80
    }

    /// Seeds the register with `seed` and clocks it 160 times.
    pub fn new(seed: Vec<bool>) -> (r: Grain)
        requires
            seed@.len() == 80,
        ensures
            r.wf(),
            r.state@ == clocked(seed@, 160),
    {
        let mut g = Grain { state: seed };
        let mut i: usize = 0;
        while i < 160
            invariant
                i <= 160,
                g.wf(),
                clocked(g.state@, (160 - i) as nat) == clocked(seed@, 160),
            decreases 160 - i,
        {
            g.generate_new_bit();
            i = i + 1;
        }
        g
    }

    /// Clocks the register once and returns the new bit.
    pub fn generate_new_bit(&mut self) -> (b: bool)
        requires
            old(self).wf(),
        ensures
            final(self).state@ == lfsr_step(old(self).state@),
            b == feedback(old(self).state@),
            final(self).wf(),
    {
        let s = &self.state;
        let b = s[62] ^ s[51] ^ s[38] ^ s[23] ^ s[13] ^ s[0];
        self.state.remove(0);
        self.state.push(b);
        b
    }

    /// The next output bit: pairs of bits are drawn until the first of a pair is
    /// set, and the second of that pair is returned.
    pub fn next_bit(&mut self) -> (r: Option<bool>)
        requires
            old(self).wf(),
        ensures
            final(self).wf(),
            (r, final(self).state@) == next_bit_spec(old(self).state@, MAX_ATTEMPTS as nat),
    {
        let mut i: usize = 0;
        while i < MAX_ATTEMPTS
            invariant
                i <= MAX_ATTEMPTS,
                self.wf(),
                next_bit_spec(self.state@, (MAX_ATTEMPTS - i) as nat) == next_bit_spec(
                    old(self).state@,
                    MAX_ATTEMPTS as nat,
                ),
            decreases MAX_ATTEMPTS - i,
        {
            let first = self.generate_new_bit();
            let second = self.generate_new_bit();
            if first {
                return Some(second);
            }
            i = i + 1;
        }
        None
    }

    /// A candidate of `field_size` bits, most significant first, as four limbs.
    pub fn next_limbs(&mut self, field_size: u64) -> (r: Option<[u64; 4]>)
        requires
            old(self).wf(),
            field_size <= 256,
        ensures
            final(self).wf(),
            (r, final(self).state@) == next_limbs_spec(
                old(self).state@,
                [0u64, 0u64, 0u64, 0u64],
                field_size as nat,
            ),
    {
        let mut l: [u64; 4] = [0, 0, 0, 0];
        let mut i: u64 = 0;
        let half: u64 = 0x8000_0000_0000_0000;
        while i < field_size
            invariant
                self.wf(),
                i <= field_size,
                half == 0x8000_0000_0000_0000u64,
                next_limbs_spec(self.state@, l, (field_size - i) as nat) == next_limbs_spec(
                    old(self).state@,
                    [0u64, 0u64, 0u64, 0u64],
                    field_size as nat,
                ),
            decreases field_size - i,
        {
            let b = match self.next_bit() {
                Some(b) => b,
                None => {
                    return None;
                },
            };
            let ghost old_l = l;
            let c2 = if l[2] >= half { 1u64 } else { 0u64 };
            let c1 = if l[1] >= half { 1u64 } else { 0u64 };
            let c0 = if l[0] >= half { 1u64 } else { 0u64 };
            l = [
                (l[0] % half) * 2 + if b { 1u64 } else { 0u64 },
                (l[1] % half) * 2 + c0,
                (l[2] % half) * 2 + c1,
                (l[3] % half) * 2 + c2,
            ];
            assert(l == shift_in(old_l, b));
            i = i + 1;
        }
        Some(l)
    }

    /// The next field element: candidates at or above the modulus are dropped.
    pub fn next_field_element(&mut self, field_size: u64) -> (r: Option<Fe>)
        requires
            old(self).wf(),
            field_size <= 256,
        ensures
            final(self).wf(),
            r matches Some(x) ==> x.wf(),
            (match r {
                Some(x) => Some(x.limbs),
                None => None,
            }, final(self).state@) == next_element_spec(
                old(self).state@,
                field_size as nat,
                MAX_ATTEMPTS as nat,
            ),
    {
        let mut i: usize = 0;
        while i < MAX_ATTEMPTS
            invariant
                i <= MAX_ATTEMPTS,
                self.wf(),
                field_size <= 256,
                next_element_spec(self.state@, field_size as nat, (MAX_ATTEMPTS - i) as nat)
                    == next_element_spec(old(self).state@, field_size as nat, MAX_ATTEMPTS as nat),
            decreases MAX_ATTEMPTS - i,
        {
            let l = self.next_limbs(field_size)?;
            if let Some(x) = fe_from_limbs(l) {
                return Some(x);
            }
            i = i + 1;
        }
        None
    }
}

proof fn lemma_draw_none(s: Seq<bool>, field_size: nat, k: nat, m: nat)
    requires
        k <= m,
        draw(s, field_size, k) is None,
    ensures
        draw(s, field_size, m) is None,
    decreases m - k,
{
    if k < m {
        lemma_draw_none(s, field_size, k + 1, m);
    }
}

/// The first `t * (r_f + r_p)` field elements that the Grain LFSR yields for
/// these parameters.
pub fn generate_round_constants(field_size: u64, t: u64, r_f: u64, r_p: u64) -> (r: Result<
    Vec<Fe>,
    ParamError,
>)
    requires
        field_size <= 256,
        t < 4096,
        r_f < 1024,
        r_p < 1024,
    ensures
        r matches Ok(v) ==> v@.len() == t * (r_f + r_p) && vec_wf(v@) && round_constants_spec(
            field_size as nat,
            t as nat,
            r_f as nat,
            r_p as nat,
        ) == Some(limbs_of(v@)),
        r matches Err(e) ==> e == ParamError::ConstantsExhausted && round_constants_spec(
            field_size as nat,
            t as nat,
            r_f as nat,
            r_p as nat,
        ) is None,
{
    let mut seed: Vec<bool> = Vec::new();
    append_bits(&mut seed, 2, 1);
    append_bits(&mut seed, 4, 0);
    append_bits(&mut seed, 12, field_size);
    append_bits(&mut seed, 12, t);
    append_bits(&mut seed, 10, r_f);
    append_bits(&mut seed, 10, r_p);
    append_bits(&mut seed, 30, 0x3fff_ffff);
    assert(seed@ == seed_bits(field_size as nat, t as nat, r_f as nat, r_p as nat));
    let mut grain = Grain::new(seed);
    let ghost start = grain.state@;
    assert(t * (r_f + r_p) < 0x1_0000_0000) by (nonlinear_arith)
        requires
            t < 4096,
            r_f < 1024,
            r_p < 1024,
    ;
    let num: u64 = t * (r_f + r_p);
    let mut out: Vec<Fe> = Vec::new();
    let mut k: u64 = 0;
    while k < num
        invariant
            grain.wf(),
            field_size <= 256,
            k <= num,
            num == t * (r_f + r_p),
            out@.len() == k,
            vec_wf(out@),
            start == clocked(seed_bits(field_size as nat, t as nat, r_f as nat, r_p as nat), 160),
            draw(start, field_size as nat, k as nat) == Some((limbs_of(out@), grain.state@)),
        decreases num - k,
    {
        let ghost before = grain.state@;
        match grain.next_field_element(field_size) {
            Some(x) => {
                proof {
                    assert(limbs_of(out@.push(x)) =~= limbs_of(out@).push(x.limbs));
                }
                out.push(x);
            },
            None => {
                proof {
                    lemma_draw_none(start, field_size as nat, (k + 1) as nat, num as nat);
                }
                return Err(ParamError::ConstantsExhausted);
            },
        }
        k = k + 1;
    }
    Ok(out)
}

} // verus!
