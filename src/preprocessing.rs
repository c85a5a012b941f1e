//! Compression of the round constants so that they fit the sparse-factorized
//! linear layer.
use crate::field::Fe;
use crate::field::modulus;
use crate::matrix::{left_apply, mat_val, square_wf, vec_mat, vec_val, vec_wf, Matrix};
use vstd::prelude::*;

verus! {

/// The constants of round `r`.
pub open spec fn keys(rc: Seq<int>, r: int, w: int) -> Seq<int> {
    rc.subrange(r * w, (r + 1) * w)
}

/// The constants of round `r` multiplied by the inverse matrix.
pub open spec fn inv_keys(rc: Seq<int>, r: int, w: int, minv: Seq<Seq<int>>) -> Seq<int> {
    vec_mat(keys(rc, r, w), minv, w as nat)
}

pub open spec fn vadd(a: Seq<int>, b: Seq<int>) -> Seq<int> {
    Seq::new(a.len(), |i: int| (a[i] + b[i]) % modulus())
}

/// The first round's constants followed by those of rounds `1..=i` pushed
/// back through the inverse matrix.
pub open spec fn first_half(rc: Seq<int>, w: int, minv: Seq<Seq<int>>, i: nat) -> Seq<int>
    decreases i,
{
    if i == 0 {
        keys(rc, 0, w)
    } else {
        first_half(rc, w, minv, (i - 1) as nat) + inv_keys(rc, i as int, w, minv)
    }
}

/// The accumulated constants after folding `j` partial rounds, from round `fr`
/// backwards: each step pushes the accumulator back through the inverse
/// matrix, keeps its first entry apart, and adds the earlier round's constants.
pub open spec fn acc_spec(rc: Seq<int>, w: int, minv: Seq<Seq<int>>, fr: int, j: nat) -> Seq<int>
    decreases j,
{
    if j == 0 {
        keys(rc, fr, w)
    } else {
        let prev = acc_spec(rc, w, minv, fr, (j - 1) as nat);
        vadd(keys(rc, fr - j, w), vec_mat(prev, minv, w as nat).update(0, 0))
    }
}

/// The single constant kept apart at step `j` of the fold.
pub open spec fn partial_key(rc: Seq<int>, w: int, minv: Seq<Seq<int>>, fr: int, j: int) -> int {
    vec_mat(acc_spec(rc, w, minv, fr, j as nat), minv, w as nat)[0]
}

/// The constants of rounds `fr + 1 ..= fr + i` pushed back through the inverse matrix.
pub open spec fn second_half(rc: Seq<int>, w: int, minv: Seq<Seq<int>>, fr: int, i: nat) -> Seq<
    int,
>
    decreases i,
{
    if i == 0 {
        seq![]
    } else {
        second_half(rc, w, minv, fr, (i - 1) as nat) + inv_keys(rc, i + fr, w, minv)
    }
}

/// The compressed constants for `h` full rounds on each side and `p` partial rounds.
pub open spec fn compressed_spec(rc: Seq<int>, w: int, minv: Seq<Seq<int>>, h: int, p: int) -> Seq<
    int,
> {
    let fr = h + p;
    first_half(rc, w, minv, (h - 1) as nat) + vec_mat(acc_spec(rc, w, minv, fr, p as nat), minv, w as nat)
        + Seq::new(p as nat, |i: int| partial_key(rc, w, minv, fr, p - 1 - i)) + second_half(
        rc,
        w,
        minv,
        fr,
        (h - 1) as nat,
    )
}

/// The `width` constants of round `round`.
pub fn round_keys(rc: &Vec<Fe>, round: usize, width: usize) -> (r: Vec<Fe>)
    requires
        (round + 1) * width <= rc@.len(),
        vec_wf(rc@),
    ensures
        r@ == rc@.subrange(round * width, (round + 1) * width),
        r@.len() == width,
        vec_wf(r@),
        vec_val(r@) == keys(vec_val(rc@), round as int, width as int),
{
    proof {
        assert((round + 1) * width == round * width + width) by (nonlinear_arith);
        assert(round * width <= (round + 1) * width) by (nonlinear_arith);
    }
    let len = rc.len();
    let start = round * width;
    let mut r: Vec<Fe> = Vec::new();
    let mut i: usize = 0;
    while i < width
        invariant
            start == round * width,
            start + width <= rc@.len() == len,
            (round + 1) * width == start + width,
            i <= width,
            r@ == rc@.subrange(start as int, start + i),
        decreases width - i,
    {
        r.push(rc[start + i]);
        i = i + 1;
        assert(r@ =~= rc@.subrange(start as int, start + i));
    }
    assert(vec_val(r@) =~= keys(vec_val(rc@), round as int, width as int));
    r
}

/// The sum of two vectors of equal length, entry by entry.
pub fn vec_add(a: &Vec<Fe>, b: &Vec<Fe>) -> (r: Vec<Fe>)
    requires
        a@.len() == b@.len(),
        vec_wf(a@),
        vec_wf(b@),
    ensures
        r@.len() == a@.len(),
        vec_wf(r@),
        forall|i: int|
            0 <= i < a@.len() ==> #[trigger] r@[i].val() == (a@[i].val() + b@[i].val())
                % crate::field::modulus(),
        vec_val(r@) == vadd(vec_val(a@), vec_val(b@)),
{
    let mut r: Vec<Fe> = Vec::new();
    let mut i: usize = 0;
    while i < a.len()
        invariant
            i <= a@.len() == b@.len(),
            vec_wf(a@),
            vec_wf(b@),
            r@.len() == i,
            vec_wf(r@),
            forall|k: int|
                0 <= k < i ==> #[trigger] r@[k].val() == (a@[k].val() + b@[k].val())
                    % crate::field::modulus(),
        decreases a.len() - i,
    {
        r.push(a[i].add(&b[i]));
        i = i + 1;
    }
    assert(vec_val(r@) =~= vadd(vec_val(a@), vec_val(b@)));
    r
}

/// Appends the entries of `v` to `out`.
pub fn extend_from(out: &mut Vec<Fe>, v: &Vec<Fe>)
    requires
        vec_wf(old(out)@),
        vec_wf(v@),
    ensures
        final(out)@ == old(out)@ + v@,
        vec_wf(final(out)@),
{
    let ghost start = old(out)@;
    let mut i: usize = 0;
    while i < v.len()
        invariant
            i <= v@.len(),
            vec_wf(v@),
            out@ == start + v@.subrange(0, i as int),
            vec_wf(start),
        decreases v.len() - i,
    {
        out.push(v[i]);
        i = i + 1;
        assert(out@ =~= start + v@.subrange(0, i as int));
    }
    assert(v@.subrange(0, v@.len() as int) =~= v@);
}

/// The round constants rewritten for the optimized evaluation: the first
/// round's constants, then each full round's constants for the next round
/// pushed back through `m_inv`, and one constant for each partial round.
pub fn compress_round_constants(
    width: usize,
    full_rounds: usize,
    partial_rounds: usize,
    round_constants: &Vec<Fe>,
    m_inv: &Matrix,
) -> (r: Vec<Fe>)
    requires
        width >= 1,
        full_rounds >= 2,
        full_rounds % 2 == 0,
        width * (full_rounds + partial_rounds) <= round_constants@.len(),
        vec_wf(round_constants@),
        square_wf(m_inv@, width as nat),
    ensures
        r@.len() == width * full_rounds + partial_rounds,
        vec_wf(r@),
        r@.subrange(0, width as int) == round_constants@.subrange(0, width as int),
        vec_val(r@) == compressed_spec(
            vec_val(round_constants@),
            width as int,
            mat_val(m_inv@),
            (full_rounds / 2) as int,
            partial_rounds as int,
        ),
{
    let ghost rcv = vec_val(round_constants@);
    let ghost minv = mat_val(m_inv@);
    let ghost w = width as int;
    let half = full_rounds / 2;
    proof {
        assert(width * (full_rounds + partial_rounds) == width * full_rounds + width
            * partial_rounds) by (nonlinear_arith);
        assert(width * full_rounds == 2 * (width * half)) by (nonlinear_arith)
            requires
                full_rounds == 2 * half,
        ;
    }
    proof {
        assert((0 + 1) * width <= width * (full_rounds + partial_rounds)) by (nonlinear_arith)
            requires
                full_rounds >= 2,
        ;
        assert(width * (0 + 1) == width) by (nonlinear_arith);
    }
    let mut res = round_keys(round_constants, 0, width);
    let ghost first = res@;
    assert(vec_val(res@) =~= first_half(rcv, w, minv, 0));
    let mut i: usize = 0;
    while i + 1 < half
        invariant
            width >= 1,
            half >= 1,
            full_rounds == 2 * half,
            width * (full_rounds + partial_rounds) <= round_constants@.len(),
            vec_wf(round_constants@),
            square_wf(m_inv@, width as nat),
            i + 1 <= half,
            res@.len() == width * (i + 1),
            vec_wf(res@),
            res@.len() >= width,
            first.len() == width,
            res@.subrange(0, width as int) == first,
            rcv == vec_val(round_constants@),
            minv == mat_val(m_inv@),
            w == width,
            vec_val(res@) == first_half(rcv, w, minv, i as nat),
        decreases half - i,
    {
        proof {
            assert((i + 2) * width <= width * (full_rounds + partial_rounds)) by (nonlinear_arith)
                requires
                    i + 2 <= half,
                    full_rounds == 2 * half,
            ;
            assert(width * (i + 2) == width * (i + 1) + width) by (nonlinear_arith);
        }
        let next = round_keys(round_constants, i + 1, width);
        let inverted = left_apply(&next, m_inv);
        let ghost before = res@;
        extend_from(&mut res, &inverted);
        assert(res@.subrange(0, width as int) =~= before.subrange(0, width as int));
        assert(vec_val(next@) =~= keys(rcv, i + 1, w));
        assert(vec_val(res@) =~= vec_val(before) + vec_val(inverted@));
        i = i + 1;
    }
    // the partial rounds, last first
    let len = round_constants.len();
    proof {
        assert(full_rounds + partial_rounds <= width * (full_rounds + partial_rounds))
            by (nonlinear_arith)
            requires
                width >= 1,
        ;
    }
    let final_round = half + partial_rounds;
    proof {
        assert((final_round + 1) * width <= width * (full_rounds + partial_rounds))
            by (nonlinear_arith)
            requires
                final_round == half + partial_rounds,
                half >= 1,
                full_rounds == 2 * half,
        ;
    }
    let mut acc = round_keys(round_constants, final_round, width);
    assert(vec_val(acc@) =~= acc_spec(rcv, w, minv, final_round as int, 0));
    let mut partial_keys: Vec<Fe> = Vec::new();
    let mut k: usize = 0;
    while k < partial_rounds
        invariant
            width >= 1,
            final_round == half + partial_rounds,
            full_rounds == 2 * half,
            width * (full_rounds + partial_rounds) <= round_constants@.len(),
            vec_wf(round_constants@),
            square_wf(m_inv@, width as nat),
            k <= partial_rounds,
            acc@.len() == width,
            vec_wf(acc@),
            first.len() == width,
            res@.len() >= width,
            res@.subrange(0, width as int) == first,
            partial_keys@.len() == k,
            vec_wf(partial_keys@),
            rcv == vec_val(round_constants@),
            minv == mat_val(m_inv@),
            w == width,
            i + 1 == half,
            vec_val(res@) == first_half(rcv, w, minv, i as nat),
            vec_val(acc@) == acc_spec(rcv, w, minv, final_round as int, k as nat),
            forall|j: int|
                0 <= j < k ==> (#[trigger] partial_keys@[j]).val() == partial_key(
                    rcv,
                    w,
                    minv,
                    final_round as int,
                    j,
                ),
        decreases partial_rounds - k,
    {
        proof {
            assert((final_round - k - 1 + 1) * width <= width * (full_rounds + partial_rounds))
                by (nonlinear_arith)
                requires
                    final_round == half + partial_rounds,
                    k < partial_rounds,
                    full_rounds == 2 * half,
            ;
        }
        let previous = round_keys(round_constants, final_round - k - 1, width);
        let mut inverted = left_apply(&acc, m_inv);
        partial_keys.push(inverted[0]);
        inverted.set(0, Fe::zero());
        proof {
            assert(vec_val(previous@) =~= keys(rcv, final_round - (k + 1), w));
            assert(vec_val(inverted@) =~= vec_mat(vec_val(acc@), minv, w as nat).update(0, 0));
        }
        acc = vec_add(&previous, &inverted);
        k = k + 1;
    }
    let last_full = left_apply(&acc, m_inv);
    let ghost before = res@;
    extend_from(&mut res, &last_full);
    assert(res@.subrange(0, width as int) =~= before.subrange(0, width as int));
    let ghost mid = vec_val(res@);
    assert(mid =~= first_half(rcv, w, minv, (half - 1) as nat) + vec_mat(
        acc_spec(rcv, w, minv, final_round as int, partial_rounds as nat),
        minv,
        w as nat,
    ));
    proof {
        assert(width * half + width == width * (half + 1)) by (nonlinear_arith);
    }
    while partial_keys.len() > 0
        invariant
            vec_wf(partial_keys@),
            vec_wf(res@),
            first.len() == width,
            res@.len() >= width,
            res@.subrange(0, width as int) == first,
            res@.len() + partial_keys@.len() == width * (half + 1) + partial_rounds,
            partial_keys@.len() <= partial_rounds,
            forall|j: int|
                0 <= j < partial_keys@.len() ==> (#[trigger] partial_keys@[j]).val()
                    == partial_key(rcv, w, minv, final_round as int, j),
            vec_val(res@) == mid + Seq::new(
                (partial_rounds - partial_keys@.len()) as nat,
                |j: int| partial_key(rcv, w, minv, final_round as int, partial_rounds - 1 - j),
            ),
        decreases partial_keys.len(),
    {
        let ghost pk_before = partial_keys@;
        let x = partial_keys.pop().unwrap();
        proof {
            let l = pk_before.len() - 1;
            assert(x == pk_before[l]);
            assert(pk_before[l].val() == partial_key(rcv, w, minv, final_round as int, l));
        }
        let ghost before = res@;
        res.push(x);
        assert(res@.subrange(0, width as int) =~= before.subrange(0, width as int));
        assert(vec_val(res@) =~= vec_val(before).push(x.val()));
        assert(Seq::new(
            (partial_rounds - partial_keys@.len()) as nat,
            |j: int| partial_key(rcv, w, minv, final_round as int, partial_rounds - 1 - j),
        ) =~= Seq::new(
            (partial_rounds - pk_before.len()) as nat,
            |j: int| partial_key(rcv, w, minv, final_round as int, partial_rounds - 1 - j),
        ).push(x.val()));
        assert(vec_val(res@) =~= mid + Seq::new(
            (partial_rounds - partial_keys@.len()) as nat,
            |j: int| partial_key(rcv, w, minv, final_round as int, partial_rounds - 1 - j),
        ));
    }
    // the second half of the full rounds, whose last round takes no constants
    let ghost mid_all = vec_val(res@);
    assert(vec_val(res@) =~= vec_val(res@) + second_half(rcv, w, minv, final_round as int, 0));
    let mut i: usize = 1;
    while i < half
        invariant
            width >= 1,
            full_rounds == 2 * half,
            final_round == half + partial_rounds,
            width * (full_rounds + partial_rounds) <= round_constants@.len(),
            vec_wf(round_constants@),
            square_wf(m_inv@, width as nat),
            1 <= i <= half,
            full_rounds + partial_rounds <= len == round_constants@.len(),
            res@.len() == width * (half + i) + partial_rounds,
            vec_wf(res@),
            rcv == vec_val(round_constants@),
            minv == mat_val(m_inv@),
            w == width,
            mid_all == mid + Seq::new(
                partial_rounds as nat,
                |j: int| partial_key(rcv, w, minv, final_round as int, partial_rounds - 1 - j),
            ),
            mid == first_half(rcv, w, minv, (half - 1) as nat) + vec_mat(
                acc_spec(rcv, w, minv, final_round as int, partial_rounds as nat),
                minv,
                w as nat,
            ),
            vec_val(res@) == mid_all + second_half(rcv, w, minv, final_round as int, (i - 1) as nat),
            first.len() == width,
            res@.len() >= width,
            res@.subrange(0, width as int) == first,
        decreases half - i,
    {
        proof {
            assert((i + final_round + 1) * width <= width * (full_rounds + partial_rounds))
                by (nonlinear_arith)
                requires
                    final_round == half + partial_rounds,
                    i < half,
                    full_rounds == 2 * half,
            ;
            assert(width * (half + i + 1) == width * (half + i) + width) by (nonlinear_arith);
        }
        let next = round_keys(round_constants, i + final_round, width);
        let inverted = left_apply(&next, m_inv);
        let ghost before = res@;
        extend_from(&mut res, &inverted);
        assert(res@.subrange(0, width as int) =~= before.subrange(0, width as int));
        assert(vec_val(next@) =~= keys(rcv, i + final_round, w));
        assert(vec_val(res@) =~= vec_val(before) + vec_val(inverted@));
        i = i + 1;
    }
    proof {
        assert(width * (half + half) == width * full_rounds) by (nonlinear_arith)
            requires
                full_rounds == 2 * half,
        ;
        assert(vec_val(res@) =~= compressed_spec(rcv, w, minv, half as int, partial_rounds as int));
    }
    res
}

} // verus!
