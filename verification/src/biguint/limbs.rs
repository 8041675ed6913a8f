//! Little-endian sequences of 64-bit limbs and the natural numbers they denote.

use vstd::arithmetic::div_mod::{lemma_mod_breakdown, lemma_small_mod};
use vstd::arithmetic::power2::{lemma2_to64, lemma_pow2_adds, lemma_pow2_pos, pow2};
use vstd::prelude::*;

verus! {

/// The weight of limb `i` in a little-endian sequence: `2^(64 * i)`.
pub open spec fn limb_weight(i: nat) -> nat {
    pow2(64 * i)
}

/// The natural number that a little-endian sequence of limbs denotes: the sum
/// of `limbs[i] * 2^(64 * i)` over all positions.
pub open spec fn limbs_value(limbs: Seq<u64>) -> nat
    decreases limbs.len(),
{
    if limbs.len() == 0 {
        0
    } else {
        limbs_value(limbs.drop_last()) + limbs.last() as nat * limb_weight(
            (limbs.len() - 1) as nat,
        )
    }
}

/// `limbs` extended with zero limbs at the high end, up to length `len`.
pub open spec fn zero_extended(limbs: Seq<u64>, len: nat) -> Seq<u64> {
    Seq::new(
        len,
        |i: int|
            if i < limbs.len() {
                limbs[i]
            } else {
                0u64
            },
    )
}

/// The `len` lowest limbs of the number `n`: limb `i` is digit `i` of `n`
/// written in base `2^64`.
pub open spec fn limbs_of(n: nat, len: nat) -> Seq<u64> {
    Seq::new(len, |i: int| ((n / limb_weight(i as nat)) % 0x1_0000_0000_0000_0000) as u64)
}

/// The weight of the first limb is one, and each next weight is `2^64` times
/// the one before.
pub proof fn lemma_limb_weight_step(i: nat)
    ensures
        limb_weight(0) == 1,
        limb_weight(i) > 0,
        limb_weight(i + 1) == 0x1_0000_0000_0000_0000 * limb_weight(i),
{
    lemma2_to64();
    lemma_pow2_pos(64 * i);
    lemma_pow2_adds(64, 64 * i);
    assert(64 + 64 * i == 64 * (i + 1));
}

/// A quotient and a remainder determine each other's sum uniquely: two ways
/// of writing one number as `low + high * m` with `low < m` coincide.
pub proof fn lemma_split_unique(low1: nat, high1: nat, low2: nat, high2: nat, m: nat)
    requires
        low1 < m,
        low2 < m,
        low1 + high1 * m == low2 + high2 * m,
    ensures
        low1 == low2,
        high1 == high2,
{
    if high1 > high2 {
        assert(high1 * m >= (high2 + 1) * m) by (nonlinear_arith)
            requires
                high1 >= high2 + 1,
        ;
        assert((high2 + 1) * m == high2 * m + m) by (nonlinear_arith);
    } else if high2 > high1 {
        assert(high2 * m >= (high1 + 1) * m) by (nonlinear_arith)
            requires
                high2 >= high1 + 1,
        ;
        assert((high1 + 1) * m == high1 * m + m) by (nonlinear_arith);
    }
}

/// A sequence of `n` limbs denotes a number below `2^(64 * n)`.
pub proof fn lemma_limbs_value_bound(limbs: Seq<u64>)
    ensures
        limbs_value(limbs) < limb_weight(limbs.len()),
    decreases limbs.len(),
{
    if limbs.len() == 0 {
        lemma_limb_weight_step(0);
    } else {
        let n = (limbs.len() - 1) as nat;
        let w = limb_weight(n);
        let top = limbs.last() as nat;
        lemma_limbs_value_bound(limbs.drop_last());
        lemma_limb_weight_step(n);
        assert(top * w <= 0xffff_ffff_ffff_ffff * w) by (nonlinear_arith)
            requires
                top <= 0xffff_ffff_ffff_ffff,
        ;
        assert(0xffff_ffff_ffff_ffff * w + w == 0x1_0000_0000_0000_0000 * w)
            by (nonlinear_arith);
    }
}

/// Two limb sequences of one length that denote the same number are equal,
/// limb by limb.
pub proof fn lemma_limbs_value_injective(a: Seq<u64>, b: Seq<u64>)
    requires
        a.len() == b.len(),
        limbs_value(a) == limbs_value(b),
    ensures
        a == b,
    decreases a.len(),
{
    if a.len() == 0 {
        assert(a =~= b);
    } else {
        let n = (a.len() - 1) as nat;
        lemma_limbs_value_bound(a.drop_last());
        lemma_limbs_value_bound(b.drop_last());
        lemma_split_unique(
            limbs_value(a.drop_last()),
            a.last() as nat,
            limbs_value(b.drop_last()),
            b.last() as nat,
            limb_weight(n),
        );
        lemma_limbs_value_injective(a.drop_last(), b.drop_last());
        assert(a =~= a.drop_last().push(a.last()));
        assert(b =~= b.drop_last().push(b.last()));
    }
}

/// Taking one more limb of a sequence adds that limb, at its weight, to the
/// value of the prefix.
pub proof fn lemma_limbs_value_take_step(limbs: Seq<u64>, i: int)
    requires
        0 <= i < limbs.len(),
    ensures
        limbs_value(limbs.take(i + 1)) == limbs_value(limbs.take(i)) + limbs[i] as nat
            * limb_weight(i as nat),
{
    assert(limbs.take(i + 1).drop_last() =~= limbs.take(i));
}

/// A single limb denotes itself.
pub proof fn lemma_limbs_value_single(limb: u64)
    ensures
        limbs_value(seq![limb]) == limb,
{
    let s = seq![limb];
    lemma_limb_weight_step(0);
    assert(s.drop_last().len() == 0);
    assert(limbs_value(s.drop_last()) == 0);
    assert(limb as nat * limb_weight(0) == limb) by (nonlinear_arith)
        requires
            limb_weight(0) == 1,
    ;
}

/// Zero limbs at the high end do not change the value.
pub proof fn lemma_zero_extended_value(limbs: Seq<u64>, len: nat)
    requires
        limbs.len() <= len,
    ensures
        limbs_value(zero_extended(limbs, len)) == limbs_value(limbs),
    decreases len,
{
    let ext = zero_extended(limbs, len);
    if limbs.len() == len {
        assert(ext =~= limbs);
    } else {
        assert(ext.drop_last() =~= zero_extended(limbs, (len - 1) as nat));
        lemma_zero_extended_value(limbs, (len - 1) as nat);
        assert(ext.last() as nat * limb_weight((len - 1) as nat) == 0) by (nonlinear_arith)
            requires
                ext.last() == 0,
        ;
    }
}

/// Replacing limb `i` changes the value by the difference of the two limbs,
/// taken at the weight of position `i`.
pub proof fn lemma_limbs_value_update(limbs: Seq<u64>, i: int, limb: u64)
    requires
        0 <= i < limbs.len(),
    ensures
        limbs_value(limbs.update(i, limb)) + limbs[i] as nat * limb_weight(i as nat)
            == limbs_value(limbs) + limb as nat * limb_weight(i as nat),
    decreases limbs.len(),
{
    let updated = limbs.update(i, limb);
    if i == limbs.len() - 1 {
        assert(updated.drop_last() =~= limbs.drop_last());
    } else {
        assert(updated.drop_last() =~= limbs.drop_last().update(i, limb));
        lemma_limbs_value_update(limbs.drop_last(), i, limb);
    }
}

/// A sequence of zero limbs denotes zero.
pub proof fn lemma_limbs_value_zero(limbs: Seq<u64>)
    requires
        forall|i: int| 0 <= i < limbs.len() ==> limbs[i] == 0,
    ensures
        limbs_value(limbs) == 0,
    decreases limbs.len(),
{
    if limbs.len() > 0 {
        lemma_limbs_value_zero(limbs.drop_last());
        assert(limbs.last() as nat * limb_weight((limbs.len() - 1) as nat) == 0)
            by (nonlinear_arith)
            requires
                limbs.last() == 0,
        ;
    }
}

/// The `len` lowest limbs of a number denote its remainder modulo
/// `2^(64 * len)`.
pub proof fn lemma_limbs_of_remainder(n: nat, len: nat)
    ensures
        limbs_value(limbs_of(n, len)) == n % limb_weight(len),
    decreases len,
{
    if len == 0 {
        lemma_limb_weight_step(0);
    } else {
        let m = (len - 1) as nat;
        let w = limb_weight(m);
        let digits = limbs_of(n, len);
        lemma_limbs_of_remainder(n, m);
        assert(digits.drop_last() =~= limbs_of(n, m));
        lemma_limb_weight_step(m);
        lemma_mod_breakdown(n as int, w as int, 0x1_0000_0000_0000_0000);
        assert(w * ((n / w) % 0x1_0000_0000_0000_0000) == ((n / w) % 0x1_0000_0000_0000_0000) * w)
            by (nonlinear_arith);
        assert(w * 0x1_0000_0000_0000_0000 == 0x1_0000_0000_0000_0000 * w) by (nonlinear_arith);
    }
}

/// A number below `2^(64 * len)` is the value of its `len` lowest limbs.
pub proof fn lemma_limbs_of_value(n: nat, len: nat)
    requires
        n < limb_weight(len),
    ensures
        limbs_value(limbs_of(n, len)) == n,
{
    lemma_limbs_of_remainder(n, len);
    lemma_small_mod(n, limb_weight(len));
}

} // verus!
