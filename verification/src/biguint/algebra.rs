//! What holds of construction and addition taken together.

use crate::biguint::limbs::lemma_limbs_value_single;
use crate::biguint::{BigUint4096, OverflowError, TryFromUint4096Error};
use vstd::prelude::*;
use vstd::std_specs::convert::TryFromSpec;

verus! {

/// A native integer and the sequence of the one limb that holds it are
/// turned into the same value.
pub proof fn lemma_integer_is_single_limb(x: u64, limbs: Vec<u64>)
    requires
        limbs@ == seq![x],
    ensures
        <BigUint4096 as TryFromSpec<Vec<u64>>>::try_from_spec(limbs) == <BigUint4096 as TryFromSpec<
            u64,
        >>::try_from_spec(x),
{
    lemma_limbs_value_single(x);
}

/// Zero is the identity of addition: adding the value built from the integer
/// zero, on either side, gives the other operand back and never overflows.
pub proof fn lemma_add_zero(x: BigUint4096, zero: BigUint4096)
    requires
        <BigUint4096 as TryFromSpec<u64>>::try_from_spec(0) == Ok::<
            BigUint4096,
            TryFromUint4096Error,
        >(zero),
    ensures
        x.checked_sum(&zero) == Ok::<BigUint4096, OverflowError>(x),
        zero.checked_sum(&x) == Ok::<BigUint4096, OverflowError>(x),
{
    vstd::arithmetic::power2::lemma_pow2_pos(4096);
    BigUint4096::lemma_from_nat(0);
    x.lemma_limbs_len();
    x.lemma_from_nat_view();
}

/// Addition is commutative: the two orders of the operands give the same
/// sum, and overflow together.
pub proof fn lemma_add_commutative(a: BigUint4096, b: BigUint4096)
    ensures
        a.checked_sum(&b) == b.checked_sum(&a),
{
}

/// Addition is associative: where both inner sums fit, the two ways of
/// adding three values give the same sum, and overflow together.
pub proof fn lemma_add_associative(
    a: BigUint4096,
    b: BigUint4096,
    c: BigUint4096,
    ab: BigUint4096,
    bc: BigUint4096,
)
    requires
        a.checked_sum(&b) == Ok::<BigUint4096, OverflowError>(ab),
        b.checked_sum(&c) == Ok::<BigUint4096, OverflowError>(bc),
    ensures
        ab.checked_sum(&c) == a.checked_sum(&bc),
{
    BigUint4096::lemma_from_nat(a@ + b@);
    BigUint4096::lemma_from_nat(b@ + c@);
}

/// A sum that fits stands for the sum of the two numbers.
pub proof fn lemma_checked_sum_value(a: BigUint4096, b: BigUint4096, sum: BigUint4096)
    requires
        a.checked_sum(&b) == Ok::<BigUint4096, OverflowError>(sum),
    ensures
        sum@ == a@ + b@,
{
    BigUint4096::lemma_from_nat(a@ + b@);
}

} // verus!
