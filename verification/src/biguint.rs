//! A fixed-width unsigned integer of 4096 bits, held as 64 little-endian
//! limbs of 64 bits each.

pub mod algebra;
pub mod hex;
pub mod limbs;

use crate::biguint::hex::{
    ascii_text, hex_digit_value, hex_value, is_hex, is_hex_length, pack_hex_digits,
};
use crate::biguint::limbs::{
    lemma_limb_weight_step, lemma_limbs_of_value, lemma_limbs_value_bound,
    lemma_limbs_value_injective, lemma_limbs_value_single, lemma_limbs_value_take_step,
    lemma_limbs_value_zero, lemma_zero_extended_value, limb_weight, limbs_of, limbs_value,
    zero_extended,
};
use vstd::arithmetic::power2::pow2;
use vstd::array::{spec_array_fill_for_copy_type, spec_array_update};
use vstd::prelude::*;
use vstd::std_specs::cmp::PartialEqSpecImpl;
use vstd::std_specs::convert::TryFromSpecImpl;

verus! {

/// The number of limbs in a `BigUint4096`.
pub const LIMB_COUNT: usize = 64;

/// An unsigned integer in the range `0 ..= 2^4096 - 1`.
///
/// The limbs are stored least significant first; the high limbs of a small
/// value are zero.
#[derive(Debug, Hash, Clone, Copy)]
pub struct BigUint4096 {
    values: [u64; 64],
}

/// The ways in which an input can fail to describe a `BigUint4096`.
#[derive(Debug, Copy, Clone, PartialEq, Eq)]
pub enum ErrorKind {
    /// The input has no elements, too many of them, or (for hexadecimal
    /// text) an odd number of digits.
    InvalidLength,
    /// The hexadecimal text holds a character that is no hexadecimal digit.
    InvalidDigit,
}

/// The error of a conversion into `BigUint4096` that was refused; it holds
/// the reason.
#[derive(Debug, Copy, Clone, PartialEq, Eq)]
pub struct TryFromUint4096Error(pub ErrorKind);

/// The sum of two values does not fit in 4096 bits.
#[derive(Debug, Copy, Clone, PartialEq, Eq)]
pub struct OverflowError;

/// An array whose first `count` entries are those of `limbs`.
spec fn array_of(limbs: Seq<u64>, count: nat) -> [u64; 64]
    decreases count,
{
    if count == 0 {
        spec_array_fill_for_copy_type(0u64)
    } else {
        spec_array_update(array_of(limbs, (count - 1) as nat), count - 1, limbs[count - 1])
    }
}

/// `array_of` holds the limbs it was built from.
proof fn lemma_array_of(limbs: Seq<u64>, count: nat)
    requires
        count <= 64,
    ensures
        forall|i: int| 0 <= i < count ==> array_of(limbs, count)@[i] == limbs[i],
    decreases count,
{
    if count > 0 {
        lemma_array_of(limbs, (count - 1) as nat);
    }
}

impl View for BigUint4096 {
    type V = nat;

    /// The number that the value stands for.
    open spec fn view(&self) -> nat {
        limbs_value(self.limbs())
    }
}

impl BigUint4096 {
    /// The 64 limbs, least significant first.
    pub closed spec fn limbs(&self) -> Seq<u64> {
        self.values@
    }

    /// The value that stands for the number `n`; meaningful for `n < 2^4096`.
    pub closed spec fn from_nat(n: nat) -> BigUint4096 {
        choose|x: BigUint4096| x@ == n
    }

    /// The sum of two values: the value that stands for the sum of the two
    /// numbers where that is below `2^4096`, and an overflow otherwise.
    pub open spec fn checked_sum(&self, rhs: &BigUint4096) -> Result<BigUint4096, OverflowError> {
        if self@ + rhs@ < pow2(4096) {
            Ok(BigUint4096::from_nat(self@ + rhs@))
        } else {
            Err(OverflowError)
        }
    }

    /// There are always exactly 64 limbs, and so the number is below `2^4096`.
    pub proof fn lemma_limbs_len(&self)
        ensures
            self.limbs().len() == LIMB_COUNT,
            self@ < pow2(4096),
    {
        lemma_limbs_value_bound(self.limbs());
    }

    /// Two values are equal exactly when their limbs are, and exactly when
    /// they stand for the same number.
    pub proof fn lemma_equal_iff(&self, other: &BigUint4096)
        ensures
            (self == other) <==> (self.limbs() == other.limbs()),
            (self == other) <==> (self@ == other@),
    {
        if self@ == other@ {
            lemma_limbs_value_injective(self.limbs(), other.limbs());
        }
        if self.limbs() == other.limbs() {
            assert(self.values =~= other.values);
        }
    }

    /// Every number below `2^4096` has a value that stands for it, and its
    /// limbs are the digits of the number in base `2^64`.
    pub proof fn lemma_from_nat(n: nat)
        requires
            n < pow2(4096),
        ensures
            BigUint4096::from_nat(n)@ == n,
            BigUint4096::from_nat(n).limbs() == limbs_of(n, LIMB_COUNT as nat),
    {
        let digits = limbs_of(n, LIMB_COUNT as nat);
        let witness = BigUint4096 { values: array_of(digits, LIMB_COUNT as nat) };
        lemma_array_of(digits, LIMB_COUNT as nat);
        assert(witness.limbs() =~= digits);
        lemma_limbs_of_value(n, LIMB_COUNT as nat);
        assert(witness@ == n);
        lemma_limbs_value_injective(BigUint4096::from_nat(n).limbs(), digits);
    }

    /// The limbs of a value are the digits, in base `2^64`, of the number it
    /// stands for.
    pub proof fn lemma_limbs_are_digits(&self)
        ensures
            self.limbs() == limbs_of(self@, LIMB_COUNT as nat),
    {
        self.lemma_limbs_len();
        self.lemma_from_nat_view();
        BigUint4096::lemma_from_nat(self@);
    }

    /// `from_nat` gives back the value that a number was read from.
    pub proof fn lemma_from_nat_view(&self)
        ensures
            BigUint4096::from_nat(self@) == self,
    {
        let chosen = BigUint4096::from_nat(self@);
        assert(chosen@ == self@);
        chosen.lemma_equal_iff(self);
    }
}

impl Default for BigUint4096 {
    /// The zero value: all limbs zero.
    fn default() -> (zero: Self)
        ensures
            zero@ == 0,
            zero.limbs() == zero_extended(Seq::empty(), LIMB_COUNT as nat),
    {
        let zero = Self { values: [0;64] };
        proof {
            assert(zero.limbs() =~= zero_extended(Seq::empty(), LIMB_COUNT as nat));
            lemma_limbs_value_zero(zero.limbs());
        }
        zero
    }
}

impl TryFromSpecImpl<u64> for BigUint4096 {
    open spec fn obeys_try_from_spec() -> bool {
        true
    }

    open spec fn try_from_spec(value: u64) -> Result<Self, Self::Error> {
        Ok(BigUint4096::from_nat(value as nat))
    }
}

impl TryFrom<u64> for BigUint4096 {
    type Error = TryFromUint4096Error;

    /// The value of a native integer: limb 0 holds it, the other limbs are
    /// zero. This never fails.
    fn try_from(value: u64) -> (result: Result<Self, Self::Error>)
        ensures
            result matches Ok(n) && n@ == value && n.limbs() == zero_extended(
                seq![value],
                LIMB_COUNT as nat,
            ),
    {
        let mut values = [0u64;64];
        values[0] = value;
        let n = Self { values };
        proof {
            assert(n.limbs() =~= zero_extended(seq![value], LIMB_COUNT as nat));
            lemma_zero_extended_value(seq![value], LIMB_COUNT as nat);
            lemma_limbs_value_single(value);
            n.lemma_from_nat_view();
        }
        Ok(n)
    }
}

impl TryFromSpecImpl<Vec<u64>> for BigUint4096 {
    open spec fn obeys_try_from_spec() -> bool {
        true
    }

    open spec fn try_from_spec(value: Vec<u64>) -> Result<Self, Self::Error> {
        if value@.len() == 0 || value@.len() > LIMB_COUNT {
            Err(TryFromUint4096Error(ErrorKind::InvalidLength))
        } else {
            Ok(BigUint4096::from_nat(limbs_value(value@)))
        }
    }
}

impl TryFrom<Vec<u64>> for BigUint4096 {
    type Error = TryFromUint4096Error;

    /// The value of a little-endian sequence of one to 64 limbs: the limbs
    /// given fill the low positions in their order, and the positions above
    /// them are zero. An empty sequence and one of more than 64 limbs are
    /// refused with `InvalidLength`.
    fn try_from(value: Vec<u64>) -> (result: Result<Self, Self::Error>)
        ensures
            result is Ok <==> 1 <= value@.len() <= LIMB_COUNT,
            result matches Ok(n) ==> n@ == limbs_value(value@) && n.limbs() == zero_extended(
                value@,
                LIMB_COUNT as nat,
            ),
            result matches Err(e) ==> e == TryFromUint4096Error(ErrorKind::InvalidLength),
    {
        if value.len() > 64 || value.len() == 0 {
            return Err(TryFromUint4096Error(ErrorKind::InvalidLength));
        }
        let mut values = [0u64;64];
        let mut i: usize = 0;
        while i < value.len()
            invariant
                i <= value.len() <= 64,
                forall|j: int| 0 <= j < i ==> values@[j] == value@[j],
                forall|j: int| i <= j < 64 ==> values@[j] == 0,
            decreases value.len() - i,
        {
            values[i] = value[i];
            i += 1;
        }
        let n = Self { values };
        proof {
            assert(n.limbs() =~= zero_extended(value@, LIMB_COUNT as nat));
            lemma_zero_extended_value(value@, LIMB_COUNT as nat);
            n.lemma_from_nat_view();
        }
        Ok(n)
    }
}

impl TryFromSpecImpl<String> for BigUint4096 {
    open spec fn obeys_try_from_spec() -> bool {
        true
    }

    open spec fn try_from_spec(value: String) -> Result<Self, Self::Error> {
        if !is_hex_length(value@.len()) {
            Err(TryFromUint4096Error(ErrorKind::InvalidLength))
        } else if !is_hex(value@) {
            Err(TryFromUint4096Error(ErrorKind::InvalidDigit))
        } else {
            Ok(BigUint4096::from_nat(hex_value(value@)))
        }
    }
}

impl TryFrom<String> for BigUint4096 {
    type Error = TryFromUint4096Error;

    /// The value of a hexadecimal text, most significant byte first, two
    /// digits to a byte and no prefix.
    ///
    /// An empty text, one of more than 1024 characters and one of odd length
    /// are refused with `InvalidLength`; a text of an accepted length that
    /// holds anything but hexadecimal digits is refused with `InvalidDigit`.
    fn try_from(value: String) -> (result: Result<Self, Self::Error>)
        ensures
            result is Ok <==> is_hex_length(value@.len()) && is_hex(value@),
            result matches Ok(n) ==> n@ == hex_value(value@) && n.limbs() == limbs_of(
                hex_value(value@),
                LIMB_COUNT as nat,
            ),
            result matches Err(e) ==> e == (if is_hex_length(value@.len()) {
                TryFromUint4096Error(ErrorKind::InvalidDigit)
            } else {
                TryFromUint4096Error(ErrorKind::InvalidLength)
            }),
    {
        let text = value.as_str();
        if !text.is_ascii() {
            let count = text.unicode_len();
            if count > 1024 || count % 2 != 0 {
                return Err(TryFromUint4096Error(ErrorKind::InvalidLength));
            }
            proof {
                let i = choose|i: int|
                    0 <= i < text@.len() && !('\0' <= #[trigger] text@[i] <= '\u{7f}');
                assert(hex_digit_value(text@[i]) is None);
            }
            return Err(TryFromUint4096Error(ErrorKind::InvalidDigit));
        }
        let digits = text.as_bytes();
        proof {
            vstd::string::is_ascii_spec_bytes(text);
            assert(ascii_text(digits@) =~= value@);
        }
        let count = digits.len();
        if count == 0 || count > 1024 || count % 2 != 0 {
            return Err(TryFromUint4096Error(ErrorKind::InvalidLength));
        }
        match pack_hex_digits(digits) {
            None => Err(TryFromUint4096Error(ErrorKind::InvalidDigit)),
            Some(values) => {
                let n = Self { values };
                proof {
                    n.lemma_from_nat_view();
                    n.lemma_limbs_are_digits();
                }
                Ok(n)
            },
        }
    }
}

impl BigUint4096 {
    /// Adds two values by rippling the carry from the least significant limb
    /// to the most significant one.
    ///
    /// A sum of `2^4096` or more does not fit and is reported as an
    /// `OverflowError`; the result is never truncated.
    pub fn add(&self, rhs: &BigUint4096) -> (result: Result<BigUint4096, OverflowError>)
        ensures
            result == self.checked_sum(rhs),
            result is Ok <==> self@ + rhs@ < pow2(4096),
            result matches Ok(sum) ==> sum@ == self@ + rhs@ && sum.limbs() == limbs_of(
                self@ + rhs@,
                LIMB_COUNT as nat,
            ),
    {
        let mut values = self.values;
        let mut carry = false;
        let mut i: usize = 0;
        while i < 64
            invariant
                i <= 64,
                forall|j: int| i <= j < 64 ==> values@[j] == self.limbs()[j],
                limbs_value(values@.take(i as int)) + (if carry {
                    limb_weight(i as nat)
                } else {
                    0
                }) == limbs_value(self.limbs().take(i as int)) + limbs_value(
                    rhs.limbs().take(i as int),
                ),
            decreases 64 - i,
        {
            let ghost before = values@;
            let ghost carry_in: nat = if carry { 1 } else { 0 };
            let mut limb = values[i];
            let mut carry_from_first = false;
            if carry {
                carry_from_first = limb == u64::MAX;
                limb = limb.wrapping_add(1);
            }
            let total = limb.wrapping_add(rhs.values[i]);
            let carry_from_second = total < limb;
            values[i] = total;
            carry = carry_from_first || carry_from_second;
            proof {
                let a = self.limbs()[i as int] as nat;
                let b = rhs.limbs()[i as int] as nat;
                let carry_out: nat = if carry { 1 } else { 0 };
                let w = limb_weight(i as nat);
                assert(total + 0x1_0000_0000_0000_0000 * carry_out == a + b + carry_in);
                lemma_limb_weight_step(i as nat);
                lemma_limbs_value_take_step(values@, i as int);
                lemma_limbs_value_take_step(self.limbs(), i as int);
                lemma_limbs_value_take_step(rhs.limbs(), i as int);
                assert(values@.take(i as int) =~= before.take(i as int));
                assert((total + 0x1_0000_0000_0000_0000 * carry_out) * w == total * w + carry_out
                    * (0x1_0000_0000_0000_0000 * w)) by (nonlinear_arith);
                assert((a + b + carry_in) * w == a * w + b * w + carry_in * w)
                    by (nonlinear_arith);
            }
            i += 1;
        }
        proof {
            assert(values@.take(64) =~= values@);
            assert(self.limbs().take(64) =~= self.limbs());
            assert(rhs.limbs().take(64) =~= rhs.limbs());
            lemma_limbs_value_bound(values@);
        }
        if carry {
            Err(OverflowError)
        } else {
            let sum = BigUint4096 { values };
            proof {
                sum.lemma_from_nat_view();
                sum.lemma_limbs_are_digits();
            }
            Ok(sum)
        }
    }
}

impl PartialEqSpecImpl for BigUint4096 {
    open spec fn obeys_eq_spec() -> bool {
        true
    }

    open spec fn eq_spec(&self, other: &BigUint4096) -> bool {
        self.limbs() == other.limbs()
    }
}

impl PartialEq for BigUint4096 {
    /// Two values are equal when all 64 limbs are pairwise equal, which is
    /// when they stand for the same number.
    fn eq(&self, other: &BigUint4096) -> (equal: bool)
        ensures
            equal == (self@ == other@),
    {
        let mut i: usize = 0;
        while i < 64
            invariant
                i <= 64,
                forall|j: int| 0 <= j < i ==> self.limbs()[j] == other.limbs()[j],
            decreases 64 - i,
        {
            if self.values[i] != other.values[i] {
                proof {
                    self.lemma_equal_iff(other);
                }
                return false;
            }
            i += 1;
        }
        proof {
            assert(self.limbs() =~= other.limbs());
        }
        true
    }
}

impl Eq for BigUint4096 {}

} // verus!
