//! Big-endian hexadecimal text and the natural numbers it denotes.

use crate::biguint::limbs::{
    lemma_limbs_value_update, lemma_limbs_value_zero, limb_weight, limbs_value,
};
use vstd::arithmetic::power2::{
    lemma2_to64, lemma2_to64_rest, lemma_pow2_adds, lemma_pow2_strictly_increases, pow2,
};
use vstd::prelude::*;

verus! {

/// The longest text that still fits: 4096 bits are 1024 hexadecimal digits.
pub const MAX_HEX_DIGITS: usize = 1024;

/// The byte of the character `0`.
pub const DIGIT_0: u8 = 0x30;

/// The byte of the character `9`.
pub const DIGIT_9: u8 = 0x39;

/// The byte of the character `A`.
pub const UPPER_A: u8 = 0x41;

/// The byte of the character `F`.
pub const UPPER_F: u8 = 0x46;

/// The byte of the character `a`.
pub const LOWER_A: u8 = 0x61;

/// The byte of the character `f`.
pub const LOWER_F: u8 = 0x66;

/// The number that a hexadecimal digit stands for; `None` for every other
/// character. Both cases of the letters are digits.
pub open spec fn hex_digit_value(c: char) -> Option<nat> {
    if '0' <= c && c <= '9' {
        Some((c as int - '0' as int) as nat)
    } else if 'a' <= c && c <= 'f' {
        Some((c as int - 'a' as int + 10) as nat)
    } else if 'A' <= c && c <= 'F' {
        Some((c as int - 'A' as int + 10) as nat)
    } else {
        None
    }
}

/// True for the lengths of text that are accepted: whole bytes of two digits
/// each, at least one and at most 512 of them.
pub open spec fn is_hex_length(len: nat) -> bool {
    0 < len <= MAX_HEX_DIGITS && len % 2 == 0
}

/// True when every character of the text is a hexadecimal digit.
pub open spec fn is_hex(text: Seq<char>) -> bool {
    forall|i: int| 0 <= i < text.len() ==> (#[trigger] hex_digit_value(text[i])) is Some
}

/// The number that a text of hexadecimal digits denotes, most significant
/// digit first. A character that is no digit counts as zero.
pub open spec fn hex_value(text: Seq<char>) -> nat
    decreases text.len(),
{
    if text.len() == 0 {
        0
    } else {
        16 * hex_value(text.drop_last()) + match hex_digit_value(text.last()) {
            Some(d) => d,
            None => 0,
        }
    }
}

/// The text whose characters are the given bytes, one character per byte.
pub open spec fn ascii_text(bytes: Seq<u8>) -> Seq<char> {
    Seq::new(bytes.len(), |i: int| bytes[i] as char)
}

/// A digit in front of a text adds its value at the weight `16^len` of the
/// position it takes.
pub proof fn lemma_hex_value_prepend(c: char, text: Seq<char>)
    ensures
        hex_value(seq![c] + text) == (match hex_digit_value(c) {
            Some(d) => d,
            None => 0,
        }) * pow2(4 * text.len()) + hex_value(text),
    decreases text.len(),
{
    let d: nat = match hex_digit_value(c) {
        Some(d) => d,
        None => 0,
    };
    let whole = seq![c] + text;
    lemma2_to64();
    if text.len() == 0 {
        assert(whole.drop_last() =~= Seq::<char>::empty());
        assert(hex_value(whole.drop_last()) == 0);
        assert(d * pow2(0) == d) by (nonlinear_arith)
            requires
                pow2(0) == 1,
        ;
    } else {
        let m = (text.len() - 1) as nat;
        assert(whole.drop_last() =~= seq![c] + text.drop_last());
        lemma_hex_value_prepend(c, text.drop_last());
        lemma_pow2_adds(4, 4 * m);
        assert(4 + 4 * m == 4 * text.len());
        assert(16 * (d * pow2(4 * m) + hex_value(text.drop_last())) == d * (16 * pow2(4 * m)) + 16
            * hex_value(text.drop_last())) by (nonlinear_arith);
    }
}

/// The weight of a digit inside its limb: `16^m` for the sixteen positions
/// `m` of a limb, each below `2^64`, and sixteen times the weight before.
pub proof fn lemma_digit_weight(m: nat)
    requires
        m < 16,
    ensures
        0 < pow2(4 * m) <= 0x1000_0000_0000_0000,
        pow2(4 * (m + 1)) == 16 * pow2(4 * m),
{
    lemma2_to64();
    lemma2_to64_rest();
    if 4 * m < 60 {
        lemma_pow2_strictly_increases(4 * m, 60);
    }
    lemma_pow2_adds(4, 4 * m);
    assert(4 + 4 * m == 4 * (m + 1));
}

/// Digit `16 * j + m`, counted from the least significant end of the text,
/// has the weight of position `m` inside limb `j`.
pub proof fn lemma_digit_position(j: nat, m: nat)
    ensures
        pow2(4 * (16 * j + m)) == pow2(4 * m) * limb_weight(j),
{
    lemma_pow2_adds(4 * m, 64 * j);
    assert(4 * m + 64 * j == 4 * (16 * j + m));
}

/// The number that one hexadecimal digit, given as a byte, stands for.
pub fn hex_digit(byte: u8) -> (digit: Option<u8>)
    ensures
        match digit {
            Some(d) => hex_digit_value(byte as char) == Some(d as nat),
            None => hex_digit_value(byte as char) is None,
        },
{
    if DIGIT_0 <= byte && byte <= DIGIT_9 {
        Some(byte - DIGIT_0)
    } else if LOWER_A <= byte && byte <= LOWER_F {
        Some(byte - LOWER_A + 10)
    } else if UPPER_A <= byte && byte <= UPPER_F {
        Some(byte - UPPER_A + 10)
    } else {
        None
    }
}

/// Packs a big-endian text of hexadecimal digits into 64 little-endian limbs,
/// sixteen digits to a limb, starting from the last digit of the text.
///
/// Returns `None` exactly when some byte is no hexadecimal digit.
pub fn pack_hex_digits(digits: &[u8]) -> (limbs: Option<[u64; 64]>)
    requires
        digits@.len() <= MAX_HEX_DIGITS,
    ensures
        limbs is Some <==> is_hex(ascii_text(digits@)),
        limbs matches Some(packed) ==> limbs_value(packed@) == hex_value(ascii_text(digits@)),
{
    let ghost text = ascii_text(digits@);
    let n = digits.len();
    let mut values = [0u64;64];
    let mut done: usize = 0;
    let mut limb: usize = 0;
    let mut place: usize = 0;
    let mut scale: u64 = 1;
    proof {
        lemma2_to64();
        lemma_limbs_value_zero(values@);
        assert(text.subrange(n as int, n as int) =~= Seq::<char>::empty());
    }
    while done < n
        invariant
            text == ascii_text(digits@),
            n == digits@.len() <= MAX_HEX_DIGITS,
            done <= n,
            done == 16 * limb + place,
            place < 16,
            scale == pow2(4 * place as nat),
            limb < 64 ==> values@[limb as int] < scale,
            forall|i: int| limb < i < 64 ==> values@[i] == 0,
            is_hex(text.subrange(n - done, n as int)),
            limbs_value(values@) == hex_value(text.subrange(n - done, n as int)),
        decreases n - done,
    {
        let byte = digits[n - 1 - done];
        let digit = match hex_digit(byte) {
            Some(d) => d,
            None => {
                proof {
                    assert(hex_digit_value(text[n - 1 - done]) is None);
                }
                return None;
            },
        };
        let ghost before = values@;
        let ghost tail = text.subrange(n - done, n as int);
        let ghost longer = text.subrange(n - done - 1, n as int);
        proof {
            lemma_digit_weight(place as nat);
            assert(digit as nat * scale as nat <= 15 * scale as nat) by (nonlinear_arith)
                requires
                    digit <= 15,
            ;
        }
        values[limb] = values[limb] + (digit as u64) * scale;
        proof {
            let c = text[n - 1 - done];
            let w = limb_weight(limb as nat);
            let old_limb = before[limb as int] as nat;
            assert(longer =~= seq![c] + tail);
            lemma_hex_value_prepend(c, tail);
            lemma_digit_position(limb as nat, place as nat);
            lemma_limbs_value_update(before, limb as int, values@[limb as int]);
            assert((old_limb + digit as nat * scale as nat) * w == old_limb * w + digit as nat * (
            scale as nat * w)) by (nonlinear_arith);
            assert forall|i: int| 0 <= i < longer.len() implies (#[trigger] hex_digit_value(
                longer[i],
            )) is Some by {
                if i > 0 {
                    assert(longer[i] == tail[i - 1]);
                }
            }
        }
        done += 1;
        if place == 15 {
            proof {
                lemma2_to64();
            }
            limb += 1;
            place = 0;
            scale = 1;
        } else {
            proof {
                lemma_digit_weight((place + 1) as nat);
            }
            place += 1;
            scale = scale * 16;
        }
    }
    proof {
        assert(text.subrange(0, n as int) =~= text);
    }
    Some(values)
}

} // verus!
