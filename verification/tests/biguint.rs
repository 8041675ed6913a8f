use biguint4096::biguint::hex::{hex_digit, pack_hex_digits};
use biguint4096::biguint::{BigUint4096, ErrorKind, OverflowError, TryFromUint4096Error};

fn from_u64(value: u64) -> BigUint4096 {
    BigUint4096::try_from(value).unwrap()
}

fn from_limbs(limbs: Vec<u64>) -> BigUint4096 {
    BigUint4096::try_from(limbs).unwrap()
}

fn from_hex(text: &str) -> BigUint4096 {
    BigUint4096::try_from(text.to_string()).unwrap()
}

fn sum_of(left: u64, right: u64) -> BigUint4096 {
    from_u64(left).add(&from_u64(right)).unwrap()
}

fn assert_eq_biguint4096(expected: u64, actual: BigUint4096) {
    assert_eq!(BigUint4096::try_from(expected).unwrap(), actual);
}

#[test]
fn cannot_try_from_an_array_too_big() {
    let too_big_input = vec![0; 65];

    assert!(BigUint4096::try_from(too_big_input).is_err());
}

#[test]
fn try_from_maximum_array_size() {
    assert!(BigUint4096::try_from(vec![0; 64]).is_ok());
}

#[test]
fn try_from_minimum_array_size() {
    assert!(BigUint4096::try_from(vec![0; 1]).is_ok());
}

#[test]
fn cannot_try_from_with_array_size_zero() {
    assert!(BigUint4096::try_from(vec![0; 0]).is_err());
}

#[test]
fn try_from_string_one_byte() {
    assert_eq!(
        BigUint4096::try_from("00".to_string()).unwrap(),
        BigUint4096::try_from(vec![0u64; 64]).unwrap()
    );
}

#[test]
fn try_from_string_two_bytes() {
    assert_eq!(
        BigUint4096::try_from("0000".to_string()).unwrap(),
        BigUint4096::try_from(vec![0u64; 64]).unwrap()
    );
}

#[test]
fn try_from_string_one_with_padding_4_char() {
    let mut one = vec![0u64; 64];
    one[0] = 1;
    assert_eq!(
        BigUint4096::try_from("0001".to_string()).unwrap(),
        BigUint4096::try_from(one).unwrap()
    );
}

#[test]
fn try_from_string_one_with_padding_9_char() {
    let mut one = vec![0u64; 64];
    one[0] = 1;
    assert_eq!(
        BigUint4096::try_from("00000001".to_string()).unwrap(),
        BigUint4096::try_from(one).unwrap()
    );
}

#[test]
fn try_from_string_two_u64_digits() {
    let mut expected = vec![0u64; 64];
    expected[0] = 1;
    expected[1] = 1;
    assert_eq!(
        BigUint4096::try_from("010000000000000001".to_string()).unwrap(),
        BigUint4096::try_from(expected).unwrap()
    );
}

#[test]
fn try_from_string_three_u64_digits() {
    let mut expected = vec![0u64; 64];
    expected[0] = 1;
    expected[1] = 1;
    expected[2] = 1;
    assert_eq!(
        BigUint4096::try_from("0100000000000000010000000000000001".to_string()).unwrap(),
        BigUint4096::try_from(expected).unwrap()
    );
}

#[test]
fn add_0_0() {
    assert_eq_biguint4096(0, sum_of(0, 0));
}

#[test]
fn add_references_0_0() {
    assert_eq_biguint4096(
        0,
        (&BigUint4096::try_from(0).unwrap())
            .add(&BigUint4096::try_from(0).unwrap())
            .unwrap(),
    );
}

#[test]
fn add_0_1() {
    assert_eq_biguint4096(1, sum_of(0, 1));
}

#[test]
fn add_references_0_1() {
    assert_eq_biguint4096(
        1,
        (&BigUint4096::try_from(0).unwrap())
            .add(&BigUint4096::try_from(1).unwrap())
            .unwrap(),
    );
}

#[test]
fn add_overflow_first_element() {
    assert_eq!(
        BigUint4096::try_from(vec![0u64, 1u64]).unwrap(),
        sum_of(u64::MAX, 1)
    );
}

#[test]
fn add_overflow_second_element() {
    assert_eq!(
        BigUint4096::try_from(vec![0u64, 0u64, 1u64]).unwrap(),
        BigUint4096::try_from(vec![u64::MAX, u64::MAX])
            .unwrap()
            .add(&BigUint4096::try_from(vec![1u64]).unwrap())
            .unwrap()
    )
}

#[test]
fn add_to_max_result() {
    let mut max_minus_one = vec![u64::MAX; 64];
    max_minus_one[0] -= 1;

    assert_eq!(
        BigUint4096::try_from(vec![u64::MAX; 64]).unwrap(),
        BigUint4096::try_from(max_minus_one)
            .unwrap()
            .add(&BigUint4096::try_from(vec![1u64]).unwrap())
            .unwrap()
    )
}

#[test]
#[should_panic(expected = "attempt to add with overflow")]
fn overflow_max_element() {
    let _ = BigUint4096::try_from(vec![u64::MAX; 64])
        .unwrap()
        .add(&BigUint4096::try_from(vec![1u64]).unwrap())
        .expect("attempt to add with overflow");
}

#[test]
fn overflow_is_reported_as_an_error() {
    let max = from_limbs(vec![u64::MAX; 64]);
    assert_eq!(max.add(&from_u64(1)), Err(OverflowError));
    assert_eq!(from_u64(1).add(&max), Err(OverflowError));
    assert_eq!(max.add(&max), Err(OverflowError));
}

#[test]
fn carry_runs_through_every_limb() {
    let mut expected = vec![0u64; 64];
    expected[63] = 1;
    assert_eq!(
        from_limbs(vec![u64::MAX; 63]).add(&from_u64(1)),
        Ok(from_limbs(expected))
    );
}

#[test]
fn carry_into_a_limb_that_is_itself_full() {
    // 2 * (2^128 - 1) = 2^129 - 2
    let all_ones = from_limbs(vec![u64::MAX, u64::MAX]);
    assert_eq!(
        all_ones.add(&all_ones),
        Ok(from_limbs(vec![u64::MAX - 1, u64::MAX, 1]))
    );
}

#[test]
fn integer_equals_single_limb() {
    for x in [0u64, 1, 42, 1 << 63, u64::MAX] {
        assert_eq!(from_u64(x), from_limbs(vec![x]));
    }
}

#[test]
fn zero_is_the_identity_of_addition() {
    let zero = from_u64(0);
    for x in [
        from_u64(0),
        from_u64(7),
        from_limbs(vec![u64::MAX, 3, 0, 9]),
        from_limbs(vec![u64::MAX; 64]),
    ] {
        assert_eq!(x.add(&zero).unwrap(), x);
        assert_eq!(zero.add(&x).unwrap(), x);
    }
}

#[test]
fn addition_is_commutative() {
    let a = from_limbs(vec![u64::MAX, 5, u64::MAX, 0, 77]);
    let b = from_limbs(vec![12, u64::MAX, 1]);
    assert_eq!(a.add(&b), b.add(&a));
    let top = from_limbs(vec![u64::MAX; 64]);
    assert_eq!(top.add(&b), b.add(&top));
    assert_eq!(top.add(&b), Err(OverflowError));
}

#[test]
fn addition_is_associative() {
    let a = from_limbs(vec![u64::MAX, u64::MAX]);
    let b = from_limbs(vec![1, u64::MAX, 4]);
    let c = from_limbs(vec![u64::MAX - 1, 0, u64::MAX]);
    assert_eq!(
        a.add(&b).unwrap().add(&c),
        a.add(&b.add(&c).unwrap())
    );
}

#[test]
fn default_is_zero() {
    assert_eq!(BigUint4096::default(), from_u64(0));
    assert_eq!(BigUint4096::default(), from_limbs(vec![0; 64]));
}

#[test]
fn equality_compares_every_limb() {
    let mut high = vec![0u64; 64];
    high[63] = 1;
    assert_ne!(from_limbs(high.clone()), from_u64(0));
    assert_ne!(from_limbs(high.clone()), from_u64(1));
    assert_eq!(from_limbs(high.clone()), from_limbs(high));
    assert_ne!(from_limbs(vec![0, 1]), from_limbs(vec![1, 0]));
    assert_eq!(from_limbs(vec![5]), from_limbs(vec![5, 0, 0]));
}

#[test]
fn limb_lengths_outside_the_range_are_invalid_lengths() {
    assert_eq!(
        BigUint4096::try_from(Vec::<u64>::new()),
        Err(TryFromUint4096Error(ErrorKind::InvalidLength))
    );
    assert_eq!(
        BigUint4096::try_from(vec![1u64; 65]),
        Err(TryFromUint4096Error(ErrorKind::InvalidLength))
    );
}

#[test]
fn hex_lengths_outside_the_range_are_invalid_lengths() {
    assert_eq!(
        BigUint4096::try_from(String::new()),
        Err(TryFromUint4096Error(ErrorKind::InvalidLength))
    );
    assert_eq!(
        BigUint4096::try_from("0".repeat(1025)),
        Err(TryFromUint4096Error(ErrorKind::InvalidLength))
    );
    assert_eq!(
        BigUint4096::try_from("0".repeat(1026)),
        Err(TryFromUint4096Error(ErrorKind::InvalidLength))
    );
    assert_eq!(
        BigUint4096::try_from("abc".to_string()),
        Err(TryFromUint4096Error(ErrorKind::InvalidLength))
    );
    assert_eq!(
        BigUint4096::try_from("g".to_string()),
        Err(TryFromUint4096Error(ErrorKind::InvalidLength))
    );
}

#[test]
fn hex_with_a_character_that_is_no_digit_is_an_invalid_digit() {
    for text in ["0g", "g0", "+1", "-1", " 1", "0x", "00zz", "0\u{e9}", "\u{20ac}1"] {
        assert_eq!(
            BigUint4096::try_from(text.to_string()),
            Err(TryFromUint4096Error(ErrorKind::InvalidDigit)),
            "{text:?}"
        );
    }
}

#[test]
fn hex_length_counts_characters() {
    // three characters, four bytes
    assert_eq!(
        BigUint4096::try_from("0\u{e9}1".to_string()),
        Err(TryFromUint4096Error(ErrorKind::InvalidLength))
    );
    // 1024 characters, more than 1024 bytes
    assert_eq!(
        BigUint4096::try_from("\u{e9}".repeat(1024)),
        Err(TryFromUint4096Error(ErrorKind::InvalidDigit))
    );
    assert_eq!(
        BigUint4096::try_from("\u{e9}".repeat(1026)),
        Err(TryFromUint4096Error(ErrorKind::InvalidLength))
    );
}

#[test]
fn hex_digits_of_both_cases() {
    assert_eq!(from_hex("ff"), from_u64(255));
    assert_eq!(from_hex("FF"), from_u64(255));
    assert_eq!(from_hex("aBcDeF"), from_u64(0xabcdef));
    assert_eq!(from_hex("0123456789abcdef"), from_u64(0x0123456789abcdef));
    assert_eq!(from_hex("ffffffffffffffff"), from_u64(u64::MAX));
}

#[test]
fn hex_bytes_fill_limbs_from_the_low_end() {
    assert_eq!(
        from_hex("0102030405060708090a0b0c0d0e0f101112"),
        from_limbs(vec![0x0b0c0d0e0f101112, 0x030405060708090a, 0x0102])
    );
    assert_eq!(
        from_hex("80000000000000000000000000000001"),
        from_limbs(vec![1, 1 << 63])
    );
}

#[test]
fn hex_of_the_longest_text() {
    assert_eq!(from_hex(&"f".repeat(1024)), from_limbs(vec![u64::MAX; 64]));
    assert_eq!(from_hex(&"0".repeat(1024)), from_u64(0));
    let mut top = vec![0u64; 64];
    top[63] = 0x1200000000000000;
    let mut text = "12".to_string();
    text.push_str(&"0".repeat(1022));
    assert_eq!(from_hex(&text), from_limbs(top));
}

#[test]
fn carry_stops_below_a_top_limb_that_has_room() {
    // 63 full limbs below a top limb of MAX - 1: the carry clears the 63 and
    // fills the top one
    let mut limbs = vec![u64::MAX; 64];
    limbs[63] = u64::MAX - 1;
    let mut expected = vec![0u64; 64];
    expected[63] = u64::MAX;
    assert_eq!(from_limbs(limbs).add(&from_u64(1)), Ok(from_limbs(expected)));
}

#[test]
fn hex_digit_of_every_byte() {
    for byte in 0..=u8::MAX {
        let expected = (byte as char).to_digit(16).map(|d| d as u8);
        assert_eq!(hex_digit(byte), expected, "{byte}");
    }
    assert_eq!(hex_digit(0x30), Some(0));
    assert_eq!(hex_digit(0x39), Some(9));
    assert_eq!(hex_digit(0x61), Some(10));
    assert_eq!(hex_digit(0x46), Some(15));
    assert_eq!(hex_digit(0x67), None);
    assert_eq!(hex_digit(0x2f), None);
}

#[test]
fn pack_hex_digits_fills_sixteen_digits_to_a_limb() {
    let mut expected = [0u64; 64];
    assert_eq!(pack_hex_digits(&[]), Some(expected));
    expected[0] = 0xa;
    assert_eq!(pack_hex_digits(&[0x61]), Some(expected));
    expected[0] = 0x123456789abcdef0;
    expected[1] = 0xf;
    assert_eq!(
        pack_hex_digits("f123456789abcdef0".as_bytes()),
        Some(expected)
    );
    assert_eq!(pack_hex_digits("12x4".as_bytes()), None);
    assert_eq!(pack_hex_digits("x".as_bytes()), None);
}
