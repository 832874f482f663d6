use bcc::common::Value;

fn amount(text: &str) -> Value {
    Value::parse(text.as_bytes()).unwrap()
}

fn text(value: Value) -> String {
    String::from_utf8(value.to_text()).unwrap()
}

#[test]
fn constants_are_what_they_say() {
    assert_eq!((Value::zero().mantissa(), Value::zero().scale()), (0, 0));
    assert_eq!((Value::one().mantissa(), Value::one().scale()), (1, 0));
    assert_eq!((Value::ten().mantissa(), Value::ten().scale()), (10, 0));
    assert_eq!(Value::new(-15, 1).mantissa(), -15);
    assert_eq!(Value::new(-15, 1).scale(), 1);
}

#[test]
fn sum_keeps_the_larger_number_of_places() {
    let sum = amount("1.5").checked_add(amount("2.25")).unwrap();
    assert_eq!((sum.mantissa(), sum.scale()), (375, 2));
    let sum = amount("2.25").checked_add(amount("1.5")).unwrap();
    assert_eq!((sum.mantissa(), sum.scale()), (375, 2));
    let sum = amount("1.0").checked_add(amount("2.0")).unwrap();
    assert_eq!(text(sum), "3.0");
    let sum = amount("-1").checked_add(amount("0.001")).unwrap();
    assert_eq!(text(sum), "-0.999");
}

#[test]
fn difference_is_exact() {
    let difference = amount("3.0").checked_sub(amount("1.5")).unwrap();
    assert_eq!((difference.mantissa(), difference.scale()), (15, 1));
    let difference = amount("2").checked_sub(amount("5.00")).unwrap();
    assert_eq!(text(difference), "-3.00");
    let difference = amount("0.1").checked_sub(amount("0.1")).unwrap();
    assert_eq!((difference.mantissa(), difference.scale()), (0, 1));
}

#[test]
fn sum_that_no_amount_can_write_is_refused() {
    let max = amount("79228162514264337593543950335");
    assert!(max.checked_add(Value::one()).is_none());
    assert!(max.checked_sub(amount("-1")).is_none());
    // The last digit would be lost.
    assert!(max.checked_add(amount("0.4")).is_none());
    assert!(max.checked_sub(amount("0.1")).is_none());
    let min = amount("-79228162514264337593543950335");
    assert!(min.checked_sub(Value::one()).is_none());
    assert_eq!(min.checked_add(max).unwrap(), Value::zero());
    let small = amount("0.0000000000000000000000000001");
    assert!(max.checked_add(small).is_none());
    assert!(small.checked_sub(max).is_none());
    assert!(amount("7922816251426433759354395035").checked_add(amount("0.05")).is_none());
}

#[test]
fn sum_gives_up_places_that_hold_no_digit() {
    let max = amount("79228162514264337593543950335");
    let sum = max.checked_add(amount("0.0")).unwrap();
    assert_eq!((sum.mantissa(), sum.scale()), (79228162514264337593543950335, 0));
    let sum = max.checked_sub(amount("0.000")).unwrap();
    assert_eq!((sum.mantissa(), sum.scale()), (79228162514264337593543950335, 0));
    // 7922816251426433759354395036.0 has a digit too many, 7922816251426433759354395036 has not.
    let sum = amount("7922816251426433759354395035").checked_add(amount("1.0")).unwrap();
    assert_eq!(text(sum), "7922816251426433759354395036");
    let sum = amount("1.0").checked_add(amount("7922816251426433759354395035")).unwrap();
    assert_eq!(text(sum), "7922816251426433759354395036");
    let difference = amount("7922816251426433759354395035").checked_sub(amount("1.00")).unwrap();
    assert_eq!(text(difference), "7922816251426433759354395034");
    let difference = amount("-1.00").checked_sub(amount("7922816251426433759354395035")).unwrap();
    assert_eq!(text(difference), "-7922816251426433759354395036");
    // Only as many places are given up as must be.
    let sum = amount("79228162514264337593543950.5").checked_add(amount("0.500")).unwrap();
    assert_eq!(text(sum), "79228162514264337593543951.00");
    let sum = amount("792281625142643375935439503.5").checked_add(amount("0.500")).unwrap();
    assert_eq!(text(sum), "792281625142643375935439504.0");
    let sum = amount("7922816251426433759354395033.5").checked_add(amount("0.50")).unwrap();
    assert_eq!(text(sum), "7922816251426433759354395034");
    // Two amounts with the same places whose sum has a digit more.
    let sum = amount("7.0000000000000000000000000005")
        .checked_add(amount("3.0000000000000000000000000005"))
        .unwrap();
    assert_eq!(text(sum), "10.000000000000000000000000001");
    assert!(amount("7.0000000000000000000000000005")
        .checked_add(amount("3.0000000000000000000000000006"))
        .is_none());
    // Places that fit are kept, zero or not.
    let sum = amount("1.50").checked_add(amount("0.50")).unwrap();
    assert_eq!(text(sum), "2.00");
}

#[test]
fn operators_are_the_checked_operations() {
    let sum = amount("1.5") + amount("2.25");
    assert_eq!((sum.mantissa(), sum.scale()), (375, 2));
    let difference = amount("2") - amount("5.00");
    assert_eq!((difference.mantissa(), difference.scale()), (-300, 2));
    assert_eq!((Value::default().mantissa(), Value::default().scale()), (0, 0));
}

#[test]
fn order_is_by_worth() {
    assert!(amount("1.0") == amount("1.00"));
    assert!(amount("1.0").same_amount(&amount("1")));
    assert!(amount("0") == amount("-0.000"));
    assert!(amount("1.5") < amount("2"));
    assert!(amount("1.50") >= amount("1.5"));
    assert!(amount("-3") < amount("0.0001"));
    assert!(amount("-0.5").is_less_than(&amount("-0.49")));
    assert!(amount("2").is_at_least(&amount("2.000")));
    assert!(!amount("2").is_at_least(&amount("2.001")));
    assert!(amount("-0.0001").is_negative());
    assert!(!amount("0.000").is_negative());
    // Amounts that cannot be aligned within 128 bits.
    let max = amount("79228162514264337593543950335");
    let small = amount("0.0000000000000000000000000001");
    assert!(small < max);
    assert!(max > small);
    assert!(amount("-79228162514264337593543950335") < small);
    assert!(max != small);
}

#[test]
fn from_parts_holds_the_limits() {
    let limit: i128 = 79228162514264337593543950335;
    assert!(Value::from_parts(limit, 28).is_some());
    assert!(Value::from_parts(-limit, 0).is_some());
    assert!(Value::from_parts(limit + 1, 0).is_none());
    assert!(Value::from_parts(-limit - 1, 0).is_none());
    assert!(Value::from_parts(1, 29).is_none());
}

#[test]
fn bytes_round_trip() {
    for literal in [
        "0",
        "1",
        "-1",
        "1.5",
        "-0.001",
        "79228162514264337593543950335",
        "-79228162514264337593543950335",
        "7.9228162514264337593543950335",
        "0.0000000000000000000000000000",
    ] {
        let value = amount(literal);
        let bytes = value.to_le_bytes();
        assert_eq!(bytes.len(), 16);
        let back = Value::from_le_bytes(&bytes).unwrap();
        assert_eq!((back.mantissa(), back.scale()), (value.mantissa(), value.scale()));
    }
}

#[test]
fn bytes_are_little_endian() {
    let mut expected = [0u8; 16];
    expected[0] = 0x02;
    expected[1] = 0x01;
    expected[12] = 3;
    assert_eq!(Value::new(258, 3).to_le_bytes(), expected.to_vec());
    expected[13] = 1;
    assert_eq!(Value::new(-258, 3).to_le_bytes(), expected.to_vec());
}

#[test]
fn bytes_that_are_no_amount_are_refused() {
    assert!(Value::from_le_bytes(&[0u8; 15]).is_none());
    assert!(Value::from_le_bytes(&[0u8; 17]).is_none());
    let mut bytes = [0u8; 16];
    assert_eq!(Value::from_le_bytes(&bytes).unwrap().mantissa(), 0);
    bytes[12] = 29;
    assert!(Value::from_le_bytes(&bytes).is_none());
    bytes[12] = 28;
    assert!(Value::from_le_bytes(&bytes).is_some());
    bytes[13] = 1;
    // Below zero, and no digits: there is no such amount.
    assert!(Value::from_le_bytes(&bytes).is_none());
    bytes[0] = 1;
    assert_eq!(Value::from_le_bytes(&bytes).unwrap().mantissa(), -1);
    bytes[13] = 2;
    assert!(Value::from_le_bytes(&bytes).is_none());
    bytes[13] = 0;
    bytes[15] = 1;
    assert!(Value::from_le_bytes(&bytes).is_none());
}

#[test]
fn literals_are_read_exactly() {
    assert_eq!((amount("1.5").mantissa(), amount("1.5").scale()), (15, 1));
    assert_eq!((amount("2.0").mantissa(), amount("2.0").scale()), (20, 1));
    assert_eq!((amount("+7").mantissa(), amount("+7").scale()), (7, 0));
    assert_eq!((amount("-0.050").mantissa(), amount("-0.050").scale()), (-50, 3));
    assert_eq!((amount("007").mantissa(), amount("007").scale()), (7, 0));
    let smallest = amount("0.0000000000000000000000000001");
    assert_eq!((smallest.mantissa(), smallest.scale()), (1, 28));
    let largest = amount("79228162514264337593543950335");
    assert_eq!(largest.mantissa(), 79228162514264337593543950335);
}

#[test]
fn what_is_no_literal_is_refused() {
    for literal in [
        "", "-", "+", ".", ".5", "5.", "-.5", "1..2", "1.2.3", "1,5", "1e3", " 1", "1 ", "--1",
        "+-1", "1-", "abc", "1.5x", "0x10",
    ] {
        assert!(Value::parse(literal.as_bytes()).is_none(), "{}", literal);
    }
}

#[test]
fn literal_that_does_not_fit_is_refused() {
    assert!(Value::parse(b"79228162514264337593543950336").is_none());
    assert!(Value::parse(b"-79228162514264337593543950336").is_none());
    assert!(Value::parse(b"792281625142643375935439503350").is_none());
    assert!(Value::parse(b"7.92281625142643375935439503350").is_none());
    assert!(Value::parse(b"0.00000000000000000000000000001").is_none());
    assert!(Value::parse(b"1.00000000000000000000000000000").is_none());
    assert!(Value::parse(b"99999999999999999999999999999999999999999999").is_none());
}

#[test]
fn amounts_are_written_as_they_were_read() {
    for literal in [
        "0",
        "0.0",
        "0.00",
        "1",
        "10",
        "1.5",
        "2.0",
        "-3.0",
        "0.05",
        "-0.001",
        "123456.789",
        "79228162514264337593543950335",
        "-7.9228162514264337593543950335",
        "0.0000000000000000000000000001",
    ] {
        assert_eq!(text(amount(literal)), literal);
    }
    assert_eq!(text(amount("+7")), "7");
    assert_eq!(text(amount("007.10")), "7.10");
    assert_eq!(text(amount("-0.0")), "0.0");
    assert_eq!(text(Value::new(-5, 3)), "-0.005");
    assert_eq!(text(Value::new(i64::MAX, 0)), "9223372036854775807");
    assert_eq!(text(Value::new(i64::MIN, 28)), "-0.0000000009223372036854775808");
}
