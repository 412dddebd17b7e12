use infinimath::amount::Amount;
use infinimath::integer::Integer;
use infinimath::natural::Natural;

fn text_of(amount: &Option<Amount>) -> Option<String> {
    amount.as_ref().map(|a| a.to_text())
}

#[test]
fn amounts_are_written_with_eight_places() {
    assert_eq!(Amount::zero().to_text(), "0.00000000");
    assert_eq!(Amount::from_units(1).to_text(), "0.00000001");
    assert_eq!(Amount::from_units(123456789).to_text(), "1.23456789");
    assert_eq!(Amount::from_coins(40).to_text(), "40.00000000");
    assert_eq!(Amount::from_coins(1000000000000).to_text(), "1000000000000.00000000");
}

#[test]
fn amounts_are_read_from_decimal_numerals() {
    assert_eq!(text_of(&Amount::parse("10")), Some("10.00000000".to_string()));
    assert_eq!(text_of(&Amount::parse("0.5")), Some("0.50000000".to_string()));
    assert_eq!(text_of(&Amount::parse("40.0")), Some("40.00000000".to_string()));
    assert_eq!(text_of(&Amount::parse("0.001")), Some("0.00100000".to_string()));
    assert_eq!(text_of(&Amount::parse("1e2")), Some("100.00000000".to_string()));
    assert_eq!(text_of(&Amount::parse("0.00000001")), Some("0.00000001".to_string()));
    assert_eq!(text_of(&Amount::parse("0.123456780")), Some("0.12345678".to_string()));
    assert_eq!(text_of(&Amount::parse("0")), Some("0.00000000".to_string()));
}

#[test]
fn what_is_no_amount_is_refused() {
    assert!(Amount::parse("").is_none());
    assert!(Amount::parse("abc").is_none());
    assert!(Amount::parse("-1").is_none());
    assert!(Amount::parse("-0.00000001").is_none());
    assert!(Amount::parse("0.000000001").is_none());
    assert!(Amount::parse("1e80").is_none());
    assert!(Amount::parse("1e-80").is_none());
}

#[test]
fn text_round_trips() {
    for units in [0u128, 1, 99999999, 100000000, 8900000000, u128::from(u64::MAX) * 7] {
        let amount = Amount::from_units(units);
        let back = Amount::parse(&amount.to_text()).expect("an amount");
        assert!(back.equals(&amount));
    }
}

#[test]
fn from_parts_shifts_to_eight_places() {
    let five = Natural::from_u128(5);
    let half = Amount::from_parts(false, &five, 1).expect("an amount");
    assert!(half.equals(&Amount::from_units(50000000)));
    let fifty = Amount::from_parts(false, &five, -1).expect("an amount");
    assert!(fifty.equals(&Amount::from_coins(50)));
    assert!(Amount::from_parts(false, &five, 9).is_none());
    assert!(Amount::from_parts(true, &five, 0).is_none());
    let zero = Natural::from_u128(0);
    assert!(Amount::from_parts(true, &zero, 0).expect("zero").is_zero());
    assert!(Amount::from_parts(false, &five, 73).is_none());
    assert!(Amount::from_parts(false, &five, -57).is_none());
    let fifty_places = Natural::from_u128(50);
    assert!(Amount::from_parts(false, &fifty_places, 9).expect("an amount").equals(&Amount::from_units(5)));
}

#[test]
fn amount_arithmetic_is_exact() {
    let ten = Amount::from_coins(10);
    let one = Amount::from_coins(1);
    assert!(ten.plus(&one).equals(&Amount::from_coins(11)));
    let rest = Amount::from_coins(100).checked_minus(&ten.plus(&one)).expect("covered");
    assert!(rest.equals(&Amount::from_coins(89)));
    assert!(one.checked_minus(&ten).is_none());
    assert!(ten.checked_minus(&ten).expect("covered").is_zero());
    assert!(one.portion(1, 2).equals(&Amount::from_units(50000000)));
    assert!(Amount::from_coins(40).portion(7, 10).equals(&Amount::from_coins(28)));
    assert!(Amount::from_coins(40).portion(3, 10).equals(&Amount::from_coins(12)));
    assert!(Amount::from_units(10).portion(1, 3).equals(&Amount::from_units(3)));
    assert!(Amount::from_units(7).portion(0, 3).is_zero());
}

#[test]
fn amounts_compare_by_value() {
    let ten = Amount::from_coins(10);
    let one = Amount::from_coins(1);
    assert!(ten.covers(&one));
    assert!(ten.covers(&ten));
    assert!(!one.covers(&ten));
    assert!(!one.equals(&ten));
    assert!(Amount::zero().is_zero());
    assert!(!one.is_zero());
    assert!(ten.clone().equals(&ten));
}

#[test]
fn naturals_hold_any_u128() {
    assert_eq!(Natural::from_u128(0).to_text(), "0");
    assert_eq!(Natural::from_u128(4294967296).to_text(), "4294967296");
    assert_eq!(Natural::from_u128(u128::MAX).to_text(), u128::MAX.to_string());
    assert_eq!(Natural::from_u128(u128::from(u64::MAX) + 1).to_text(), "18446744073709551616");
}

#[test]
fn naturals_are_read_and_compared() {
    let big = Natural::parse("340282366920938463463374607431768211456").expect("a number");
    assert_eq!(big.to_text(), "340282366920938463463374607431768211456");
    assert!(Natural::from_u128(u128::MAX).is_below(&big));
    assert!(!big.is_below(&big));
    assert!(big.equals(&big.clone()));
    assert!(Natural::parse("12").expect("a number").equals(&Natural::from_u128(12)));
    assert!(Natural::parse("-1").is_none());
    assert!(Natural::parse("x").is_none());
    assert!(Natural::parse("").is_none());
}

#[test]
fn integers_carry_a_sign() {
    assert_eq!(Integer::from_u128(7).to_text(), "7");
    let minus = Integer::parse("-15").expect("a number");
    assert!(minus.negative);
    assert_eq!(minus.to_text(), "-15");
    let plus = Integer::parse("15").expect("a number");
    assert!(!plus.negative);
    assert_eq!(plus.to_text(), "15");
    assert_eq!(Integer::parse("-0").expect("a number").to_text(), "0");
    assert!(Integer::parse("1.5").is_none());
    let odd = Integer { negative: true, magnitude: Natural::from_u128(0) };
    assert_eq!(odd.to_text(), "0");
}
