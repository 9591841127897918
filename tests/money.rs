use moneybags::{Money, ParseMoneyError};
use std::str::FromStr;

#[test]
fn test_money() {
    let a = Money { amount: 1000 };
    let b = Money { amount: 2000 };
    assert_eq!(a.add(b), Money { amount: 3000 });
    assert_eq!(a.sub(b), Money { amount: -1000 });
    assert_eq!(a.mul(b), Money { amount: 20000 });
    assert_eq!(a.div(b), Money { amount: 50 });
    assert_eq!(a.neg(), Money { amount: -1000 });
    assert_eq!(a.div_scalar(2), Money { amount: 500 });
    assert_eq!(b.div_scalar(2), Money { amount: 1000 });
    assert_eq!(a.mul_scalar(2), Money { amount: 2000 });
}

#[test]
fn test_money_display() {
    let a = Money { amount: 1000 };
    assert_eq!(a.to_string(), "10.00");
    let b = Money { amount: 2001 };
    assert_eq!(b.to_string(), "20.01");
    let c = Money { amount: 200 };
    assert_eq!(c.to_string(), "2.00");
    let d = Money { amount: -153 };
    assert_eq!(d.to_string(), "-1.53");
}

#[test]
fn test_money_from_str() {
    let a = Money::from_str("10.00").unwrap();
    assert_eq!(a, Money { amount: 1000 });
    let b = Money::from_str("20.01").unwrap();
    assert_eq!(b, Money { amount: 2001 });
    let c = Money::from_str("2.00").unwrap();
    assert_eq!(c, Money { amount: 200 });
}

#[test]
fn small_negative_amounts_keep_their_sign() {
    assert_eq!(Money::new(-1).to_string(), "-0.01");
    assert_eq!(Money::new(-99).to_string(), "-0.99");
    assert_eq!(Money::new(-100).to_string(), "-1.00");
    assert_eq!(Money::new(0).to_string(), "0.00");
    assert_eq!(Money::new(5).to_string(), "0.05");
}

#[test]
fn extreme_amounts_format() {
    assert_eq!(Money::new(i64::MAX).to_string(), "92233720368547758.07");
    assert_eq!(Money::new(i64::MIN).to_string(), "-92233720368547758.08");
}

#[test]
fn text_reads_back() {
    for v in [0i64, 1, 9, 10, 99, 100, 101, 12345, 100000, i64::MAX, -100, -500, -1200] {
        let m = Money::new(v);
        assert_eq!(Money::parse(&m.to_string()), Ok(m), "amount {}", v);
    }
}

#[test]
fn one_digit_fraction_counts_minor_units() {
    assert_eq!(Money::parse("1.5"), Ok(Money::new(105)));
    assert_eq!(Money::parse("1.50"), Ok(Money::new(150)));
}

#[test]
fn negative_text_with_minor_units_reads_pieces_apart() {
    assert_eq!(Money::parse("-1.53"), Ok(Money::new(-47)));
    assert_eq!(Money::parse("-0.01"), Ok(Money::new(1)));
}

#[test]
fn parse_accepts_plain_and_signed_integers() {
    assert_eq!(Money::parse("50"), Ok(Money::new(5000)));
    assert_eq!(Money::parse("+3"), Ok(Money::new(300)));
    assert_eq!(Money::parse("-3"), Ok(Money::new(-300)));
    assert_eq!(Money::parse("007.02"), Ok(Money::new(702)));
}

#[test]
fn parse_rejects_more_than_one_point() {
    assert_eq!(Money::parse("1.2.3"), Err(ParseMoneyError::InvalidNumber));
    assert_eq!(Money::parse("1..2"), Err(ParseMoneyError::InvalidNumber));
    assert_eq!(Money::parse("1.2."), Err(ParseMoneyError::InvalidNumber));
    assert!(Money::from_str("10.00.00").is_err());
}

#[test]
fn parse_rejects_pieces_that_are_not_integers() {
    assert_eq!(Money::parse(""), Err(ParseMoneyError::InvalidNumber));
    assert_eq!(Money::parse("abc"), Err(ParseMoneyError::InvalidNumber));
    assert_eq!(Money::parse("1."), Err(ParseMoneyError::InvalidNumber));
    assert_eq!(Money::parse(".5"), Err(ParseMoneyError::InvalidNumber));
    assert_eq!(Money::parse("1.x"), Err(ParseMoneyError::InvalidNumber));
    assert_eq!(Money::parse("-"), Err(ParseMoneyError::InvalidNumber));
    assert_eq!(Money::parse(" 1"), Err(ParseMoneyError::InvalidNumber));
    assert_eq!(Money::parse("1_000"), Err(ParseMoneyError::InvalidNumber));
    assert_eq!(Money::parse("1.2.x"), Err(ParseMoneyError::InvalidNumber));
    assert_eq!(Money::parse("99999999999999999999"), Err(ParseMoneyError::InvalidNumber));
    assert!(Money::from_str("ten").is_err());
}

#[test]
fn parse_rejects_amounts_that_do_not_fit() {
    assert_eq!(Money::parse("92233720368547758.07"), Ok(Money::new(i64::MAX)));
    assert_eq!(Money::parse("92233720368547758.08"), Err(ParseMoneyError::OutOfRange));
    assert_eq!(Money::parse("-92233720368547758.-8"), Ok(Money::new(i64::MIN)));
    assert_eq!(Money::parse("-92233720368547759"), Err(ParseMoneyError::OutOfRange));
    assert_eq!(Money::parse("9223372036854775807"), Err(ParseMoneyError::OutOfRange));
}

#[test]
fn rate_product_truncates_toward_zero() {
    assert_eq!(Money::new(50).mul(Money::new(765)), Money::new(382));
    assert_eq!(Money::new(-50).mul(Money::new(765)), Money::new(-382));
    assert_eq!(Money::new(5000).mul(Money::new(765)), Money::new(38250));
}

#[test]
fn ratio_truncates_toward_zero() {
    assert_eq!(Money::new(1).div(Money::new(3)), Money::new(33));
    assert_eq!(Money::new(-1).div(Money::new(3)), Money::new(-33));
    assert_eq!(Money::new(7).div_scalar(-2), Money::new(-3));
    assert_eq!(Money::new(-7).div_scalar(2), Money::new(-3));
}

#[test]
fn checked_ratio_reports_overflow() {
    assert_eq!(Money::new(i64::MAX).checked_div(Money::new(1)), None);
    assert_eq!(Money::new(600).checked_div(Money::new(200)), Some(Money::new(300)));
}

#[test]
fn zero_is_zero() {
    assert!(Money::zero().is_zero());
    assert!(Money::new(0).is_zero());
    assert!(!Money::new(-1).is_zero());
}

#[test]
fn sum_of_nothing_is_zero() {
    assert_eq!(Money::sum(&[]), Money::new(0));
}

#[test]
fn sum_ignores_order_and_grouping() {
    let xs = [Money::new(150), Money::new(-20), Money::new(7), Money::new(1000)];
    let reordered = [Money::new(1000), Money::new(7), Money::new(150), Money::new(-20)];
    assert_eq!(Money::sum(&xs), Money::new(1137));
    assert_eq!(Money::sum(&reordered), Money::new(1137));
    let left = Money::sum(&xs[..2]);
    let right = Money::sum(&xs[2..]);
    assert_eq!(Money::sum(&[left, right]), Money::sum(&xs));
}

#[test]
fn sum_may_pass_beyond_the_range_on_the_way() {
    let xs = [Money::new(i64::MAX), Money::new(1), Money::new(-1)];
    assert_eq!(Money::sum(&xs), Money::new(i64::MAX));
}
