use zed::data::binary::Binary64;
use zed::data::integer::Integer;
use zed::data::number::{decimal, integer, integer_str, rational, Number, NumberKind};
use zed::data::rational::Rational;
use zed::data::reals::{Real, RealKind};
use zed::print::printer;

fn text(n: &Number) -> String {
    printer::format_number(n)
}

fn big(digits: &str) -> Integer {
    match integer_str(digits, 10) {
        Number::Integer(i) => i,
        _ => unreachable!(),
    }
}

fn digits_of(i: &Integer) -> String {
    String::from_utf8(i.digits().clone()).unwrap()
}

#[test]
fn equality() {
    assert!(integer(876) == integer(876));
    assert!(!(integer(-5) == integer(5)));
    assert!(decimal(false, 832, -2) == decimal(false, 832, -2));
    assert!(!(decimal(false, 832, -2) == decimal(false, 833, -2)));
    assert!(integer(-45) == decimal(true, 450, -1));
    assert!(!(integer(3) == decimal(false, 3001, -3)));
}

#[test]
fn equality_is_symmetric_across_kinds() {
    let values = vec![
        integer(5),
        rational(10, 2),
        rational(1, 2),
        decimal(false, 5, 0),
        decimal(false, 5, -1),
        decimal(false, 50, -1),
        Number::Complex(Real::from_integer(&Integer::from_i64(5)), Real::zero(true)),
        Number::Complex(Real::zero(false), Real::from_integer(&Integer::from_i64(5))),
        Number::Real(Real::infinity(false)),
        Number::Real(Real::infinity(true)),
        Number::Real(Real::not_a_number(false)),
    ];
    for a in &values {
        for b in &values {
            assert_eq!(a == b, b == a, "{:?} and {:?}", a, b);
        }
    }
    assert!(values[0] == values[1]);
    assert!(values[0] == values[3]);
    assert!(values[0] == values[5]);
    assert!(values[0] == values[6]);
    assert!(values[2] == values[4]);
    assert!(values[0] != values[7]);
    assert!(values[8] == values[8]);
    assert!(values[8] != values[9]);
    assert!(values[10] != values[10]);
}

#[test]
fn zeros_are_equal_whatever_their_sign() {
    assert!(Number::Real(Real::zero(true)) == Number::Real(Real::zero(false)));
    assert!(Number::Real(Real::zero(true)) == integer(0));
}

#[test]
fn formatting() {
    assert_eq!(text(&integer(984)), "984");
    assert_eq!(text(&integer(-3)), "-3");
    assert_eq!(text(&integer_str("98765432123456789", 10)), "98765432123456789");
    assert_eq!(text(&decimal(false, 1765, -3)), "1.765");
    assert_eq!(text(&decimal(true, 87654, -3)), "-87.654");
    assert_eq!(text(&decimal(false, 234, -3)), "0.234");
    assert_eq!(text(&decimal(false, 97, 0)), "97.0");
}

#[test]
fn formatting_of_reals_in_every_form() {
    assert_eq!(text(&decimal(false, 0, 0)), "0.0");
    assert_eq!(text(&Number::Real(Real::zero(true))), "-0.0");
    assert_eq!(text(&decimal(false, 5, 3)), "5000.0");
    assert_eq!(text(&decimal(false, 5000, 0)), "5000.0");
    assert_eq!(text(&decimal(false, 1, 20)), "100000000000000000000.0");
    assert_eq!(text(&decimal(false, 1, 21)), "1.0e21");
    assert_eq!(text(&decimal(false, 4, -2)), "0.04");
    assert_eq!(text(&decimal(false, 1, -20)), "0.00000000000000000001");
    assert_eq!(text(&decimal(true, 12345, -21)), "-12345.0e-21");
    assert_eq!(text(&Number::Real(Real::infinity(false))), "+inf.0");
    assert_eq!(text(&Number::Real(Real::infinity(true))), "-inf.0");
    assert_eq!(text(&Number::Real(Real::not_a_number(false))), "+nan.0");
    assert_eq!(text(&Number::Real(Real::not_a_number(true))), "-nan.0");
}

#[test]
fn formatting_of_fractions_and_complex_numbers() {
    assert_eq!(text(&rational(6, -4)), "-3/2");
    assert_eq!(text(&rational(4, 2)), "2/1");
    assert_eq!(text(&rational(0, 7)), "0/1");
    let z = Number::Complex(
        Real::from_decimal(false, &b"45".to_vec(), &Integer::from_i64(-1)),
        Real::from_integer(&Integer::from_i64(8)),
    );
    assert_eq!(text(&z), "4.5+8.0i");
    let w = Number::Complex(Real::infinity(false), Real::infinity(true));
    assert_eq!(text(&w), "+inf.0-inf.0i");
    let v = Number::Complex(Real::zero(false), Real::from_integer(&Integer::from_i64(-1)));
    assert_eq!(text(&v), "0.0-1.0i");
}

#[test]
fn normal_form_of_reals() {
    let a = Real::from_decimal(false, &b"001200".to_vec(), &Integer::from_i64(-3));
    assert_eq!(a.kind(), RealKind::Finite);
    assert_eq!(a.digits(), &b"12".to_vec());
    assert_eq!(a.exponent(), -1);
    let zero = Real::from_decimal(true, &b"000".to_vec(), &Integer::from_i64(17));
    assert_eq!(zero.digits(), &b"0".to_vec());
    assert_eq!(zero.exponent(), 0);
    assert!(zero.is_negative());
    let huge = Real::from_decimal(false, &b"10".to_vec(), &big("9223372036854775807"));
    assert_eq!(huge.kind(), RealKind::Infinite);
    let tiny = Real::from_decimal(false, &b"1".to_vec(), &big("-9223372036854775809"));
    assert_eq!(tiny.kind(), RealKind::Finite);
    assert_eq!(tiny.digits(), &b"0".to_vec());
    let edge = Real::from_decimal(false, &b"1".to_vec(), &big("9223372036854775807"));
    assert_eq!(edge.kind(), RealKind::Finite);
    assert_eq!(edge.exponent(), i64::MAX);
}

#[test]
fn integers_from_machine_integers_and_back() {
    assert_eq!(digits_of(&Integer::from_u64(0)), "0");
    assert_eq!(digits_of(&Integer::from_u64(u64::MAX)), "18446744073709551615");
    assert_eq!(digits_of(&Integer::from_i64(i64::MIN)), "-9223372036854775808");
    assert_eq!(Integer::from_i64(i64::MIN).to_i64(), Some(i64::MIN));
    assert_eq!(Integer::from_i64(i64::MAX).to_i64(), Some(i64::MAX));
    assert_eq!(big("9223372036854775808").to_i64(), None);
    assert_eq!(big("-9223372036854775809").to_i64(), None);
    assert_eq!(big("255").to_u8(), Some(255));
    assert_eq!(big("256").to_u8(), None);
    assert_eq!(big("-1").to_u8(), None);
    assert_eq!(big("0").to_u8(), Some(0));
    assert_eq!(digits_of(&Integer::from_digits(true, &b"000".to_vec())), "0");
    assert_eq!(digits_of(&Integer::from_digits(true, &b"0012".to_vec())), "-12");
    assert_eq!(digits_of(&Integer::from_radix_digits(false, &b"fF".to_vec(), 16)), "255");
    assert_eq!(digits_of(&Integer::from_radix_digits(true, &b"1010".to_vec(), 2)), "-10");
}

#[test]
fn integer_arithmetic() {
    let a = big("123456789012345678901234567890");
    let b = big("-987654321");
    assert_eq!(digits_of(&a.add(&b)), "123456789012345678900246913569");
    assert_eq!(digits_of(&a.sub(&b)), "123456789012345678902222222211");
    assert_eq!(digits_of(&b.mul(&b)), "975461057789971041");
    assert_eq!(digits_of(&Integer::from_i64(7).div(&Integer::from_i64(2))), "3");
    assert_eq!(digits_of(&Integer::from_i64(-7).div(&Integer::from_i64(2))), "-3");
    assert_eq!(digits_of(&Integer::from_i64(7).div(&Integer::from_i64(-2))), "-3");
    assert_eq!(digits_of(&Integer::from_i64(-7).div(&Integer::from_i64(-2))), "3");
    assert_eq!(digits_of(&Integer::from_i64(7).rem(&Integer::from_i64(2))), "1");
    assert_eq!(digits_of(&Integer::from_i64(-7).rem(&Integer::from_i64(2))), "-1");
    assert_eq!(digits_of(&Integer::from_i64(7).rem(&Integer::from_i64(-2))), "1");
    assert_eq!(digits_of(&Integer::from_i64(-7).rem(&Integer::from_i64(-2))), "-1");
    assert_eq!(digits_of(&b.neg()), "987654321");
    assert_eq!(digits_of(&Integer::zero().neg()), "0");
    assert!(a.equals(&a.duplicate()));
    assert!(!a.equals(&b));
}

fn fraction(n: i64, d: i64) -> Rational {
    Rational::new(&Integer::from_i64(n), &Integer::from_i64(d))
}

fn parts(q: &Rational) -> (String, String) {
    (digits_of(q.numer()), digits_of(q.denom()))
}

#[test]
fn rational_arithmetic() {
    let half = fraction(1, 2);
    let third = fraction(-1, 3);
    assert_eq!(parts(&fraction(6, -4)), ("-3".to_string(), "2".to_string()));
    assert_eq!(parts(&half.add(&third)), ("1".to_string(), "6".to_string()));
    assert_eq!(parts(&half.sub(&third)), ("5".to_string(), "6".to_string()));
    assert_eq!(parts(&half.mul(&third)), ("-1".to_string(), "6".to_string()));
    assert_eq!(parts(&half.div(&third)), ("-3".to_string(), "2".to_string()));
    assert_eq!(parts(&fraction(7, 2).rem(&fraction(3, 2))), ("1".to_string(), "2".to_string()));
    assert_eq!(parts(&fraction(-7, 2).rem(&fraction(3, 2))), ("-1".to_string(), "2".to_string()));
    assert_eq!(parts(&fraction(7, 2).rem(&fraction(1, 3))), ("1".to_string(), "6".to_string()));
    assert_eq!(parts(&third.neg()), ("1".to_string(), "3".to_string()));
    assert_eq!(parts(&Rational::from_integer(&Integer::from_i64(4))), ("4".to_string(), "1".to_string()));
    assert!(fraction(0, 5).is_zero());
}

#[test]
fn arithmetic_promotes_to_the_wider_kind() {
    let sum = rational(1, 2).add(&rational(1, 2)).unwrap();
    assert_eq!(sum.kind(), NumberKind::Rational);
    assert!(sum == integer(1));
    let mixed = integer(2).add(&rational(1, 2)).unwrap();
    assert_eq!(text(&mixed), "5/2");
    assert_eq!(text(&integer(2).add(&integer(3)).unwrap()), "5");
    assert_eq!(text(&integer(2).sub(&integer(3)).unwrap()), "-1");
    assert_eq!(text(&integer(2).mul(&rational(3, 4)).unwrap()), "3/2");
    assert_eq!(text(&integer(7).div(&integer(2)).unwrap()), "3");
    assert_eq!(text(&integer(7).rem(&integer(2)).unwrap()), "1");
    assert_eq!(text(&integer(7).div(&rational(2, 1)).unwrap()), "7/2");
    assert_eq!(text(&rational(7, 2).rem(&integer(1)).unwrap()), "1/2");
    assert_eq!(text(&integer(5).neg()), "-5");
    assert_eq!(text(&rational(1, 2).neg()), "-1/2");
    assert_eq!(text(&decimal(false, 5, -1).neg()), "-0.5");
}

#[test]
fn arithmetic_on_inexact_numbers_is_left_to_the_caller() {
    assert!(integer(5).add(&decimal(false, 5, -1)).is_none());
    assert!(decimal(false, 5, -1).mul(&integer(5)).is_none());
    let z = Number::Complex(Real::zero(false), Real::zero(false));
    assert!(z.sub(&integer(1)).is_none());
    assert!(integer(1).div(&z).is_none());
    assert!(!integer(0).is_exact_zero() == false);
    assert!(!decimal(false, 0, 0).is_exact_zero());
}

#[test]
fn promotion_order() {
    assert_eq!(NumberKind::Integer.promote(NumberKind::Rational), NumberKind::Rational);
    assert_eq!(NumberKind::Real.promote(NumberKind::Rational), NumberKind::Real);
    assert_eq!(NumberKind::Real.promote(NumberKind::Complex), NumberKind::Complex);
    assert_eq!(NumberKind::Integer.promote(NumberKind::Integer), NumberKind::Integer);
}

#[test]
fn equality_does_not_write_out_large_powers() {
    let far = decimal(false, 1, 1_000_000_000_000_000);
    let near = decimal(false, 1, -1_000_000_000_000_000);
    assert!(far == decimal(false, 1, 1_000_000_000_000_000));
    assert!(far == decimal(false, 1, 1_000_000_000_000_001));
    assert!(far == Number::Real(Real::infinity(false)));
    assert!(far != Number::Real(Real::infinity(true)));
    assert!(near == integer(0));
    assert!(far != near);
    assert!(far != integer(2));
    assert!(integer(2) != near);
    assert!(far != rational(1, 3));
    assert!(rational(1, 3) != near);
    assert!(near != rational(1, 1));
    assert!(near == rational(0, 1));
    let z = Number::Complex(Real::zero(false), Real::zero(true));
    assert!(z != far);
    assert!(z == integer(0));
    assert!(z == rational(0, 5));
}

#[test]
fn equality_of_fractions_and_reals() {
    assert!(rational(1, 2) == decimal(false, 5, -1));
    assert!(decimal(false, 5, -1) == rational(1, 2));
    assert!(rational(-3, 8) == decimal(true, 375, -3));
    assert!(rational(3, 8) != decimal(true, 375, -3));
    assert!(rational(1, 3) != decimal(false, 3333333333, -10));
    assert!(rational(7, 20) == decimal(false, 35, -2));
    assert!(rational(7, 1) == decimal(false, 7, 0));
    assert!(rational(700, 1) == decimal(false, 7, 2));
    assert!(rational(7, 2) != decimal(false, 35, 0));
    assert!(integer(1200) == decimal(false, 12, 2));
    assert!(integer(-1200) == decimal(true, 12, 2));
    assert!(integer(1200) != decimal(false, 12, 3));
    assert!(integer(0) == decimal(true, 0, 0));
    assert!(!decimal(false, 5, 0).is_exact_zero());
}

fn literal(text: &str) -> Number {
    match zed::read::parser::parse(text) {
        Ok(items) if items.len() == 1 => match &*items[0] {
            zed::data::expression::Expression::Number(n) => n.clone(),
            other => panic!("no number: {:?}", other),
        },
        other => panic!("unexpected result: {:?}", other),
    }
}

#[test]
fn equality_promotes_to_the_nearest_float() {
    assert!(literal("18014398509481985") == literal("18014398509481984.0"));
    assert!(literal("18014398509481984.0") == literal("18014398509481985"));
    assert!(literal("18014398509481985") != literal("18014398509481984"));
    assert!(literal("18014398509481988") != literal("18014398509481984.0"));
    assert!(literal("0.1") == literal("0.1000000000000000055"));
    assert!(literal("0.1") != literal("0.10000000000000002"));
    assert!(literal("1e400") == literal("+inf.0"));
    assert!(literal("-1e400") == literal("-inf.0"));
    assert!(literal("1e400") != literal("-inf.0"));
    assert!(literal("1/3") == literal("0.3333333333333333"));
    assert!(literal("1/3") == literal("0.333333333333333314829616256247390992939472198486328125"));
    assert!(literal("1/3") != literal("0.33333333333333337"));
    assert!(literal("1/3") != literal("3333333333333333/10000000000000000"));
    assert!(literal("5+0.0i") == literal("5"));
    assert!(literal("18014398509481985+0i") == literal("18014398509481984"));
}

#[test]
fn ties_go_to_the_even_mantissa() {
    assert!(literal("9007199254740993") == literal("9007199254740992.0"));
    assert!(literal("9007199254740993") != literal("9007199254740994.0"));
    assert!(literal("9007199254740995") == literal("9007199254740996.0"));
    assert!(literal("9007199254740995") != literal("9007199254740994.0"));
    assert!(literal("9007199254740993.0000001") == literal("9007199254740994.0"));
    assert!(literal("9007199254740992.9999999") == literal("9007199254740992.0"));
}

#[test]
fn the_ends_of_the_range_of_floats() {
    assert!(literal("1.7976931348623157e308") != literal("+inf.0"));
    assert!(literal("1.7976931348623158e308") == literal("1.7976931348623157e308"));
    assert!(literal("1.7976931348623159e308") == literal("+inf.0"));
    assert!(literal("179769313486231580793728971405303415079934132710037826936173778980444968292764750946649017977587207096330286416692887910946555547851940402630657488671505820681908902000708383676273854845817711531764475730270069855571366959622842914819860834936475292719074168444365510704342711559699508093042880177904174497791")
        != literal("+inf.0"));
    assert!(literal("179769313486231580793728971405303415079934132710037826936173778980444968292764750946649017977587207096330286416692887910946555547851940402630657488671505820681908902000708383676273854845817711531764475730270069855571366959622842914819860834936475292719074168444365510704342711559699508093042880177904174497792")
        == literal("+inf.0"));
    assert!(literal("5e-324") == literal("4.9406564584124654e-324"));
    assert!(literal("5e-324") != literal("0.0"));
    assert!(literal("3e-324") == literal("5e-324"));
    assert!(literal("2e-324") == literal("0.0"));
    assert!(literal("2e-324") == literal("-0.0"));
    assert!(literal("2.2250738585072014e-308") != literal("2.225073858507201e-308"));
    assert!(literal("1.0") == literal("1"));
    assert!(literal("1.0000000000000001") == literal("1"));
    assert!(literal("1.0000000000000002") != literal("1"));
}

#[test]
fn the_float_nearest_to_a_value() {
    assert_eq!(
        integer(1).real_binary(),
        Binary64::Finite { negative: false, mantissa: 1 << 52, exponent: -52 }
    );
    assert_eq!(
        integer(-3).real_binary(),
        Binary64::Finite { negative: true, mantissa: 3 << 51, exponent: -51 }
    );
    assert_eq!(
        decimal(false, 5, -1).real_binary(),
        Binary64::Finite { negative: false, mantissa: 1 << 52, exponent: -53 }
    );
    assert_eq!(
        literal("0.1").real_binary(),
        Binary64::Finite { negative: false, mantissa: 0x1999999999999a, exponent: -56 }
    );
    assert_eq!(
        literal("5e-324").real_binary(),
        Binary64::Finite { negative: false, mantissa: 1, exponent: -1074 }
    );
    assert_eq!(literal("1e400").real_binary(), Binary64::Infinite { negative: false });
    assert_eq!(literal("+nan.0").real_binary(), Binary64::NotANumber);
    assert_eq!(integer(7).imaginary_binary(), Binary64::zero());
    assert_eq!(
        literal("1/3").real_binary(),
        Binary64::Finite { negative: false, mantissa: 0x15555555555555, exponent: -54 }
    );
}
