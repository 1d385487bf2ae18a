use lox_vm::message::decimal;
use lox_vm::object::ObjectError;
use lox_vm::value::{bits_eq, bits_is_nan, bits_le, bits_lt, Value, ValueError};

fn number(x: f64) -> Value {
    Value::Number(x.to_bits())
}

const SAMPLES: [f64; 12] = [
    0.0,
    -0.0,
    1.0,
    -1.0,
    2.5,
    -2.5,
    f64::INFINITY,
    f64::NEG_INFINITY,
    f64::NAN,
    f64::MIN_POSITIVE,
    f64::MAX,
    1e-310,
];

#[test]
fn number_comparisons_agree_with_the_machine() {
    for a in SAMPLES {
        for b in SAMPLES {
            assert_eq!(a < b, bits_lt(a.to_bits(), b.to_bits()), "{a} < {b}");
            assert_eq!(a <= b, bits_le(a.to_bits(), b.to_bits()), "{a} <= {b}");
            assert_eq!(a == b, bits_eq(a.to_bits(), b.to_bits()), "{a} == {b}");
        }
        assert_eq!(a.is_nan(), bits_is_nan(a.to_bits()));
    }
}

#[test]
fn comparisons_with_nan_are_false() {
    let nan = number(f64::NAN);
    let one = number(1.0);
    assert_eq!(Ok(false), nan.lt(&one));
    assert_eq!(Ok(false), nan.le(&one));
    assert_eq!(Ok(false), nan.gt(&one));
    assert_eq!(Ok(false), nan.ge(&one));
    assert_eq!(Ok(false), one.lt(&nan));
    assert_eq!(Ok(false), one.ge(&nan));
    assert_eq!(Ok(false), nan.le(&nan));
    assert!(!nan.equals(&nan));
}

#[test]
fn comparisons_of_numbers() {
    assert_eq!(Ok(true), number(1.0).lt(&number(2.0)));
    assert_eq!(Ok(false), number(2.0).lt(&number(2.0)));
    assert_eq!(Ok(true), number(2.0).le(&number(2.0)));
    assert_eq!(Ok(true), number(3.0).gt(&number(-3.0)));
    assert_eq!(Ok(true), number(-0.0).ge(&number(0.0)));
    assert_eq!(Err(ValueError::OperandsMustBeNumbers), number(1.0).lt(&Value::Nil));
    assert_eq!(Err(ValueError::OperandsMustBeNumbers), Value::Bool(true).ge(&number(1.0)));
}

#[test]
fn equality_of_values() {
    assert!(Value::Nil.equals(&Value::Nil));
    assert!(Value::Bool(true).equals(&Value::Bool(true)));
    assert!(!Value::Bool(true).equals(&Value::Bool(false)));
    assert!(number(0.0).equals(&number(-0.0)));
    assert!(!number(1.0).equals(&number(2.0)));
    assert!(Value::Object(3).equals(&Value::Object(3)));
    assert!(!Value::Object(3).equals(&Value::Object(4)));
    assert!(!Value::Nil.equals(&Value::Bool(false)));
    assert!(!number(0.0).equals(&Value::Nil));
}

#[test]
fn truthiness() {
    assert!(Value::Nil.is_falsey());
    assert!(Value::Bool(false).is_falsey());
    assert!(Value::Bool(true).is_truthy());
    assert!(number(0.0).is_truthy());
    assert!(Value::Object(0).is_truthy());
}

#[test]
fn double_negation_is_the_truthiness() {
    for x in [Value::Nil, Value::Bool(false), Value::Bool(true), number(0.0), Value::Object(1)] {
        let twice = x.not().not();
        assert_eq!(Value::Bool(x.is_truthy()), twice);
        assert_eq!(twice, twice.not().not());
    }
}

#[test]
fn negation_flips_the_sign() {
    for a in SAMPLES {
        let negated = number(a).neg().unwrap();
        assert_eq!(number(-a), negated);
    }
    assert_eq!(Err(ValueError::OperandMustBeNumber), Value::Nil.neg());
}

#[test]
fn operands_of_arithmetic() {
    assert_eq!(
        Ok((1.0f64.to_bits(), 2.0f64.to_bits())),
        number(1.0).numbers(&number(2.0))
    );
    assert_eq!(Err(ValueError::OperandsMustBeNumbers), number(1.0).numbers(&Value::Object(0)));
}

#[test]
fn value_error_messages() {
    assert_eq!("Operands must be numbers.", ValueError::OperandsMustBeNumbers.message());
    assert_eq!("Operand must be a number.", ValueError::OperandMustBeNumber.message());
    assert_eq!(
        "Operands must be two numbers or two strings.",
        ValueError::OperandsMustBeNumbersOrStrings.message()
    );
    assert_eq!("Invalid cast.", ObjectError::InvalidCast.message());
}

#[test]
fn decimal_text_of_bytes() {
    assert_eq!("0", decimal(0));
    assert_eq!("7", decimal(7));
    assert_eq!("10", decimal(10));
    assert_eq!("99", decimal(99));
    assert_eq!("100", decimal(100));
    assert_eq!("205", decimal(205));
    assert_eq!("255", decimal(255));
}
