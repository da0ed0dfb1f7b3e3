use html_extractor::operators::{binary, unary, Evaluated};
use html_extractor::value::Value;
use html_extractor::{BinaryOperator, Span, UnaryOperator};

fn number(n: i64) -> Value {
    Value::Number(serde_json::Number::from(n))
}

fn float(x: f64) -> serde_json::Number {
    serde_json::Number::from_f64(x).unwrap()
}

fn span() -> Span {
    Span::new(0, 3)
}

fn value(result: Result<Evaluated, html_extractor::runtime::ExecutionError>) -> Value {
    match result.unwrap() {
        Evaluated::Value(v) => v,
        other => panic!("expected a value, got {other:?}"),
    }
}

#[test]
fn integer_arithmetic_is_exact_and_checked() {
    assert_eq!(value(binary(number(7), BinaryOperator::Add, number(5), span())), number(12));
    assert_eq!(value(binary(number(7), BinaryOperator::Subtract, number(9), span())), number(-2));
    assert_eq!(value(binary(number(7), BinaryOperator::Multiply, number(6), span())), number(42));
    assert_eq!(value(binary(number(-7), BinaryOperator::Divide, number(2), span())), number(-3));
    assert_eq!(value(binary(number(-7), BinaryOperator::Remainder, number(2), span())), number(-1));
    let error = binary(number(1), BinaryOperator::Divide, number(0), span()).unwrap_err();
    assert_eq!(error.message(), "invalid integer arithmetic");
    assert_eq!(error.span(), Some(span()));
    let error = binary(number(i64::MAX), BinaryOperator::Add, number(1), span()).unwrap_err();
    assert_eq!(error.message(), "invalid integer arithmetic");
}

#[test]
fn other_numbers_leave_floating_point_work() {
    assert_eq!(
        binary(Value::Number(float(1.5)), BinaryOperator::Add, number(2), span()).unwrap(),
        Evaluated::Float(BinaryOperator::Add, float(1.5), serde_json::Number::from(2))
    );
    assert_eq!(
        binary(number(1), BinaryOperator::Less, number(2), span()).unwrap(),
        Evaluated::Float(BinaryOperator::Less, serde_json::Number::from(1), serde_json::Number::from(2))
    );
    assert_eq!(
        unary(UnaryOperator::Negate, Value::Number(float(2.5)), span()).unwrap(),
        Evaluated::FloatNegate(float(2.5))
    );
    let error = binary(Value::String("a".into()), BinaryOperator::Add, number(2), span()).unwrap_err();
    assert_eq!(error.message(), "expected number, got string");
}

#[test]
fn logic_and_equality() {
    assert_eq!(
        value(binary(Value::Boolean(true), BinaryOperator::And, Value::Boolean(false), span())),
        Value::Boolean(false)
    );
    assert_eq!(
        value(binary(Value::Boolean(false), BinaryOperator::Or, Value::Boolean(true), span())),
        Value::Boolean(true)
    );
    let error = binary(Value::Boolean(true), BinaryOperator::Or, Value::Null, span()).unwrap_err();
    assert_eq!(error.message(), "expected boolean, got null");
    assert_eq!(
        value(binary(number(1), BinaryOperator::Equal, number(1), span())),
        Value::Boolean(true)
    );
    assert_eq!(
        value(binary(number(1), BinaryOperator::NotEqual, Value::String("1".into()), span())),
        Value::Boolean(true)
    );
    assert_eq!(value(unary(UnaryOperator::Not, Value::Boolean(true), span())), Value::Boolean(false));
    assert_eq!(value(unary(UnaryOperator::Negate, number(4), span())), number(-4));
    let error = unary(UnaryOperator::Not, number(1), span()).unwrap_err();
    assert_eq!(error.message(), "expected boolean, got number");
}
