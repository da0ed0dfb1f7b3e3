//! The unary and binary operators on values. Comparisons, and arithmetic on
//! numbers that are not both `i64` integers, go through floating point: for
//! those the operators check the operands and hand back the numbers and the
//! operation, which the host finishes.

use vstd::prelude::*;
use crate::ast::{BinaryOperator, UnaryOperator};
use crate::runtime::{ExecutionError, kind_name};
use crate::source::Span;
use crate::value::{
    Value, ValueV, integer_of, kind_of, number_as_i64, number_from_i64, number_i64, number_of_i64,
    value_eq, values_equal,
};

verus! {

/// What an operator gives: a value, or the floating-point work that is
/// left to do on numbers.
#[derive(Debug, PartialEq)]
pub enum Evaluated {
    Value(Value),
    FloatNegate(serde_json::Number),
    Float(BinaryOperator, serde_json::Number, serde_json::Number),
}

pub enum EvaluatedV {
    Value(ValueV),
    FloatNegate(serde_json::Number),
    Float(BinaryOperator, serde_json::Number, serde_json::Number),
}

impl View for Evaluated {
    type V = EvaluatedV;

    open spec fn view(&self) -> EvaluatedV {
        match self {
            Evaluated::Value(v) => EvaluatedV::Value(v@),
            Evaluated::FloatNegate(n) => EvaluatedV::FloatNegate(*n),
            Evaluated::Float(op, a, b) => EvaluatedV::Float(*op, *a, *b),
        }
    }
}

/// The error for an operand of the wrong kind.
pub open spec fn operand_error(expected: Seq<char>, v: ValueV) -> Seq<char> {
    "expected "@ + expected + ", got "@ + kind_name(kind_of(v))
}

/// `!` on a boolean; `-` on an `i64` integer exactly, on any other number
/// through floating point.
pub open spec fn spec_unary(op: UnaryOperator, v: ValueV) -> Result<EvaluatedV, Seq<char>> {
    match op {
        UnaryOperator::Not => match v {
            ValueV::Boolean(b) => Ok(EvaluatedV::Value(ValueV::Boolean(!b))),
            _ => Err(operand_error("boolean"@, v)),
        },
        UnaryOperator::Negate => match v {
            ValueV::Number(n) => match number_i64(n) {
                Some(i) => Ok(EvaluatedV::Value(ValueV::Number(number_of_i64((-i) as i64)))),
                None => Ok(EvaluatedV::FloatNegate(n)),
            },
            _ => Err(operand_error("number"@, v)),
        },
    }
}

/// Whether the operator is one of `<`, `<=`, `>`, `>=`.
pub open spec fn is_comparison(op: BinaryOperator) -> bool {
    op is Less || op is LessEqual || op is Greater || op is GreaterEqual
}

/// Integer arithmetic, when it neither overflows nor divides by zero.
pub open spec fn integer_arithmetic(op: BinaryOperator, a: i64, b: i64) -> Option<i64> {
    match op {
        BinaryOperator::Add => a.checked_add(b),
        BinaryOperator::Subtract => a.checked_sub(b),
        BinaryOperator::Multiply => a.checked_mul(b),
        BinaryOperator::Divide => a.checked_div(b),
        BinaryOperator::Remainder => a.checked_rem(b),
        _ => None,
    }
}

/// The numbers of two operands, or the error for the first that is none.
pub open spec fn two_numbers(op: BinaryOperator, l: ValueV, r: ValueV) -> Result<EvaluatedV, Seq<char>> {
    match l {
        ValueV::Number(a) => match r {
            ValueV::Number(b) => Ok(EvaluatedV::Float(op, a, b)),
            _ => Err(operand_error("number"@, r)),
        },
        _ => Err(operand_error("number"@, l)),
    }
}

/// `||` and `&&` on booleans (both operands are given); `==` and `!=` by
/// `values_equal`; comparisons on numbers through floating point;
/// arithmetic on two `i64` integers exactly (an overflow or a division by
/// zero is an error), on other numbers through floating point.
pub open spec fn spec_binary(l: ValueV, op: BinaryOperator, r: ValueV) -> Result<EvaluatedV, Seq<char>> {
    match op {
        BinaryOperator::Or | BinaryOperator::And => match l {
            ValueV::Boolean(a) => match r {
                ValueV::Boolean(b) => Ok(EvaluatedV::Value(ValueV::Boolean(
                    if op is Or { a || b } else { a && b },
                ))),
                _ => Err(operand_error("boolean"@, r)),
            },
            _ => Err(operand_error("boolean"@, l)),
        },
        BinaryOperator::Equal => Ok(EvaluatedV::Value(ValueV::Boolean(values_equal(l, r)))),
        BinaryOperator::NotEqual => Ok(EvaluatedV::Value(ValueV::Boolean(!values_equal(l, r)))),
        _ => if is_comparison(op) {
            two_numbers(op, l, r)
        } else {
            match (integer_of(l), integer_of(r)) {
                (Some(a), Some(b)) => match integer_arithmetic(op, a, b) {
                    Some(x) => Ok(EvaluatedV::Value(ValueV::Number(number_of_i64(x)))),
                    None => Err("invalid integer arithmetic"@),
                },
                _ => two_numbers(op, l, r),
            }
        },
    }
}

/// An operator's outcome, errors reported at `span`.
pub open spec fn evaluated_matches(r: Result<Evaluated, ExecutionError>, o: Result<EvaluatedV, Seq<char>>, span: Span) -> bool {
    match o {
        Ok(v) => r matches Ok(x) && x@ == v,
        Err(m) => r matches Err(e) && e@ == (m, Some(span)),
    }
}

fn operand_failure(expected: &str, v: &Value, span: Span) -> (r: ExecutionError)
    ensures
        r@ == (operand_error(expected@, v@), Some(span)),
{
    let mut message = "expected ".to_owned();
    crate::text::string_push_str(&mut message, expected);
    crate::text::string_push_str(&mut message, ", got ");
    crate::text::string_push_str(&mut message, v.kind().name());
    ExecutionError::from_message(message, Some(span))
}

fn number_value(n: serde_json::Number) -> (r: Value)
    ensures
        r@ == ValueV::Number(n),
{
    let r = Value::Number(n);
    proof {
        crate::value::lemma_value_view(r);
    }
    r
}

fn boolean_value(b: bool) -> (r: Value)
    ensures
        r@ == ValueV::Boolean(b),
{
    let r = Value::Boolean(b);
    proof {
        crate::value::lemma_value_view(r);
    }
    r
}

pub fn unary(op: UnaryOperator, operand: Value, span: Span) -> (r: Result<Evaluated, ExecutionError>)
    requires
        op is Negate && operand@ is Number ==> number_i64(operand@->Number_0) != Some(i64::MIN),
    ensures
        evaluated_matches(r, spec_unary(op, operand@), span),
{
    match op {
        UnaryOperator::Not => match operand.expect_boolean() {
            Ok(b) => Ok(Evaluated::Value(boolean_value(!b))),
            Err(_) => Err(operand_failure("boolean", &operand, span)),
        },
        UnaryOperator::Negate => match operand.expect_number() {
            Ok(n) => match number_as_i64(n) {
                Some(i) => Ok(Evaluated::Value(number_value(number_from_i64(-i)))),
                None => Ok(Evaluated::FloatNegate(n.clone())),
            },
            Err(_) => Err(operand_failure("number", &operand, span)),
        },
    }
}

fn numbers(op: BinaryOperator, left: &Value, right: &Value, span: Span) -> (r: Result<Evaluated, ExecutionError>)
    ensures
        evaluated_matches(r, two_numbers(op, left@, right@), span),
{
    let a = match left.expect_number() {
        Ok(a) => a,
        Err(_) => {
            return Err(operand_failure("number", left, span));
        },
    };
    let b = match right.expect_number() {
        Ok(b) => b,
        Err(_) => {
            return Err(operand_failure("number", right, span));
        },
    };
    Ok(Evaluated::Float(op, a.clone(), b.clone()))
}

fn integer(v: &Value) -> (r: Option<i64>)
    ensures
        r == integer_of(v@),
{
    match v.expect_number() {
        Ok(n) => number_as_i64(n),
        Err(_) => None,
    }
}

pub fn binary(left: Value, op: BinaryOperator, right: Value, span: Span) -> (r: Result<Evaluated, ExecutionError>)
    ensures
        evaluated_matches(r, spec_binary(left@, op, right@), span),
{
    match op {
        BinaryOperator::Or | BinaryOperator::And => {
            let a = match left.expect_boolean() {
                Ok(a) => a,
                Err(_) => {
                    return Err(operand_failure("boolean", &left, span));
                },
            };
            let b = match right.expect_boolean() {
                Ok(b) => b,
                Err(_) => {
                    return Err(operand_failure("boolean", &right, span));
                },
            };
            let x = match op {
                BinaryOperator::Or => a || b,
                _ => a && b,
            };
            Ok(Evaluated::Value(boolean_value(x)))
        },
        BinaryOperator::Equal => Ok(Evaluated::Value(boolean_value(value_eq(&left, &right)))),
        BinaryOperator::NotEqual => Ok(Evaluated::Value(boolean_value(!value_eq(&left, &right)))),
        BinaryOperator::Less | BinaryOperator::LessEqual | BinaryOperator::Greater
        | BinaryOperator::GreaterEqual => numbers(op, &left, &right, span),
        _ => match (integer(&left), integer(&right)) {
            (Some(a), Some(b)) => {
                let x = match op {
                    BinaryOperator::Add => a.checked_add(b),
                    BinaryOperator::Subtract => a.checked_sub(b),
                    BinaryOperator::Multiply => a.checked_mul(b),
                    BinaryOperator::Divide => a.checked_div(b),
                    _ => a.checked_rem(b),
                };
                match x {
                    Some(x) => Ok(Evaluated::Value(number_value(number_from_i64(x)))),
                    None => Err(ExecutionError::new("invalid integer arithmetic", Some(span))),
                }
            },
            _ => numbers(op, &left, &right, span),
        },
    }
}

} // verus!
