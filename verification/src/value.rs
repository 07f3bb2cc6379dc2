//! An integer-only runtime value with its arithmetic.

use vstd::prelude::*;
use vstd::string::*;
use crate::text::{int_text, int_to_text, text_of, text_result};
use crate::object::{ArithOp, arith_value, div_toward_zero};

verus! {

/// A runtime value that is always an integer.
#[derive(Debug, Clone, Copy, PartialEq, Eq, Structural)]
pub enum Value {
    Int(i64),
}

/// True when the operation on the two integers leaves the `i64` range
/// (a division by zero is reported as an error, not an overflow).
pub open spec fn value_overflows(op: ArithOp, l: Value, r: Value) -> bool {
    let (Value::Int(a), Value::Int(b)) = (l, r);
    !(op == ArithOp::Div && b == 0) && !(i64::MIN <= arith_value(op, a as int, b as int) <= i64::MAX)
}

/// The outcome of an arithmetic operation on two values: the integer result,
/// or the zero-division error.
pub open spec fn value_result(op: ArithOp, l: Value, r: Value) -> Result<Value, Seq<char>> {
    let (Value::Int(a), Value::Int(b)) = (l, r);
    if op == ArithOp::Div && b == 0 {
        Err("ZeroDivisionError: division by zero"@)
    } else {
        Ok(Value::Int(arith_value(op, a as int, b as int) as i64))
    }
}

impl Value {
    /// The integer held by the value.
    pub fn as_int(&self) -> (r: Result<i64, String>)
        ensures
            r == Ok::<i64, String>(match *self { Value::Int(n) => n }),
    {
        match self {
            Value::Int(n) => Ok(*n),
        }
    }

    /// The type name of the value: always `int`.
    pub fn type_label(&self) -> (r: &'static str)
        ensures
            r@ == "int"@,
    {
        match self {
            Value::Int(_) => "int",
        }
    }

    /// The printed form of the value: its integer in decimal.
    pub fn display_text(&self) -> (r: String)
        ensures
            r@ == int_text(match *self { Value::Int(n) => n as int }),
    {
        match self {
            Value::Int(n) => int_to_text(*n),
        }
    }

    /// Adds two values.
    pub fn add(&self, other: &Value) -> (r: Result<Value, String>)
        requires
            !value_overflows(ArithOp::Add, *self, *other),
        ensures
            text_result(r) == value_result(ArithOp::Add, *self, *other),
    {
        match (self, other) {
            (Value::Int(a), Value::Int(b)) => Ok(Value::Int(*a + *b)),
        }
    }

    /// Subtracts `other` from the value.
    pub fn sub(&self, other: &Value) -> (r: Result<Value, String>)
        requires
            !value_overflows(ArithOp::Sub, *self, *other),
        ensures
            text_result(r) == value_result(ArithOp::Sub, *self, *other),
    {
        match (self, other) {
            (Value::Int(a), Value::Int(b)) => Ok(Value::Int(*a - *b)),
        }
    }

    /// Multiplies two values.
    pub fn mul(&self, other: &Value) -> (r: Result<Value, String>)
        requires
            !value_overflows(ArithOp::Mul, *self, *other),
        ensures
            text_result(r) == value_result(ArithOp::Mul, *self, *other),
    {
        match (self, other) {
            (Value::Int(a), Value::Int(b)) => Ok(Value::Int(*a * *b)),
        }
    }

    /// Divides the value by `other`, rounding toward zero; a zero divisor
    /// is an error.
    pub fn div(&self, other: &Value) -> (r: Result<Value, String>)
        requires
            !value_overflows(ArithOp::Div, *self, *other),
        ensures
            text_result(r) == value_result(ArithOp::Div, *self, *other),
    {
        match (self, other) {
            (Value::Int(a), Value::Int(b)) => {
                if *b == 0 {
                    Err(text_of("ZeroDivisionError: division by zero"))
                } else {
                    Ok(Value::Int(div_toward_zero(*a, *b)))
                }
            },
        }
    }
}

} // verus!
