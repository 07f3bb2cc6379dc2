//! Runtime values of the virtual machine and the operations on them.

use vstd::prelude::*;
use vstd::string::*;
use crate::text::{int_text, int_to_text, text_of, text_result};

verus! {

/// A runtime value in the interpreter: an integer, a boolean, or the
/// absence of a value.
#[derive(Debug, Clone, Copy, PartialEq, Eq, Structural)]
pub enum Object {
    /// A 64-bit signed integer.
    Int(i64),
    /// A boolean value.
    Bool(bool),
    /// The absence of a value.
    NoneValue,
}

/// The four arithmetic operations of the language.
#[derive(Debug, Clone, Copy, PartialEq, Eq, Structural)]
pub enum ArithOp {
    Add,
    Sub,
    Mul,
    Div,
}

/// The six comparison operations of the language.
#[derive(Debug, Clone, Copy, PartialEq, Eq, Structural)]
pub enum CompareOp {
    Eq,
    NotEq,
    Less,
    Greater,
    LessEq,
    GreaterEq,
}

/// The type name of an object as error messages print it.
pub open spec fn type_label_text(o: Object) -> Seq<char> {
    match o {
        Object::Int(_) => "int"@,
        Object::Bool(_) => "bool"@,
        Object::NoneValue => "NoneType"@,
    }
}

/// How an object is printed: integers in decimal, `True`/`False`, `None`.
pub open spec fn object_text(o: Object) -> Seq<char> {
    match o {
        Object::Int(n) => int_text(n as int),
        Object::Bool(b) => if b { "True"@ } else { "False"@ },
        Object::NoneValue => "None"@,
    }
}

/// The source symbol of an arithmetic operation.
pub open spec fn arith_symbol(op: ArithOp) -> Seq<char> {
    match op {
        ArithOp::Add => "+"@,
        ArithOp::Sub => "-"@,
        ArithOp::Mul => "*"@,
        ArithOp::Div => "/"@,
    }
}

/// The source symbol of a comparison.
pub open spec fn compare_symbol(op: CompareOp) -> Seq<char> {
    match op {
        CompareOp::Eq => "=="@,
        CompareOp::NotEq => "!="@,
        CompareOp::Less => "<"@,
        CompareOp::Greater => ">"@,
        CompareOp::LessEq => "<="@,
        CompareOp::GreaterEq => ">="@,
    }
}

/// The message for an operator applied to operands of unsupported types.
pub open spec fn op_error_text(symbol: Seq<char>, l: Object, r: Object) -> Seq<char> {
    "TypeError: '"@ + symbol + "' not supported between instances of '"@ + type_label_text(l)
        + "' and '"@ + type_label_text(r) + "'"@
}

/// The message for a division by zero.
pub open spec fn zero_division_text() -> Seq<char> {
    "ZeroDivisionError: division by zero"@
}

/// Integer quotient rounded toward zero, as Rust's `/` computes it.
pub open spec fn trunc_div(a: int, b: int) -> int {
    let q = abs(a) / abs(b);
    if (a < 0) == (b < 0) { q } else { -q }
}

pub open spec fn abs(a: int) -> int {
    if a < 0 { -a } else { a }
}

/// The mathematical result of an arithmetic operation on two integers.
pub open spec fn arith_value(op: ArithOp, a: int, b: int) -> int {
    match op {
        ArithOp::Add => a + b,
        ArithOp::Sub => a - b,
        ArithOp::Mul => a * b,
        ArithOp::Div => trunc_div(a, b),
    }
}

/// True when the operation would compute an integer outside the `i64` range
/// (Rust's checked arithmetic panics there).
pub open spec fn arith_overflows(op: ArithOp, l: Object, r: Object) -> bool {
    match (l, r) {
        (Object::Int(a), Object::Int(b)) => {
            &&& !(op == ArithOp::Div && b == 0)
            &&& !(i64::MIN <= arith_value(op, a as int, b as int) <= i64::MAX)
        },
        _ => false,
    }
}

/// The outcome of an arithmetic operation: both operands must be integers,
/// and division by zero is an error.
pub open spec fn arith_result(op: ArithOp, l: Object, r: Object) -> Result<Object, Seq<char>> {
    match (l, r) {
        (Object::Int(a), Object::Int(b)) => {
            if op == ArithOp::Div && b == 0 {
                Err(zero_division_text())
            } else {
                Ok(Object::Int(arith_value(op, a as int, b as int) as i64))
            }
        },
        _ => Err(op_error_text(arith_symbol(op), l, r)),
    }
}

/// The outcome of a comparison: `==` and `!=` accept two integers or two
/// booleans; the ordering comparisons accept two integers only.
pub open spec fn compare_result(op: CompareOp, l: Object, r: Object) -> Result<bool, Seq<char>> {
    match (op, l, r) {
        (CompareOp::Eq, Object::Int(a), Object::Int(b)) => Ok(a == b),
        (CompareOp::Eq, Object::Bool(a), Object::Bool(b)) => Ok(a == b),
        (CompareOp::NotEq, Object::Int(a), Object::Int(b)) => Ok(a != b),
        (CompareOp::NotEq, Object::Bool(a), Object::Bool(b)) => Ok(a != b),
        (CompareOp::Less, Object::Int(a), Object::Int(b)) => Ok(a < b),
        (CompareOp::Greater, Object::Int(a), Object::Int(b)) => Ok(a > b),
        (CompareOp::LessEq, Object::Int(a), Object::Int(b)) => Ok(a <= b),
        (CompareOp::GreaterEq, Object::Int(a), Object::Int(b)) => Ok(a >= b),
        _ => Err(op_error_text(compare_symbol(op), l, r)),
    }
}

/// Integer quotient rounded toward zero.
pub(crate) fn div_toward_zero(a: i64, b: i64) -> (q: i64)
    requires
        b != 0,
        i64::MIN <= trunc_div(a as int, b as int) <= i64::MAX,
    ensures
        q == trunc_div(a as int, b as int),
{
    let wa: i128 = if a < 0 { -(a as i128) } else { a as i128 };
    let wb: i128 = if b < 0 { -(b as i128) } else { b as i128 };
    let q: i128 = wa / wb;
    assert(q == abs(a as int) / abs(b as int));
    assert(0 <= q <= wa) by (nonlinear_arith)
        requires
            wb >= 1,
            wa >= 0,
            q == wa / wb,
    ;
    if (a < 0) == (b < 0) {
        q as i64
    } else {
        (-q) as i64
    }
}

impl Object {
    /// Returns the type name of this object as it appears in error messages.
    pub fn type_label(&self) -> (r: &'static str)
        ensures
            r@ == type_label_text(*self),
    {
        match self {
            Object::Int(_) => "int",
            Object::Bool(_) => "bool",
            Object::NoneValue => "NoneType",
        }
    }

    /// The printed form of the object: `42`, `True`, `False` or `None`.
    pub fn display_text(&self) -> (r: String)
        ensures
            r@ == object_text(*self),
    {
        match self {
            Object::Int(n) => int_to_text(*n),
            Object::Bool(b) => if *b { text_of("True") } else { text_of("False") },
            Object::NoneValue => text_of("None"),
        }
    }

    /// Performs addition on two objects.
    ///
    /// Returns an error if either operand is not an integer.
    pub fn add(&self, other: &Object) -> (r: Result<Object, String>)
        requires
            !arith_overflows(ArithOp::Add, *self, *other),
        ensures
            text_result(r) == arith_result(ArithOp::Add, *self, *other),
    {
        self.arithmetic_op(ArithOp::Add, other)
    }

    /// Performs subtraction on two objects.
    ///
    /// Returns an error if either operand is not an integer.
    pub fn sub(&self, other: &Object) -> (r: Result<Object, String>)
        requires
            !arith_overflows(ArithOp::Sub, *self, *other),
        ensures
            text_result(r) == arith_result(ArithOp::Sub, *self, *other),
    {
        self.arithmetic_op(ArithOp::Sub, other)
    }

    /// Performs multiplication on two objects.
    ///
    /// Returns an error if either operand is not an integer.
    pub fn mul(&self, other: &Object) -> (r: Result<Object, String>)
        requires
            !arith_overflows(ArithOp::Mul, *self, *other),
        ensures
            text_result(r) == arith_result(ArithOp::Mul, *self, *other),
    {
        self.arithmetic_op(ArithOp::Mul, other)
    }

    /// Performs division on two objects.
    ///
    /// Returns an error if either operand is not an integer, or if the
    /// divisor is zero.
    pub fn div(&self, other: &Object) -> (r: Result<Object, String>)
        requires
            !arith_overflows(ArithOp::Div, *self, *other),
        ensures
            text_result(r) == arith_result(ArithOp::Div, *self, *other),
    {
        self.arithmetic_op(ArithOp::Div, other)
    }

    /// Performs equality comparison on two objects.
    ///
    /// Returns an error if the operands have incompatible types.
    pub fn eq(&self, other: &Object) -> (r: Result<bool, String>)
        ensures
            text_result(r) == compare_result(CompareOp::Eq, *self, *other),
    {
        self.compare(CompareOp::Eq, other)
    }

    /// Performs less-than comparison on two objects.
    ///
    /// Returns an error if either operand is not an integer.
    pub fn lt(&self, other: &Object) -> (r: Result<bool, String>)
        ensures
            text_result(r) == compare_result(CompareOp::Less, *self, *other),
    {
        self.compare(CompareOp::Less, other)
    }

    /// Performs greater-than comparison on two objects.
    ///
    /// Returns an error if either operand is not an integer.
    pub fn gt(&self, other: &Object) -> (r: Result<bool, String>)
        ensures
            text_result(r) == compare_result(CompareOp::Greater, *self, *other),
    {
        self.compare(CompareOp::Greater, other)
    }

    /// Performs less-than-or-equal comparison on two objects.
    ///
    /// Returns an error if either operand is not an integer.
    pub fn le(&self, other: &Object) -> (r: Result<bool, String>)
        ensures
            text_result(r) == compare_result(CompareOp::LessEq, *self, *other),
    {
        self.compare(CompareOp::LessEq, other)
    }

    /// Performs greater-than-or-equal comparison on two objects.
    ///
    /// Returns an error if either operand is not an integer.
    pub fn ge(&self, other: &Object) -> (r: Result<bool, String>)
        ensures
            text_result(r) == compare_result(CompareOp::GreaterEq, *self, *other),
    {
        self.compare(CompareOp::GreaterEq, other)
    }

    /// Performs inequality comparison on two objects.
    ///
    /// Returns an error if the operands have incompatible types.
    pub fn ne(&self, other: &Object) -> (r: Result<bool, String>)
        ensures
            text_result(r) == compare_result(CompareOp::NotEq, *self, *other),
    {
        self.compare(CompareOp::NotEq, other)
    }

    /// Applies an arithmetic operation; both operands must be integers.
    pub fn arithmetic_op(&self, op: ArithOp, other: &Object) -> (r: Result<Object, String>)
        requires
            !arith_overflows(op, *self, *other),
        ensures
            text_result(r) == arith_result(op, *self, *other),
    {
        match (self, other) {
            (Object::Int(a), Object::Int(b)) => {
                let (a, b) = (*a, *b);
                match op {
                    ArithOp::Add => Ok(Object::Int(a + b)),
                    ArithOp::Sub => Ok(Object::Int(a - b)),
                    ArithOp::Mul => Ok(Object::Int(a * b)),
                    ArithOp::Div => {
                        if b == 0 {
                            Err(text_of("ZeroDivisionError: division by zero"))
                        } else {
                            Ok(Object::Int(div_toward_zero(a, b)))
                        }
                    },
                }
            },
            _ => {
                let symbol = match op {
                    ArithOp::Add => "+",
                    ArithOp::Sub => "-",
                    ArithOp::Mul => "*",
                    ArithOp::Div => "/",
                };
                Err(Self::binary_op_error(symbol, self, other))
            },
        }
    }

    /// Applies a comparison; see `compare_result` for the accepted operands.
    pub fn compare(&self, op: CompareOp, other: &Object) -> (r: Result<bool, String>)
        ensures
            text_result(r) == compare_result(op, *self, *other),
    {
        match (op, self, other) {
            (CompareOp::Eq, Object::Int(a), Object::Int(b)) => Ok(*a == *b),
            (CompareOp::Eq, Object::Bool(a), Object::Bool(b)) => Ok(*a == *b),
            (CompareOp::NotEq, Object::Int(a), Object::Int(b)) => Ok(*a != *b),
            (CompareOp::NotEq, Object::Bool(a), Object::Bool(b)) => Ok(*a != *b),
            (CompareOp::Less, Object::Int(a), Object::Int(b)) => Ok(*a < *b),
            (CompareOp::Greater, Object::Int(a), Object::Int(b)) => Ok(*a > *b),
            (CompareOp::LessEq, Object::Int(a), Object::Int(b)) => Ok(*a <= *b),
            (CompareOp::GreaterEq, Object::Int(a), Object::Int(b)) => Ok(*a >= *b),
            _ => {
                let symbol = match op {
                    CompareOp::Eq => "==",
                    CompareOp::NotEq => "!=",
                    CompareOp::Less => "<",
                    CompareOp::Greater => ">",
                    CompareOp::LessEq => "<=",
                    CompareOp::GreaterEq => ">=",
                };
                Err(Self::binary_op_error(symbol, self, other))
            },
        }
    }

    /// Formats a binary operation type error message in Python's style.
    fn binary_op_error(symbol: &str, left: &Object, right: &Object) -> (r: String)
        ensures
            r@ == op_error_text(symbol@, *left, *right),
    {
        let mut s = text_of("TypeError: '");
        s.append(symbol);
        s.append("' not supported between instances of '");
        s.append(left.type_label());
        s.append("' and '");
        s.append(right.type_label());
        s.append("'");
        s
    }
}

/// `!=` answers the opposite of `==` on every pair of operands it accepts,
/// and rejects exactly the pairs that `==` rejects.
pub proof fn law_ne_negates_eq(l: Object, r: Object)
    ensures
        compare_result(CompareOp::NotEq, l, r) is Ok <==> compare_result(CompareOp::Eq, l, r) is Ok,
        compare_result(CompareOp::NotEq, l, r) matches Ok(b) ==> compare_result(CompareOp::Eq, l, r) == Ok::<bool, Seq<char>>(!b),
{
}

/// On integers, `<` is the negation of `>=` and `>` the negation of `<=`.
pub proof fn law_orderings_are_complementary(a: i64, b: i64)
    ensures
        compare_result(CompareOp::Less, Object::Int(a), Object::Int(b)) == Ok::<bool, Seq<char>>(
            !compare_result(CompareOp::GreaterEq, Object::Int(a), Object::Int(b))->Ok_0),
        compare_result(CompareOp::Greater, Object::Int(a), Object::Int(b)) == Ok::<bool, Seq<char>>(
            !compare_result(CompareOp::LessEq, Object::Int(a), Object::Int(b))->Ok_0),
{
}

/// Arithmetic accepts exactly pairs of integers; any other operand types give
/// the type error that names the operator and both type names.
pub proof fn law_arith_rejects_non_integers(op: ArithOp, l: Object, r: Object)
    requires
        !(l is Int && r is Int),
    ensures
        arith_result(op, l, r) == Err::<Object, Seq<char>>(op_error_text(arith_symbol(op), l, r)),
{
}

/// Integer division followed by multiplication recovers the dividend up to
/// a remainder that is smaller than the divisor and has the dividend's sign.
pub proof fn law_division_remainder(a: i64, b: i64)
    requires
        b != 0,
    ensures
        ({
            let q = trunc_div(a as int, b as int);
            let rem = a - q * b;
            &&& abs(rem) < abs(b as int)
            &&& (rem == 0 || (rem < 0) == (a < 0))
        }),
{
    let q = trunc_div(a as int, b as int);
    let aa = abs(a as int);
    let ab = abs(b as int);
    let qq = aa / ab;
    assert(0 <= aa - qq * ab < ab) by (nonlinear_arith)
        requires
            ab > 0,
            aa >= 0,
            qq == aa / ab,
    ;
    assert(if a >= 0 { q * b == qq * ab } else { q * b == -(qq * ab) }) by (nonlinear_arith)
        requires
            q == (if (a < 0) == (b < 0) { qq } else { -qq }),
            ab == (if b < 0 { -b } else { b as int }),
    ;
}

} // verus!
