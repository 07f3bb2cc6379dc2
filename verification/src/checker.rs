//! A checker for single expressions over a flat environment of variable
//! types: names must be bound in the environment, and the arithmetic
//! operators take two integers.

use vstd::prelude::*;
use vstd::string::*;
use crate::parser::{Expr, Operator};
use crate::symbol::{Interner, SymbolId, intern_result};
use crate::types::{Type, type_text, name_error_text, quoted, push_quoted, types_by_symbol, Env, check_expr_spec, resolve_in};
use std::collections::HashMap;
use crate::text::{text_of, text_result};

verus! {

/// A checker for single expressions.
pub struct Checker {
    env: HashMap<usize, Type>,
}

/// What `{:?}` prints for an operator.
pub open spec fn operator_debug(op: Operator) -> Seq<char> {
    match op {
        Operator::Plus => "Plus"@,
        Operator::Minus => "Minus"@,
        Operator::Star => "Star"@,
        Operator::Slash => "Slash"@,
        Operator::Eq => "Eq"@,
        Operator::NotEq => "NotEq"@,
        Operator::Less => "Less"@,
        Operator::Greater => "Greater"@,
        Operator::LessEq => "LessEq"@,
        Operator::GreaterEq => "GreaterEq"@,
    }
}

pub open spec fn operand_error_text(op: Operator, l: Type, r: Type) -> Seq<char> {
    "TypeError: unsupported operand types for "@ + operator_debug(op) + ": "@ + quoted(type_text(l)) + " and "@
        + quoted(type_text(r))
}

/// The type of a symbol in an environment.
pub open spec fn env_lookup(env: Map<SymbolId, Type>, id: SymbolId) -> Option<Type> {
    if env.contains_key(id) { Some(env[id]) } else { None }
}

/// The type of an expression in the environment, with the names interned
/// along the way: names take their bound types, and `+ - * /` take two
/// integers; every other operator is rejected.
pub open spec fn expr_type(env: Map<SymbolId, Type>, names: Seq<Seq<char>>, e: Expr) -> (Seq<Seq<char>>, Result<Type, Seq<char>>)
    decreases e,
{
    match e {
        Expr::Number(_) => (names, Ok(Type::Int)),
        Expr::Bool(_) => (names, Ok(Type::Bool)),
        Expr::Name(n) => {
            let (names1, id) = intern_result(names, n@);
            match env_lookup(env, SymbolId(id as usize)) {
                Some(t) => (names1, Ok(t)),
                None => (names1, Err(name_error_text(n@))),
            }
        },
        Expr::BinaryOp { left, op, right } => {
            let (names1, l) = expr_type(env, names, *left);
            match l {
                Err(m) => (names1, Err(m)),
                Ok(lt) => {
                    let (names2, r) = expr_type(env, names1, *right);
                    match r {
                        Err(m) => (names2, Err(m)),
                        Ok(rt) => if lt == Type::Int && rt == Type::Int && (op == Operator::Plus
                            || op == Operator::Minus || op == Operator::Star || op == Operator::Slash) {
                            (names2, Ok(Type::Int))
                        } else {
                            (names2, Err(operand_error_text(op, lt, rt)))
                        },
                    }
                },
            }
        },
    }
}

fn operator_debug_text(op: Operator) -> (r: &'static str)
    ensures
        r@ == operator_debug(op),
{
    match op {
        Operator::Plus => "Plus",
        Operator::Minus => "Minus",
        Operator::Star => "Star",
        Operator::Slash => "Slash",
        Operator::Eq => "Eq",
        Operator::NotEq => "NotEq",
        Operator::Less => "Less",
        Operator::Greater => "Greater",
        Operator::LessEq => "LessEq",
        Operator::GreaterEq => "GreaterEq",
    }
}

impl Default for Checker {
    fn default() -> (c: Self)
        ensures
            c@ == Map::<SymbolId, Type>::empty(),
    {
        Self::new()
    }
}

impl Checker {
    /// The variable bindings.
    pub closed spec fn view(&self) -> Map<SymbolId, Type> {
        types_by_symbol(self.env@)
    }

    /// Creates a checker with an empty environment.
    pub fn new() -> (c: Self)
        ensures
            c@ == Map::<SymbolId, Type>::empty(),
    {
        let env: HashMap<usize, Type> = HashMap::new();
        let c = Checker { env };
        assert(c@ =~= Map::<SymbolId, Type>::empty());
        c
    }

    /// Type-checks an expression and returns its type.
    pub fn check(&mut self, expr: &Expr, interner: &mut Interner) -> (r: Result<Type, String>)
        ensures
            final(self)@ == old(self)@,
            (final(interner)@, text_result(r)) == expr_type(old(self)@, old(interner)@, *expr),
    {
        self.check_expr(expr, interner)
    }

    fn lookup(&self, id: SymbolId) -> (r: Option<Type>)
        ensures
            r == env_lookup(self@, id),
    {
        proof {
            broadcast use vstd::std_specs::hash::group_hash_axioms;
        }
        match self.env.get(&id.0) {
            Some(t) => Some(*t),
            None => None,
        }
    }

    fn check_expr(&mut self, expr: &Expr, interner: &mut Interner) -> (r: Result<Type, String>)
        ensures
            final(self)@ == old(self)@,
            (final(interner)@, text_result(r)) == expr_type(old(self)@, old(interner)@, *expr),
        decreases expr,
    {
        match expr {
            Expr::Number(_) => Ok(Type::Int),
            Expr::Bool(_) => Ok(Type::Bool),
            Expr::Name(name) => {
                let sym_id = interner.intern(name.as_str());
                match self.lookup(sym_id) {
                    Some(t) => Ok(t),
                    None => {
                        let mut m = text_of("NameError: name '");
                        m.append(name.as_str());
                        m.append("' is not defined");
                        Err(m)
                    },
                }
            },
            Expr::BinaryOp { left, op, right } => {
                let l_type = match self.check_expr(left, interner) {
                    Ok(t) => t,
                    Err(m) => return Err(m),
                };
                let r_type = match self.check_expr(right, interner) {
                    Ok(t) => t,
                    Err(m) => return Err(m),
                };
                match (l_type, r_type, op) {
                    (Type::Int, Type::Int, Operator::Plus) => Ok(Type::Int),
                    (Type::Int, Type::Int, Operator::Minus) => Ok(Type::Int),
                    (Type::Int, Type::Int, Operator::Star) => Ok(Type::Int),
                    (Type::Int, Type::Int, Operator::Slash) => Ok(Type::Int),
                    _ => {
                        let mut m = text_of("TypeError: unsupported operand types for ");
                        m.append(operator_debug_text(*op));
                        m.append(": ");
                        push_quoted(&mut m, l_type.name());
                        m.append(" and ");
                        push_quoted(&mut m, r_type.name());
                        assert(m@ =~= operand_error_text(*op, l_type, r_type));
                        Err(m)
                    },
                }
            },
        }
    }
}

/// The four arithmetic operators are typed alike: for each of `+ - * /`,
/// two operands of type `int` give an `int`.
pub proof fn law_arithmetic_on_integers_is_integer(env: Map<SymbolId, Type>, names: Seq<Seq<char>>, l: Expr, op: Operator, r: Expr)
    requires
        op == Operator::Plus || op == Operator::Minus || op == Operator::Star || op == Operator::Slash,
        expr_type(env, names, l).1 == Ok::<Type, Seq<char>>(Type::Int),
        expr_type(env, expr_type(env, names, l).0, r).1 == Ok::<Type, Seq<char>>(Type::Int),
    ensures
        expr_type(env, names, Expr::BinaryOp { left: Box::new(l), op, right: Box::new(r) }).1
            == Ok::<Type, Seq<char>>(Type::Int),
{
}

/// The single-expression checker agrees with the program checker: whatever
/// type it gives an expression, the program checker, with the same
/// bindings as its one scope, gives the same type and interns the same
/// names.
pub proof fn law_expression_checker_agrees_with_program_checker(env: Map<SymbolId, Type>, names: Seq<Seq<char>>, e: Expr)
    ensures
        expr_type(env, names, e).1 is Ok ==> check_expr_spec(Env { scopes: seq![env], names }, e) == (
            Env { scopes: seq![env], names: expr_type(env, names, e).0 },
            expr_type(env, names, e).1,
        ),
    decreases e,
{
    match e {
        Expr::Name(n) => {
            let id = SymbolId(intern_result(names, n@).1 as usize);
            let sc = seq![env];
            assert(sc.drop_last() =~= Seq::<Map<SymbolId, Type>>::empty());
            assert(resolve_in(sc.drop_last(), id) is None);
        },
        Expr::BinaryOp { left, op, right } => {
            law_expression_checker_agrees_with_program_checker(env, names, *left);
            let n1 = expr_type(env, names, *left).0;
            law_expression_checker_agrees_with_program_checker(env, n1, *right);
        },
        _ => {},
    }
}

} // verus!
