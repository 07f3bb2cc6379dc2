use typy::checker::Checker;
use typy::parser::{Expr, Operator};
use typy::symbol::Interner;
use typy::types::Type;

fn bin(l: Expr, op: Operator, r: Expr) -> Expr {
    Expr::BinaryOp { left: Box::new(l), op, right: Box::new(r) }
}

#[test]
fn literals_have_their_types() {
    let mut interner = Interner::new();
    let mut checker = Checker::new();
    assert_eq!(checker.check(&Expr::Number(1), &mut interner), Ok(Type::Int));
    assert_eq!(checker.check(&Expr::Bool(false), &mut interner), Ok(Type::Bool));
}

#[test]
fn arithmetic_on_integers() {
    let mut interner = Interner::new();
    let mut checker = Checker::default();
    let e = bin(Expr::Number(1), Operator::Star, bin(Expr::Number(2), Operator::Minus, Expr::Number(3)));
    assert_eq!(checker.check(&e, &mut interner), Ok(Type::Int));
}

#[test]
fn unbound_names_are_errors() {
    let mut interner = Interner::new();
    let mut checker = Checker::new();
    assert_eq!(
        checker.check(&Expr::Name("q".to_string()), &mut interner),
        Err("NameError: name 'q' is not defined".to_string())
    );
    let q = interner.intern("q");
    assert_eq!(q.0, 0);
    assert_eq!(interner.resolve(q), "q");
}

#[test]
fn operands_must_be_integers() {
    let mut interner = Interner::new();
    let mut checker = Checker::new();
    assert_eq!(
        checker.check(&bin(Expr::Number(1), Operator::Plus, Expr::Bool(true)), &mut interner),
        Err("TypeError: unsupported operand types for Plus: 'int' and 'bool'".to_string())
    );
    assert_eq!(
        checker.check(&bin(Expr::Number(1), Operator::Less, Expr::Number(2)), &mut interner),
        Err("TypeError: unsupported operand types for Less: 'int' and 'int'".to_string())
    );
}
