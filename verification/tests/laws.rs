use typy::compiler::{Compiler, Instruction};
use typy::object::{ArithOp, CompareOp, Object};
use typy::parser::Parser;
use typy::symbol::Interner;
use typy::tokenizer::{tokenize_str, Token};
use typy::vm::VM;

fn compile_with(input: &str, interner: &mut Interner) -> Vec<Instruction> {
    let tokens = tokenize_str(input);
    let stmts = Parser::new(tokens).parse().unwrap();
    Compiler::new().compile(&stmts, interner)
}

#[test]
fn interning_is_idempotent_and_resolves_back() {
    let mut interner = Interner::new();
    let a = interner.intern("alpha");
    let b = interner.intern("beta");
    let a_again = interner.intern("alpha");
    assert_eq!(a, a_again);
    assert_ne!(a, b);
    assert_eq!(interner.resolve(a), "alpha");
    assert_eq!(interner.resolve(b), "beta");
    assert_eq!(interner.get(b), Some("beta"));
    assert_eq!(a.0, 0);
    assert_eq!(b.0, 1);
}

#[test]
fn not_equal_negates_equal() {
    let pairs = [
        (Object::Int(3), Object::Int(3)),
        (Object::Int(3), Object::Int(4)),
        (Object::Bool(true), Object::Bool(false)),
        (Object::Bool(true), Object::Bool(true)),
    ];
    for (l, r) in pairs.iter() {
        assert_eq!(l.ne(r).unwrap(), !l.eq(r).unwrap());
    }
    assert!(Object::Int(1).ne(&Object::NoneValue).is_err());
    assert!(Object::Int(1).eq(&Object::NoneValue).is_err());
}

#[test]
fn orderings_are_complementary() {
    for (a, b) in [(1i64, 2i64), (2, 1), (5, 5), (i64::MIN, i64::MAX)] {
        let (l, r) = (Object::Int(a), Object::Int(b));
        assert_eq!(l.lt(&r).unwrap(), !l.ge(&r).unwrap());
        assert_eq!(l.gt(&r).unwrap(), !l.le(&r).unwrap());
    }
}

#[test]
fn arithmetic_rejects_non_integers_with_the_operator() {
    let err = Object::Bool(true).arithmetic_op(ArithOp::Mul, &Object::Int(2)).unwrap_err();
    assert_eq!(err, "TypeError: '*' not supported between instances of 'bool' and 'int'");
    let err = Object::NoneValue.sub(&Object::NoneValue).unwrap_err();
    assert_eq!(err, "TypeError: '-' not supported between instances of 'NoneType' and 'NoneType'");
    let err = Object::Bool(true).compare(CompareOp::LessEq, &Object::Bool(false)).unwrap_err();
    assert_eq!(err, "TypeError: '<=' not supported between instances of 'bool' and 'bool'");
}

#[test]
fn division_rounds_toward_zero() {
    for (a, b) in [(7i64, 2i64), (-7, 2), (7, -2), (-7, -2), (i64::MIN, 2)] {
        let q = match Object::Int(a).div(&Object::Int(b)).unwrap() {
            Object::Int(q) => q,
            other => panic!("unexpected {:?}", other),
        };
        let rem = a - q * b;
        assert!(rem.abs() < b.abs());
        assert!(rem == 0 || (rem < 0) == (a < 0));
    }
    assert_eq!(Object::Int(-7).div(&Object::Int(2)).unwrap(), Object::Int(-3));
}

#[test]
fn compiled_jumps_go_forward() {
    let mut interner = Interner::new();
    let code = compile_with(
        "x: int = 1\nif x == 1:\n    if False:\n        x = 2\n    elif True:\n        x = 3\nelif x == 2:\n    x = 4\nelse:\n    x = 5\nx\n",
        &mut interner,
    );
    let mut jumps = 0;
    for (i, instr) in code.iter().enumerate() {
        match instr {
            Instruction::Jump(t) | Instruction::JumpIfFalse(t) => {
                jumps += 1;
                assert!(i < *t && *t <= code.len(), "jump at {} to {}", i, t);
            }
            _ => {}
        }
    }
    assert_eq!(jumps, 8);
}

#[test]
fn compiled_programs_run_to_an_end() {
    let mut interner = Interner::new();
    let code = compile_with(
        "x: int = 1\nif x == 1:\n    if False:\n        x = 2\n    elif True:\n        x = 3\nelif x == 2:\n    x = 4\nelse:\n    x = 5\nx\n",
        &mut interner,
    );
    assert_eq!(VM::new().run(&code, &interner, false), Ok(Object::Int(3)));
}

#[test]
fn token_streams_end_with_one_eof_and_balanced_indentation() {
    let tokens = tokenize_str("if x:\n    if y:\n        z\n    w\nv\n");
    assert_eq!(tokens.last(), Some(&Token::Eof));
    assert_eq!(tokens.iter().filter(|t| **t == Token::Eof).count(), 1);
    let mut depth: i64 = 0;
    for t in &tokens {
        match t {
            Token::Indent => depth += 1,
            Token::Dedent => depth -= 1,
            _ => {}
        }
        assert!(depth >= 0);
    }
    assert_eq!(depth, 0);
}

#[test]
fn compiled_globals_are_interned() {
    let mut interner = Interner::new();
    let code = compile_with("a: int = 1\nb: int = a + 2\nif b > a:\n    c: int = b\n    a = c\nd\n", &mut interner);
    let mut names = 0;
    for instr in &code {
        match instr {
            Instruction::LoadName(id) | Instruction::StoreName(id) => {
                names += 1;
                assert!(interner.get(*id).is_some());
            }
            _ => {}
        }
    }
    assert_eq!(names, 8);
    assert_eq!(
        VM::new().run(&code, &interner, false),
        Err("NameError: name 'd' is not defined".to_string())
    );
}
