use typy::compiler::{Compiler, Instruction};
use typy::object::Object;
use typy::parser::Parser;
use typy::symbol::Interner;
use typy::tokenizer::tokenize_str;
use typy::types::TypeChecker;
use typy::vm::VM;

fn check(input: &str) -> Result<(), String> {
    let stmts = Parser::new(tokenize_str(input)).parse().unwrap();
    let mut interner = Interner::new();
    TypeChecker::default().check(&stmts, &mut interner)
}

fn run(input: &str) -> Result<Object, String> {
    let stmts = Parser::new(tokenize_str(input)).parse().unwrap();
    let mut interner = Interner::new();
    let mut checker = TypeChecker::new();
    checker.check(&stmts, &mut interner)?;
    let code = Compiler::default().compile(&stmts, &mut interner);
    VM::new().run(&code, &interner, false)
}

#[test]
fn outer_variables_are_visible_in_blocks() {
    assert_eq!(check("x: int = 1\nif True:\n    y: int = x\n"), Ok(()));
}

#[test]
fn blocks_may_redefine_outer_variables() {
    assert_eq!(check("x: int = 1\nif True:\n    x: bool = True\n"), Ok(()));
    assert_eq!(run("x: int = 1\nif True:\n    x: int = 2\n    x\nx\n"), Ok(Object::Int(1)));
}

#[test]
fn block_variables_end_with_the_block() {
    assert_eq!(
        check("if True:\n    z: int = 1\nz\n"),
        Err("NameError: name 'z' is not defined".to_string())
    );
}

#[test]
fn elif_conditions_must_be_booleans() {
    assert_eq!(
        check("if True:\n    1\nelif 2:\n    3\n"),
        Err("TypeError: elif condition must be 'bool', got 'int'".to_string())
    );
}

#[test]
fn declaration_and_assignment_messages() {
    assert_eq!(
        check("x: int = True\n"),
        Err("TypeError: mismatched types 'x' expected to be 'int', got 'bool'".to_string())
    );
    assert_eq!(
        check("x: bool = False\nx = 3\n"),
        Err("TypeError: mismatched types 'x' expected to be 'bool', but got 'int'".to_string())
    );
    assert_eq!(check("y = 3\n"), Err("TypeError: variable 'y' not defined".to_string()));
    assert_eq!(
        check("x: int\nx: int\n"),
        Err("Variable 'x' already declared in this scope".to_string())
    );
}

#[test]
fn state_persists_across_checks_and_runs() {
    let mut interner = Interner::new();
    let mut checker = TypeChecker::new();
    let mut vm = VM::new();
    for (source, expected) in [("x: int = 4\n", Object::NoneValue), ("x * 10\n", Object::Int(40))] {
        let stmts = Parser::new(tokenize_str(source)).parse().unwrap();
        checker.check(&stmts, &mut interner).unwrap();
        let code = Compiler::new().compile(&stmts, &mut interner);
        assert_eq!(vm.run(&code, &interner, false), Ok(expected));
    }
}

#[test]
fn block_scopes_close_after_a_successful_check() {
    let mut interner = Interner::new();
    let mut checker = TypeChecker::new();
    let mut check_more = |source: &str| {
        let stmts = Parser::new(tokenize_str(source)).parse().unwrap();
        checker.check(&stmts, &mut interner)
    };
    assert_eq!(check_more("if True:\n    y: int = 2\n"), Ok(()));
    assert_eq!(check_more("y\n"), Err("NameError: name 'y' is not defined".to_string()));
    assert_eq!(check_more("y: bool = True\n"), Ok(()));
    assert_eq!(check_more("y: bool = True\n"), Err("Variable 'y' already declared in this scope".to_string()));
}

#[test]
fn nested_blocks_see_enclosing_locals() {
    assert_eq!(run("if True:\n    y: int = 1\n    if True:\n        y\n"), Ok(Object::Int(1)));
    assert_eq!(
        run("x: int = 0\nif True:\n    y: int = 1\n    if True:\n        y = y + 5\n    x = y\nx\n"),
        Ok(Object::Int(6))
    );
    assert_eq!(
        run("if True:\n    y: int = 1\n    if True:\n        y: int = 2\n        y = 7\n    y\n"),
        Ok(Object::Int(1))
    );
}

#[test]
fn enclosing_locals_compile_to_frame_relative_slots() {
    let stmts = Parser::new(tokenize_str("if True:\n    y: int = 1\n    if True:\n        y = y\n")).parse().unwrap();
    let mut interner = Interner::new();
    let code = Compiler::new().compile(&stmts, &mut interner);
    assert!(code.contains(&Instruction::LoadEnclosing(1, 0)));
    assert!(code.contains(&Instruction::StoreEnclosing(1, 0)));
}
