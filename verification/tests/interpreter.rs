use typy::cli::check_path_parts;
use typy::compiler::{Compiler, Instruction};
use typy::parser::{Expr, Stmt};
use typy::parser::Operator;
use typy::symbol::SymbolId;
use typy::types::Type;
use typy::vm::StepOutcome;
use typy::interpreter::{evaluate, front_end, FrontEnd, Outcome};
use typy::object::Object;
use typy::symbol::Interner;
use typy::tokenizer::Token;
use typy::types::TypeChecker;
use typy::vm::VM;

fn eval(source: &str) -> Outcome {
    let mut vm = VM::new();
    let mut interner = Interner::new();
    let mut checker = TypeChecker::new();
    evaluate(source, &mut vm, &mut interner, &mut checker).1
}

#[test]
fn evaluate_gives_the_value_of_a_program() {
    assert!(matches!(eval("1 + 2 * 3"), Outcome::Value(Object::Int(7))));
    assert!(matches!(eval("x: int = 1"), Outcome::Value(Object::NoneValue)));
}

#[test]
fn evaluate_sees_outer_block_variables_in_inner_blocks() {
    let source = "if True:\n    y: int = 1\n    if True:\n        y\n";
    assert!(matches!(eval(source), Outcome::Value(Object::Int(1))));
}

#[test]
fn evaluate_reports_a_type_error_and_keeps_the_machine() {
    match eval("x: int = True") {
        Outcome::Error(message) => assert!(message.starts_with("TypeError")),
        _ => panic!("expected a type error"),
    }
}

#[test]
fn evaluate_reports_a_syntax_error() {
    match eval("x: int = ") {
        Outcome::Error(message) => assert!(message.starts_with("SyntaxError")),
        _ => panic!("expected a syntax error"),
    }
}

#[test]
fn evaluate_aborts_on_a_lexical_error() {
    match eval("1 ! 2") {
        Outcome::Abort(message) => assert_eq!(message, "SyntaxError: unknown token: !"),
        _ => panic!("expected an abort"),
    }
}

#[test]
fn evaluate_reports_a_runtime_error() {
    match eval("1 / 0") {
        Outcome::Error(message) => assert_eq!(message, "ZeroDivisionError: division by zero"),
        _ => panic!("expected a runtime error"),
    }
}

#[test]
fn evaluate_aborts_on_an_overflow() {
    assert!(matches!(eval("9223372036854775807 + 1"), Outcome::Abort(_)));
}

#[test]
fn evaluate_carries_state_between_texts() {
    let mut vm = VM::new();
    let mut interner = Interner::new();
    let mut checker = TypeChecker::new();
    let first = evaluate("a: int = 2", &mut vm, &mut interner, &mut checker).1;
    assert!(matches!(first, Outcome::Value(Object::NoneValue)));
    let second = evaluate("a * 3", &mut vm, &mut interner, &mut checker).1;
    assert!(matches!(second, Outcome::Value(Object::Int(6))));
}

#[test]
fn front_end_keeps_what_each_stage_made() {
    let mut interner = Interner::new();
    let mut checker = TypeChecker::new();
    match front_end("1 + 2", &mut interner, &mut checker) {
        FrontEnd::Compiled(tokens, ast, code) => {
            assert_eq!(tokens, vec![Token::Number(1), Token::Plus, Token::Number(2), Token::NewLine, Token::Eof]);
            assert_eq!(ast.len(), 1);
            assert_eq!(code.len(), 3);
        }
        _ => panic!("expected compiled code"),
    }
    match front_end("x: int = True", &mut interner, &mut checker) {
        FrontEnd::TypeError(tokens, ast, _) => {
            assert_eq!(tokens.len(), 7);
            assert_eq!(ast.len(), 1);
        }
        _ => panic!("expected a type error"),
    }
}

#[test]
fn path_parts_are_checked() {
    assert_eq!(check_path_parts(Some("tp"), Some("main")), Ok(()));
    assert_eq!(
        check_path_parts(Some("py"), Some("main")),
        Err("Invalid file extension '.py'. Expected '.tp'".to_string())
    );
    assert_eq!(check_path_parts(None, Some("main")), Err("File must have '.tp' extension".to_string()));
    assert_eq!(
        check_path_parts(Some("tp"), Some("Main")),
        Err("Filename 'Main' must be in snake_case (lowercase letters, digits, underscores, cannot start with digit)".to_string())
    );
    assert_eq!(check_path_parts(Some("tp"), None), Err("Invalid file path".to_string()));
}

#[test]
fn binary_operations_are_typed() {
    let checker = TypeChecker::new();
    assert_eq!(checker.check_binary_op(Operator::Plus, Type::Int, Type::Int), Ok(Type::Int));
    assert_eq!(checker.check_binary_op(Operator::Less, Type::Bool, Type::Bool), Ok(Type::Bool));
    assert_eq!(
        checker.check_binary_op(Operator::Star, Type::Int, Type::Bool),
        Err("TypeError: unsupported operand types for arithmetic: 'int' and 'bool'".to_string())
    );
    assert_eq!(
        checker.check_binary_op(Operator::Eq, Type::Bool, Type::Int),
        Err("TypeError: cannot compare 'bool' and 'int'".to_string())
    );
}

#[test]
fn conditional_jumps_pop_their_condition() {
    let interner = Interner::new();
    let mut vm = VM::new();
    assert!(matches!(vm.execute_jump_if_false(7, 0), StepOutcome::Error(m) if m == "SystemError: stack underflow at JUMP_IF_FALSE"));
    let code = [Instruction::LoadConst(Object::Bool(false)), Instruction::LoadConst(Object::Bool(true)), Instruction::LoadConst(Object::Int(3))];
    assert!(matches!(vm.step(&code, &interner, 0), StepOutcome::Continue(1)));
    assert!(matches!(vm.step(&code, &interner, 1), StepOutcome::Continue(2)));
    assert!(matches!(vm.step(&code, &interner, 2), StepOutcome::Continue(3)));
    assert!(matches!(vm.execute_jump_if_false(7, 4), StepOutcome::Error(m) if m == "TypeError: condition must be bool, got int"));
    assert!(matches!(vm.execute_jump_if_false(7, 4), StepOutcome::Continue(5)));
    assert!(matches!(vm.execute_jump_if_false(7, 4), StepOutcome::Continue(7)));
    assert!(vm.stack().is_empty());
}

#[test]
fn storing_a_name_pops_the_value() {
    let mut interner = Interner::new();
    let x = interner.intern("x");
    let mut vm = VM::new();
    assert!(matches!(vm.execute_store_name(x, 0), StepOutcome::Error(m) if m == "SystemError: stack underflow at STORE_NAME"));
    let code = [Instruction::LoadConst(Object::Int(5))];
    assert!(matches!(vm.step(&code, &interner, 0), StepOutcome::Continue(1)));
    assert!(matches!(vm.execute_store_name(x, 1), StepOutcome::Continue(2)));
    assert!(vm.stack().is_empty());
    assert_eq!(vm.globals().get(&x.0), Some(&Object::Int(5)));
    assert_eq!(x, SymbolId(0));
}

#[test]
fn checked_programs_find_their_globals() {
    let source = "x: int = 1\nif True:\n    y: int = x\n    x = y + 1\nx\n";
    assert!(matches!(eval(source), Outcome::Value(Object::Int(2))));
}

#[test]
fn a_failed_check_leaves_its_declarations_unset() {
    let mut vm = VM::new();
    let mut interner = Interner::new();
    let mut checker = TypeChecker::new();
    let first = evaluate("x: int = 1\ny: int = True", &mut vm, &mut interner, &mut checker).1;
    assert!(matches!(first, Outcome::Error(m) if m.starts_with("TypeError")));
    let second = evaluate("x", &mut vm, &mut interner, &mut checker).1;
    assert!(matches!(second, Outcome::Error(m) if m == "NameError: name 'x' is not defined"));
}

#[test]
fn statements_and_expressions_compile_one_at_a_time() {
    let mut interner = Interner::new();
    let mut compiler = Compiler::new();
    compiler.compile_expr(
        &Expr::BinaryOp { left: Box::new(Expr::Name("x".to_string())), op: Operator::Less, right: Box::new(Expr::Number(2)) },
        &mut interner,
    );
    compiler.compile_stmt(
        &Stmt::VariableDecl { name: "y".to_string(), typ: Type::Bool, initializer: None },
        &mut interner,
    );
    let code = compiler.compile(&[], &mut interner);
    assert_eq!(
        code,
        vec![
            Instruction::LoadName(SymbolId(0)),
            Instruction::LoadConst(Object::Int(2)),
            Instruction::Less,
            Instruction::LoadConst(Object::Bool(false)),
            Instruction::StoreName(SymbolId(1)),
        ]
    );
}
