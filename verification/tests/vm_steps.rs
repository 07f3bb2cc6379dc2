use typy::compiler::Instruction;
use typy::object::Object;
use typy::symbol::{Interner, SymbolId};
use typy::vm::{CallFrame, StepOutcome, VM};

fn run(code: &[Instruction]) -> Result<Object, String> {
    let interner = Interner::new();
    VM::new().run(code, &interner, false)
}

#[test]
fn empty_program_gives_none() {
    assert_eq!(run(&[]), Ok(Object::NoneValue));
}

#[test]
fn store_name_pops_its_value() {
    let mut interner = Interner::new();
    let x = interner.intern("x");
    let code = [Instruction::LoadConst(Object::Int(7)), Instruction::StoreName(x)];
    let mut vm = VM::new();
    assert_eq!(vm.run(&code, &interner, false), Ok(Object::NoneValue));
    assert!(vm.stack().is_empty());
    let code = [Instruction::LoadName(x)];
    assert_eq!(vm.run(&code, &interner, false), Ok(Object::Int(7)));
}

#[test]
fn later_stores_override_earlier_ones() {
    let mut interner = Interner::new();
    let x = interner.intern("x");
    let code = [
        Instruction::LoadConst(Object::Int(1)),
        Instruction::StoreName(x),
        Instruction::LoadConst(Object::Int(2)),
        Instruction::StoreName(x),
        Instruction::LoadName(x),
    ];
    assert_eq!(VM::new().run(&code, &interner, false), Ok(Object::Int(2)));
}

#[test]
fn undefined_global_is_a_name_error() {
    let mut interner = Interner::new();
    let y = interner.intern("y");
    let code = [Instruction::LoadName(y)];
    assert_eq!(
        VM::new().run(&code, &interner, false),
        Err("NameError: name 'y' is not defined".to_string())
    );
}

#[test]
fn unknown_symbol_aborts_the_step() {
    let interner = Interner::new();
    let code = [Instruction::LoadName(SymbolId(3))];
    let mut vm = VM::new();
    match vm.step(&code, &interner, 0) {
        StepOutcome::Abort(m) => assert_eq!(m, "attempted to resolve an invalid SymbolId"),
        other => panic!("unexpected {:?}", other),
    }
}

#[test]
fn overflow_aborts_the_step() {
    let interner = Interner::new();
    let code = [
        Instruction::LoadConst(Object::Int(i64::MAX)),
        Instruction::LoadConst(Object::Int(1)),
        Instruction::Add,
    ];
    let mut vm = VM::new();
    assert!(matches!(vm.step(&code, &interner, 0), StepOutcome::Continue(1)));
    assert!(matches!(vm.step(&code, &interner, 1), StepOutcome::Continue(2)));
    match vm.step(&code, &interner, 2) {
        StepOutcome::Abort(m) => assert_eq!(m, "attempt to add with overflow"),
        other => panic!("unexpected {:?}", other),
    }
    let code = [
        Instruction::LoadConst(Object::Int(i64::MIN)),
        Instruction::LoadConst(Object::Int(-1)),
        Instruction::Divide,
    ];
    let mut vm = VM::new();
    vm.step(&code, &interner, 0);
    vm.step(&code, &interner, 1);
    match vm.step(&code, &interner, 2) {
        StepOutcome::Abort(m) => assert_eq!(m, "attempt to divide with overflow"),
        other => panic!("unexpected {:?}", other),
    }
}

#[test]
fn stack_underflow_messages() {
    assert_eq!(run(&[Instruction::Add]), Err("SystemError: stack underflow (right operand)".to_string()));
    assert_eq!(
        run(&[Instruction::LoadConst(Object::Int(1)), Instruction::Less]),
        Err("SystemError: stack underflow (left operand)".to_string())
    );
    assert_eq!(
        run(&[Instruction::StoreName(SymbolId(0))]),
        Err("SystemError: stack underflow at STORE_NAME".to_string())
    );
    assert_eq!(
        run(&[Instruction::StoreLocal(0)]),
        Err("SystemError: stack underflow at STORE_LOCAL".to_string())
    );
    assert_eq!(
        run(&[Instruction::JumpIfFalse(0)]),
        Err("SystemError: stack underflow at JUMP_IF_FALSE".to_string())
    );
}

#[test]
fn local_slots_are_checked() {
    assert_eq!(run(&[Instruction::LoadLocal(0)]), Err("SystemError: local slot 0 out of bounds".to_string()));
    assert_eq!(
        run(&[Instruction::EnterBlock(2), Instruction::LoadConst(Object::Int(9)), Instruction::StoreLocal(12)]),
        Err("SystemError: local slot 12 out of bounds".to_string())
    );
    assert_eq!(
        run(&[
            Instruction::EnterBlock(2),
            Instruction::LoadConst(Object::Int(9)),
            Instruction::StoreLocal(1),
            Instruction::LoadLocal(0),
            Instruction::LoadLocal(1),
        ]),
        Ok(Object::Int(9))
    );
}

#[test]
fn new_frames_hold_none() {
    assert_eq!(run(&[Instruction::EnterBlock(1), Instruction::LoadLocal(0)]), Ok(Object::NoneValue));
    let frame = CallFrame::new(3, 2);
    assert_eq!(format!("{:?}", frame), "CallFrame { locals: [NoneValue, NoneValue], _ip_offset: 3 }");
}

#[test]
fn global_frame_cannot_be_exited() {
    assert_eq!(run(&[Instruction::ExitBlock]), Err("SystemError: cannot exit global frame".to_string()));
    let mut vm = VM::new();
    let interner = Interner::new();
    let code = [Instruction::EnterBlock(0), Instruction::ExitBlock];
    assert_eq!(vm.run(&code, &interner, false), Ok(Object::NoneValue));
    assert_eq!(vm.frames().len(), 1);
}

#[test]
fn conditions_must_be_booleans() {
    assert_eq!(
        run(&[Instruction::LoadConst(Object::Int(1)), Instruction::JumpIfFalse(5)]),
        Err("TypeError: condition must be bool, got int".to_string())
    );
    assert_eq!(
        run(&[Instruction::LoadConst(Object::NoneValue), Instruction::JumpIfFalse(5)]),
        Err("TypeError: condition must be bool, got NoneType".to_string())
    );
}

#[test]
fn jumps_follow_the_condition() {
    let code = [
        Instruction::LoadConst(Object::Bool(false)),
        Instruction::JumpIfFalse(4),
        Instruction::LoadConst(Object::Int(1)),
        Instruction::Jump(5),
        Instruction::LoadConst(Object::Int(2)),
    ];
    assert_eq!(run(&code), Ok(Object::Int(2)));
    let mut code = code.to_vec();
    code[0] = Instruction::LoadConst(Object::Bool(true));
    assert_eq!(run(&code), Ok(Object::Int(1)));
}

#[test]
fn runtime_errors_of_operations() {
    assert_eq!(
        run(&[Instruction::LoadConst(Object::Int(1)), Instruction::LoadConst(Object::Int(0)), Instruction::Divide]),
        Err("ZeroDivisionError: division by zero".to_string())
    );
    assert_eq!(
        run(&[Instruction::LoadConst(Object::Int(1)), Instruction::LoadConst(Object::Bool(true)), Instruction::Greater]),
        Err("TypeError: '>' not supported between instances of 'int' and 'bool'".to_string())
    );
    assert_eq!(
        run(&[Instruction::LoadConst(Object::Bool(true)), Instruction::LoadConst(Object::Bool(true)), Instruction::Eq]),
        Ok(Object::Bool(true))
    );
}

#[test]
fn finish_pops_the_result() {
    let interner = Interner::new();
    let code = [Instruction::LoadConst(Object::Int(4)), Instruction::LoadConst(Object::Int(5))];
    let mut vm = VM::default();
    assert!(matches!(vm.step(&code, &interner, 0), StepOutcome::Continue(1)));
    assert!(matches!(vm.step(&code, &interner, 1), StepOutcome::Continue(2)));
    assert_eq!(vm.stack(), &vec![Object::Int(4), Object::Int(5)]);
    assert_eq!(vm.finish(), Object::Int(5));
    assert_eq!(vm.finish(), Object::Int(4));
    assert_eq!(vm.finish(), Object::NoneValue);
}

#[test]
fn enclosing_frames_are_checked() {
    assert_eq!(
        run(&[Instruction::LoadEnclosing(1, 0)]),
        Err("SystemError: enclosing frame 1 out of bounds".to_string())
    );
    assert_eq!(
        run(&[Instruction::EnterBlock(1), Instruction::EnterBlock(0), Instruction::LoadEnclosing(1, 3)]),
        Err("SystemError: local slot 3 out of bounds".to_string())
    );
    assert_eq!(
        run(&[Instruction::StoreEnclosing(0, 0)]),
        Err("SystemError: stack underflow at STORE_ENCLOSING".to_string())
    );
    assert_eq!(
        run(&[
            Instruction::EnterBlock(1),
            Instruction::EnterBlock(0),
            Instruction::LoadConst(Object::Int(4)),
            Instruction::StoreEnclosing(1, 0),
            Instruction::ExitBlock,
            Instruction::LoadLocal(0),
        ]),
        Ok(Object::Int(4))
    );
}
