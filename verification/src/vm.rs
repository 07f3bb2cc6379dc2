//! The virtual machine: executes bytecode on an operand stack, with a stack
//! of frames for the locals of blocks and a table of globals.

use vstd::prelude::*;
use crate::compiler::{Instruction, jump_target, stmts_code, law_compiled_jumps_go_forward, law_compiled_symbols_are_interned};
use crate::parser::{Stmt, stmts_view};
use crate::object::{Object, ArithOp, CompareOp, arith_overflows, arith_result, compare_result, type_label_text};
use crate::symbol::{Interner, SymbolId};
use crate::text::{nat_text, push_nat_text, text_of, text_result};
use std::collections::HashMap;

verus! {

// ---------------------------------------------------------------------------
// The machine as the specification sees it
// ---------------------------------------------------------------------------

/// A frame as the specification sees it: its local slots and the address of
/// the instruction that entered it.
pub struct FrameState {
    pub locals: Seq<Object>,
    pub entered_at: usize,
}

/// The whole machine: the operand stack (top last), the frames (current
/// last) and the global variables.
pub struct MachineState {
    pub stack: Seq<Object>,
    pub frames: Seq<FrameState>,
    pub globals: Map<SymbolId, Object>,
}

/// What one instruction does to the machine.
pub enum StepSpec {
    /// Execution goes on at the address, in the new state.
    Next(MachineState, int),
    /// The program stops with a runtime error, leaving the state given.
    Fail(Seq<char>, MachineState),
    /// The instruction cannot be carried out (arithmetic overflow, a symbol
    /// unknown to the interner); the message is the one a process would
    /// abort with, and the state is the one at that point.
    Abort(Seq<char>, MachineState),
}

pub open spec fn name_error_text(name: Seq<char>) -> Seq<char> {
    "NameError: name '"@ + name + "' is not defined"@
}

pub open spec fn slot_error_text(slot: usize) -> Seq<char> {
    "SystemError: local slot "@ + nat_text(slot as nat) + " out of bounds"@
}

pub open spec fn frame_error_text(depth: usize) -> Seq<char> {
    "SystemError: enclosing frame "@ + nat_text(depth as nat) + " out of bounds"@
}

pub open spec fn condition_error_text(c: Object) -> Seq<char> {
    "TypeError: condition must be bool, got "@ + type_label_text(c)
}

/// The message of the abort on an overflowing arithmetic operation.
pub open spec fn overflow_text(op: ArithOp) -> Seq<char> {
    match op {
        ArithOp::Add => "attempt to add with overflow"@,
        ArithOp::Sub => "attempt to subtract with overflow"@,
        ArithOp::Mul => "attempt to multiply with overflow"@,
        ArithOp::Div => "attempt to divide with overflow"@,
    }
}

/// The message of the abort on a symbol that the interner does not know.
pub open spec fn invalid_symbol_text() -> Seq<char> {
    "attempted to resolve an invalid SymbolId"@
}

/// The arithmetic operation of an instruction, if it is one.
pub open spec fn arith_of(i: Instruction) -> Option<ArithOp> {
    match i {
        Instruction::Add => Some(ArithOp::Add),
        Instruction::Subtract => Some(ArithOp::Sub),
        Instruction::Multiply => Some(ArithOp::Mul),
        Instruction::Divide => Some(ArithOp::Div),
        _ => None,
    }
}

/// The comparison of an instruction, if it is one.
pub open spec fn compare_of(i: Instruction) -> Option<CompareOp> {
    match i {
        Instruction::Eq => Some(CompareOp::Eq),
        Instruction::NotEq => Some(CompareOp::NotEq),
        Instruction::Less => Some(CompareOp::Less),
        Instruction::Greater => Some(CompareOp::Greater),
        Instruction::LessEq => Some(CompareOp::LessEq),
        Instruction::GreaterEq => Some(CompareOp::GreaterEq),
        _ => None,
    }
}

/// The state with `v` pushed on the operand stack.
pub open spec fn push_value(s: MachineState, v: Object) -> MachineState {
    MachineState { stack: s.stack.push(v), ..s }
}

/// The state with the top of the operand stack removed.
pub open spec fn pop_value(s: MachineState) -> MachineState {
    MachineState { stack: s.stack.drop_last(), ..s }
}

/// Pops the right operand, then the left one; an empty stack is an error.
pub open spec fn pop_operands(s: MachineState) -> Result<(Object, Object, MachineState), (Seq<char>, MachineState)> {
    if s.stack.len() == 0 {
        Err(("SystemError: stack underflow (right operand)"@, s))
    } else {
        let right = s.stack.last();
        let s1 = pop_value(s);
        if s1.stack.len() == 0 {
            Err(("SystemError: stack underflow (left operand)"@, s1))
        } else {
            Ok((s1.stack.last(), right, pop_value(s1)))
        }
    }
}

/// Executing the instruction at `ip` in state `s` (`names` is the interner's
/// table, which only error messages read).
pub open spec fn step_spec(code: Seq<Instruction>, names: Seq<Seq<char>>, s: MachineState, ip: int) -> StepSpec {
    instruction_step(code[ip], names, s, ip)
}

/// Executing `instr`, found at address `ip`, in state `s`.
pub open spec fn instruction_step(instr: Instruction, names: Seq<Seq<char>>, s: MachineState, ip: int) -> StepSpec {
    match instr {
        Instruction::LoadConst(v) => StepSpec::Next(push_value(s, v), ip + 1),
        Instruction::LoadName(id) => {
            if s.globals.contains_key(id) {
                StepSpec::Next(push_value(s, s.globals[id]), ip + 1)
            } else if id.0 < names.len() {
                StepSpec::Fail(name_error_text(names[id.0 as int]), s)
            } else {
                StepSpec::Abort(invalid_symbol_text(), s)
            }
        },
        Instruction::StoreName(id) => {
            if s.stack.len() == 0 {
                StepSpec::Fail("SystemError: stack underflow at STORE_NAME"@, s)
            } else {
                let s1 = pop_value(s);
                StepSpec::Next(MachineState { globals: s1.globals.insert(id, s.stack.last()), ..s1 }, ip + 1)
            }
        },
        Instruction::LoadLocal(slot) => {
            let frame = s.frames.last();
            if slot >= frame.locals.len() {
                StepSpec::Fail(slot_error_text(slot), s)
            } else {
                StepSpec::Next(push_value(s, frame.locals[slot as int]), ip + 1)
            }
        },
        Instruction::StoreLocal(slot) => {
            if s.stack.len() == 0 {
                StepSpec::Fail("SystemError: stack underflow at STORE_LOCAL"@, s)
            } else {
                let v = s.stack.last();
                let s1 = pop_value(s);
                let frame = s1.frames.last();
                if slot >= frame.locals.len() {
                    StepSpec::Fail(slot_error_text(slot), s1)
                } else {
                    let f2 = FrameState { locals: frame.locals.update(slot as int, v), ..frame };
                    StepSpec::Next(MachineState { frames: s1.frames.update(s1.frames.len() - 1, f2), ..s1 }, ip + 1)
                }
            }
        },
        Instruction::LoadEnclosing(depth, slot) => {
            if depth >= s.frames.len() {
                StepSpec::Fail(frame_error_text(depth), s)
            } else {
                let frame = s.frames[s.frames.len() - 1 - depth];
                if slot >= frame.locals.len() {
                    StepSpec::Fail(slot_error_text(slot), s)
                } else {
                    StepSpec::Next(push_value(s, frame.locals[slot as int]), ip + 1)
                }
            }
        },
        Instruction::StoreEnclosing(depth, slot) => {
            if s.stack.len() == 0 {
                StepSpec::Fail("SystemError: stack underflow at STORE_ENCLOSING"@, s)
            } else {
                let v = s.stack.last();
                let s1 = pop_value(s);
                if depth >= s1.frames.len() {
                    StepSpec::Fail(frame_error_text(depth), s1)
                } else {
                    let fi = s1.frames.len() - 1 - depth;
                    let frame = s1.frames[fi];
                    if slot >= frame.locals.len() {
                        StepSpec::Fail(slot_error_text(slot), s1)
                    } else {
                        let f2 = FrameState { locals: frame.locals.update(slot as int, v), ..frame };
                        StepSpec::Next(MachineState { frames: s1.frames.update(fi, f2), ..s1 }, ip + 1)
                    }
                }
            }
        },
        Instruction::EnterBlock(n) => {
            let f = FrameState { locals: Seq::new(n as nat, |i: int| Object::NoneValue), entered_at: ip as usize };
            StepSpec::Next(MachineState { frames: s.frames.push(f), ..s }, ip + 1)
        },
        Instruction::ExitBlock => {
            if s.frames.len() <= 1 {
                StepSpec::Fail("SystemError: cannot exit global frame"@, s)
            } else {
                StepSpec::Next(MachineState { frames: s.frames.drop_last(), ..s }, ip + 1)
            }
        },
        Instruction::Jump(target) => StepSpec::Next(s, target as int),
        Instruction::JumpIfFalse(target) => {
            if s.stack.len() == 0 {
                StepSpec::Fail("SystemError: stack underflow at JUMP_IF_FALSE"@, s)
            } else {
                let c = s.stack.last();
                let s1 = pop_value(s);
                match c {
                    Object::Bool(false) => StepSpec::Next(s1, target as int),
                    Object::Bool(true) => StepSpec::Next(s1, ip + 1),
                    _ => StepSpec::Fail(condition_error_text(c), s1),
                }
            }
        },
        _ => {
            match pop_operands(s) {
                Err((msg, s1)) => StepSpec::Fail(msg, s1),
                Ok((l, r, s2)) => match (arith_of(instr), compare_of(instr)) {
                    (Some(op), _) => {
                        if arith_overflows(op, l, r) {
                            StepSpec::Abort(overflow_text(op), s2)
                        } else {
                            match arith_result(op, l, r) {
                                Ok(v) => StepSpec::Next(push_value(s2, v), ip + 1),
                                Err(msg) => StepSpec::Fail(msg, s2),
                            }
                        }
                    },
                    (_, Some(op)) => match compare_result(op, l, r) {
                        Ok(b) => StepSpec::Next(push_value(s2, Object::Bool(b)), ip + 1),
                        Err(msg) => StepSpec::Fail(msg, s2),
                    },
                    _ => StepSpec::Next(s, ip + 1),
                },
            }
        },
    }
}

/// The value a finished run yields: the top of the stack, popped, or `None`
/// when the stack is empty.
pub open spec fn finish_spec(s: MachineState) -> (Object, MachineState) {
    if s.stack.len() == 0 {
        (Object::NoneValue, s)
    } else {
        (s.stack.last(), pop_value(s))
    }
}

/// Whether execution from `ip` ends, by running off the end of the code or
/// by a runtime error, within `n` steps and without an abort.
pub open spec fn halts(code: Seq<Instruction>, names: Seq<Seq<char>>, s: MachineState, ip: int, n: nat) -> bool
    decreases n,
{
    if !(0 <= ip < code.len()) {
        true
    } else if n == 0 {
        false
    } else {
        match step_spec(code, names, s, ip) {
            StepSpec::Next(s2, ip2) => halts(code, names, s2, ip2, (n - 1) as nat),
            StepSpec::Fail(..) => true,
            StepSpec::Abort(..) => false,
        }
    }
}

/// What a run from `ip` gives within `n` steps: the value of the program or
/// its runtime error, and the final state.
pub open spec fn run_outcome(code: Seq<Instruction>, names: Seq<Seq<char>>, s: MachineState, ip: int, n: nat) -> (Result<Object, Seq<char>>, MachineState)
    decreases n,
{
    if !(0 <= ip < code.len()) {
        let (v, s2) = finish_spec(s);
        (Ok(v), s2)
    } else if n == 0 {
        (Err(Seq::empty()), s)
    } else {
        match step_spec(code, names, s, ip) {
            StepSpec::Next(s2, ip2) => run_outcome(code, names, s2, ip2, (n - 1) as nat),
            StepSpec::Fail(msg, s2) => (Err(msg), s2),
            StepSpec::Abort(..) => (Err(Seq::empty()), s),
        }
    }
}

/// A run that halts gives the same outcome whatever bound it is given.
pub proof fn lemma_outcome_unique(code: Seq<Instruction>, names: Seq<Seq<char>>, s: MachineState, ip: int, n: nat, m: nat)
    requires
        halts(code, names, s, ip, n),
        halts(code, names, s, ip, m),
    ensures
        run_outcome(code, names, s, ip, n) == run_outcome(code, names, s, ip, m),
    decreases n,
{
    if 0 <= ip < code.len() {
        if let StepSpec::Next(s2, ip2) = step_spec(code, names, s, ip) {
            lemma_outcome_unique(code, names, s2, ip2, (n - 1) as nat, (m - 1) as nat);
        }
    }
}

/// Whether execution from `ip` aborts within `n` steps.
pub open spec fn aborts(code: Seq<Instruction>, names: Seq<Seq<char>>, s: MachineState, ip: int, n: nat) -> bool
    decreases n,
{
    if !(0 <= ip < code.len()) || n == 0 {
        false
    } else {
        match step_spec(code, names, s, ip) {
            StepSpec::Next(s2, ip2) => aborts(code, names, s2, ip2, (n - 1) as nat),
            StepSpec::Fail(..) => false,
            StepSpec::Abort(..) => true,
        }
    }
}

/// Every jump of `code` goes to a later address.
pub open spec fn jumps_forward(code: Seq<Instruction>) -> bool {
    forall|i: int| 0 <= i < code.len() ==> match jump_target(#[trigger] code[i]) {
        Some(t) => i < t,
        None => true,
    }
}

/// In code whose jumps go forward, every step moves to a later address.
proof fn lemma_step_forward(code: Seq<Instruction>, names: Seq<Seq<char>>, s: MachineState, ip: int)
    requires
        jumps_forward(code),
        0 <= ip < code.len(),
    ensures
        step_spec(code, names, s, ip) matches StepSpec::Next(_, ip2) ==> ip < ip2,
{
    assert(match jump_target(code[ip]) { Some(t) => ip < t, None => true });
}

proof fn lemma_forward_ends(code: Seq<Instruction>, names: Seq<Seq<char>>, s: MachineState, ip: int, n: nat)
    requires
        jumps_forward(code),
        0 <= ip,
        n >= code.len() - ip,
    ensures
        halts(code, names, s, ip, n) || aborts(code, names, s, ip, n),
    decreases code.len() - ip,
{
    if ip < code.len() {
        lemma_step_forward(code, names, s, ip);
        if let StepSpec::Next(s2, ip2) = step_spec(code, names, s, ip) {
            if ip2 < code.len() {
                lemma_forward_ends(code, names, s2, ip2, (n - 1) as nat);
            } else {
                assert(halts(code, names, s2, ip2, (n - 1) as nat));
            }
        }
    }
}

/// A program whose jumps all go forward, as those of compiled programs do,
/// always comes to an end: within as many steps as it has instructions, a
/// run from any state leaves the code, stops at a runtime error, or aborts.
pub proof fn law_forward_programs_end(code: Seq<Instruction>, names: Seq<Seq<char>>, s: MachineState)
    requires
        jumps_forward(code),
    ensures
        halts(code, names, s, 0, code.len()) || aborts(code, names, s, 0, code.len()),
{
    lemma_forward_ends(code, names, s, 0, code.len());
}

/// Every compiled program comes to an end: run from any state, within as
/// many steps as it has instructions it leaves the code, stops at a runtime
/// error, or aborts (on an arithmetic overflow).
pub proof fn law_compiled_programs_end(stmts: Seq<Stmt>, names: Seq<Seq<char>>, run_names: Seq<Seq<char>>, s: MachineState)
    requires
        stmts_code(stmts_view(stmts), seq![Seq::<SymbolId>::empty()], false, names, 0).0.len() <= usize::MAX,
    ensures
        ({
            let code = stmts_code(stmts_view(stmts), seq![Seq::<SymbolId>::empty()], false, names, 0).0;
            halts(code, run_names, s, 0, code.len()) || aborts(code, run_names, s, 0, code.len())
        }),
{
    let code = stmts_code(stmts_view(stmts), seq![Seq::<SymbolId>::empty()], false, names, 0).0;
    law_compiled_jumps_go_forward(stmts, names);
    assert forall|i: int| 0 <= i < code.len() implies match jump_target(#[trigger] code[i]) {
        Some(t) => i < t,
        None => true,
    } by {}
    law_forward_programs_end(code, run_names, s);
}

/// A compiled program, run with the interner it was compiled with (or one
/// that has grown since), aborts only on an arithmetic overflow: every
/// global it names is a symbol that the interner resolves.
pub proof fn law_compiled_steps_abort_only_on_overflow(
    stmts: Seq<Stmt>,
    names: Seq<Seq<char>>,
    run_names: Seq<Seq<char>>,
    s: MachineState,
    ip: int,
)
    requires
        stmts_code(stmts_view(stmts), seq![Seq::<SymbolId>::empty()], false, names, 0).2.len() <= usize::MAX,
        run_names.len() >= stmts_code(stmts_view(stmts), seq![Seq::<SymbolId>::empty()], false, names, 0).2.len(),
        0 <= ip < stmts_code(stmts_view(stmts), seq![Seq::<SymbolId>::empty()], false, names, 0).0.len(),
    ensures
        ({
            let code = stmts_code(stmts_view(stmts), seq![Seq::<SymbolId>::empty()], false, names, 0).0;
            step_spec(code, run_names, s, ip) is Abort ==> arith_of(code[ip]) is Some
        }),
{
    let code = stmts_code(stmts_view(stmts), seq![Seq::<SymbolId>::empty()], false, names, 0).0;
    law_compiled_symbols_are_interned(stmts, names);
    assert(match code[ip] {
        Instruction::LoadName(id) => id.0 < run_names.len(),
        Instruction::StoreName(id) => id.0 < run_names.len(),
        _ => true,
    });
}

/// The globals of a table keyed by the symbols' numbers.
pub open spec fn globals_by_symbol(m: Map<usize, Object>) -> Map<SymbolId, Object> {
    Map::new(|k: SymbolId| m.contains_key(k.0), |k: SymbolId| m[k.0])
}

// ---------------------------------------------------------------------------
// The executable machine
// ---------------------------------------------------------------------------

/// An executed step agrees with the specified one: the same next address,
/// error or abort message, and the same state after it.
pub open spec fn outcome_matches(r: StepOutcome, spec: StepSpec, after: MachineState) -> bool {
    match spec {
        StepSpec::Next(s2, ip2) => r matches StepOutcome::Continue(n) && n == ip2 && after == s2,
        StepSpec::Fail(m, s2) => r matches StepOutcome::Error(e) && e@ == m && after == s2,
        StepSpec::Abort(m, s2) => r matches StepOutcome::Abort(e) && e@ == m && after == s2,
    }
}

/// A call frame representing a lexical scope during execution: the local
/// variables in their slots, and the address of the instruction that
/// entered the frame (kept for stack traces and debugging).
///
/// Frames are pushed when entering a block and popped when exiting; the
/// global scope is the bottom-most frame.
#[derive(Debug)]
pub struct CallFrame {
    locals: Vec<Object>,
    _ip_offset: usize,
}

impl CallFrame {
    pub closed spec fn view(&self) -> FrameState {
        FrameState { locals: self.locals@, entered_at: self._ip_offset }
    }

    /// Creates a call frame with `num_locals` slots, all holding `None`.
    pub fn new(ip_offset: usize, num_locals: usize) -> (f: Self)
        ensures
            f.view().locals == Seq::new(num_locals as nat, |i: int| Object::NoneValue),
            f.view().entered_at == ip_offset,
    {
        let mut locals: Vec<Object> = Vec::new();
        let mut i: usize = 0;
        while i < num_locals
            invariant
                i <= num_locals,
                locals@ == Seq::new(i as nat, |k: int| Object::NoneValue),
            decreases num_locals - i,
        {
            locals.push(Object::NoneValue);
            i = i + 1;
            assert(locals@ =~= Seq::new(i as nat, |k: int| Object::NoneValue));
        }
        CallFrame { locals, _ip_offset: ip_offset }
    }

    /// The local variables, by slot.
    pub fn locals(&self) -> (r: &Vec<Object>)
        ensures
            r@ == self.view().locals,
    {
        &self.locals
    }

    /// The address of the instruction that entered the frame.
    pub fn entered_at(&self) -> (r: usize)
        ensures
            r == self.view().entered_at,
    {
        self._ip_offset
    }
}

/// What executing one instruction led to.
#[derive(Debug)]
pub enum StepOutcome {
    /// Execution goes on at this address.
    Continue(usize),
    /// The program stopped with this runtime error.
    Error(String),
    /// The instruction cannot be carried out: the message is the one the
    /// process aborts with (an arithmetic overflow, a symbol that the
    /// interner does not know).
    Abort(String),
}

/// A stack-based virtual machine that executes bytecode instructions.
///
/// Instructions operate on the operand stack, pushing results and popping
/// operands. Local variables live in the slots of the current frame;
/// global variables are found by symbol.
pub struct VM {
    stack: Vec<Object>,
    frames: Vec<CallFrame>,
    /// The global variables, keyed by the number of their symbol.
    globals: HashMap<usize, Object>,
}

impl Default for VM {
    fn default() -> (vm: Self)
        ensures
            vm.wf(),
            vm.state() == VM::initial_state(),
    {
        Self::new()
    }
}

impl VM {
    /// The machine state: stack, frames and globals.
    pub closed spec fn state(&self) -> MachineState {
        MachineState {
            stack: self.stack@,
            frames: self.frames@.map_values(|f: CallFrame| f.view()),
            globals: globals_by_symbol(self.globals@),
        }
    }

    /// The global frame is always there.
    pub closed spec fn wf(&self) -> bool {
        self.frames@.len() >= 1
    }

    /// The state of a new machine: empty stack, one empty global frame
    /// entered at address 0, no globals.
    pub open spec fn initial_state() -> MachineState {
        MachineState {
            stack: Seq::empty(),
            frames: seq![FrameState { locals: Seq::empty(), entered_at: 0 }],
            globals: Map::empty(),
        }
    }

    /// Creates a new virtual machine with an empty stack and a global frame.
    pub fn new() -> (vm: Self)
        ensures
            vm.wf(),
            vm.state() == VM::initial_state(),
    {
        let global = CallFrame::new(0, 0);
        assert(global.view().locals =~= Seq::<Object>::empty());
        let mut frames: Vec<CallFrame> = Vec::new();
        frames.push(global);
        let vm = VM { stack: Vec::new(), frames, globals: HashMap::new() };
        assert(vm.state().frames =~= VM::initial_state().frames);
        assert(vm.state().stack =~= VM::initial_state().stack);
        assert(vm.state().globals =~= VM::initial_state().globals);
        vm
    }

    /// Looks up a global variable.
    fn lookup_global(&self, sym_id: SymbolId) -> (r: Option<Object>)
        ensures
            r == (if self.state().globals.contains_key(sym_id) { Some(self.state().globals[sym_id]) } else { None::<Object> }),
    {
        proof {
            broadcast use vstd::std_specs::hash::group_hash_axioms;
        }
        match self.globals.get(&sym_id.0) {
            Some(v) => Some(*v),
            None => None,
        }
    }

    /// Pushes a value on the operand stack.
    fn push(&mut self, v: Object)
        ensures
            final(self).state() == push_value(old(self).state(), v),
            final(self).frames@ == old(self).frames@,
    {
        self.stack.push(v);
    }

    /// Pops the right operand, then the left one.
    fn pop_operands(&mut self) -> (r: Result<(Object, Object), String>)
        ensures
            final(self).frames@ == old(self).frames@,
            match pop_operands(old(self).state()) {
                Ok((left, right, s2)) => r == Ok::<(Object, Object), String>((left, right)) && final(self).state() == s2,
                Err((msg, s1)) => r matches Err(e) && e@ == msg && final(self).state() == s1,
            },
    {
        let right = match self.stack.pop() {
            Some(v) => v,
            None => return Err(text_of("SystemError: stack underflow (right operand)")),
        };
        let left = match self.stack.pop() {
            Some(v) => v,
            None => return Err(text_of("SystemError: stack underflow (left operand)")),
        };
        Ok((left, right))
    }

    /// The message for a local slot outside the current frame.
    fn slot_error(slot: usize) -> (e: String)
        ensures
            e@ == slot_error_text(slot),
    {
        let mut e = text_of("SystemError: local slot ");
        push_nat_text(&mut e, slot as u64);
        e.append(" out of bounds");
        e
    }

    /// Executes a LOAD_NAME instruction: pushes the value of a global.
    fn execute_load_name(&mut self, sym_id: SymbolId, interner: &Interner, ip: usize) -> (r: StepOutcome)
        requires
            old(self).wf(),
            ip < usize::MAX,
        ensures
            final(self).wf(),
            outcome_matches(r, instruction_step(Instruction::LoadName(sym_id), interner@, old(self).state(), ip as int), final(self).state()),
    {
        match self.lookup_global(sym_id) {
            Some(value) => {
                self.push(value);
                StepOutcome::Continue(ip + 1)
            },
            None => {
                match interner.get(sym_id) {
                    Some(name) => {
                        let mut e = text_of("NameError: name '");
                        e.append(name);
                        e.append("' is not defined");
                        StepOutcome::Error(e)
                    },
                    None => StepOutcome::Abort(text_of("attempted to resolve an invalid SymbolId")),
                }
            },
        }
    }

    /// Executes a STORE_NAME instruction: pops a value from the stack into a
    /// global variable.
    pub fn execute_store_name(&mut self, sym_id: SymbolId, ip: usize) -> (r: StepOutcome)
        requires
            old(self).wf(),
            ip < usize::MAX,
        ensures
            final(self).wf(),
            outcome_matches(r, instruction_step(Instruction::StoreName(sym_id), Seq::empty(), old(self).state(), ip as int), final(self).state()),
    {
        let value = match self.stack.pop() {
            Some(v) => v,
            None => return StepOutcome::Error(text_of("SystemError: stack underflow at STORE_NAME")),
        };
        let ghost g = self.state().globals;
        proof {
            broadcast use vstd::std_specs::hash::group_hash_axioms;
        }
        self.globals.insert(sym_id.0, value);
        assert(self.state().globals =~= g.insert(sym_id, value));
        StepOutcome::Continue(ip + 1)
    }

    /// Executes a LOAD_LOCAL instruction: pushes a slot of the current frame.
    fn execute_load_local(&mut self, slot: usize, ip: usize) -> (r: StepOutcome)
        requires
            old(self).wf(),
            ip < usize::MAX,
        ensures
            final(self).wf(),
            outcome_matches(r, instruction_step(Instruction::LoadLocal(slot), Seq::empty(), old(self).state(), ip as int), final(self).state()),
    {
        let last = self.frames.len() - 1;
        if slot >= self.frames[last].locals.len() {
            return StepOutcome::Error(Self::slot_error(slot));
        }
        let value = self.frames[last].locals[slot];
        self.push(value);
        StepOutcome::Continue(ip + 1)
    }

    /// Executes a STORE_LOCAL instruction: pops a value into a slot of the
    /// current frame.
    fn execute_store_local(&mut self, slot: usize, ip: usize) -> (r: StepOutcome)
        requires
            old(self).wf(),
            ip < usize::MAX,
        ensures
            final(self).wf(),
            outcome_matches(r, instruction_step(Instruction::StoreLocal(slot), Seq::empty(), old(self).state(), ip as int), final(self).state()),
    {
        let value = match self.stack.pop() {
            Some(v) => v,
            None => return StepOutcome::Error(text_of("SystemError: stack underflow at STORE_LOCAL")),
        };
        let last = self.frames.len() - 1;
        if slot >= self.frames[last].locals.len() {
            return StepOutcome::Error(Self::slot_error(slot));
        }
        let ghost before = self.frames@.map_values(|f: CallFrame| f.view());
        let mut frame = self.frames.pop().unwrap();
        frame.locals.set(slot, value);
        self.frames.push(frame);
        proof {
            let f2 = FrameState { locals: before.last().locals.update(slot as int, value), ..before.last() };
            assert(self.frames@.map_values(|f: CallFrame| f.view()) =~= before.update(before.len() - 1, f2));
        }
        StepOutcome::Continue(ip + 1)
    }

    /// The message for an enclosing frame that does not exist.
    fn frame_error(depth: usize) -> (e: String)
        ensures
            e@ == frame_error_text(depth),
    {
        let mut e = text_of("SystemError: enclosing frame ");
        push_nat_text(&mut e, depth as u64);
        e.append(" out of bounds");
        e
    }

    /// Executes a LOAD_ENCLOSING instruction: pushes a slot of the frame
    /// `depth` frames out from the current one.
    fn execute_load_enclosing(&mut self, depth: usize, slot: usize, ip: usize) -> (r: StepOutcome)
        requires
            old(self).wf(),
            ip < usize::MAX,
        ensures
            final(self).wf(),
            outcome_matches(r, instruction_step(Instruction::LoadEnclosing(depth, slot), Seq::empty(), old(self).state(), ip as int), final(self).state()),
    {
        if depth >= self.frames.len() {
            return StepOutcome::Error(Self::frame_error(depth));
        }
        let fi = self.frames.len() - 1 - depth;
        if slot >= self.frames[fi].locals.len() {
            return StepOutcome::Error(Self::slot_error(slot));
        }
        let value = self.frames[fi].locals[slot];
        self.push(value);
        StepOutcome::Continue(ip + 1)
    }

    /// Executes a STORE_ENCLOSING instruction: pops a value into a slot of
    /// the frame `depth` frames out from the current one.
    fn execute_store_enclosing(&mut self, depth: usize, slot: usize, ip: usize) -> (r: StepOutcome)
        requires
            old(self).wf(),
            ip < usize::MAX,
        ensures
            final(self).wf(),
            outcome_matches(r, instruction_step(Instruction::StoreEnclosing(depth, slot), Seq::empty(), old(self).state(), ip as int), final(self).state()),
    {
        let value = match self.stack.pop() {
            Some(v) => v,
            None => return StepOutcome::Error(text_of("SystemError: stack underflow at STORE_ENCLOSING")),
        };
        if depth >= self.frames.len() {
            return StepOutcome::Error(Self::frame_error(depth));
        }
        let fi = self.frames.len() - 1 - depth;
        if slot >= self.frames[fi].locals.len() {
            return StepOutcome::Error(Self::slot_error(slot));
        }
        let ghost before = self.frames@.map_values(|f: CallFrame| f.view());
        let mut frame = self.frames.remove(fi);
        frame.locals.set(slot, value);
        self.frames.insert(fi, frame);
        proof {
            let f2 = FrameState { locals: before[fi as int].locals.update(slot as int, value), ..before[fi as int] };
            assert(self.frames@.map_values(|f: CallFrame| f.view()) =~= before.update(fi as int, f2));
        }
        StepOutcome::Continue(ip + 1)
    }

    /// Executes an ENTER_BLOCK instruction: a new frame with `num_locals`
    /// slots holding `None`.
    fn execute_enter_block(&mut self, num_locals: usize, ip: usize) -> (r: StepOutcome)
        requires
            old(self).wf(),
            ip < usize::MAX,
        ensures
            final(self).wf(),
            outcome_matches(r, instruction_step(Instruction::EnterBlock(num_locals), Seq::empty(), old(self).state(), ip as int), final(self).state()),
    {
        let ghost before = self.frames@.map_values(|f: CallFrame| f.view());
        let frame = CallFrame::new(ip, num_locals);
        self.frames.push(frame);
        assert(self.frames@.map_values(|f: CallFrame| f.view()) =~= before.push(frame.view()));
        StepOutcome::Continue(ip + 1)
    }

    /// Executes an EXIT_BLOCK instruction: pops the current frame; the
    /// global frame cannot be exited.
    fn execute_exit_block(&mut self, ip: usize) -> (r: StepOutcome)
        requires
            old(self).wf(),
            ip < usize::MAX,
        ensures
            final(self).wf(),
            outcome_matches(r, instruction_step(Instruction::ExitBlock, Seq::empty(), old(self).state(), ip as int), final(self).state()),
    {
        if self.frames.len() <= 1 {
            return StepOutcome::Error(text_of("SystemError: cannot exit global frame"));
        }
        let ghost before = self.frames@.map_values(|f: CallFrame| f.view());
        self.frames.pop();
        assert(self.frames@.map_values(|f: CallFrame| f.view()) =~= before.drop_last());
        StepOutcome::Continue(ip + 1)
    }

    /// Executes an arithmetic instruction on the two operands on top of the
    /// stack.
    fn execute_binary_op(&mut self, instruction: Instruction, op: ArithOp, ip: usize) -> (r: StepOutcome)
        requires
            old(self).wf(),
            ip < usize::MAX,
            arith_of(instruction) == Some(op),
        ensures
            final(self).wf(),
            outcome_matches(r, instruction_step(instruction, Seq::empty(), old(self).state(), ip as int), final(self).state()),
    {
        let (left, right) = match self.pop_operands() {
            Ok(operands) => operands,
            Err(e) => return StepOutcome::Error(e),
        };
        if overflows(op, &left, &right) {
            let msg = match op {
                ArithOp::Add => "attempt to add with overflow",
                ArithOp::Sub => "attempt to subtract with overflow",
                ArithOp::Mul => "attempt to multiply with overflow",
                ArithOp::Div => "attempt to divide with overflow",
            };
            return StepOutcome::Abort(text_of(msg));
        }
        match left.arithmetic_op(op, &right) {
            Ok(result) => {
                self.push(result);
                StepOutcome::Continue(ip + 1)
            },
            Err(e) => StepOutcome::Error(e),
        }
    }

    /// Executes a comparison instruction on the two operands on top of the
    /// stack, pushing a boolean.
    fn execute_compare_op(&mut self, instruction: Instruction, op: CompareOp, ip: usize) -> (r: StepOutcome)
        requires
            old(self).wf(),
            ip < usize::MAX,
            arith_of(instruction) is None,
            compare_of(instruction) == Some(op),
        ensures
            final(self).wf(),
            outcome_matches(r, instruction_step(instruction, Seq::empty(), old(self).state(), ip as int), final(self).state()),
    {
        let (left, right) = match self.pop_operands() {
            Ok(operands) => operands,
            Err(e) => return StepOutcome::Error(e),
        };
        match left.compare(op, &right) {
            Ok(result) => {
                self.push(Object::Bool(result));
                StepOutcome::Continue(ip + 1)
            },
            Err(e) => StepOutcome::Error(e),
        }
    }

    /// Executes a JUMP_IF_FALSE instruction: pops a boolean and jumps to
    /// `target` when it is false.
    pub fn execute_jump_if_false(&mut self, target: usize, ip: usize) -> (r: StepOutcome)
        requires
            old(self).wf(),
            ip < usize::MAX,
        ensures
            final(self).wf(),
            outcome_matches(r, instruction_step(Instruction::JumpIfFalse(target), Seq::empty(), old(self).state(), ip as int), final(self).state()),
    {
        let condition = match self.stack.pop() {
            Some(v) => v,
            None => return StepOutcome::Error(text_of("SystemError: stack underflow at JUMP_IF_FALSE")),
        };
        match condition {
            Object::Bool(false) => StepOutcome::Continue(target),
            Object::Bool(true) => StepOutcome::Continue(ip + 1),
            _ => {
                let mut e = text_of("TypeError: condition must be bool, got ");
                e.append(condition.type_label());
                StepOutcome::Error(e)
            },
        }
    }

    /// Executes a single instruction found at address `ip`.
    fn execute_instruction(&mut self, instruction: Instruction, interner: &Interner, ip: usize) -> (r: StepOutcome)
        requires
            old(self).wf(),
            ip < usize::MAX,
        ensures
            final(self).wf(),
            outcome_matches(r, instruction_step(instruction, interner@, old(self).state(), ip as int), final(self).state()),
    {
        match instruction {
            Instruction::LoadConst(value) => {
                self.push(value);
                StepOutcome::Continue(ip + 1)
            },
            Instruction::LoadName(sym_id) => self.execute_load_name(sym_id, interner, ip),
            Instruction::StoreName(sym_id) => self.execute_store_name(sym_id, ip),
            Instruction::LoadLocal(slot) => self.execute_load_local(slot, ip),
            Instruction::StoreLocal(slot) => self.execute_store_local(slot, ip),
            Instruction::LoadEnclosing(depth, slot) => self.execute_load_enclosing(depth, slot, ip),
            Instruction::StoreEnclosing(depth, slot) => self.execute_store_enclosing(depth, slot, ip),
            Instruction::EnterBlock(num_locals) => self.execute_enter_block(num_locals, ip),
            Instruction::ExitBlock => self.execute_exit_block(ip),
            Instruction::Add => self.execute_binary_op(instruction, ArithOp::Add, ip),
            Instruction::Subtract => self.execute_binary_op(instruction, ArithOp::Sub, ip),
            Instruction::Multiply => self.execute_binary_op(instruction, ArithOp::Mul, ip),
            Instruction::Divide => self.execute_binary_op(instruction, ArithOp::Div, ip),
            Instruction::Eq => self.execute_compare_op(instruction, CompareOp::Eq, ip),
            Instruction::NotEq => self.execute_compare_op(instruction, CompareOp::NotEq, ip),
            Instruction::Greater => self.execute_compare_op(instruction, CompareOp::Greater, ip),
            Instruction::GreaterEq => self.execute_compare_op(instruction, CompareOp::GreaterEq, ip),
            Instruction::Less => self.execute_compare_op(instruction, CompareOp::Less, ip),
            Instruction::LessEq => self.execute_compare_op(instruction, CompareOp::LessEq, ip),
            Instruction::Jump(target) => StepOutcome::Continue(target),
            Instruction::JumpIfFalse(target) => self.execute_jump_if_false(target, ip),
        }
    }

    /// Executes the instruction at `ip` and says where execution goes on, or
    /// why it stops.
    pub fn step(&mut self, bytecode: &[Instruction], interner: &Interner, ip: usize) -> (r: StepOutcome)
        requires
            old(self).wf(),
            ip < bytecode@.len(),
        ensures
            final(self).wf(),
            outcome_matches(r, step_spec(bytecode@, interner@, old(self).state(), ip as int), final(self).state()),
    {
        self.execute_instruction(bytecode[ip], interner, ip)
    }

    /// Ends a run: pops the value on top of the stack, or gives `None` when
    /// the stack is empty.
    pub fn finish(&mut self) -> (v: Object)
        requires
            old(self).wf(),
        ensures
            final(self).wf(),
            (v, final(self).state()) == finish_spec(old(self).state()),
    {
        match self.stack.pop() {
            Some(v) => v,
            None => Object::NoneValue,
        }
    }

    /// Executes a program from its first instruction and returns the value
    /// left on top of the stack (`None` if the stack is empty), or the
    /// runtime error that stopped it.
    ///
    /// The instruction pointer advances after each instruction unless a jump
    /// sets it; execution ends when it leaves the code. The run must halt
    /// without an abort (compiled code always halts, see
    /// `law_compiled_programs_end`; an arithmetic overflow aborts).
    ///
    /// The third argument asks for a trace of the machine after each
    /// instruction. Printing it is the driver's part: the command-line
    /// interpreter steps the machine itself with [`VM::step`] and prints
    /// between steps, reaching the outcome that this function gives.
    pub fn run(&mut self, bytecode: &[Instruction], interner: &Interner, _trace: bool) -> (r: Result<Object, String>)
        requires
            old(self).wf(),
            exists|n: nat| halts(bytecode@, interner@, old(self).state(), 0, n),
        ensures
            final(self).wf(),
            forall|n: nat| halts(bytecode@, interner@, old(self).state(), 0, n)
                ==> (text_result(r), final(self).state()) == run_outcome(bytecode@, interner@, old(self).state(), 0, n),
    {
        let ghost code = bytecode@;
        let ghost names = interner@;
        let ghost s0 = self.state();
        let ghost n0: nat = choose|n: nat| halts(code, names, s0, 0, n);
        let ghost mut fuel: nat = n0;
        let mut ip: usize = 0;
        while ip < bytecode.len()
            invariant
                self.wf(),
                code == bytecode@,
                names == interner@,
                halts(code, names, self.state(), ip as int, fuel),
                halts(code, names, s0, 0, n0),
                s0 == old(self).state(),
                run_outcome(code, names, s0, 0, n0) == run_outcome(code, names, self.state(), ip as int, fuel),
            decreases fuel,
        {
            let ghost before = self.state();
            match self.step(bytecode, interner, ip) {
                StepOutcome::Continue(next) => {
                    ip = next;
                    proof { fuel = (fuel - 1) as nat; }
                },
                StepOutcome::Error(e) => {
                    proof {
                        lemma_run_ends(code, names, s0, n0);
                        assert(fuel > 0);
                        assert(step_spec(code, names, before, ip as int) is Fail);
                        assert(run_outcome(code, names, before, ip as int, fuel) == (Err::<Object, Seq<char>>(e@), self.state()));
                    }
                    return Err(e);
                },
                StepOutcome::Abort(e) => {
                    assert(step_spec(code, names, before, ip as int) is Abort);
                    assert(!halts(code, names, before, ip as int, fuel));
                    return Err(e);
                },
            }
        }
        let v = self.finish();
        proof { lemma_run_ends(code, names, s0, n0); }
        Ok(v)
    }

    /// The operand stack, top last.
    pub fn stack(&self) -> (r: &Vec<Object>)
        ensures
            r@ == self.state().stack,
    {
        &self.stack
    }

    /// The frames, the current one last.
    pub fn frames(&self) -> (r: &Vec<CallFrame>)
        ensures
            r@.map_values(|f: CallFrame| f.view()) == self.state().frames,
    {
        &self.frames
    }

    /// The global variables, keyed by the number of their symbol.
    pub fn globals(&self) -> (r: &HashMap<usize, Object>)
        ensures
            globals_by_symbol(r@) == self.state().globals,
    {
        &self.globals
    }
}

/// Whether an arithmetic operation on the operands would leave the `i64`
/// range.
fn overflows(op: ArithOp, left: &Object, right: &Object) -> (b: bool)
    ensures
        b == arith_overflows(op, *left, *right),
{
    match (left, right) {
        (Object::Int(a), Object::Int(b)) => {
            let (a, b) = (*a as i128, *b as i128);
            let v: i128 = match op {
                ArithOp::Add => a + b,
                ArithOp::Sub => a - b,
                ArithOp::Mul => {
                    assert(-0x8000_0000_0000_0000 * 0x8000_0000_0000_0000 <= a * b <= 0x8000_0000_0000_0000 * 0x8000_0000_0000_0000) by (nonlinear_arith)
                        requires
                            -0x8000_0000_0000_0000 <= a <= 0x7fff_ffff_ffff_ffff,
                            -0x8000_0000_0000_0000 <= b <= 0x7fff_ffff_ffff_ffff,
                    ;
                    a * b
                },
                ArithOp::Div => {
                    if b == 0 {
                        return false;
                    }
                    let wa: i128 = if a < 0 { -a } else { a };
                    let wb: i128 = if b < 0 { -b } else { b };
                    let q: i128 = wa / wb;
                    assert(0 <= q <= wa) by (nonlinear_arith)
                        requires
                            wb >= 1,
                            wa >= 0,
                            q == wa / wb,
                    ;
                    if (a < 0) == (b < 0) { q } else { -q }
                },
            };
            !(-0x8000_0000_0000_0000 <= v && v <= 0x7fff_ffff_ffff_ffff)
        },
        _ => false,
    }
}

/// Every run that halts ends with the outcome of the first bound it halts in.
pub proof fn lemma_run_ends(code: Seq<Instruction>, names: Seq<Seq<char>>, s0: MachineState, n0: nat)
    requires
        halts(code, names, s0, 0, n0),
    ensures
        forall|n: nat| halts(code, names, s0, 0, n) ==> run_outcome(code, names, s0, 0, n) == run_outcome(code, names, s0, 0, n0),
{
    assert forall|n: nat| halts(code, names, s0, 0, n) implies run_outcome(code, names, s0, 0, n) == run_outcome(code, names, s0, 0, n0) by {
        lemma_outcome_unique(code, names, s0, 0, n, n0);
    }
}

/// A global reads back what was stored into it: after `StoreName(id)` pops
/// a value, `LoadName(id)` pushes that value again, and the rest of the
/// stack is what it was below the stored value.
pub proof fn law_globals_read_back(id: SymbolId, names: Seq<Seq<char>>, s: MachineState, ip: int)
    requires
        s.stack.len() > 0,
    ensures
        ({
            let v = s.stack.last();
            match instruction_step(Instruction::StoreName(id), names, s, ip) {
                StepSpec::Next(s2, ip2) => {
                    &&& ip2 == ip + 1
                    &&& s2.stack == s.stack.drop_last()
                    &&& instruction_step(Instruction::LoadName(id), names, s2, ip2)
                        == StepSpec::Next(MachineState { stack: s.stack.drop_last().push(v), ..s2 }, ip2 + 1)
                },
                _ => false,
            }
        }),
{
}

/// A local slot of the current frame reads back what was stored into it.
pub proof fn law_locals_read_back(slot: usize, names: Seq<Seq<char>>, s: MachineState, ip: int)
    requires
        s.stack.len() > 0,
        s.frames.len() > 0,
        slot < s.frames.last().locals.len(),
    ensures
        ({
            let v = s.stack.last();
            match instruction_step(Instruction::StoreLocal(slot), names, s, ip) {
                StepSpec::Next(s2, ip2) => {
                    &&& ip2 == ip + 1
                    &&& s2.stack == s.stack.drop_last()
                    &&& instruction_step(Instruction::LoadLocal(slot), names, s2, ip2)
                        == StepSpec::Next(MachineState { stack: s.stack.drop_last().push(v), ..s2 }, ip2 + 1)
                },
                _ => false,
            }
        }),
{
}

} // verus!
