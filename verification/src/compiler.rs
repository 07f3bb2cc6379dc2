//! The compiler: turns statements into stack-machine bytecode.

use vstd::prelude::*;
use crate::object::Object;
use crate::parser::{Expr, Operator, Stmt, StmtV, stmt_view, stmts_view, elifs_view, lemma_stmts_view, lemma_elifs_view};
use crate::symbol::{Interner, SymbolId, intern_result};
use crate::types::Type;
use std::collections::HashSet;

verus! {

/// A bytecode instruction for the virtual machine.
///
/// Instructions are stack-based: they operate on values pushed onto the
/// operand stack and may push results back onto the stack.
#[derive(Debug, Clone, Copy, PartialEq, Eq, Structural)]
pub enum Instruction {
    /// Pushes a constant value onto the stack.
    LoadConst(Object),
    /// Loads a global variable by symbol ID and pushes it onto the stack.
    LoadName(SymbolId),
    /// Pops a value from the stack and stores it in a global variable.
    StoreName(SymbolId),
    /// Loads a local variable by slot index and pushes it onto the stack.
    LoadLocal(usize),
    /// Pops a value from the stack and stores it in a local variable slot.
    StoreLocal(usize),
    /// Loads a local variable of an enclosing block: the frame that many
    /// frames out from the current one, and the slot there.
    LoadEnclosing(usize, usize),
    /// Pops a value from the stack and stores it in a local variable of an
    /// enclosing block (frames out, slot).
    StoreEnclosing(usize, usize),
    /// Enters a new block with the specified number of local variables.
    EnterBlock(usize),
    /// Exits the current block and deallocates its local variables.
    ExitBlock,
    /// Pops two integers, adds them, and pushes the result.
    Add,
    /// Pops two integers, subtracts the second from the first, and pushes the result.
    Subtract,
    /// Pops two integers, multiplies them, and pushes the result.
    Multiply,
    /// Pops two integers, divides the first by the second, and pushes the result.
    Divide,
    /// Pops two values, compares them for equality, and pushes a boolean result.
    Eq,
    /// Pops two values, compares them for inequality, and pushes a boolean result.
    NotEq,
    /// Pops two integers, pushes whether the first is less than the second.
    Less,
    /// Pops two integers, pushes whether the first is greater than the second.
    Greater,
    /// Pops two integers, pushes whether the first is at most the second.
    LessEq,
    /// Pops two integers, pushes whether the first is at least the second.
    GreaterEq,
    /// Unconditionally jumps to the instruction at the given address.
    Jump(usize),
    /// Pops a boolean and jumps to the given address if it is false.
    JumpIfFalse(usize),
}

// ---------------------------------------------------------------------------
// The code of each construct, as functions from syntax to instructions
// ---------------------------------------------------------------------------

/// The instruction for a binary operator.
pub open spec fn operator_instruction(op: Operator) -> Instruction {
    match op {
        Operator::Plus => Instruction::Add,
        Operator::Minus => Instruction::Subtract,
        Operator::Star => Instruction::Multiply,
        Operator::Slash => Instruction::Divide,
        Operator::Eq => Instruction::Eq,
        Operator::NotEq => Instruction::NotEq,
        Operator::Greater => Instruction::Greater,
        Operator::GreaterEq => Instruction::GreaterEq,
        Operator::Less => Instruction::Less,
        Operator::LessEq => Instruction::LessEq,
    }
}

/// The value a declaration without initializer gets: `0` or `False`.
pub open spec fn default_value(t: Type) -> Object {
    match t {
        Type::Int => Object::Int(0),
        Type::Bool => Object::Bool(false),
    }
}

/// The slot of a symbol among the locals of the current scope (its first
/// declaration).
pub open spec fn local_slot(locals: Seq<SymbolId>, id: SymbolId) -> Option<int>
    decreases locals.len(),
{
    if locals.len() == 0 {
        None
    } else {
        match local_slot(locals.drop_last(), id) {
            Some(i) => Some(i),
            None => if locals.last() == id { Some(locals.len() - 1) } else { None },
        }
    }
}

/// Interns a name, giving the new table and the symbol.
pub open spec fn intern_sym(names: Seq<Seq<char>>, s: Seq<char>) -> (Seq<Seq<char>>, SymbolId) {
    let (n, id) = intern_result(names, s);
    (n, SymbolId(id as usize))
}

/// Where a symbol is a local: in the innermost scope (of `locals`, the
/// locals of each open scope, innermost last) that declares it, as the
/// number of scopes out from the current one and its slot there.
pub open spec fn resolve_slot(locals: Seq<Seq<SymbolId>>, id: SymbolId) -> Option<(nat, int)>
    decreases locals.len(),
{
    if locals.len() == 0 {
        None
    } else {
        match local_slot(locals.last(), id) {
            Some(slot) => Some((0, slot)),
            None => match resolve_slot(locals.drop_last(), id) {
                Some((depth, slot)) => Some((depth + 1, slot)),
                None => None,
            },
        }
    }
}

/// The instruction that loads a symbol: from the current frame, from an
/// enclosing block's frame, or from the globals.
pub open spec fn load_instr(locals: Seq<Seq<SymbolId>>, id: SymbolId) -> Instruction {
    match resolve_slot(locals, id) {
        Some((depth, slot)) => if depth == 0 {
            Instruction::LoadLocal(slot as usize)
        } else {
            Instruction::LoadEnclosing(depth as usize, slot as usize)
        },
        None => Instruction::LoadName(id),
    }
}

/// The instruction that stores into a symbol, found as `load_instr` finds it.
pub open spec fn store_instr(locals: Seq<Seq<SymbolId>>, id: SymbolId) -> Instruction {
    match resolve_slot(locals, id) {
        Some((depth, slot)) => if depth == 0 {
            Instruction::StoreLocal(slot as usize)
        } else {
            Instruction::StoreEnclosing(depth as usize, slot as usize)
        },
        None => Instruction::StoreName(id),
    }
}

/// The scopes after declaring a symbol in the innermost one.
pub open spec fn declare_in(locals: Seq<Seq<SymbolId>>, id: SymbolId) -> Seq<Seq<SymbolId>> {
    if locals.len() == 0 { locals } else { locals.update(locals.len() - 1, locals.last().push(id)) }
}

/// The code that evaluates an expression and pushes its value; a name is a
/// local of the innermost open scope that declares it, and a global
/// otherwise.
pub open spec fn expr_code(e: Expr, locals: Seq<Seq<SymbolId>>, names: Seq<Seq<char>>) -> (Seq<Instruction>, Seq<Seq<char>>)
    decreases e,
{
    match e {
        Expr::Number(n) => (seq![Instruction::LoadConst(Object::Int(n))], names),
        Expr::Bool(b) => (seq![Instruction::LoadConst(Object::Bool(b))], names),
        Expr::Name(n) => {
            let (names1, id) = intern_sym(names, n@);
            (seq![load_instr(locals, id)], names1)
        },
        Expr::BinaryOp { left, op, right } => {
            let (l, names1) = expr_code(*left, locals, names);
            let (r, names2) = expr_code(*right, locals, names1);
            (l + r + seq![operator_instruction(op)], names2)
        },
    }
}

/// The numbers of the symbols declared at the top level of a block, with
/// the names interned along the way.
pub open spec fn block_locals(ss: Seq<StmtV>, names: Seq<Seq<char>>) -> (Set<usize>, Seq<Seq<char>>)
    decreases ss.len(),
{
    if ss.len() == 0 {
        (Set::empty(), names)
    } else {
        let (seen, names1) = block_locals(ss.drop_last(), names);
        match ss.last() {
            StmtV::VariableDecl { name, .. } => {
                let (names2, id) = intern_sym(names1, name@);
                (seen.insert(id.0), names2)
            },
            _ => (seen, names1),
        }
    }
}

/// One conditional branch laid out at `base`: its condition, a jump past the
/// branch when the condition is false, its block, and a jump to `end`.
pub open spec fn branch_layout(cond: Seq<Instruction>, block: Seq<Instruction>, base: int, end: int) -> Seq<Instruction> {
    let next = base + cond.len() + block.len() + 2;
    cond + seq![Instruction::JumpIfFalse(next as usize)] + block + seq![Instruction::Jump(end as usize)]
}

/// The code of a statement at address `base`, with the locals of the open
/// scopes after it and the interned names.
pub open spec fn stmt_code(s: StmtV, locals: Seq<Seq<SymbolId>>, in_block: bool, names: Seq<Seq<char>>, base: int) -> (Seq<Instruction>, Seq<Seq<SymbolId>>, Seq<Seq<char>>)
    decreases s, 5int,
{
    match s {
        StmtV::Expr(e) => {
            let (c, names1) = expr_code(e, locals, names);
            (c, locals, names1)
        },
        StmtV::VariableDecl { name, typ, initializer } => {
            let (names1, id) = intern_sym(names, name@);
            let (value, names2) = match initializer {
                Some(init) => expr_code(init, locals, names1),
                None => (seq![Instruction::LoadConst(default_value(typ))], names1),
            };
            if in_block {
                (value.push(Instruction::StoreLocal(locals.last().len() as usize)), declare_in(locals, id), names2)
            } else {
                (value.push(Instruction::StoreName(id)), locals, names2)
            }
        },
        StmtV::Assign { name, value } => {
            let (c, names1) = expr_code(value, locals, names);
            let (names2, id) = intern_sym(names1, name@);
            (c.push(store_instr(locals, id)), locals, names2)
        },
        StmtV::If { .. } => {
            let (c, names1) = if_code(s, locals, names, base, base + if_code(s, locals, names, base, 0).0.len());
            (c, locals, names1)
        },
    }
}

/// An `if` statement laid out at `base`, its branches jumping to `end` when
/// they finish: the if branch, the elif branches, then the else block.
pub open spec fn if_code(s: StmtV, locals: Seq<Seq<SymbolId>>, names: Seq<Seq<char>>, base: int, end: int) -> (Seq<Instruction>, Seq<Seq<char>>)
    decreases s, 4int,
{
    match s {
        StmtV::If { condition, then_branch, elif_branches, else_branch } => {
            let (c, names1) = expr_code(condition, locals, names);
            let (b, names2) = block_code(then_branch, locals, names1, base + c.len() + 1);
            let first = branch_layout(c, b, base, end);
            let (elifs, names3) = elifs_code(elif_branches, locals, names2, base + first.len(), end);
            match else_branch {
                Some(eb) => {
                    let (e, names4) = block_code(eb, locals, names3, base + first.len() + elifs.len());
                    (first + elifs + e, names4)
                },
                None => (first + elifs, names3),
            }
        },
        _ => (Seq::empty(), names),
    }
}

/// The elif branches laid out one after the other from `base`.
pub open spec fn elifs_code(bs: Seq<(Expr, Seq<StmtV>)>, locals: Seq<Seq<SymbolId>>, names: Seq<Seq<char>>, base: int, end: int) -> (Seq<Instruction>, Seq<Seq<char>>)
    decreases bs, 3int,
{
    if bs.len() == 0 {
        (Seq::empty(), names)
    } else {
        let (prev, names1) = elifs_code(bs.drop_last(), locals, names, base, end);
        let at = base + prev.len();
        let (c, names2) = expr_code(bs.last().0, locals, names1);
        let (b, names3) = block_code(bs.last().1, locals, names2, at + c.len() + 1);
        (prev + branch_layout(c, b, at, end), names3)
    }
}

/// A block at `base`, inside the scopes `locals`: it enters a frame with a
/// slot for each distinct symbol declared at its top level, runs its
/// statements in a new innermost scope, and exits the frame.
pub open spec fn block_code(ss: Seq<StmtV>, locals: Seq<Seq<SymbolId>>, names: Seq<Seq<char>>, base: int) -> (Seq<Instruction>, Seq<Seq<char>>)
    decreases ss, 2int,
{
    let (seen, names1) = block_locals(ss, names);
    let (body, _, names2) = stmts_code(ss, locals.push(Seq::empty()), true, names1, base + 1);
    (seq![Instruction::EnterBlock(seen.len() as usize)] + body + seq![Instruction::ExitBlock], names2)
}

/// Statements laid out one after the other from `base`.
pub open spec fn stmts_code(ss: Seq<StmtV>, locals: Seq<Seq<SymbolId>>, in_block: bool, names: Seq<Seq<char>>, base: int) -> (Seq<Instruction>, Seq<Seq<SymbolId>>, Seq<Seq<char>>)
    decreases ss, 1int,
{
    if ss.len() == 0 {
        (Seq::empty(), locals, names)
    } else {
        let (prev, locals1, names1) = stmts_code(ss.drop_last(), locals, in_block, names, base);
        let (c, locals2, names2) = stmt_code(ss.last(), locals1, in_block, names1, base + prev.len());
        (prev + c, locals2, names2)
    }
}

/// The jump that `code[i]` becomes when its target is set to `target`.
pub open spec fn retarget(instr: Instruction, target: usize) -> Instruction {
    match instr {
        Instruction::Jump(_) => Instruction::Jump(target),
        Instruction::JumpIfFalse(_) => Instruction::JumpIfFalse(target),
        other => other,
    }
}

/// Whether an instruction is a jump.
pub open spec fn is_jump(instr: Instruction) -> bool {
    instr is Jump || instr is JumpIfFalse
}

/// `code` with an unconditional jump to `target` at each of the positions `idxs`.
pub open spec fn fill_jumps(code: Seq<Instruction>, idxs: Seq<usize>, target: usize) -> Seq<Instruction>
    decreases idxs.len(),
{
    if idxs.len() == 0 {
        code
    } else {
        fill_jumps(code, idxs.drop_last(), target).update(idxs.last() as int, Instruction::Jump(target))
    }
}

pub proof fn lemma_fill_len(code: Seq<Instruction>, idxs: Seq<usize>, t: usize)
    requires
        forall|i: int| 0 <= i < idxs.len() ==> idxs[i] < code.len(),
    ensures
        fill_jumps(code, idxs, t).len() == code.len(),
    decreases idxs.len(),
{
    if idxs.len() > 0 {
        lemma_fill_len(code, idxs.drop_last(), t);
    }
}

/// Filling jumps in a prefix commutes with appending code after it.
pub proof fn lemma_fill_append(code: Seq<Instruction>, more: Seq<Instruction>, idxs: Seq<usize>, t: usize)
    requires
        forall|i: int| 0 <= i < idxs.len() ==> idxs[i] < code.len(),
    ensures
        fill_jumps(code + more, idxs, t) == fill_jumps(code, idxs, t) + more,
    decreases idxs.len(),
{
    if idxs.len() > 0 {
        lemma_fill_append(code, more, idxs.drop_last(), t);
        lemma_fill_len(code, idxs.drop_last(), t);
        assert(fill_jumps(code + more, idxs, t) =~= fill_jumps(code, idxs, t) + more);
    }
}

/// The elif code's length and names do not depend on where the branches jump.
pub proof fn lemma_elifs_code_end(bs: Seq<(Expr, Seq<StmtV>)>, locals: Seq<Seq<SymbolId>>, names: Seq<Seq<char>>, base: int, e1: int, e2: int)
    ensures
        elifs_code(bs, locals, names, base, e1).0.len() == elifs_code(bs, locals, names, base, e2).0.len(),
        elifs_code(bs, locals, names, base, e1).1 == elifs_code(bs, locals, names, base, e2).1,
    decreases bs.len(),
{
    if bs.len() > 0 {
        lemma_elifs_code_end(bs.drop_last(), locals, names, base, e1, e2);
    }
}

/// The if code's length and names do not depend on where the branches jump.
pub proof fn lemma_if_code_end(s: StmtV, locals: Seq<Seq<SymbolId>>, names: Seq<Seq<char>>, base: int, e1: int, e2: int)
    ensures
        if_code(s, locals, names, base, e1).0.len() == if_code(s, locals, names, base, e2).0.len(),
        if_code(s, locals, names, base, e1).1 == if_code(s, locals, names, base, e2).1,
{
    if let StmtV::If { condition, then_branch, elif_branches, else_branch } = s {
        let (c, names1) = expr_code(condition, locals, names);
        let (b, names2) = block_code(then_branch, locals, names1, base + c.len() + 1);
        let first_len = c.len() + b.len() + 2;
        lemma_elifs_code_end(elif_branches, locals, names2, base + first_len, e1, e2);
        assert(branch_layout(c, b, base, e1).len() == first_len);
        assert(branch_layout(c, b, base, e2).len() == first_len);
    }
}

// ---------------------------------------------------------------------------
// Jumps go forward
// ---------------------------------------------------------------------------

/// The target of a jump instruction.
pub open spec fn jump_target(instr: Instruction) -> Option<usize> {
    match instr {
        Instruction::Jump(t) => Some(t),
        Instruction::JumpIfFalse(t) => Some(t),
        _ => None,
    }
}

/// Every jump of `code`, laid out from address `base`, goes forward: to an
/// address inside the code or just past its end, or else to `end`.
pub open spec fn jumps_within(code: Seq<Instruction>, base: int, end: int) -> bool {
    forall|i: int| #![trigger code[i]] 0 <= i < code.len() ==> match jump_target(code[i]) {
        Some(t) => base + i < t && (t <= base + code.len() || t == end),
        None => true,
    }
}

/// Code without any jump.
pub open spec fn no_jumps(code: Seq<Instruction>) -> bool {
    forall|i: int| #![trigger code[i]] 0 <= i < code.len() ==> jump_target(code[i]) is None
}

proof fn lemma_within_concat(a: Seq<Instruction>, b: Seq<Instruction>, base: int, end: int)
    requires
        jumps_within(a, base, end),
        jumps_within(b, base + a.len(), end),
    ensures
        jumps_within(a + b, base, end),
{
    assert forall|i: int| 0 <= i < (a + b).len() implies match jump_target(#[trigger] (a + b)[i]) {
        Some(t) => base + i < t && (t <= base + (a + b).len() || t == end),
        None => true,
    } by {
        if i >= a.len() {
            assert((a + b)[i] == b[i - a.len()]);
        } else {
            assert((a + b)[i] == a[i]);
        }
    }
}

pub(crate) proof fn lemma_expr_no_jumps(e: Expr, locals: Seq<Seq<SymbolId>>, names: Seq<Seq<char>>)
    ensures
        no_jumps(expr_code(e, locals, names).0),
    decreases e,
{
    if let Expr::BinaryOp { left, op, right } = e {
        let (l, names1) = expr_code(*left, locals, names);
        let (r, names2) = expr_code(*right, locals, names1);
        lemma_expr_no_jumps(*left, locals, names);
        lemma_expr_no_jumps(*right, locals, names1);
        let c = l + r + seq![operator_instruction(op)];
        assert forall|i: int| 0 <= i < c.len() implies jump_target(#[trigger] c[i]) is None by {
            if i < l.len() {
                assert(c[i] == l[i]);
            } else if i < l.len() + r.len() {
                assert(c[i] == r[i - l.len()]);
            }
        }
    }
}

/// A value computed, then an instruction that is no jump.
proof fn lemma_expr_then(c: Seq<Instruction>, last: Instruction, base: int, end: int)
    requires
        no_jumps(c),
        jump_target(last) is None,
    ensures
        jumps_within(c.push(last), base, end),
{
    assert forall|i: int| 0 <= i < c.push(last).len() implies jump_target(#[trigger] c.push(last)[i]) is None by {
        if i < c.len() {
            assert(c.push(last)[i] == c[i]);
        }
    }
}

proof fn lemma_branch_jumps(c: Seq<Instruction>, b: Seq<Instruction>, base: int, end: int)
    requires
        0 <= base,
        no_jumps(c),
        jumps_within(b, base + c.len() + 1, base + c.len() + 1 + b.len()),
        end >= base + c.len() + b.len() + 2,
        end <= usize::MAX,
        base + c.len() + b.len() + 2 <= usize::MAX,
    ensures
        jumps_within(branch_layout(c, b, base, end), base, end),
{
    let next = base + c.len() + b.len() + 2;
    let code = branch_layout(c, b, base, end);
    assert forall|i: int| 0 <= i < code.len() implies match jump_target(#[trigger] code[i]) {
        Some(t) => base + i < t && (t <= base + code.len() || t == end),
        None => true,
    } by {
        if i < c.len() {
            assert(code[i] == c[i]);
        } else if i == c.len() {
            assert(code[i] == Instruction::JumpIfFalse(next as usize));
        } else if i < c.len() + 1 + b.len() {
            assert(code[i] == b[i - c.len() - 1]);
        } else {
            assert(code[i] == Instruction::Jump(end as usize));
        }
    }
}

pub(crate) proof fn lemma_stmt_jumps(s: StmtV, locals: Seq<Seq<SymbolId>>, in_block: bool, names: Seq<Seq<char>>, base: int)
    requires
        0 <= base,
        base + stmt_code(s, locals, in_block, names, base).0.len() <= usize::MAX,
    ensures
        jumps_within(stmt_code(s, locals, in_block, names, base).0, base, base + stmt_code(s, locals, in_block, names, base).0.len()),
    decreases s, 5int,
{
    match s {
        StmtV::Expr(e) => {
            lemma_expr_no_jumps(e, locals, names);
        },
        StmtV::VariableDecl { name, typ, initializer } => {
            let (names1, id) = intern_sym(names, name@);
            let value = match initializer {
                Some(init) => {
                    lemma_expr_no_jumps(init, locals, names1);
                    expr_code(init, locals, names1).0
                },
                None => seq![Instruction::LoadConst(default_value(typ))],
            };
            if in_block {
                lemma_expr_then(value, Instruction::StoreLocal(locals.last().len() as usize), base, base);
            } else {
                lemma_expr_then(value, Instruction::StoreName(id), base, base);
            }
        },
        StmtV::Assign { name, value } => {
            let (c, names1) = expr_code(value, locals, names);
            lemma_expr_no_jumps(value, locals, names);
            let (names2, id) = intern_sym(names1, name@);
            lemma_expr_then(c, store_instr(locals, id), base, base);
        },
        StmtV::If { .. } => {
            let end = base + if_code(s, locals, names, base, 0).0.len();
            lemma_if_code_end(s, locals, names, base, end, 0);
            lemma_if_jumps(s, locals, names, base, end);
        },
    }
}

proof fn lemma_if_jumps(s: StmtV, locals: Seq<Seq<SymbolId>>, names: Seq<Seq<char>>, base: int, end: int)
    requires
        0 <= base,
        end == base + if_code(s, locals, names, base, end).0.len(),
        end <= usize::MAX,
    ensures
        jumps_within(if_code(s, locals, names, base, end).0, base, end),
    decreases s, 4int,
{
    if let StmtV::If { condition, then_branch, elif_branches, else_branch } = s {
        let (c, names1) = expr_code(condition, locals, names);
        let (b, names2) = block_code(then_branch, locals, names1, base + c.len() + 1);
        let first = branch_layout(c, b, base, end);
        let (elifs, names3) = elifs_code(elif_branches, locals, names2, base + first.len(), end);
        lemma_expr_no_jumps(condition, locals, names);
        lemma_block_jumps(then_branch, locals, names1, base + c.len() + 1);
        lemma_branch_jumps(c, b, base, end);
        lemma_elifs_jumps(elif_branches, locals, names2, base + first.len(), end);
        lemma_within_concat(first, elifs, base, end);
        match else_branch {
            Some(eb) => {
                let (e, names4) = block_code(eb, locals, names3, base + first.len() + elifs.len());
                lemma_block_jumps(eb, locals, names3, base + first.len() + elifs.len());
                lemma_within_concat(first + elifs, e, base, end);
            },
            None => {},
        }
    }
}

proof fn lemma_elifs_jumps(bs: Seq<(Expr, Seq<StmtV>)>, locals: Seq<Seq<SymbolId>>, names: Seq<Seq<char>>, base: int, end: int)
    requires
        0 <= base,
        end >= base + elifs_code(bs, locals, names, base, end).0.len(),
        end <= usize::MAX,
    ensures
        jumps_within(elifs_code(bs, locals, names, base, end).0, base, end),
    decreases bs, 3int,
{
    if bs.len() > 0 {
        let (prev, names1) = elifs_code(bs.drop_last(), locals, names, base, end);
        let at = base + prev.len();
        let (c, names2) = expr_code(bs.last().0, locals, names1);
        let (b, names3) = block_code(bs.last().1, locals, names2, at + c.len() + 1);
        lemma_elifs_jumps(bs.drop_last(), locals, names, base, end);
        lemma_expr_no_jumps(bs.last().0, locals, names1);
        lemma_block_jumps(bs.last().1, locals, names2, at + c.len() + 1);
        lemma_branch_jumps(c, b, at, end);
        lemma_within_concat(prev, branch_layout(c, b, at, end), base, end);
    }
}

proof fn lemma_block_jumps(ss: Seq<StmtV>, locals: Seq<Seq<SymbolId>>, names: Seq<Seq<char>>, base: int)
    requires
        0 <= base,
        base + block_code(ss, locals, names, base).0.len() <= usize::MAX,
    ensures
        jumps_within(block_code(ss, locals, names, base).0, base, base + block_code(ss, locals, names, base).0.len()),
    decreases ss, 2int,
{
    let (seen, names1) = block_locals(ss, names);
    let (body, _, names2) = stmts_code(ss, locals.push(Seq::empty()), true, names1, base + 1);
    lemma_stmts_jumps(ss, locals.push(Seq::empty()), true, names1, base + 1);
    let enter = seq![Instruction::EnterBlock(seen.len() as usize)];
    let exit = seq![Instruction::ExitBlock];
    let total = base + 1 + body.len() + 1;
    assert(jumps_within(enter, base, total));
    assert(jumps_within(body, base + 1, total));
    lemma_within_concat(enter, body, base, total);
    assert(jumps_within(exit, base + 1 + body.len(), total));
    lemma_within_concat(enter + body, exit, base, total);
}

proof fn lemma_stmts_jumps(ss: Seq<StmtV>, locals: Seq<Seq<SymbolId>>, in_block: bool, names: Seq<Seq<char>>, base: int)
    requires
        0 <= base,
        base + stmts_code(ss, locals, in_block, names, base).0.len() <= usize::MAX,
    ensures
        jumps_within(stmts_code(ss, locals, in_block, names, base).0, base, base + stmts_code(ss, locals, in_block, names, base).0.len()),
    decreases ss, 1int,
{
    if ss.len() > 0 {
        let (prev, locals1, names1) = stmts_code(ss.drop_last(), locals, in_block, names, base);
        let (c, locals2, names2) = stmt_code(ss.last(), locals1, in_block, names1, base + prev.len());
        let total = base + prev.len() + c.len();
        lemma_stmts_jumps(ss.drop_last(), locals, in_block, names, base);
        lemma_stmt_jumps(ss.last(), locals1, in_block, names1, base + prev.len());
        assert(jumps_within(prev, base, total));
        assert(jumps_within(c, base + prev.len(), total));
        lemma_within_concat(prev, c, base, total);
    }
}

/// Every jump of a compiled program goes forward, to an instruction after
/// it or just past the end of the program: execution never returns to an
/// instruction it has passed.
pub proof fn law_compiled_jumps_go_forward(stmts: Seq<Stmt>, names: Seq<Seq<char>>)
    requires
        stmts_code(stmts_view(stmts), seq![Seq::<SymbolId>::empty()], false, names, 0).0.len() <= usize::MAX,
    ensures
        ({
            let code = stmts_code(stmts_view(stmts), seq![Seq::<SymbolId>::empty()], false, names, 0).0;
            forall|i: int| 0 <= i < code.len() ==> match jump_target(#[trigger] code[i]) {
                Some(t) => i < t <= code.len(),
                None => true,
            }
        }),
{
    lemma_stmts_jumps(stmts_view(stmts), seq![Seq::<SymbolId>::empty()], false, names, 0);
}

// ---------------------------------------------------------------------------
// Globals are symbols of the interner
// ---------------------------------------------------------------------------

/// Every global that `code` loads or stores is a symbol below `n`.
pub open spec fn symbols_below(code: Seq<Instruction>, n: nat) -> bool {
    forall|i: int| #![trigger code[i]] 0 <= i < code.len() ==> match code[i] {
        Instruction::LoadName(id) => id.0 < n,
        Instruction::StoreName(id) => id.0 < n,
        _ => true,
    }
}

proof fn lemma_symbols_concat(a: Seq<Instruction>, b: Seq<Instruction>, n: nat)
    requires
        symbols_below(a, n),
        symbols_below(b, n),
    ensures
        symbols_below(a + b, n),
{
    assert forall|i: int| 0 <= i < (a + b).len() implies match #[trigger] (a + b)[i] {
        Instruction::LoadName(id) => id.0 < n,
        Instruction::StoreName(id) => id.0 < n,
        _ => true,
    } by {
        if i < a.len() {
            assert((a + b)[i] == a[i]);
        } else {
            assert((a + b)[i] == b[i - a.len()]);
        }
    }
}

proof fn lemma_intern_sym(names: Seq<Seq<char>>, s: Seq<char>)
    ensures
        intern_sym(names, s).0.len() >= names.len(),
        intern_sym(names, s).0.len() <= usize::MAX ==> intern_sym(names, s).1.0 < intern_sym(names, s).0.len(),
{
    crate::symbol::law_intern_then_resolve(names, s);
}

proof fn lemma_expr_symbols(e: Expr, locals: Seq<Seq<SymbolId>>, names: Seq<Seq<char>>)
    ensures
        expr_code(e, locals, names).1.len() >= names.len(),
        expr_code(e, locals, names).1.len() <= usize::MAX
            ==> symbols_below(expr_code(e, locals, names).0, expr_code(e, locals, names).1.len()),
    decreases e,
{
    match e {
        Expr::Name(n) => {
            lemma_intern_sym(names, n@);
        },
        Expr::BinaryOp { left, op, right } => {
            let (l, names1) = expr_code(*left, locals, names);
            let (r, names2) = expr_code(*right, locals, names1);
            lemma_expr_symbols(*left, locals, names);
            lemma_expr_symbols(*right, locals, names1);
            if names2.len() <= usize::MAX {
                lemma_symbols_concat(l, r, names2.len());
                lemma_symbols_concat(l + r, seq![operator_instruction(op)], names2.len());
            }
        },
        _ => {},
    }
}

proof fn lemma_block_locals_grow(ss: Seq<StmtV>, names: Seq<Seq<char>>)
    ensures
        block_locals(ss, names).1.len() >= names.len(),
    decreases ss.len(),
{
    if ss.len() > 0 {
        lemma_block_locals_grow(ss.drop_last(), names);
        if let StmtV::VariableDecl { name, .. } = ss.last() {
            lemma_intern_sym(block_locals(ss.drop_last(), names).1, name@);
        }
    }
}

proof fn lemma_branch_symbols(c: Seq<Instruction>, b: Seq<Instruction>, base: int, end: int, n: nat)
    requires
        symbols_below(c, n),
        symbols_below(b, n),
    ensures
        symbols_below(branch_layout(c, b, base, end), n),
{
    let next = base + c.len() + b.len() + 2;
    lemma_symbols_concat(c, seq![Instruction::JumpIfFalse(next as usize)], n);
    lemma_symbols_concat(c + seq![Instruction::JumpIfFalse(next as usize)], b, n);
    lemma_symbols_concat(c + seq![Instruction::JumpIfFalse(next as usize)] + b, seq![Instruction::Jump(end as usize)], n);
}

proof fn lemma_stmt_symbols(s: StmtV, locals: Seq<Seq<SymbolId>>, in_block: bool, names: Seq<Seq<char>>, base: int)
    ensures
        stmt_code(s, locals, in_block, names, base).2.len() >= names.len(),
        stmt_code(s, locals, in_block, names, base).2.len() <= usize::MAX
            ==> symbols_below(stmt_code(s, locals, in_block, names, base).0, stmt_code(s, locals, in_block, names, base).2.len()),
    decreases s, 5int,
{
    match s {
        StmtV::Expr(e) => {
            lemma_expr_symbols(e, locals, names);
        },
        StmtV::VariableDecl { name, typ, initializer } => {
            let (names1, id) = intern_sym(names, name@);
            lemma_intern_sym(names, name@);
            let (value, names2) = match initializer {
                Some(init) => {
                    lemma_expr_symbols(init, locals, names1);
                    expr_code(init, locals, names1)
                },
                None => (seq![Instruction::LoadConst(default_value(typ))], names1),
            };
            if names2.len() <= usize::MAX {
                let last = if in_block { Instruction::StoreLocal(locals.last().len() as usize) } else { Instruction::StoreName(id) };
                lemma_symbols_concat(value, seq![last], names2.len());
                assert(value.push(last) =~= value + seq![last]);
            }
        },
        StmtV::Assign { name, value } => {
            let (c, names1) = expr_code(value, locals, names);
            lemma_expr_symbols(value, locals, names);
            let (names2, id) = intern_sym(names1, name@);
            lemma_intern_sym(names1, name@);
            if names2.len() <= usize::MAX {
                let last = store_instr(locals, id);
                lemma_symbols_concat(c, seq![last], names2.len());
                assert(c.push(last) =~= c + seq![last]);
            }
        },
        StmtV::If { .. } => {
            let end = base + if_code(s, locals, names, base, 0).0.len();
            lemma_if_symbols(s, locals, names, base, end);
        },
    }
}

proof fn lemma_if_symbols(s: StmtV, locals: Seq<Seq<SymbolId>>, names: Seq<Seq<char>>, base: int, end: int)
    ensures
        if_code(s, locals, names, base, end).1.len() >= names.len(),
        if_code(s, locals, names, base, end).1.len() <= usize::MAX
            ==> symbols_below(if_code(s, locals, names, base, end).0, if_code(s, locals, names, base, end).1.len()),
    decreases s, 4int,
{
    if let StmtV::If { condition, then_branch, elif_branches, else_branch } = s {
        let (c, names1) = expr_code(condition, locals, names);
        let (b, names2) = block_code(then_branch, locals, names1, base + c.len() + 1);
        let first = branch_layout(c, b, base, end);
        let (elifs, names3) = elifs_code(elif_branches, locals, names2, base + first.len(), end);
        lemma_expr_symbols(condition, locals, names);
        lemma_block_symbols(then_branch, locals, names1, base + c.len() + 1);
        lemma_elifs_symbols(elif_branches, locals, names2, base + first.len(), end);
        let last = if_code(s, locals, names, base, end).1;
        match else_branch {
            Some(eb) => {
                lemma_block_symbols(eb, locals, names3, base + first.len() + elifs.len());
            },
            None => {},
        }
        if last.len() <= usize::MAX {
            let n = last.len();
            lemma_branch_symbols(c, b, base, end, n);
            lemma_symbols_concat(first, elifs, n);
            match else_branch {
                Some(eb) => {
                    let (e, names4) = block_code(eb, locals, names3, base + first.len() + elifs.len());
                    lemma_symbols_concat(first + elifs, e, n);
                },
                None => {},
            }
        }
    }
}

proof fn lemma_elifs_symbols(bs: Seq<(Expr, Seq<StmtV>)>, locals: Seq<Seq<SymbolId>>, names: Seq<Seq<char>>, base: int, end: int)
    ensures
        elifs_code(bs, locals, names, base, end).1.len() >= names.len(),
        elifs_code(bs, locals, names, base, end).1.len() <= usize::MAX
            ==> symbols_below(elifs_code(bs, locals, names, base, end).0, elifs_code(bs, locals, names, base, end).1.len()),
    decreases bs, 3int,
{
    if bs.len() > 0 {
        let (prev, names1) = elifs_code(bs.drop_last(), locals, names, base, end);
        let at = base + prev.len();
        let (c, names2) = expr_code(bs.last().0, locals, names1);
        let (b, names3) = block_code(bs.last().1, locals, names2, at + c.len() + 1);
        lemma_elifs_symbols(bs.drop_last(), locals, names, base, end);
        lemma_expr_symbols(bs.last().0, locals, names1);
        lemma_block_symbols(bs.last().1, locals, names2, at + c.len() + 1);
        if names3.len() <= usize::MAX {
            lemma_branch_symbols(c, b, at, end, names3.len());
            lemma_symbols_concat(prev, branch_layout(c, b, at, end), names3.len());
        }
    }
}

proof fn lemma_block_symbols(ss: Seq<StmtV>, locals: Seq<Seq<SymbolId>>, names: Seq<Seq<char>>, base: int)
    ensures
        block_code(ss, locals, names, base).1.len() >= names.len(),
        block_code(ss, locals, names, base).1.len() <= usize::MAX
            ==> symbols_below(block_code(ss, locals, names, base).0, block_code(ss, locals, names, base).1.len()),
    decreases ss, 2int,
{
    let (seen, names1) = block_locals(ss, names);
    let (body, _, names2) = stmts_code(ss, locals.push(Seq::empty()), true, names1, base + 1);
    lemma_block_locals_grow(ss, names);
    lemma_stmts_symbols(ss, locals.push(Seq::empty()), true, names1, base + 1);
    if names2.len() <= usize::MAX {
        let enter = seq![Instruction::EnterBlock(seen.len() as usize)];
        lemma_symbols_concat(enter, body, names2.len());
        lemma_symbols_concat(enter + body, seq![Instruction::ExitBlock], names2.len());
    }
}

proof fn lemma_stmts_symbols(ss: Seq<StmtV>, locals: Seq<Seq<SymbolId>>, in_block: bool, names: Seq<Seq<char>>, base: int)
    ensures
        stmts_code(ss, locals, in_block, names, base).2.len() >= names.len(),
        stmts_code(ss, locals, in_block, names, base).2.len() <= usize::MAX
            ==> symbols_below(stmts_code(ss, locals, in_block, names, base).0, stmts_code(ss, locals, in_block, names, base).2.len()),
    decreases ss, 1int,
{
    if ss.len() > 0 {
        let (prev, locals1, names1) = stmts_code(ss.drop_last(), locals, in_block, names, base);
        let (c, locals2, names2) = stmt_code(ss.last(), locals1, in_block, names1, base + prev.len());
        lemma_stmts_symbols(ss.drop_last(), locals, in_block, names, base);
        lemma_stmt_symbols(ss.last(), locals1, in_block, names1, base + prev.len());
        if names2.len() <= usize::MAX {
            lemma_symbols_concat(prev, c, names2.len());
        }
    } else {
        assert(symbols_below(Seq::<Instruction>::empty(), names.len()));
    }
}

/// Every global that a compiled program loads or stores is a symbol of
/// the interner it was compiled with, so running it never meets a symbol
/// that the interner cannot resolve.
pub proof fn law_compiled_symbols_are_interned(stmts: Seq<Stmt>, names: Seq<Seq<char>>)
    requires
        stmts_code(stmts_view(stmts), seq![Seq::<SymbolId>::empty()], false, names, 0).2.len() <= usize::MAX,
    ensures
        ({
            let (code, _, names2) = stmts_code(stmts_view(stmts), seq![Seq::<SymbolId>::empty()], false, names, 0);
            forall|i: int| 0 <= i < code.len() ==> match #[trigger] code[i] {
                Instruction::LoadName(id) => id.0 < names2.len(),
                Instruction::StoreName(id) => id.0 < names2.len(),
                _ => true,
            }
        }),
{
    lemma_stmts_symbols(stmts_view(stmts), seq![Seq::<SymbolId>::empty()], false, names, 0);
}

// ---------------------------------------------------------------------------
// The executable compiler
// ---------------------------------------------------------------------------

/// A lexical scope during compilation: the symbols of its local variables
/// in declaration order; the position of a symbol is its slot.
pub struct CompilerScope {
    locals: Vec<SymbolId>,
}

/// A compiler that turns statements into bytecode.
///
/// Variables declared at the top level are globals (`LoadName` /
/// `StoreName`); variables declared inside blocks are locals of the block
/// (`LoadLocal` / `StoreLocal`).
pub struct Compiler {
    scopes: Vec<CompilerScope>,
    code: Vec<Instruction>,
}

impl Default for Compiler {
    fn default() -> (c: Self)
        ensures
            c.wf(),
            c.code_seq() == Seq::<Instruction>::empty(),
            c.locals() == seq![Seq::<SymbolId>::empty()],
            c.depth() == 1,
    {
        Self::new()
    }
}

impl Compiler {
    /// The scopes open, the current one last.
    pub closed spec fn scope_list(&self) -> Seq<CompilerScope> {
        self.scopes@
    }

    /// The instructions emitted so far.
    pub closed spec fn code_seq(&self) -> Seq<Instruction> {
        self.code@
    }

    /// The locals of each open scope, the current one last.
    pub closed spec fn locals(&self) -> Seq<Seq<SymbolId>> {
        self.scopes@.map_values(|s: CompilerScope| s.locals@)
    }

    /// The number of open scopes (1 at the top level).
    pub closed spec fn depth(&self) -> nat {
        self.scopes@.len()
    }

    /// There is always the global scope.
    pub closed spec fn wf(&self) -> bool {
        self.scopes@.len() >= 1
    }

    /// Creates a new compiler with an empty global scope.
    pub fn new() -> (c: Self)
        ensures
            c.wf(),
            c.code_seq() == Seq::<Instruction>::empty(),
            c.locals() == seq![Seq::<SymbolId>::empty()],
            c.depth() == 1,
    {
        let c = Self { scopes: vec![CompilerScope { locals: Vec::new() }], code: Vec::new() };
        assert(c.locals() =~= seq![Seq::<SymbolId>::empty()]);
        c
    }

    /// Compiles a program, consuming the compiler, and returns its bytecode:
    /// the statements one after the other, appended to what was emitted
    /// before.
    pub fn compile(self, stmts: &[Stmt], interner: &mut Interner) -> (code: Vec<Instruction>)
        requires
            self.wf(),
        ensures
            code@ == self.code_seq() + stmts_code(stmts_view(stmts@), self.locals(), self.depth() > 1, old(interner)@, self.code_seq().len() as int).0,
            final(interner)@ == stmts_code(stmts_view(stmts@), self.locals(), self.depth() > 1, old(interner)@, self.code_seq().len() as int).2,
    {
        let mut this = self;
        let ghost ss = stmts_view(stmts@);
        let ghost c0 = this.code@;
        let ghost locals0 = this.locals();
        let ghost in_block = this.depth() > 1;
        let ghost names0 = interner@;
        let ghost scopes0 = this.scopes@;
        proof { lemma_stmts_view(stmts@); }
        let mut i: usize = 0;
        assert(ss.take(0) =~= Seq::<StmtV>::empty());
        assert(this.code@ =~= c0 + stmts_code(ss.take(0), locals0, in_block, names0, c0.len() as int).0);
        while i < stmts.len()
            invariant
                this.wf(),
                i <= stmts@.len(),
                ss == stmts_view(stmts@),
                ss.len() == stmts@.len(),
                forall|j: int| 0 <= j < stmts@.len() ==> #[trigger] ss[j] == stmt_view(stmts@[j]),
                this.scopes@.drop_last() == scopes0.drop_last(),
                this.scopes@.len() == scopes0.len(),
                in_block == (scopes0.len() > 1),
                this.code@ == c0 + stmts_code(ss.take(i as int), locals0, in_block, names0, c0.len() as int).0,
                this.locals() == stmts_code(ss.take(i as int), locals0, in_block, names0, c0.len() as int).1,
                interner@ == stmts_code(ss.take(i as int), locals0, in_block, names0, c0.len() as int).2,
            decreases stmts@.len() - i,
        {
            assert(ss.take(i + 1).drop_last() =~= ss.take(i as int));
            assert(ss.take(i + 1).last() == ss[i as int]);
            this.compile_stmt(&stmts[i], interner);
            i = i + 1;
        }
        assert(ss.take(i as int) =~= ss);
        this.code
    }

    /// Emits an instruction to the bytecode stream.
    fn emit(&mut self, instruction: Instruction)
        ensures
            final(self).code@ == old(self).code@.push(instruction),
            final(self).scopes@ == old(self).scopes@,
    {
        self.code.push(instruction);
    }

    /// The address of the next instruction to be emitted.
    fn current_address(&self) -> (a: usize)
        ensures
            a == self.code@.len(),
    {
        self.code.len()
    }

    /// Emits a jump whose target is patched later; returns its index.
    fn emit_jump_placeholder(&mut self, instruction: Instruction) -> (idx: usize)
        ensures
            final(self).code@ == old(self).code@.push(instruction),
            final(self).scopes@ == old(self).scopes@,
            idx == old(self).code@.len(),
    {
        let idx = self.code.len();
        self.code.push(instruction);
        idx
    }

    /// Sets the target of the jump at `idx`.
    fn patch_jump(&mut self, idx: usize, target: usize)
        requires
            idx < old(self).code@.len(),
            is_jump(old(self).code@[idx as int]),
        ensures
            final(self).code@ == old(self).code@.update(idx as int, retarget(old(self).code@[idx as int], target)),
            final(self).scopes@ == old(self).scopes@,
    {
        let patched = match self.code[idx] {
            Instruction::Jump(_) => Instruction::Jump(target),
            _ => Instruction::JumpIfFalse(target),
        };
        self.code.set(idx, patched);
    }

    /// Enters a new nested scope.
    fn enter_scope(&mut self)
        ensures
            final(self).scopes@.drop_last() == old(self).scopes@,
            final(self).scopes@.len() == old(self).scopes@.len() + 1,
            final(self).locals() == old(self).locals().push(Seq::<SymbolId>::empty()),
            final(self).code@ == old(self).code@,
    {
        self.scopes.push(CompilerScope { locals: Vec::new() });
        assert(self.scopes@.drop_last() =~= old(self).scopes@);
        assert(self.locals() =~= old(self).locals().push(Seq::<SymbolId>::empty()));
    }

    /// Exits the current scope and returns to the parent scope.
    fn exit_scope(&mut self)
        requires
            old(self).scopes@.len() >= 1,
        ensures
            final(self).scopes@ == old(self).scopes@.drop_last(),
            final(self).code@ == old(self).code@,
    {
        self.scopes.pop();
        assert(self.scopes@ =~= old(self).scopes@.drop_last());
    }

    /// Declares a local variable in the current scope and returns its slot.
    fn declare_local(&mut self, sym_id: SymbolId) -> (slot: usize)
        requires
            old(self).wf(),
        ensures
            final(self).wf(),
            slot == old(self).locals().last().len(),
            final(self).locals() == declare_in(old(self).locals(), sym_id),
            final(self).scopes@.drop_last() == old(self).scopes@.drop_last(),
            final(self).scopes@.len() == old(self).scopes@.len(),
            final(self).code@ == old(self).code@,
    {
        let ghost before = self.scopes@;
        let mut scope = self.scopes.pop().unwrap();
        let slot = scope.locals.len();
        scope.locals.push(sym_id);
        self.scopes.push(scope);
        assert(self.scopes@.drop_last() =~= before.drop_last());
        assert(self.locals() =~= declare_in(old(self).locals(), sym_id));
        slot
    }

    /// Where a symbol is a local: in the innermost open scope that declares
    /// it, as the number of scopes out from the current one and the slot.
    fn resolve_local(&self, sym_id: SymbolId) -> (r: Option<(usize, usize)>)
        requires
            self.wf(),
        ensures
            match resolve_slot(self.locals(), sym_id) {
                Some((d, k)) => r matches Some((d2, k2)) && d2 == d && k2 == k,
                None => r is None,
            },
    {
        let ghost ls = self.locals();
        let n = self.scopes.len();
        let mut d: usize = 0;
        assert(ls.take(n as int) =~= ls);
        while d < n
            invariant
                n == self.scopes@.len(),
                ls == self.locals(),
                d <= n,
                resolve_slot(ls, sym_id) == shift_slot(resolve_slot(ls.take(n - d), sym_id), d as nat),
            decreases n - d,
        {
            let ghost pre = ls.take(n - d);
            assert(pre.drop_last() =~= ls.take(n - d - 1));
            assert(pre.last() == self.scopes@[n - 1 - d].locals@);
            match find_slot(&self.scopes[n - 1 - d].locals, sym_id) {
                Some(slot) => {
                    assert(local_slot(pre.last(), sym_id) == Some(slot as int));
                    assert(resolve_slot(pre, sym_id) == Some((0nat, slot as int)));
                    assert(shift_slot(resolve_slot(pre, sym_id), d as nat) == Some((d as nat, slot as int)));
                    return Some((d, slot));
                },
                None => {},
            }
            d = d + 1;
        }
        assert(ls.take(0) =~= Seq::<Seq<SymbolId>>::empty());
        None
    }

    /// Whether the compiler is inside a nested block.
    fn is_in_block(&self) -> (r: bool)
        ensures
            r == (self.depth() > 1),
    {
        self.scopes.len() > 1
    }

    /// Compiles an expression, pushing its result onto the stack.
    pub fn compile_expr(&mut self, expr: &Expr, interner: &mut Interner)
        requires
            old(self).wf(),
        ensures
            final(self).scope_list() == old(self).scope_list(),
            final(self).code_seq() == old(self).code_seq() + expr_code(*expr, old(self).locals(), old(interner)@).0,
            final(interner)@ == expr_code(*expr, old(self).locals(), old(interner)@).1,
        decreases expr,
    {
        match expr {
            Expr::Number(n) => {
                self.emit(Instruction::LoadConst(Object::Int(*n)));
            },
            Expr::Bool(b) => {
                self.emit(Instruction::LoadConst(Object::Bool(*b)));
            },
            Expr::Name(name) => {
                let sym_id = interner.intern(name.as_str());
                match self.resolve_local(sym_id) {
                    Some((depth, slot)) => {
                        if depth == 0 {
                            self.emit(Instruction::LoadLocal(slot));
                        } else {
                            self.emit(Instruction::LoadEnclosing(depth, slot));
                        }
                    },
                    None => self.emit(Instruction::LoadName(sym_id)),
                }
            },
            Expr::BinaryOp { left, op, right } => {
                let ghost c0 = self.code@;
                self.compile_expr(left, interner);
                self.compile_expr(right, interner);
                match op {
                    Operator::Plus => self.emit(Instruction::Add),
                    Operator::Minus => self.emit(Instruction::Subtract),
                    Operator::Star => self.emit(Instruction::Multiply),
                    Operator::Slash => self.emit(Instruction::Divide),
                    Operator::Eq => self.emit(Instruction::Eq),
                    Operator::NotEq => self.emit(Instruction::NotEq),
                    Operator::Greater => self.emit(Instruction::Greater),
                    Operator::GreaterEq => self.emit(Instruction::GreaterEq),
                    Operator::Less => self.emit(Instruction::Less),
                    Operator::LessEq => self.emit(Instruction::LessEq),
                }
                proof {
                    let (l, n1) = expr_code(**left, old(self).locals(), old(interner)@);
                    let (r, n2) = expr_code(**right, old(self).locals(), n1);
                    assert(self.code@ =~= c0 + (l + r + seq![operator_instruction(*op)]));
                }
            },
        }
    }

    /// Counts the distinct symbols declared at the top level of a block,
    /// interning their names.
    fn count_block_locals(&self, stmts: &Vec<Stmt>, interner: &mut Interner) -> (n: usize)
        ensures
            n == block_locals(stmts_view(stmts@), old(interner)@).0.len(),
            final(interner)@ == block_locals(stmts_view(stmts@), old(interner)@).1,
    {
        let ghost ss = stmts_view(stmts@);
        proof { lemma_stmts_view(stmts@); }
        let mut seen: HashSet<usize> = HashSet::new();
        let mut i: usize = 0;
        assert(ss.take(0) =~= Seq::<StmtV>::empty());
        proof {
            broadcast use vstd::std_specs::hash::group_hash_axioms;
        }
        while i < stmts.len()
            invariant
                i <= stmts@.len(),
                ss == stmts_view(stmts@),
                ss.len() == stmts@.len(),
                forall|j: int| 0 <= j < stmts@.len() ==> #[trigger] ss[j] == stmt_view(stmts@[j]),
                (seen@, interner@) == block_locals(ss.take(i as int), old(interner)@),
                seen@.finite(),
                seen@.len() <= i,
            decreases stmts@.len() - i,
        {
            assert(ss.take(i + 1).drop_last() =~= ss.take(i as int));
            assert(ss.take(i + 1).last() == ss[i as int]);
            if let Stmt::VariableDecl { name, .. } = &stmts[i] {
                let sym_id = interner.intern(name.as_str());
                seen.insert(sym_id.0);
            }
            i = i + 1;
        }
        assert(ss.take(i as int) =~= ss);
        seen.len()
    }

    /// Compiles a block: a frame for its locals, its statements in a new
    /// scope, and the frame's exit.
    fn compile_block(&mut self, stmts: &Vec<Stmt>, interner: &mut Interner)
        requires
            old(self).wf(),
        ensures
            final(self).scopes@ == old(self).scopes@,
            final(self).code@ == old(self).code@ + block_code(stmts_view(stmts@), old(self).locals(), old(interner)@, old(self).code@.len() as int).0,
            final(interner)@ == block_code(stmts_view(stmts@), old(self).locals(), old(interner)@, old(self).code@.len() as int).1,
        decreases stmts, 2int,
    {
        let ghost ss = stmts_view(stmts@);
        let ghost c0 = self.code@;
        let ghost base = c0.len() as int;
        let ghost inner = self.locals().push(Seq::<SymbolId>::empty());
        proof { lemma_stmts_view(stmts@); }
        let num_locals = self.count_block_locals(stmts, interner);
        self.emit(Instruction::EnterBlock(num_locals));
        self.enter_scope();
        let ghost names1 = interner@;
        let ghost c1 = self.code@;
        let mut i: usize = 0;
        assert(ss.take(0) =~= Seq::<StmtV>::empty());
        assert(c1 =~= c1 + stmts_code(ss.take(0), inner, true, names1, base + 1).0);
        while i < stmts.len()
            invariant
                self.wf(),
                i <= stmts@.len(),
                ss == stmts_view(stmts@),
                ss.len() == stmts@.len(),
                forall|j: int| 0 <= j < stmts@.len() ==> #[trigger] ss[j] == stmt_view(stmts@[j]),
                self.scopes@.drop_last() == old(self).scopes@,
                inner == old(self).locals().push(Seq::<SymbolId>::empty()),
                old(self).scopes@.len() >= 1,
                self.scopes@.len() == old(self).scopes@.len() + 1,
                c1.len() == base + 1,
                self.code@ == c1 + stmts_code(ss.take(i as int), inner, true, names1, base + 1).0,
                self.locals() == stmts_code(ss.take(i as int), inner, true, names1, base + 1).1,
                interner@ == stmts_code(ss.take(i as int), inner, true, names1, base + 1).2,
            decreases stmts@.len() - i,
        {
            assert(ss.take(i + 1).drop_last() =~= ss.take(i as int));
            assert(ss.take(i + 1).last() == ss[i as int]);
            proof { assert(decreases_to!(stmts => stmts@[i as int])); }
            self.compile_stmt(&stmts[i], interner);
            i = i + 1;
        }
        assert(ss.take(i as int) =~= ss);
        self.exit_scope();
        self.emit(Instruction::ExitBlock);
        assert(self.scopes@ =~= old(self).scopes@);
        let ghost body = stmts_code(ss, inner, true, names1, base + 1).0;
        assert(self.code@ =~= c0 + (seq![Instruction::EnterBlock(num_locals)] + body + seq![Instruction::ExitBlock]));
    }

    /// Compiles a single statement.
    #[verifier::spinoff_prover]
    #[verifier::rlimit(30)]
    pub fn compile_stmt(&mut self, stmt: &Stmt, interner: &mut Interner)
        requires
            old(self).wf(),
        ensures
            final(self).wf(),
            final(self).scope_list().drop_last() == old(self).scope_list().drop_last(),
            final(self).depth() == old(self).depth(),
            final(self).code_seq() == old(self).code_seq() + stmt_code(stmt_view(*stmt), old(self).locals(), old(self).depth() > 1, old(interner)@, old(self).code_seq().len() as int).0,
            final(self).locals() == stmt_code(stmt_view(*stmt), old(self).locals(), old(self).depth() > 1, old(interner)@, old(self).code_seq().len() as int).1,
            final(interner)@ == stmt_code(stmt_view(*stmt), old(self).locals(), old(self).depth() > 1, old(interner)@, old(self).code_seq().len() as int).2,
        decreases stmt, 5int,
    {
        let ghost c0 = self.code@;
        match stmt {
            Stmt::Expr(expr) => {
                self.compile_expr(expr, interner);
            },
            Stmt::VariableDecl { name, typ, initializer } => {
                let sym_id = interner.intern(name.as_str());
                if let Some(init) = initializer {
                    self.compile_expr(init, interner);
                } else {
                    match typ {
                        Type::Int => self.emit(Instruction::LoadConst(Object::Int(0))),
                        Type::Bool => self.emit(Instruction::LoadConst(Object::Bool(false))),
                    }
                }
                let ghost c1 = self.code@;
                if self.is_in_block() {
                    let slot = self.declare_local(sym_id);
                    self.emit(Instruction::StoreLocal(slot));
                } else {
                    self.emit(Instruction::StoreName(sym_id));
                }
                assert(self.code@ =~= c0 + (c1.subrange(c0.len() as int, c1.len() as int).push(self.code@.last())));
            },
            Stmt::Assign { name, value } => {
                self.compile_expr(value, interner);
                let sym_id = interner.intern(name.as_str());
                let ghost c1 = self.code@;
                match self.resolve_local(sym_id) {
                    Some((depth, slot)) => {
                        if depth == 0 {
                            self.emit(Instruction::StoreLocal(slot));
                        } else {
                            self.emit(Instruction::StoreEnclosing(depth, slot));
                        }
                    },
                    None => self.emit(Instruction::StoreName(sym_id)),
                }
                assert(self.code@ =~= c0 + (c1.subrange(c0.len() as int, c1.len() as int).push(self.code@.last())));
            },
            Stmt::If { .. } => {
                self.compile_if(stmt, interner);
                assert(self.scopes@.drop_last() =~= old(self).scopes@.drop_last());
            },
        }
    }

    /// Compiles an if statement with its elif and else branches: each
    /// condition is followed by a jump past its branch when false, and each
    /// branch ends with a jump to the common end.
    #[verifier::spinoff_prover]
    #[verifier::rlimit(40)]
    fn compile_if(&mut self, stmt: &Stmt, interner: &mut Interner)
        requires
            old(self).wf(),
            *stmt is If,
        ensures
            final(self).scopes@ == old(self).scopes@,
            ({
                let s = stmt_view(*stmt);
                let base = old(self).code@.len() as int;
                let end = base + if_code(s, old(self).locals(), old(interner)@, base, 0).0.len();
                &&& final(self).code@ == old(self).code@ + if_code(s, old(self).locals(), old(interner)@, base, end).0
                &&& final(interner)@ == if_code(s, old(self).locals(), old(interner)@, base, end).1
            }),
        decreases stmt, 4int,
    {
        let Stmt::If { condition, then_branch, elif_branches, else_branch } = stmt else {
            return;
        };
        let ghost orig = self.code@;
        let ghost base = orig.len() as int;
        let ghost locals = self.locals();
        let ghost names0 = interner@;
        let ghost bs = elifs_view(elif_branches@);

        self.compile_expr(condition, interner);
        let ghost c = expr_code(*condition, locals, names0).0;
        let ghost names1 = interner@;
        let false_jump_idx = self.emit_jump_placeholder(Instruction::JumpIfFalse(0));
        self.compile_block(then_branch, interner);
        let ghost b = block_code(stmts_view(then_branch@), locals, names1, base + c.len() + 1).0;
        let ghost names2 = interner@;
        let mut end_jumps: Vec<usize> = Vec::new();
        let jump_end_idx = self.emit_jump_placeholder(Instruction::Jump(0));
        end_jumps.push(jump_end_idx);
        let ghost first_len = c.len() + b.len() + 2;
        let ghost pre = |e: usize| orig + branch_layout(c, b, base, e as int);

        proof {
            assert forall|e: usize| #[trigger] fill_jumps(self.code@.update(false_jump_idx as int, Instruction::JumpIfFalse(self.code@.len() as usize)), end_jumps@, e)
                == pre(e) by {
                let cur = self.code@.update(false_jump_idx as int, Instruction::JumpIfFalse(self.code@.len() as usize));
                assert(end_jumps@.drop_last() =~= Seq::<usize>::empty());
                assert(fill_jumps(cur, end_jumps@.drop_last(), e) == cur);
                assert(fill_jumps(cur, end_jumps@, e) =~= orig + branch_layout(c, b, base, e as int));
            }
            assert(decreases_to!(stmt => *elif_branches));
        }

        let false_jump_idx = self.compile_elif_branches(elif_branches, interner, false_jump_idx, &mut end_jumps,
            Ghost(pre), Ghost(base + first_len));
        let ghost code_x = self.code@;
        let fallback_start = self.current_address();
        self.patch_jump(false_jump_idx, fallback_start);
        let ghost code_f = self.code@;
        assert(code_f == code_x.update(false_jump_idx as int, Instruction::JumpIfFalse(code_x.len() as usize)));
        let ghost names3 = interner@;
        match else_branch {
            Some(else_block) => {
                proof { assert(decreases_to!(stmt => *else_branch)); }
                self.compile_block(else_block, interner);
            },
            None => {},
        }
        let ghost code_e = self.code@;
        let ghost tail = code_e.subrange(code_f.len() as int, code_e.len() as int);
        proof {
            assert(code_e =~= code_f + tail);
            let eb = match else_branch { Some(x) => Some(stmts_view(x@)), None => None };
            assert(stmt_view(*stmt) == StmtV::If { condition: *condition, then_branch: stmts_view(then_branch@), elif_branches: bs, else_branch: eb });
            match else_branch {
                Some(x) => {
                    assert(tail == block_code(stmts_view(x@), locals, names3, code_f.len() as int).0);
                    assert(interner@ == block_code(stmts_view(x@), locals, names3, code_f.len() as int).1);
                },
                None => {
                    assert(tail =~= Seq::<Instruction>::empty());
                },
            }
            assert forall|e: usize| #[trigger] fill_jumps(code_e, end_jumps@, e)
                == orig + if_code(stmt_view(*stmt), locals, names0, base, e as int).0 by {
                lemma_if_assembled(*condition, stmts_view(then_branch@), bs, eb, locals, names0, orig, code_f, tail, end_jumps@, names3, e);
            }
            lemma_if_assembled(*condition, stmts_view(then_branch@), bs, eb, locals, names0, orig, code_f, tail, end_jumps@, names3, 0);
            lemma_fill_len(code_e, end_jumps@, 0);
        }
        let end = self.current_address();
        self.patch_jumps_to(&end_jumps, end);
        proof {
            lemma_if_code_end(stmt_view(*stmt), locals, names0, base, end as int, 0);
            assert(self.code@ == orig + if_code(stmt_view(*stmt), locals, names0, base, end as int).0);
        }
    }

    /// Compiles the elif branches of an if statement. On entry the code has
    /// a pending false jump at `false_jump_idx` and pending end jumps at
    /// `end_jumps`; each branch takes over the false jump, adds its own end
    /// jump, and leaves its own false jump pending, whose index is returned.
    fn compile_elif_branches(
        &mut self,
        elif_branches: &Vec<(Expr, Vec<Stmt>)>,
        interner: &mut Interner,
        false_jump_idx: usize,
        end_jumps: &mut Vec<usize>,
        Ghost(pre): Ghost<spec_fn(usize) -> Seq<Instruction>>,
        Ghost(start): Ghost<int>,
    ) -> (fji: usize)
        requires
            old(self).wf(),
            false_jump_idx < old(self).code@.len(),
            old(self).code@[false_jump_idx as int] is JumpIfFalse,
            forall|i: int| 0 <= i < old(end_jumps)@.len() ==> (#[trigger] old(end_jumps)@[i]) < old(self).code@.len(),
            forall|i: int| 0 <= i < old(end_jumps)@.len() ==> old(self).code@[#[trigger] old(end_jumps)@[i] as int] is Jump,
            forall|i: int, j: int| 0 <= i < j < old(end_jumps)@.len() ==> (#[trigger] old(end_jumps)@[i]) < (#[trigger] old(end_jumps)@[j]),
            forall|e: usize| #[trigger] fill_jumps(old(self).code@.update(false_jump_idx as int, Instruction::JumpIfFalse(old(self).code@.len() as usize)), old(end_jumps)@, e)
                == pre(e),
            forall|e: usize| (#[trigger] pre(e)).len() == start,
        ensures
            final(self).wf(),
            final(self).scopes@ == old(self).scopes@,
            fji < final(self).code@.len(),
            final(self).code@[fji as int] is JumpIfFalse,
            forall|i: int| 0 <= i < final(end_jumps)@.len() ==> (#[trigger] final(end_jumps)@[i]) < final(self).code@.len(),
            forall|i: int| 0 <= i < final(end_jumps)@.len() ==> final(self).code@[#[trigger] final(end_jumps)@[i] as int] is Jump,
            forall|i: int, j: int| 0 <= i < j < final(end_jumps)@.len() ==> (#[trigger] final(end_jumps)@[i]) < (#[trigger] final(end_jumps)@[j]),
            forall|e: usize| #[trigger] fill_jumps(final(self).code@.update(fji as int, Instruction::JumpIfFalse(final(self).code@.len() as usize)), final(end_jumps)@, e)
                == pre(e) + elifs_code(elifs_view(elif_branches@), old(self).locals(), old(interner)@, start, e as int).0,
            final(interner)@ == elifs_code(elifs_view(elif_branches@), old(self).locals(), old(interner)@, start, 0).1,
        decreases elif_branches, 3int,
    {
        let ghost bs = elifs_view(elif_branches@);
        let ghost locals = self.locals();
        let ghost names0 = interner@;
        proof { lemma_elifs_view(elif_branches@); }
        let mut false_jump_idx = false_jump_idx;
        let mut k: usize = 0;
        proof {
            assert(bs.take(0) =~= Seq::<(Expr, Seq<StmtV>)>::empty());
            assert forall|e: usize| #[trigger] fill_jumps(self.code@.update(false_jump_idx as int, Instruction::JumpIfFalse(self.code@.len() as usize)), end_jumps@, e)
                == pre(e) + elifs_code(bs.take(0), locals, names0, start, e as int).0 by {
                assert(pre(e) + elifs_code(bs.take(0), locals, names0, start, e as int).0 =~= pre(e));
            }
        }
        while k < elif_branches.len()
            invariant
                self.wf(),
                self.scopes@ == old(self).scopes@,
                locals == self.locals(),
                k <= elif_branches@.len(),
                bs == elifs_view(elif_branches@),
                bs.len() == elif_branches@.len(),
                forall|j: int| 0 <= j < elif_branches@.len() ==> #[trigger] bs[j] == (elif_branches@[j].0, stmts_view(elif_branches@[j].1@)),
                forall|e: usize| (#[trigger] pre(e)).len() == start,
                interner@ == elifs_code(bs.take(k as int), locals, names0, start, 0).1,
                false_jump_idx < self.code@.len(),
                self.code@[false_jump_idx as int] is JumpIfFalse,
                forall|i: int| 0 <= i < end_jumps@.len() ==> (#[trigger] end_jumps@[i]) < self.code@.len(),
                forall|i: int| 0 <= i < end_jumps@.len() ==> self.code@[#[trigger] end_jumps@[i] as int] is Jump,
                forall|i: int, j: int| 0 <= i < j < end_jumps@.len() ==> (#[trigger] end_jumps@[i]) < (#[trigger] end_jumps@[j]),
                forall|e: usize| #[trigger] fill_jumps(self.code@.update(false_jump_idx as int, Instruction::JumpIfFalse(self.code@.len() as usize)), end_jumps@, e)
                    == pre(e) + elifs_code(bs.take(k as int), locals, names0, start, e as int).0,
            decreases elif_branches@.len() - k,
        {
            let ghost names_k = interner@;
            let ghost code0 = self.code@;
            let ghost ends_k = end_jumps@;
            let ghost fji0 = false_jump_idx;
            let elif_start = self.current_address();
            self.patch_jump(false_jump_idx, elif_start);
            let ghost code1 = self.code@;
            self.compile_expr(&elif_branches[k].0, interner);
            let ghost ck = expr_code(elif_branches@[k as int].0, locals, names_k).0;
            let ghost names_c = interner@;
            false_jump_idx = self.emit_jump_placeholder(Instruction::JumpIfFalse(0));
            proof {
                assert(decreases_to!(*elif_branches => elif_branches@));
                assert(decreases_to!(elif_branches@ => elif_branches@[k as int]));
                assert(decreases_to!(elif_branches@[k as int] => elif_branches@[k as int].1));
            }
            self.compile_block(&elif_branches[k].1, interner);
            let ghost bk = block_code(stmts_view(elif_branches@[k as int].1@), locals, names_c, (code1.len() + ck.len() + 1) as int).0;
            let j = self.emit_jump_placeholder(Instruction::Jump(0));
            end_jumps.push(j);
            proof {
                lemma_elifs_code_end(bs.take(k as int), locals, names0, start, 0, 0);
                assert(bs.take(k + 1).drop_last() =~= bs.take(k as int));
                assert(bs.take(k + 1).last() == bs[k as int]);
                assert(code1 == code0.update(fji0 as int, Instruction::JumpIfFalse(code0.len() as usize)));
                lemma_fill_len(code1, ends_k, 0);
                assert(fill_jumps(code1, ends_k, 0) == pre(0) + elifs_code(bs.take(k as int), locals, names0, start, 0).0);
                assert(self.code@ == code1 + ck + seq![Instruction::JumpIfFalse(0)] + bk + seq![Instruction::Jump(0)]);
                assert(end_jumps@ == ends_k.push(j));
                assert forall|e: usize| #[trigger] fill_jumps(self.code@.update(false_jump_idx as int, Instruction::JumpIfFalse(self.code@.len() as usize)), end_jumps@, e)
                    == pre(e) + elifs_code(bs.take(k + 1), locals, names0, start, e as int).0 by {
                    lemma_fill_branch(code1, ck, bk, ends_k, e);
                    lemma_fill_len(code1, ends_k, e);
                    lemma_elifs_code_end(bs.take(k as int), locals, names0, start, e as int, 0);
                    let prev = elifs_code(bs.take(k as int), locals, names0, start, e as int).0;
                    assert(fill_jumps(code1, ends_k, e) == pre(e) + prev);
                    assert(elifs_code(bs.take(k + 1), locals, names0, start, e as int).0
                        == prev + branch_layout(ck, bk, code1.len() as int, e as int));
                }
            }
            k = k + 1;
        }
        assert(bs.take(k as int) =~= bs);
        false_jump_idx
    }

    /// Sets the target of each jump at `idxs` to `target`.
    fn patch_jumps_to(&mut self, idxs: &Vec<usize>, target: usize)
        requires
            forall|j: int| 0 <= j < idxs@.len() ==> (#[trigger] idxs@[j]) < old(self).code@.len(),
            forall|j: int| 0 <= j < idxs@.len() ==> old(self).code@[#[trigger] idxs@[j] as int] is Jump,
            forall|a: int, j: int| 0 <= a < j < idxs@.len() ==> (#[trigger] idxs@[a]) < (#[trigger] idxs@[j]),
        ensures
            final(self).scopes@ == old(self).scopes@,
            final(self).code@ == fill_jumps(old(self).code@, idxs@, target),
    {
        let ghost code0 = self.code@;
        let mut i: usize = 0;
        assert(idxs@.take(0) =~= Seq::<usize>::empty());
        while i < idxs.len()
            invariant
                self.scopes@ == old(self).scopes@,
                i <= idxs@.len(),
                code0 == old(self).code@,
                self.code@ == fill_jumps(code0, idxs@.take(i as int), target),
                forall|j: int| 0 <= j < idxs@.len() ==> (#[trigger] idxs@[j]) < code0.len(),
                forall|j: int| 0 <= j < idxs@.len() ==> code0[#[trigger] idxs@[j] as int] is Jump,
                forall|a: int, j: int| 0 <= a < j < idxs@.len() ==> (#[trigger] idxs@[a]) < (#[trigger] idxs@[j]),
            decreases idxs@.len() - i,
        {
            proof {
                lemma_fill_len(code0, idxs@.take(i as int), target);
                lemma_fill_keeps(code0, idxs@.take(i as int), target, idxs@[i as int] as int);
            }
            self.patch_jump(idxs[i], target);
            assert(idxs@.take(i + 1).drop_last() =~= idxs@.take(i as int));
            i = i + 1;
        }
        assert(idxs@.take(i as int) =~= idxs@);
    }
}

/// The code of an `if` statement assembled from its parts: the first
/// branch and the elif branches with their end jumps filled, then the else
/// block.
pub proof fn lemma_if_assembled(
    condition: Expr,
    then_b: Seq<StmtV>,
    bs: Seq<(Expr, Seq<StmtV>)>,
    else_b: Option<Seq<StmtV>>,
    locals: Seq<Seq<SymbolId>>,
    names0: Seq<Seq<char>>,
    orig: Seq<Instruction>,
    code_f: Seq<Instruction>,
    tail: Seq<Instruction>,
    ends: Seq<usize>,
    names3: Seq<Seq<char>>,
    e: usize,
)
    requires
        ({
            let base = orig.len() as int;
            let (c, names1) = expr_code(condition, locals, names0);
            let (b, names2) = block_code(then_b, locals, names1, base + c.len() + 1);
            let start = base + c.len() + b.len() + 2;
            &&& forall|i: int| 0 <= i < ends.len() ==> ends[i] < code_f.len()
            &&& fill_jumps(code_f, ends, e) == orig + branch_layout(c, b, base, e as int) + elifs_code(bs, locals, names2, start, e as int).0
            &&& names3 == elifs_code(bs, locals, names2, start, 0).1
            &&& match else_b {
                Some(x) => tail == block_code(x, locals, names3, code_f.len() as int).0,
                None => tail.len() == 0,
            }
        }),
    ensures
        ({
            let s = StmtV::If { condition, then_branch: then_b, elif_branches: bs, else_branch: else_b };
            let r = if_code(s, locals, names0, orig.len() as int, e as int);
            &&& fill_jumps(code_f + tail, ends, e) == orig + r.0
            &&& r.1 == match else_b {
                Some(x) => block_code(x, locals, names3, code_f.len() as int).1,
                None => names3,
            }
        }),
{
    let base = orig.len() as int;
    let (c, names1) = expr_code(condition, locals, names0);
    let (b, names2) = block_code(then_b, locals, names1, base + c.len() + 1);
    let start = base + c.len() + b.len() + 2;
    lemma_fill_append(code_f, tail, ends, e);
    lemma_fill_len(code_f, ends, e);
    lemma_elifs_code_end(bs, locals, names2, start, e as int, 0);
    let first = branch_layout(c, b, base, e as int);
    let elifs = elifs_code(bs, locals, names2, start, e as int).0;
    assert(first.len() == c.len() + b.len() + 2);
    assert(code_f.len() == base + first.len() + elifs.len());
    match else_b {
        Some(x) => {
            assert(fill_jumps(code_f + tail, ends, e) =~= orig + (first + elifs + tail));
        },
        None => {
            assert(tail =~= Seq::<Instruction>::empty());
            assert(fill_jumps(code_f + tail, ends, e) =~= orig + (first + elifs));
        },
    }
}

/// Laying out one more branch after code whose end jumps are pending: the
/// new branch's false jump skips it, and its end jump joins the others.
pub proof fn lemma_fill_branch(code1: Seq<Instruction>, ck: Seq<Instruction>, bk: Seq<Instruction>, ends: Seq<usize>, e: usize)
    requires
        code1.len() + ck.len() + bk.len() + 2 <= usize::MAX + 1,
        forall|i: int| 0 <= i < ends.len() ==> ends[i] < code1.len(),
    ensures
        ({
            let n = code1.len() + ck.len() + bk.len() + 2;
            let cur = (code1 + ck + seq![Instruction::JumpIfFalse(0)] + bk + seq![Instruction::Jump(0)])
                .update((code1.len() + ck.len()) as int, Instruction::JumpIfFalse(n as usize));
            fill_jumps(cur, ends.push((n - 1) as usize), e) == fill_jumps(code1, ends, e) + branch_layout(ck, bk, code1.len() as int, e as int)
        }),
{
    let n = code1.len() + ck.len() + bk.len() + 2;
    let cur = (code1 + ck + seq![Instruction::JumpIfFalse(0)] + bk + seq![Instruction::Jump(0)])
        .update((code1.len() + ck.len()) as int, Instruction::JumpIfFalse(n as usize));
    let tail = ck + seq![Instruction::JumpIfFalse(n as usize)] + bk + seq![Instruction::Jump(0)];
    assert(cur =~= code1 + tail);
    assert(ends.push((n - 1) as usize).drop_last() =~= ends);
    lemma_fill_append(code1, tail, ends, e);
    lemma_fill_len(code1, ends, e);
    assert(fill_jumps(cur, ends.push((n - 1) as usize), e) =~= fill_jumps(code1, ends, e) + branch_layout(ck, bk, code1.len() as int, e as int));
}

/// Filling jumps leaves every position that is not filled unchanged.
pub proof fn lemma_fill_keeps(code: Seq<Instruction>, idxs: Seq<usize>, t: usize, p: int)
    requires
        0 <= p < code.len(),
        forall|i: int| 0 <= i < idxs.len() ==> idxs[i] < code.len() && idxs[i] != p,
    ensures
        fill_jumps(code, idxs, t)[p] == code[p],
    decreases idxs.len(),
{
    if idxs.len() > 0 {
        lemma_fill_keeps(code, idxs.drop_last(), t, p);
        lemma_fill_len(code, idxs.drop_last(), t);
    }
}

/// A resolved local moved `d` scopes further out.
pub open spec fn shift_slot(r: Option<(nat, int)>, d: nat) -> Option<(nat, int)> {
    match r {
        Some((depth, slot)) => Some((depth + d, slot)),
        None => None,
    }
}

/// The first slot of a scope that holds the symbol.
fn find_slot(locals: &Vec<SymbolId>, sym_id: SymbolId) -> (r: Option<usize>)
    ensures
        match local_slot(locals@, sym_id) {
            Some(i) => r matches Some(j) && j == i,
            None => r is None,
        },
{
    let ghost ls = locals@;
    let mut i: usize = 0;
    proof { lemma_local_slot(ls, sym_id); }
    while i < locals.len()
        invariant
            ls == locals@,
            i <= ls.len(),
            forall|j: int| 0 <= j < i ==> ls[j] != sym_id,
            local_slot(ls, sym_id) matches Some(k) ==> (0 <= k < ls.len() && ls[k] == sym_id && forall|j: int| 0 <= j < k ==> ls[j] != sym_id),
            local_slot(ls, sym_id) is None ==> forall|j: int| 0 <= j < ls.len() ==> ls[j] != sym_id,
        decreases ls.len() - i,
    {
        if locals[i] == sym_id {
            return Some(i);
        }
        i = i + 1;
    }
    None
}

/// `local_slot` finds the first position that holds the symbol.
pub proof fn lemma_local_slot(locals: Seq<SymbolId>, id: SymbolId)
    ensures
        local_slot(locals, id) matches Some(k) ==> (0 <= k < locals.len() && locals[k] == id
            && forall|j: int| 0 <= j < k ==> locals[j] != id),
        local_slot(locals, id) is None ==> forall|j: int| 0 <= j < locals.len() ==> locals[j] != id,
    decreases locals.len(),
{
    if locals.len() > 0 {
        lemma_local_slot(locals.drop_last(), id);
        assert forall|j: int| 0 <= j < locals.len() - 1 implies locals.drop_last()[j] == locals[j] by {}
    }
}

} // verus!
