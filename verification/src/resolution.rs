//! How the checker and the compiler agree on names: a program that type
//! checks loads, as globals, only names declared at the top level before
//! the statement that loads them.

use vstd::prelude::*;
use crate::symbol::{SymbolId, find_name, intern_result, lemma_find_name};
use crate::parser::{Expr, StmtV};
use crate::types::{
    Env, Type, check_expr_spec, check_stmt_spec, check_block_spec, check_stmts_spec, check_elifs_spec,
    resolve_in, names_extend, lemma_intern_extends, lemma_names_extend_trans, lemma_expr_keeps,
    lemma_stmt_keeps, lemma_block_keeps, lemma_stmts_keeps, lemma_elifs_keeps, lemma_stmts_error_final,
};
use crate::compiler::{
    Instruction, expr_code, stmt_code, if_code, elifs_code, block_code, stmts_code, block_locals,
    branch_layout, resolve_slot, load_instr, store_instr, declare_in, intern_sym,
    lemma_local_slot, jump_target, jumps_within, no_jumps, lemma_stmt_jumps, lemma_expr_no_jumps,
};
use crate::vm::{MachineState, StepSpec, step_spec, instruction_step, pop_operands, name_error_text};
use crate::interpreter::{OutcomeV, run_to_end};
use vstd::string::*;

verus! {

/// Every global that `code` loads is declared in `globals`.
pub open spec fn loads_declared(code: Seq<Instruction>, globals: Map<SymbolId, Type>) -> bool {
    forall|i: int| #![trigger code[i]] 0 <= i < code.len()
        ==> (code[i] matches Instruction::LoadName(id) ==> globals.contains_key(id))
}

/// The compiler's scopes mirror the checker's: as many of them, no locals
/// at the top level, and each block scope declaring the same symbols.
pub open spec fn scopes_mirror(scopes: Seq<Map<SymbolId, Type>>, locals: Seq<Seq<SymbolId>>) -> bool {
    &&& scopes.len() == locals.len()
    &&& scopes.len() >= 1
    &&& locals[0].len() == 0
    &&& forall|j: int, id: SymbolId| 1 <= j < scopes.len()
        ==> (#[trigger] scopes[j].contains_key(id) <==> locals[j].contains(id))
}

proof fn lemma_loads_concat(a: Seq<Instruction>, b: Seq<Instruction>, g: Map<SymbolId, Type>)
    requires
        loads_declared(a, g),
        loads_declared(b, g),
    ensures
        loads_declared(a + b, g),
{
    assert forall|i: int| 0 <= i < (a + b).len() implies
        (#[trigger] (a + b)[i] matches Instruction::LoadName(id) ==> g.contains_key(id)) by {
        if i < a.len() {
            assert((a + b)[i] == a[i]);
        } else {
            assert((a + b)[i] == b[i - a.len()]);
        }
    }
}

proof fn lemma_loads_one(x: Instruction, g: Map<SymbolId, Type>)
    requires
        x matches Instruction::LoadName(id) ==> g.contains_key(id),
    ensures
        loads_declared(seq![x], g),
{
    assert forall|i: int| 0 <= i < seq![x].len() implies
        (#[trigger] seq![x][i] matches Instruction::LoadName(id) ==> g.contains_key(id)) by {
        assert(seq![x][i] == x);
    }
}

/// A symbol found by `resolve_in` is declared in one of the scopes.
proof fn lemma_resolve_in_found(scopes: Seq<Map<SymbolId, Type>>, id: SymbolId)
    requires
        resolve_in(scopes, id) is Some,
    ensures
        exists|j: int| 0 <= j < scopes.len() && #[trigger] scopes[j].contains_key(id),
    decreases scopes.len(),
{
    if !scopes.last().contains_key(id) {
        lemma_resolve_in_found(scopes.drop_last(), id);
        let j = choose|j: int| 0 <= j < scopes.drop_last().len() && #[trigger] scopes.drop_last()[j].contains_key(id);
        assert(scopes[j] == scopes.drop_last()[j]);
    } else {
        assert(scopes[scopes.len() - 1].contains_key(id));
    }
}

/// A symbol that `resolve_slot` does not find is a local of no scope.
proof fn lemma_resolve_slot_none(locals: Seq<Seq<SymbolId>>, id: SymbolId)
    requires
        resolve_slot(locals, id) is None,
    ensures
        forall|j: int| 0 <= j < locals.len() ==> !(#[trigger] locals[j]).contains(id),
    decreases locals.len(),
{
    if locals.len() > 0 {
        lemma_local_slot(locals.last(), id);
        lemma_resolve_slot_none(locals.drop_last(), id);
        assert forall|j: int| 0 <= j < locals.len() implies !(#[trigger] locals[j]).contains(id) by {
            if j < locals.len() - 1 {
                assert(locals[j] == locals.drop_last()[j]);
            }
        }
    }
}

/// A name that the checker resolves and the compiler loads as a global is
/// declared in the global scope.
proof fn lemma_global_load(scopes: Seq<Map<SymbolId, Type>>, locals: Seq<Seq<SymbolId>>, id: SymbolId)
    requires
        scopes_mirror(scopes, locals),
        resolve_in(scopes, id) is Some,
        load_instr(locals, id) matches Instruction::LoadName(_),
    ensures
        scopes[0].contains_key(id),
{
    lemma_resolve_in_found(scopes, id);
    lemma_resolve_slot_none(locals, id);
    let j = choose|j: int| 0 <= j < scopes.len() && #[trigger] scopes[j].contains_key(id);
    if j >= 1 {
        assert(locals[j].contains(id));
    }
}

/// Interning a name again, in a table that extends the one it was first
/// interned in, gives the same symbol and leaves the table as it is.
proof fn lemma_intern_stable(a: Seq<Seq<char>>, b: Seq<Seq<char>>, s: Seq<char>)
    requires
        names_extend(intern_result(a, s).0, b),
    ensures
        intern_result(b, s) == (b, intern_result(a, s).1),
{
    let a1 = intern_result(a, s).0;
    let i = intern_result(a, s).1 as int;
    lemma_find_name(a, s);
    lemma_find_name(b, s);
    assert(a1[i] == s);
    assert(forall|j: int| 0 <= j < i ==> a1[j] != s);
    assert(b[i] == s);
    assert(forall|j: int| 0 <= j < i ==> b[j] != s);
    match find_name(b, s) {
        Some(k) => {
            if k < i {
                assert(b[k] != s);
            }
            if k > i {
                assert(b[i] != s);
            }
        },
        None => {
            assert(b[i] != s);
        },
    }
}

/// The code of an expression that checks loads only declared globals, and
/// finds every name already interned.
proof fn lemma_expr_loads(env: Env, e: Expr, locals: Seq<Seq<SymbolId>>, n: Seq<Seq<char>>)
    requires
        check_expr_spec(env, e).1 is Ok,
        names_extend(check_expr_spec(env, e).0.names, n),
        scopes_mirror(env.scopes, locals),
    ensures
        loads_declared(expr_code(e, locals, n).0, env.scopes[0]),
        expr_code(e, locals, n).1 == n,
    decreases e,
{
    match e {
        Expr::Name(s) => {
            lemma_intern_stable(env.names, n, s@);
            let id = SymbolId(intern_result(env.names, s@).1 as usize);
            if load_instr(locals, id) is LoadName {
                lemma_global_load(env.scopes, locals, id);
            }
            lemma_loads_one(load_instr(locals, id), env.scopes[0]);
        },
        Expr::BinaryOp { left, op, right } => {
            let (env1, l) = check_expr_spec(env, *left);
            lemma_expr_keeps(env, *left);
            lemma_expr_keeps(env1, *right);
            lemma_names_extend_trans(env1.names, check_expr_spec(env1, *right).0.names, n);
            lemma_expr_loads(env, *left, locals, n);
            lemma_expr_loads(env1, *right, locals, n);
            let (lc, n1) = expr_code(*left, locals, n);
            let (rc, n2) = expr_code(*right, locals, n1);
            lemma_loads_concat(lc, rc, env.scopes[0]);
            lemma_loads_one(crate::compiler::operator_instruction(op), env.scopes[0]);
            lemma_loads_concat(lc + rc, seq![crate::compiler::operator_instruction(op)], env.scopes[0]);
        },
        _ => {
            lemma_loads_one(expr_code(e, locals, n).0[0], env.scopes[0]);
            assert(expr_code(e, locals, n).0 =~= seq![expr_code(e, locals, n).0[0]]);
        },
    }
}

proof fn lemma_block_locals_extend(ss: Seq<StmtV>, n: Seq<Seq<char>>)
    ensures
        names_extend(n, block_locals(ss, n).1),
    decreases ss.len(),
{
    if ss.len() > 0 {
        lemma_block_locals_extend(ss.drop_last(), n);
        if let StmtV::VariableDecl { name, .. } = ss.last() {
            let n1 = block_locals(ss.drop_last(), n).1;
            lemma_intern_extends(n1, name@);
            lemma_names_extend_trans(n, n1, block_locals(ss, n).1);
        }
    }
}

proof fn lemma_branch_loads(c: Seq<Instruction>, b: Seq<Instruction>, base: int, end: int, g: Map<SymbolId, Type>)
    requires
        loads_declared(c, g),
        loads_declared(b, g),
    ensures
        loads_declared(branch_layout(c, b, base, end), g),
{
    let next = base + c.len() + b.len() + 2;
    lemma_loads_one(Instruction::JumpIfFalse(next as usize), g);
    lemma_loads_one(Instruction::Jump(end as usize), g);
    lemma_loads_concat(c, seq![Instruction::JumpIfFalse(next as usize)], g);
    lemma_loads_concat(c + seq![Instruction::JumpIfFalse(next as usize)], b, g);
    lemma_loads_concat(c + seq![Instruction::JumpIfFalse(next as usize)] + b, seq![Instruction::Jump(end as usize)], g);
}

/// Declaring a symbol in the innermost scope of both keeps them mirrored.
proof fn lemma_mirror_declare(scopes: Seq<Map<SymbolId, Type>>, locals: Seq<Seq<SymbolId>>, id: SymbolId, t: Type)
    requires
        scopes_mirror(scopes, locals),
        locals.len() >= 2,
    ensures
        scopes_mirror(
            scopes.update(scopes.len() - 1, scopes.last().insert(id, t)),
            declare_in(locals, id),
        ),
{
    let s2 = scopes.update(scopes.len() - 1, scopes.last().insert(id, t));
    let l2 = declare_in(locals, id);
    assert forall|j: int, x: SymbolId| 1 <= j < s2.len() implies
        (#[trigger] s2[j].contains_key(x) <==> l2[j].contains(x)) by {
        if j == s2.len() - 1 {
            let last = locals.last();
            assert(l2[j] == last.push(id));
            if last.push(id).contains(x) {
                let k = choose|k: int| 0 <= k < last.push(id).len() && last.push(id)[k] == x;
                if k < last.len() {
                    assert(last[k] == x);
                    assert(last.contains(x));
                }
            }
            if last.contains(x) {
                let k = choose|k: int| 0 <= k < last.len() && last[k] == x;
                assert(last.push(id)[k] == x);
            }
            if x == id {
                assert(last.push(id)[last.len() as int] == id);
            }
        } else {
            assert(s2[j] == scopes[j]);
            assert(l2[j] == locals[j]);
        }
    }
}

/// The code of a statement that checks loads only globals declared before
/// it; the scopes stay mirrored and the outer ones unchanged.
#[verifier::spinoff_prover]
#[verifier::rlimit(40)]
proof fn lemma_stmt_loads(env: Env, s: StmtV, locals: Seq<Seq<SymbolId>>, in_block: bool, n: Seq<Seq<char>>, base: int)
    requires
        check_stmt_spec(env, s).1 is Ok,
        names_extend(check_stmt_spec(env, s).0.names, n),
        scopes_mirror(env.scopes, locals),
        in_block == (locals.len() >= 2),
    ensures
        loads_declared(stmt_code(s, locals, in_block, n, base).0, env.scopes[0]),
        names_extend(n, stmt_code(s, locals, in_block, n, base).2),
        scopes_mirror(check_stmt_spec(env, s).0.scopes, stmt_code(s, locals, in_block, n, base).1),
        check_stmt_spec(env, s).0.scopes.len() == env.scopes.len(),
        check_stmt_spec(env, s).0.scopes.drop_last() == env.scopes.drop_last(),
        !(s is VariableDecl) ==> check_stmt_spec(env, s).0.scopes == env.scopes,
    decreases s, 5int,
{
    lemma_stmt_keeps(env, s);
    match s {
        StmtV::Expr(e) => {
            lemma_expr_keeps(env, e);
            lemma_expr_loads(env, e, locals, n);
        },
        StmtV::VariableDecl { name, typ, initializer } => {
            let (env1, id) = crate::types::env_intern(env, name@);
            let fin = check_stmt_spec(env, s).0;
            match initializer {
                Some(init) => {
                    lemma_expr_keeps(env1, init);
                    lemma_names_extend_trans(env1.names, check_expr_spec(env1, init).0.names, n);
                },
                None => {},
            }
            lemma_intern_stable(env.names, n, name@);
            let (n1, idx) = intern_sym(n, name@);
            assert(idx == id);
            match initializer {
                Some(init) => {
                    lemma_expr_loads(env1, init, locals, n1);
                },
                None => {},
            }
            let value = match initializer {
                Some(init) => expr_code(init, locals, n1).0,
                None => seq![Instruction::LoadConst(crate::compiler::default_value(typ))],
            };
            if initializer is None {
                lemma_loads_one(Instruction::LoadConst(crate::compiler::default_value(typ)), env.scopes[0]);
            }
            let last = if in_block { Instruction::StoreLocal(locals.last().len() as usize) } else { Instruction::StoreName(id) };
            lemma_loads_one(last, env.scopes[0]);
            lemma_loads_concat(value, seq![last], env.scopes[0]);
            assert(value.push(last) =~= value + seq![last]);
            if in_block {
                lemma_mirror_declare(env.scopes, locals, id, typ);
            }
            assert(fin.scopes.drop_last() =~= env.scopes.drop_last());
        },
        StmtV::Assign { name, value } => {
            let (env1, id) = crate::types::env_intern(env, name@);
            lemma_expr_keeps(env1, value);
            lemma_names_extend_trans(env1.names, check_expr_spec(env1, value).0.names, n);
            lemma_names_extend_trans(intern_result(env.names, name@).0, check_expr_spec(env1, value).0.names, n);
            lemma_expr_loads(env1, value, locals, n);
            lemma_intern_stable(env.names, n, name@);
            let c = expr_code(value, locals, n).0;
            let st = store_instr(locals, id);
            lemma_loads_one(st, env.scopes[0]);
            lemma_loads_concat(c, seq![st], env.scopes[0]);
            assert(c.push(st) =~= c + seq![st]);
        },
        StmtV::If { .. } => {
            let end = base + if_code(s, locals, n, base, 0).0.len();
            lemma_if_loads(env, s, locals, n, base, end);
        },
    }
}

#[verifier::spinoff_prover]
#[verifier::rlimit(40)]
proof fn lemma_if_loads(env: Env, s: StmtV, locals: Seq<Seq<SymbolId>>, n: Seq<Seq<char>>, base: int, end: int)
    requires
        s is If,
        check_stmt_spec(env, s).1 is Ok,
        names_extend(check_stmt_spec(env, s).0.names, n),
        scopes_mirror(env.scopes, locals),
    ensures
        loads_declared(if_code(s, locals, n, base, end).0, env.scopes[0]),
        names_extend(n, if_code(s, locals, n, base, end).1),
        check_stmt_spec(env, s).0.scopes == env.scopes,
    decreases s, 4int,
{
    if let StmtV::If { condition, then_branch, elif_branches, else_branch } = s {
        let g = env.scopes[0];
        let fin = check_stmt_spec(env, s).0.names;
        let (env1, cr) = check_expr_spec(env, condition);
        let (env2, r2) = check_block_spec(env1, then_branch);
        let (env3, r3) = check_elifs_spec(env2, elif_branches);
        lemma_expr_keeps(env, condition);
        lemma_block_keeps(env1, then_branch);
        lemma_elifs_keeps(env2, elif_branches);
        match else_branch {
            Some(b) => {
                lemma_block_keeps(env3, b);
            },
            None => {},
        }
        lemma_names_extend_trans(env3.names, fin, n);
        lemma_names_extend_trans(env2.names, env3.names, n);
        lemma_names_extend_trans(env1.names, env2.names, n);
        let (c, n1) = expr_code(condition, locals, n);
        lemma_expr_loads(env, condition, locals, n);
        let (b, n2) = block_code(then_branch, locals, n1, base + c.len() + 1);
        lemma_block_loads(env1, then_branch, locals, n1, base + c.len() + 1);
        let first = branch_layout(c, b, base, end);
        lemma_branch_loads(c, b, base, end, g);
        lemma_names_extend_trans(env3.names, n, n2);
        let (elifs, n3) = elifs_code(elif_branches, locals, n2, base + first.len(), end);
        lemma_elifs_loads(env2, elif_branches, locals, n2, base + first.len(), end);
        lemma_loads_concat(first, elifs, g);
        lemma_names_extend_trans(n, n2, n3);
        match else_branch {
            Some(eb) => {
                lemma_names_extend_trans(fin, n, n3);
                let (e, n4) = block_code(eb, locals, n3, base + first.len() + elifs.len());
                lemma_block_loads(env3, eb, locals, n3, base + first.len() + elifs.len());
                lemma_loads_concat(first + elifs, e, g);
                lemma_names_extend_trans(n, n3, n4);
            },
            None => {},
        }
    }
}

proof fn lemma_elifs_loads(env: Env, bs: Seq<(Expr, Seq<StmtV>)>, locals: Seq<Seq<SymbolId>>, n: Seq<Seq<char>>, base: int, end: int)
    requires
        check_elifs_spec(env, bs).1 is Ok,
        names_extend(check_elifs_spec(env, bs).0.names, n),
        scopes_mirror(env.scopes, locals),
    ensures
        loads_declared(elifs_code(bs, locals, n, base, end).0, env.scopes[0]),
        names_extend(n, elifs_code(bs, locals, n, base, end).1),
        check_elifs_spec(env, bs).0.scopes == env.scopes,
    decreases bs, 3int,
{
    if bs.len() > 0 {
        let g = env.scopes[0];
        let fin = check_elifs_spec(env, bs).0.names;
        let (env1, r) = check_elifs_spec(env, bs.drop_last());
        let (env2, cr) = check_expr_spec(env1, bs.last().0);
        lemma_elifs_keeps(env, bs.drop_last());
        lemma_expr_keeps(env1, bs.last().0);
        lemma_block_keeps(env2, bs.last().1);
        lemma_names_extend_trans(env2.names, fin, n);
        lemma_names_extend_trans(env1.names, env2.names, n);
        let (prev, n1) = elifs_code(bs.drop_last(), locals, n, base, end);
        lemma_elifs_loads(env, bs.drop_last(), locals, n, base, end);
        lemma_names_extend_trans(env2.names, n, n1);
        lemma_names_extend_trans(env1.names, n, n1);
        let at = base + prev.len();
        let (c, n2) = expr_code(bs.last().0, locals, n1);
        lemma_expr_loads(env1, bs.last().0, locals, n1);
        let (b, n3) = block_code(bs.last().1, locals, n2, at + c.len() + 1);
        lemma_names_extend_trans(fin, n, n1);
        lemma_block_loads(env2, bs.last().1, locals, n2, at + c.len() + 1);
        lemma_branch_loads(c, b, at, end, g);
        lemma_loads_concat(prev, branch_layout(c, b, at, end), g);
        lemma_names_extend_trans(n, n1, n3);
    } else {
        assert(loads_declared(Seq::<Instruction>::empty(), env.scopes[0]));
    }
}

proof fn lemma_block_loads(env: Env, ss: Seq<StmtV>, locals: Seq<Seq<SymbolId>>, n: Seq<Seq<char>>, base: int)
    requires
        check_block_spec(env, ss).1 is Ok,
        names_extend(check_block_spec(env, ss).0.names, n),
        scopes_mirror(env.scopes, locals),
    ensures
        loads_declared(block_code(ss, locals, n, base).0, env.scopes[0]),
        names_extend(n, block_code(ss, locals, n, base).1),
        check_block_spec(env, ss).0.scopes == env.scopes,
    decreases ss, 2int,
{
    let inner = Env { scopes: env.scopes.push(Map::empty()), ..env };
    let inner_locals = locals.push(Seq::<SymbolId>::empty());
    let g = env.scopes[0];
    assert(inner.scopes[0] == g);
    assert forall|j: int, x: SymbolId| 1 <= j < inner.scopes.len() implies
        (#[trigger] inner.scopes[j].contains_key(x) <==> inner_locals[j].contains(x)) by {
        if j == inner.scopes.len() - 1 {
            assert(inner_locals[j] == Seq::<SymbolId>::empty());
        } else {
            assert(inner.scopes[j] == env.scopes[j]);
            assert(inner_locals[j] == locals[j]);
        }
    }
    assert(scopes_mirror(inner.scopes, inner_locals));
    let (seen, n1) = block_locals(ss, n);
    lemma_block_locals_extend(ss, n);
    lemma_names_extend_trans(check_stmts_spec(inner, ss).0.names, n, n1);
    lemma_stmts_loads(inner, ss, inner_locals, true, n1, base + 1);
    let (body, _, n2) = stmts_code(ss, inner_locals, true, n1, base + 1);
    lemma_names_extend_trans(n, n1, n2);
    let enter = seq![Instruction::EnterBlock(seen.len() as usize)];
    lemma_loads_one(Instruction::EnterBlock(seen.len() as usize), g);
    lemma_loads_one(Instruction::ExitBlock, g);
    lemma_loads_concat(enter, body, g);
    lemma_loads_concat(enter + body, seq![Instruction::ExitBlock], g);
    assert(inner.scopes.drop_last() =~= env.scopes);
}

proof fn lemma_stmts_loads(env: Env, ss: Seq<StmtV>, locals: Seq<Seq<SymbolId>>, in_block: bool, n: Seq<Seq<char>>, base: int)
    requires
        check_stmts_spec(env, ss).1 is Ok,
        names_extend(check_stmts_spec(env, ss).0.names, n),
        scopes_mirror(env.scopes, locals),
        in_block,
        locals.len() >= 2,
    ensures
        loads_declared(stmts_code(ss, locals, in_block, n, base).0, env.scopes[0]),
        names_extend(n, stmts_code(ss, locals, in_block, n, base).2),
        scopes_mirror(check_stmts_spec(env, ss).0.scopes, stmts_code(ss, locals, in_block, n, base).1),
        check_stmts_spec(env, ss).0.scopes.drop_last() == env.scopes.drop_last(),
    decreases ss, 1int,
{
    if ss.len() > 0 {
        let (env1, r) = check_stmts_spec(env, ss.drop_last());
        lemma_stmts_keeps(env, ss.drop_last());
        lemma_stmt_keeps(env1, ss.last());
        lemma_names_extend_trans(env1.names, check_stmt_spec(env1, ss.last()).0.names, n);
        lemma_stmts_loads(env, ss.drop_last(), locals, in_block, n, base);
        let (prev, locals1, n1) = stmts_code(ss.drop_last(), locals, in_block, n, base);
        lemma_names_extend_trans(check_stmt_spec(env1, ss.last()).0.names, n, n1);
        assert(env1.scopes[0] == env.scopes.drop_last()[0]);
        lemma_stmt_loads(env1, ss.last(), locals1, in_block, n1, base + prev.len());
        let (c, locals2, n2) = stmt_code(ss.last(), locals1, in_block, n1, base + prev.len());
        lemma_loads_concat(prev, c, env.scopes[0]);
        lemma_names_extend_trans(n, n1, n2);
        let fin = check_stmt_spec(env1, ss.last()).0.scopes;
        assert(fin.drop_last() =~= env.scopes.drop_last()) by {
            assert(fin.drop_last() == env1.scopes.drop_last());
        }
    } else {
        assert(loads_declared(Seq::<Instruction>::empty(), env.scopes[0]));
    }
}

// ---------------------------------------------------------------------------
// Running a program that checks
// ---------------------------------------------------------------------------

/// Whether a run of `code` from `ip`, within `n` steps, stops at a
/// `LoadName` whose global is missing: the instruction that raises a
/// `NameError`.
pub open spec fn fails_at_global(code: Seq<Instruction>, names: Seq<Seq<char>>, s: MachineState, ip: int, n: nat) -> bool
    decreases n,
{
    if !(0 <= ip < code.len()) || n == 0 {
        false
    } else {
        match step_spec(code, names, s, ip) {
            StepSpec::Next(s2, ip2) => fails_at_global(code, names, s2, ip2, (n - 1) as nat),
            StepSpec::Fail(..) => code[ip] is LoadName,
            StepSpec::Abort(..) => false,
        }
    }
}

/// What one step does to the globals and to the address.
proof fn lemma_step_globals(instr: Instruction, names: Seq<Seq<char>>, s: MachineState, ip: int)
    ensures
        instruction_step(instr, names, s, ip) matches StepSpec::Next(s2, ip2) ==> {
            &&& forall|id: SymbolId| s.globals.contains_key(id) ==> #[trigger] s2.globals.contains_key(id)
            &&& match jump_target(instr) {
                Some(t) => ip2 == ip + 1 || ip2 == t,
                None => ip2 == ip + 1,
            }
            &&& (instr matches Instruction::StoreName(id) ==> s2.globals.contains_key(id))
        },
        instr matches Instruction::LoadName(id) ==> (s.globals.contains_key(id) ==> instruction_step(instr, names, s, ip) is Next),
{
    match instr {
        Instruction::LoadConst(_) | Instruction::LoadName(_) | Instruction::StoreName(_) | Instruction::LoadLocal(_)
        | Instruction::StoreLocal(_) | Instruction::LoadEnclosing(..) | Instruction::StoreEnclosing(..)
        | Instruction::EnterBlock(_) | Instruction::ExitBlock | Instruction::Jump(_) | Instruction::JumpIfFalse(_) => {},
        _ => {
            match pop_operands(s) {
                Ok((l, r, s2)) => {
                    assert(s2.globals == s.globals);
                },
                Err(_) => {},
            }
        },
    }
}

/// The code of the first `k` top-level statements.
pub open spec fn top_code(ss: Seq<StmtV>, n: Seq<Seq<char>>, k: int) -> (Seq<Instruction>, Seq<Seq<SymbolId>>, Seq<Seq<char>>) {
    stmts_code(ss.take(k), seq![Seq::<SymbolId>::empty()], false, n, 0)
}

/// The checker's environment after the first `k` top-level statements.
pub open spec fn top_env(env0: Env, ss: Seq<StmtV>, k: int) -> Env {
    check_stmts_spec(env0, ss.take(k)).0
}

/// What holds of the first `m` top-level statements of a program that
/// checks, compiled with the symbols that checking left.
#[verifier::spinoff_prover]
#[verifier::rlimit(40)]
proof fn lemma_top_prefix(env0: Env, ss: Seq<StmtV>, m: int)
    requires
        env0.scopes.len() == 1,
        check_stmts_spec(env0, ss).1 is Ok,
        0 <= m <= ss.len(),
    ensures
        check_stmts_spec(env0, ss.take(m)).1 is Ok,
        top_env(env0, ss, m).scopes.len() == 1,
        names_extend(top_env(env0, ss, m).names, check_stmts_spec(env0, ss).0.names),
        top_code(ss, check_stmts_spec(env0, ss).0.names, m).1 == seq![Seq::<SymbolId>::empty()],
        names_extend(check_stmts_spec(env0, ss).0.names, top_code(ss, check_stmts_spec(env0, ss).0.names, m).2),
    decreases m,
{
    let f = check_stmts_spec(env0, ss).0.names;
    if check_stmts_spec(env0, ss.take(m)).1 is Err {
        lemma_stmts_error_final(env0, ss, m);
    }
    lemma_stmts_keeps(env0, ss.take(m));
    lemma_env_names_chain(env0, ss, m);
    if m == 0 {
        assert(ss.take(0) =~= Seq::<StmtV>::empty());
    } else {
        lemma_top_prefix(env0, ss, m - 1);
        assert(ss.take(m).drop_last() =~= ss.take(m - 1));
        assert(ss.take(m).last() == ss[m - 1]);
        let e = top_env(env0, ss, m - 1);
        let (c, l, n1) = top_code(ss, f, m - 1);
        lemma_stmt_keeps(e, ss[m - 1]);
        lemma_names_extend_trans(check_stmt_spec(e, ss[m - 1]).0.names, top_env(env0, ss, m).names, f);
        lemma_names_extend_trans(check_stmt_spec(e, ss[m - 1]).0.names, f, n1);
        lemma_stmt_loads(e, ss[m - 1], l, false, n1, c.len() as int);
        lemma_names_extend_trans(f, n1, top_code(ss, f, m).2);
    }
}

/// The symbols of the checker only grow from one prefix to the whole.
proof fn lemma_env_names_chain(env0: Env, ss: Seq<StmtV>, m: int)
    requires
        env0.scopes.len() == 1,
        check_stmts_spec(env0, ss).1 is Ok,
        0 <= m <= ss.len(),
    ensures
        names_extend(top_env(env0, ss, m).names, check_stmts_spec(env0, ss).0.names),
    decreases ss.len() - m,
{
    if m == ss.len() {
        assert(ss.take(m) =~= ss);
    } else {
        lemma_env_names_chain(env0, ss, m + 1);
        assert(ss.take(m + 1).drop_last() =~= ss.take(m));
        if check_stmts_spec(env0, ss.take(m)).1 is Err {
            lemma_stmts_error_final(env0, ss, m);
        }
        lemma_stmts_keeps(env0, ss.take(m));
        lemma_stmt_keeps(top_env(env0, ss, m), ss.take(m + 1).last());
        lemma_names_extend_trans(top_env(env0, ss, m).names, top_env(env0, ss, m + 1).names, check_stmts_spec(env0, ss).0.names);
    }
}

/// One top-level statement: its code follows that of the statements before
/// it, loads only globals declared before it, keeps its jumps inside, and
/// declares a global only as a declaration whose last instruction stores it.
#[verifier::spinoff_prover]
#[verifier::rlimit(40)]
proof fn lemma_top_segment(env0: Env, ss: Seq<StmtV>, k: int)
    requires
        env0.scopes.len() == 1,
        check_stmts_spec(env0, ss).1 is Ok,
        0 <= k < ss.len(),
        top_code(ss, check_stmts_spec(env0, ss).0.names, k + 1).0.len() <= usize::MAX,
    ensures
        ({
            let f = check_stmts_spec(env0, ss).0.names;
            let (c, l, n1) = top_code(ss, f, k);
            let seg = stmt_code(ss[k], l, false, n1, c.len() as int).0;
            let g = top_env(env0, ss, k).scopes[0];
            let g2 = top_env(env0, ss, k + 1).scopes[0];
            &&& top_code(ss, f, k + 1).0 == c + seg
            &&& seg.len() >= 1
            &&& loads_declared(seg, g)
            &&& jumps_within(seg, c.len() as int, (c.len() + seg.len()) as int)
            &&& !(ss[k] is VariableDecl) ==> g2 == g
            &&& ss[k] is VariableDecl ==> {
                &&& no_jumps(seg.drop_last())
                &&& seg.last() matches Instruction::StoreName(id)
                    && forall|x: SymbolId| #[trigger] g2.contains_key(x) ==> g.contains_key(x) || x == id
            }
        }),
{
    let f = check_stmts_spec(env0, ss).0.names;
    lemma_top_prefix(env0, ss, k);
    lemma_top_prefix(env0, ss, k + 1);
    assert(ss.take(k + 1).drop_last() =~= ss.take(k));
    assert(ss.take(k + 1).last() == ss[k]);
    let e = top_env(env0, ss, k);
    let (c, l, n1) = top_code(ss, f, k);
    let st = ss[k];
    lemma_stmt_keeps(e, st);
    lemma_names_extend_trans(check_stmt_spec(e, st).0.names, f, n1);
    lemma_stmt_loads(e, st, l, false, n1, c.len() as int);
    let seg = stmt_code(st, l, false, n1, c.len() as int).0;
    lemma_stmt_jumps(st, l, false, n1, c.len() as int);
    match st {
        StmtV::VariableDecl { name, typ, initializer } => {
            let (env1, id) = crate::types::env_intern(e, name@);
            match initializer {
                Some(init) => {
                    lemma_expr_keeps(env1, init);
                    lemma_names_extend_trans(env1.names, check_expr_spec(env1, init).0.names, n1);
                },
                None => {},
            }
            lemma_intern_stable(e.names, n1, name@);
            let (n2, idx) = intern_sym(n1, name@);
            assert(idx == id);
            let value = match initializer {
                Some(init) => expr_code(init, l, n2).0,
                None => seq![Instruction::LoadConst(crate::compiler::default_value(typ))],
            };
            match initializer {
                Some(init) => { lemma_expr_no_jumps(init, l, n2); },
                None => {},
            }
            assert(seg == value.push(Instruction::StoreName(id)));
            assert(seg.drop_last() =~= value);
        },
        StmtV::Expr(ex) => {
            assert(expr_code(ex, l, n1).0.len() >= 1);
        },
        _ => {},
    }
}

/// The code of the first `k` statements begins the code of the first `m`.
#[verifier::spinoff_prover]
#[verifier::rlimit(40)]
proof fn lemma_code_prefix(env0: Env, ss: Seq<StmtV>, k: int, m: int)
    requires
        env0.scopes.len() == 1,
        check_stmts_spec(env0, ss).1 is Ok,
        0 <= k <= m <= ss.len(),
        top_code(ss, check_stmts_spec(env0, ss).0.names, m).0.len() <= usize::MAX,
    ensures
        ({
            let f = check_stmts_spec(env0, ss).0.names;
            &&& top_code(ss, f, k).0.len() <= top_code(ss, f, m).0.len()
            &&& top_code(ss, f, m).0.take(top_code(ss, f, k).0.len() as int) == top_code(ss, f, k).0
        }),
    decreases m,
{
    let f = check_stmts_spec(env0, ss).0.names;
    if k == m {
        assert(top_code(ss, f, m).0.take(top_code(ss, f, k).0.len() as int) =~= top_code(ss, f, k).0);
    } else {
        lemma_top_segment(env0, ss, m - 1);
        lemma_code_prefix(env0, ss, k, m - 1);
        let a = top_code(ss, f, m - 1).0;
        let whole = top_code(ss, f, m).0;
        let p = top_code(ss, f, k).0;
        assert(whole.take(p.len() as int) =~= a.take(p.len() as int));
    }
}

/// Every global declared before the `k`-th top-level statement is set in `s`.
pub open spec fn ready_at(env0: Env, ss: Seq<StmtV>, k: int, s: MachineState) -> bool {
    forall|id: SymbolId| #[trigger] top_env(env0, ss, k).scopes[0].contains_key(id) ==> s.globals.contains_key(id)
}

/// At address `ip`, every global declared before a top-level statement that
/// starts at or before `ip` is set.
pub open spec fn globals_ready(env0: Env, ss: Seq<StmtV>, ip: int, s: MachineState) -> bool {
    forall|k: int| 0 <= k < ss.len()
        && top_code(ss, check_stmts_spec(env0, ss).0.names, k).0.len() <= ip
        ==> #[trigger] ready_at(env0, ss, k, s)
}

/// The top-level statement whose code holds the address `ip`.
proof fn lemma_find_segment(env0: Env, ss: Seq<StmtV>, ip: int, m: int) -> (k: int)
    requires
        env0.scopes.len() == 1,
        check_stmts_spec(env0, ss).1 is Ok,
        0 <= ip,
        0 < m <= ss.len(),
        ip < top_code(ss, check_stmts_spec(env0, ss).0.names, m).0.len(),
        top_code(ss, check_stmts_spec(env0, ss).0.names, m).0.len() <= usize::MAX,
    ensures
        0 <= k < m,
        top_code(ss, check_stmts_spec(env0, ss).0.names, k).0.len() <= ip,
        ip < top_code(ss, check_stmts_spec(env0, ss).0.names, k + 1).0.len(),
    decreases m,
{
    let f = check_stmts_spec(env0, ss).0.names;
    lemma_top_segment(env0, ss, m - 1);
    if top_code(ss, f, m - 1).0.len() <= ip {
        m - 1
    } else {
        assert(m - 1 > 0) by {
            if m - 1 == 0 {
                assert(ss.take(0) =~= Seq::<StmtV>::empty());
            }
        }
        lemma_find_segment(env0, ss, ip, m - 1)
    }
}

/// A run from an address where the globals are ready never stops at a
/// global it loads.
#[verifier::spinoff_prover]
#[verifier::rlimit(40)]
proof fn lemma_run_finds_globals(env0: Env, ss: Seq<StmtV>, names: Seq<Seq<char>>, s: MachineState, ip: int, fuel: nat)
    requires
        env0.scopes.len() == 1,
        check_stmts_spec(env0, ss).1 is Ok,
        top_code(ss, check_stmts_spec(env0, ss).0.names, ss.len() as int).0.len() <= usize::MAX,
        0 <= ip,
        globals_ready(env0, ss, ip, s),
    ensures
        !fails_at_global(top_code(ss, check_stmts_spec(env0, ss).0.names, ss.len() as int).0, names, s, ip, fuel),
    decreases fuel,
{
    let f = check_stmts_spec(env0, ss).0.names;
    let n = ss.len() as int;
    let code = top_code(ss, f, n).0;
    if 0 <= ip < code.len() && fuel > 0 {
        let k = lemma_find_segment(env0, ss, ip, n);
        lemma_code_prefix(env0, ss, k + 1, n);
        lemma_code_prefix(env0, ss, k, n);
        lemma_top_segment(env0, ss, k);
        let c = top_code(ss, f, k).0;
        let (_, l, n1) = top_code(ss, f, k);
        let seg = stmt_code(ss[k], l, false, n1, c.len() as int).0;
        let b0 = c.len() as int;
        let b1 = top_code(ss, f, k + 1).0.len() as int;
        assert(code[ip] == seg[ip - b0]) by {
            assert(code.take(b1)[ip] == code[ip]);
            assert((c + seg)[ip] == seg[ip - b0]);
        }
        let instr = code[ip];
        lemma_step_globals(instr, names, s, ip);
        assert(ready_at(env0, ss, k, s));
        match step_spec(code, names, s, ip) {
            StepSpec::Next(s2, ip2) => {
                assert(seg[ip - b0] == instr);
                assert(ip < ip2 <= b1) by {
                    assert(match jump_target(seg[ip - b0]) {
                        Some(t) => b0 + (ip - b0) < t && (t <= b0 + seg.len() || t == b0 + seg.len()),
                        None => true,
                    });
                }
                assert forall|j: int| 0 <= j < n && top_code(ss, f, j).0.len() <= ip2
                    implies #[trigger] ready_at(env0, ss, j, s2) by {
                    if top_code(ss, f, j).0.len() <= ip {
                        assert(ready_at(env0, ss, j, s));
                    } else {
                        if j <= k {
                            lemma_code_prefix(env0, ss, j, k);
                        }
                        if j >= k + 2 {
                            lemma_code_prefix(env0, ss, k + 2, j);
                            lemma_top_segment(env0, ss, k + 1);
                        }
                        assert(j == k + 1);
                        if ss[k] is VariableDecl {
                            assert(no_jumps(seg.drop_last()));
                            if ip - b0 < seg.len() - 1 {
                                assert(seg.drop_last()[ip - b0] == seg[ip - b0]);
                                assert(jump_target(seg[ip - b0]) is None);
                            }
                            assert(ip - b0 == seg.len() - 1);
                        }
                    }
                }
                lemma_run_finds_globals(env0, ss, names, s2, ip2, (fuel - 1) as nat);
            },
            StepSpec::Fail(..) => {
                if let Instruction::LoadName(id) = instr {
                    assert(seg[ip - b0] == instr);
                    assert(top_env(env0, ss, k).scopes[0].contains_key(id));
                }
            },
            StepSpec::Abort(..) => {},
        }
    }
}

/// A program that type-checks never raises a `NameError`: every global it
/// loads is set by the time it is loaded. This holds when the run starts
/// with every global of the checker's scope set: on a fresh machine after a
/// fresh checker, and between inputs for as long as each input checked.
///
/// The program is checked from `env` (one scope, the global one) and
/// compiled by a fresh compiler with the symbols that checking left; a run
/// from its first instruction, within any number of steps, never stops at
/// a `LoadName`.
pub proof fn law_checked_programs_find_their_globals(env: Env, ss: Seq<StmtV>, names: Seq<Seq<char>>, s: MachineState, n: nat)
    requires
        env.scopes.len() == 1,
        check_stmts_spec(env, ss).1 is Ok,
        stmts_code(ss, seq![Seq::<SymbolId>::empty()], false, check_stmts_spec(env, ss).0.names, 0).0.len() <= usize::MAX,
        forall|id: SymbolId| env.scopes[0].contains_key(id) ==> #[trigger] s.globals.contains_key(id),
    ensures
        !fails_at_global(stmts_code(ss, seq![Seq::<SymbolId>::empty()], false, check_stmts_spec(env, ss).0.names, 0).0, names, s, 0, n),
{
    let f = check_stmts_spec(env, ss).0.names;
    assert(ss.take(ss.len() as int) =~= ss);
    assert(ss.take(0) =~= Seq::<StmtV>::empty());
    assert forall|k: int| 0 <= k < ss.len() && top_code(ss, f, k).0.len() <= 0
        implies #[trigger] ready_at(env, ss, k, s) by {
        if k > 0 {
            lemma_code_prefix(env, ss, 1, k);
            lemma_top_segment(env, ss, 0);
        }
        assert(top_env(env, ss, 0) == env);
    }
    lemma_run_finds_globals(env, ss, names, s, 0, n);
}

/// Every runtime error but the one of `LoadName` starts otherwise than a
/// `NameError` does.
proof fn lemma_other_errors(instr: Instruction, names: Seq<Seq<char>>, s: MachineState, ip: int, x: Seq<char>)
    requires
        instruction_step(instr, names, s, ip) is Fail,
        !(instr is LoadName),
    ensures
        instruction_step(instr, names, s, ip)->Fail_0 != name_error_text(x),
{
    reveal_strlit("NameError: name '");
    reveal_strlit("SystemError: local slot ");
    reveal_strlit("SystemError: enclosing frame ");
    reveal_strlit("TypeError: condition must be bool, got ");
    reveal_strlit("SystemError: stack underflow (right operand)");
    reveal_strlit("SystemError: stack underflow (left operand)");
    reveal_strlit("SystemError: stack underflow at STORE_NAME");
    reveal_strlit("SystemError: stack underflow at STORE_LOCAL");
    reveal_strlit("SystemError: stack underflow at STORE_ENCLOSING");
    reveal_strlit("SystemError: cannot exit global frame");
    reveal_strlit("SystemError: stack underflow at JUMP_IF_FALSE");
    reveal_strlit("TypeError: '");
    reveal_strlit("ZeroDivisionError: division by zero");
    let m = instruction_step(instr, names, s, ip)->Fail_0;
    let ne = name_error_text(x);
    assert(ne[0] == 'N');
    assert(m.len() > 0 && m[0] != 'N');
}

/// A run that never stops at a `LoadName` ends with no `NameError`.
proof fn lemma_no_name_error(code: Seq<Instruction>, names: Seq<Seq<char>>, s: MachineState, ip: int, n: nat, x: Seq<char>)
    requires
        !fails_at_global(code, names, s, ip, n),
    ensures
        run_to_end(code, names, s, ip, n).0 != OutcomeV::Error(name_error_text(x)),
    decreases n,
{
    if 0 <= ip < code.len() {
        if n == 0 {
            reveal_strlit("NameError: name '");
            assert(name_error_text(x).len() > 0);
        } else {
            match step_spec(code, names, s, ip) {
                StepSpec::Next(s2, ip2) => {
                    lemma_no_name_error(code, names, s2, ip2, (n - 1) as nat, x);
                },
                StepSpec::Fail(..) => {
                    lemma_other_errors(code[ip], names, s, ip, x);
                },
                StepSpec::Abort(..) => {},
            }
        }
    }
}

/// A program that type-checks never raises a `NameError`: run from its
/// first instruction, as the interpreter runs it, on a machine where every
/// global of the checker's scope is set, it never ends with the message of
/// a name that is not defined.
pub proof fn law_checked_programs_raise_no_name_error(env: Env, ss: Seq<StmtV>, names: Seq<Seq<char>>, s: MachineState, n: nat, x: Seq<char>)
    requires
        env.scopes.len() == 1,
        check_stmts_spec(env, ss).1 is Ok,
        stmts_code(ss, seq![Seq::<SymbolId>::empty()], false, check_stmts_spec(env, ss).0.names, 0).0.len() <= usize::MAX,
        forall|id: SymbolId| env.scopes[0].contains_key(id) ==> #[trigger] s.globals.contains_key(id),
    ensures
        run_to_end(stmts_code(ss, seq![Seq::<SymbolId>::empty()], false, check_stmts_spec(env, ss).0.names, 0).0, names, s, 0, n).0
            != OutcomeV::Error(name_error_text(x)),
{
    law_checked_programs_find_their_globals(env, ss, names, s, n);
    lemma_no_name_error(stmts_code(ss, seq![Seq::<SymbolId>::empty()], false, check_stmts_spec(env, ss).0.names, 0).0, names, s, 0, n, x);
}

} // verus!
