//! The whole interpreter on one source text: tokens, program, type check,
//! bytecode and run, each stage given by its spec function.

use vstd::prelude::*;
use crate::tokenizer::{Token, TokenV, lex, input_fits, tokens_view, try_tokenize_str};
use crate::parser::{Parser, Stmt, stmts_view, parse_program_at};
use crate::types::{Type, TypeChecker, check_stmts_spec, env_of};
use crate::compiler::{Compiler, Instruction, stmts_code, expr_code, operator_instruction};
use crate::symbol::{Interner, SymbolId};
use crate::object::Object;
use crate::vm::{VM, StepOutcome, StepSpec, MachineState, step_spec, finish_spec, halts, aborts, law_compiled_programs_end, push_value, pop_value};
use crate::parser::{StmtV, Expr, Operator};

verus! {

/// How far a source text gets before it runs, with what each stage made.
#[derive(Debug)]
pub enum FrontEnd {
    /// The text does not tokenize: the interpreter stops with this message.
    LexError(String),
    /// The tokens, and the syntax error that the parser reports.
    ParseError(Vec<Token>, String),
    /// The tokens, the program, and the type error that the checker reports.
    TypeError(Vec<Token>, Vec<Stmt>, String),
    /// The tokens, the program, and its bytecode.
    Compiled(Vec<Token>, Vec<Stmt>, Vec<Instruction>),
}

/// What evaluating a source text comes to.
#[derive(Debug)]
pub enum Outcome {
    /// The value of the program (`None` when it leaves none).
    Value(Object),
    /// An error reported to the user: a syntax, type or runtime error.
    Error(String),
    /// An error that stops the interpreter: a lexical error or an
    /// arithmetic overflow.
    Abort(String),
}

/// An outcome, with its message as text.
pub enum OutcomeV {
    Value(Object),
    Error(Seq<char>),
    Abort(Seq<char>),
}

pub open spec fn outcome_view(o: Outcome) -> OutcomeV {
    match o {
        Outcome::Value(v) => OutcomeV::Value(v),
        Outcome::Error(m) => OutcomeV::Error(m@),
        Outcome::Abort(m) => OutcomeV::Abort(m@),
    }
}

/// The bytecode of a program compiled by a fresh compiler, and the symbol
/// table after it.
pub open spec fn program_code(ss: Seq<StmtV>, names: Seq<Seq<char>>) -> (Seq<Instruction>, Seq<Seq<char>>) {
    let r = stmts_code(ss, seq![Seq::<SymbolId>::empty()], false, names, 0);
    (r.0, r.2)
}

/// `fe` is what the stages make of the text `cs`, starting from the checker
/// scopes `scopes0` and the symbols `names0` and ending with `scopes1` and
/// `names1`.
pub open spec fn front_end_matches(
    fe: FrontEnd,
    cs: Seq<char>,
    scopes0: Seq<Map<SymbolId, Type>>,
    names0: Seq<Seq<char>>,
    scopes1: Seq<Map<SymbolId, Type>>,
    names1: Seq<Seq<char>>,
) -> bool {
    match fe {
        FrontEnd::LexError(m) => {
            &&& lex(cs) == Err::<Seq<TokenV>, Seq<char>>(m@)
            &&& scopes1 == scopes0
            &&& names1 == names0
        },
        FrontEnd::ParseError(ts, m) => {
            &&& lex(cs) == Ok::<Seq<TokenV>, Seq<char>>(tokens_view(ts@))
            &&& parse_program_at(ts@, 0) == Err::<Seq<StmtV>, Seq<char>>(m@)
            &&& scopes1 == scopes0
            &&& names1 == names0
        },
        FrontEnd::TypeError(ts, ast, m) => {
            &&& lex(cs) == Ok::<Seq<TokenV>, Seq<char>>(tokens_view(ts@))
            &&& parse_program_at(ts@, 0) == Ok::<Seq<StmtV>, Seq<char>>(stmts_view(ast@))
            &&& check_stmts_spec(env_of(scopes0, names0), stmts_view(ast@))
                == (env_of(scopes1, names1), Err::<(), Seq<char>>(m@))
        },
        FrontEnd::Compiled(ts, ast, code) => {
            let (env, res) = check_stmts_spec(env_of(scopes0, names0), stmts_view(ast@));
            &&& lex(cs) == Ok::<Seq<TokenV>, Seq<char>>(tokens_view(ts@))
            &&& parse_program_at(ts@, 0) == Ok::<Seq<StmtV>, Seq<char>>(stmts_view(ast@))
            &&& res is Ok
            &&& env.scopes == scopes1
            &&& program_code(stmts_view(ast@), env.names) == (code@, names1)
        },
    }
}

/// What a run of `code` from `ip` comes to within `n` steps, and the state
/// of the machine after it.
pub open spec fn run_to_end(code: Seq<Instruction>, names: Seq<Seq<char>>, s: MachineState, ip: int, n: nat) -> (OutcomeV, MachineState)
    decreases n,
{
    if !(0 <= ip < code.len()) {
        let (v, s2) = finish_spec(s);
        (OutcomeV::Value(v), s2)
    } else if n == 0 {
        (OutcomeV::Error(Seq::empty()), s)
    } else {
        match step_spec(code, names, s, ip) {
            StepSpec::Next(s2, ip2) => run_to_end(code, names, s2, ip2, (n - 1) as nat),
            StepSpec::Fail(m, s2) => (OutcomeV::Error(m), s2),
            StepSpec::Abort(m, s2) => (OutcomeV::Abort(m), s2),
        }
    }
}

/// Tokenizes, parses, type-checks and compiles a source text, stopping at
/// the first stage that fails.
pub fn front_end(source: &str, interner: &mut Interner, checker: &mut TypeChecker) -> (r: FrontEnd)
    requires
        input_fits(source@),
        old(checker).wf(),
    ensures
        final(checker).wf(),
        front_end_matches(r, source@, old(checker)@, old(interner)@, final(checker)@, final(interner)@),
{
    let tokens = match try_tokenize_str(source) {
        Ok(ts) => ts,
        Err(m) => return FrontEnd::LexError(m),
    };
    let mut parser = Parser::new(tokens);
    let parsed = parser.parse();
    let tokens = parser.into_tokens();
    let ast = match parsed {
        Ok(ast) => ast,
        Err(m) => return FrontEnd::ParseError(tokens, m),
    };
    match checker.check(ast.as_slice(), interner) {
        Ok(()) => {},
        Err(m) => return FrontEnd::TypeError(tokens, ast, m),
    }
    let code = Compiler::new().compile(ast.as_slice(), interner);
    FrontEnd::Compiled(tokens, ast, code)
}

/// Runs bytecode from its first instruction until it leaves the code, stops
/// at a runtime error or aborts.
fn run_code(vm: &mut VM, code: &[Instruction], interner: &Interner) -> (r: Outcome)
    requires
        old(vm).wf(),
        halts(code@, interner@, old(vm).state(), 0, code@.len())
            || aborts(code@, interner@, old(vm).state(), 0, code@.len()),
    ensures
        final(vm).wf(),
        (outcome_view(r), final(vm).state()) == run_to_end(code@, interner@, old(vm).state(), 0, code@.len()),
{
    let ghost c = code@;
    let ghost names = interner@;
    let ghost s0 = vm.state();
    let ghost n0: nat = code@.len();
    let ghost mut fuel: nat = n0;
    let mut ip: usize = 0;
    while ip < code.len()
        invariant
            vm.wf(),
            c == code@,
            names == interner@,
            s0 == old(vm).state(),
            n0 == code@.len(),
            halts(c, names, vm.state(), ip as int, fuel) || aborts(c, names, vm.state(), ip as int, fuel),
            run_to_end(c, names, s0, 0, n0) == run_to_end(c, names, vm.state(), ip as int, fuel),
        decreases fuel,
    {
        let ghost before = vm.state();
        assert(fuel > 0);
        match vm.step(code, interner, ip) {
            StepOutcome::Continue(next) => {
                ip = next;
                proof { fuel = (fuel - 1) as nat; }
            },
            StepOutcome::Error(e) => {
                assert(step_spec(c, names, before, ip as int) is Fail);
                assert(run_to_end(c, names, before, ip as int, fuel) == (OutcomeV::Error(e@), vm.state()));
                let r = Outcome::Error(e);
                assert(outcome_view(r) == OutcomeV::Error(e@));
                return r;
            },
            StepOutcome::Abort(e) => {
                assert(step_spec(c, names, before, ip as int) is Abort);
                assert(run_to_end(c, names, before, ip as int, fuel) == (OutcomeV::Abort(e@), vm.state()));
                let r = Outcome::Abort(e);
                assert(outcome_view(r) == OutcomeV::Abort(e@));
                return r;
            },
        }
    }
    let v = vm.finish();
    Outcome::Value(v)
}

/// Evaluates a source text: runs its bytecode on the machine when every
/// stage before succeeds. Gives what the stages made and the outcome: the
/// program's value, its syntax, type or runtime error, or the message that
/// stops the interpreter (a lexical error or an arithmetic overflow).
///
/// The checker, the symbols and the machine carry over from one text to
/// the next, as in the interactive loop.
pub fn evaluate(source: &str, vm: &mut VM, interner: &mut Interner, checker: &mut TypeChecker) -> (r: (FrontEnd, Outcome))
    requires
        input_fits(source@),
        old(checker).wf(),
        old(vm).wf(),
    ensures
        final(checker).wf(),
        final(vm).wf(),
        front_end_matches(r.0, source@, old(checker)@, old(interner)@, final(checker)@, final(interner)@),
        match r.0 {
            FrontEnd::LexError(m) => outcome_view(r.1) == OutcomeV::Abort(m@) && final(vm).state() == old(vm).state(),
            FrontEnd::ParseError(_, m) => outcome_view(r.1) == OutcomeV::Error(m@) && final(vm).state() == old(vm).state(),
            FrontEnd::TypeError(_, _, m) => outcome_view(r.1) == OutcomeV::Error(m@) && final(vm).state() == old(vm).state(),
            FrontEnd::Compiled(_, _, code) =>
                (outcome_view(r.1), final(vm).state()) == run_to_end(code@, final(interner)@, old(vm).state(), 0, code@.len()),
        },
{
    let ghost scopes0 = checker@;
    let ghost names0 = interner@;
    let fe = front_end(source, interner, checker);
    let outcome = match &fe {
        FrontEnd::LexError(m) => Outcome::Abort(m.clone()),
        FrontEnd::ParseError(_, m) => Outcome::Error(m.clone()),
        FrontEnd::TypeError(_, _, m) => Outcome::Error(m.clone()),
        FrontEnd::Compiled(_, ast, code) => {
            let len = code.len();
            proof {
                let names_mid = check_stmts_spec(env_of(scopes0, names0), stmts_view(ast@)).0.names;
                assert(code@ == stmts_code(stmts_view(ast@), seq![Seq::<SymbolId>::empty()], false, names_mid, 0).0);
                law_compiled_programs_end(ast@, names_mid, interner@, vm.state());
            }
            run_code(vm, code.as_slice(), interner)
        },
    };
    (fe, outcome)
}

/// Compiled operators mean their source operators: the bytecode of `a OP b`
/// for integers `a` and `b`, run from any state, gives the truth of the
/// comparison for `== != < > <= >=`, the sum, difference or product when it
/// fits in `i64`, and for `/` the quotient of a non-negative dividend by a
/// positive divisor, or the division-by-zero error.
#[verifier::spinoff_prover]
#[verifier::rlimit(40)]
pub proof fn law_compiled_operators_mean_their_operators(
    a: i64,
    b: i64,
    op: Operator,
    locals: Seq<Seq<SymbolId>>,
    names: Seq<Seq<char>>,
    run_names: Seq<Seq<char>>,
    s: MachineState,
)
    ensures
        ({
            let code = expr_code(Expr::BinaryOp { left: Box::new(Expr::Number(a)), op, right: Box::new(Expr::Number(b)) }, locals, names).0;
            let out = run_to_end(code, run_names, s, 0, code.len()).0;
            match op {
                Operator::Eq => out == OutcomeV::Value(Object::Bool(a == b)),
                Operator::NotEq => out == OutcomeV::Value(Object::Bool(a != b)),
                Operator::Less => out == OutcomeV::Value(Object::Bool(a < b)),
                Operator::Greater => out == OutcomeV::Value(Object::Bool(a > b)),
                Operator::LessEq => out == OutcomeV::Value(Object::Bool(a <= b)),
                Operator::GreaterEq => out == OutcomeV::Value(Object::Bool(a >= b)),
                Operator::Plus => i64::MIN <= a + b <= i64::MAX ==> out == OutcomeV::Value(Object::Int((a + b) as i64)),
                Operator::Minus => i64::MIN <= a - b <= i64::MAX ==> out == OutcomeV::Value(Object::Int((a - b) as i64)),
                Operator::Star => i64::MIN <= a * b <= i64::MAX ==> out == OutcomeV::Value(Object::Int((a * b) as i64)),
                Operator::Slash => {
                    &&& b == 0 ==> out == OutcomeV::Error("ZeroDivisionError: division by zero"@)
                    &&& (a >= 0 && b > 0) ==> out == OutcomeV::Value(Object::Int((a / b) as i64))
                    &&& (a < 0 && b > 0) ==> out == OutcomeV::Value(Object::Int((-((-(a as int)) / (b as int))) as i64))
                    &&& (a >= 0 && b < 0) ==> out == OutcomeV::Value(Object::Int((-((a as int) / (-(b as int)))) as i64))
                    &&& (a < 0 && b < 0 && (-(a as int)) / (-(b as int)) <= i64::MAX) ==> out == OutcomeV::Value(Object::Int(((-(a as int)) / (-(b as int))) as i64))
                },
            }
        }),
{
    let code = expr_code(Expr::BinaryOp { left: Box::new(Expr::Number(a)), op, right: Box::new(Expr::Number(b)) }, locals, names).0;
    let instr = operator_instruction(op);
    assert(expr_code(Expr::Number(a), locals, names) == (seq![Instruction::LoadConst(Object::Int(a))], names));
    assert(expr_code(Expr::Number(b), locals, names) == (seq![Instruction::LoadConst(Object::Int(b))], names));
    assert(code =~= seq![Instruction::LoadConst(Object::Int(a)), Instruction::LoadConst(Object::Int(b)), instr]);
    let s1 = push_value(s, Object::Int(a));
    let s2 = push_value(s1, Object::Int(b));
    assert(step_spec(code, run_names, s, 0) == StepSpec::Next(s1, 1));
    assert(step_spec(code, run_names, s1, 1) == StepSpec::Next(s2, 2));
    assert(s2.stack.last() == Object::Int(b));
    assert(pop_value(s2).stack.last() == Object::Int(a));
    assert(pop_value(s2).stack.len() > 0);
    assert(run_to_end(code, run_names, s1, 1, 2) == run_to_end(code, run_names, s2, 2, 1));
    assert(run_to_end(code, run_names, s, 0, 3) == run_to_end(code, run_names, s1, 1, 2));
    let s3 = pop_value(pop_value(s2));
    if op == Operator::Slash && b != 0 {
        let x: int = if a < 0 { -(a as int) } else { a as int };
        let y: int = if b < 0 { -(b as int) } else { b as int };
        assert(0 <= x / y <= x) by (nonlinear_arith)
            requires
                x >= 0,
                y > 0,
        ;
        assert(crate::object::trunc_div(a as int, b as int) == if (a < 0) == (b < 0) { x / y } else { -(x / y) });
    }
    match step_spec(code, run_names, s2, 2) {
        StepSpec::Next(s4, ip4) => {
            assert(ip4 == 3);
            assert(run_to_end(code, run_names, s4, 3, 0) == (OutcomeV::Value(s4.stack.last()), pop_value(s4)));
        },
        _ => {},
    }
}

} // verus!
