//! The static type system: the types of the language and the checker that
//! verifies a program before it is compiled.

use vstd::prelude::*;
use vstd::string::*;
use crate::parser::{Expr, Operator, Stmt, StmtV, stmt_view, stmts_view, elifs_view, lemma_stmts_view, lemma_elifs_view};
use crate::symbol::{Interner, SymbolId, intern_result, law_intern_then_resolve};
use crate::text::{text_of, text_result};
use std::collections::HashMap;

verus! {

/// A type in the type system.
#[derive(Debug, Clone, Copy, PartialEq, Eq, Structural)]
pub enum Type {
    /// A 64-bit signed integer.
    Int,
    /// A boolean value.
    Bool,
}

/// The name of a type as it appears in source code.
pub open spec fn type_text(t: Type) -> Seq<char> {
    match t {
        Type::Int => "int"@,
        Type::Bool => "bool"@,
    }
}

impl Type {
    /// Returns the name of this type as it appears in source code.
    pub fn name(&self) -> (r: &'static str)
        ensures
            r@ == type_text(*self),
    {
        match self {
            Type::Int => "int",
            Type::Bool => "bool",
        }
    }
}

// ---------------------------------------------------------------------------
// The typing rules
// ---------------------------------------------------------------------------

/// The state the checker works on: the stack of lexical scopes (innermost
/// last), each mapping symbols to their declared types, and the interner's
/// table of names.
pub struct Env {
    pub scopes: Seq<Map<SymbolId, Type>>,
    pub names: Seq<Seq<char>>,
}

/// Interns a name in the environment's table.
pub open spec fn env_intern(env: Env, name: Seq<char>) -> (Env, SymbolId) {
    let (names, id) = intern_result(env.names, name);
    (Env { names, ..env }, SymbolId(id as usize))
}

/// The type of a symbol in the innermost scope that declares it.
pub open spec fn resolve_in(scopes: Seq<Map<SymbolId, Type>>, id: SymbolId) -> Option<Type>
    decreases scopes.len(),
{
    if scopes.len() == 0 {
        None
    } else if scopes.last().contains_key(id) {
        Some(scopes.last()[id])
    } else {
        resolve_in(scopes.drop_last(), id)
    }
}

pub open spec fn quoted(s: Seq<char>) -> Seq<char> {
    "'"@ + s + "'"@
}

pub open spec fn name_error_text(name: Seq<char>) -> Seq<char> {
    "NameError: name '"@ + name + "' is not defined"@
}

pub open spec fn arithmetic_type_error_text(l: Type, r: Type) -> Seq<char> {
    "TypeError: unsupported operand types for arithmetic: "@ + quoted(type_text(l)) + " and "@ + quoted(type_text(r))
}

pub open spec fn compare_type_error_text(l: Type, r: Type) -> Seq<char> {
    "TypeError: cannot compare "@ + quoted(type_text(l)) + " and "@ + quoted(type_text(r))
}

pub open spec fn declaration_mismatch_text(name: Seq<char>, declared: Type, found: Type) -> Seq<char> {
    "TypeError: mismatched types "@ + quoted(name) + " expected to be "@ + quoted(type_text(declared))
        + ", got "@ + quoted(type_text(found))
}

pub open spec fn assignment_mismatch_text(name: Seq<char>, declared: Type, found: Type) -> Seq<char> {
    "TypeError: mismatched types "@ + quoted(name) + " expected to be "@ + quoted(type_text(declared))
        + ", but got "@ + quoted(type_text(found))
}

pub open spec fn undefined_variable_text(name: Seq<char>) -> Seq<char> {
    "TypeError: variable "@ + quoted(name) + " not defined"@
}

pub open spec fn redeclaration_text(name: Seq<char>) -> Seq<char> {
    "Variable "@ + quoted(name) + " already declared in this scope"@
}

pub open spec fn if_condition_text(found: Type) -> Seq<char> {
    "TypeError: if condition must be 'bool', got "@ + quoted(type_text(found))
}

pub open spec fn elif_condition_text(found: Type) -> Seq<char> {
    "TypeError: elif condition must be 'bool', got "@ + quoted(type_text(found))
}

/// Whether an operator is one of `+ - * /`.
pub open spec fn is_arithmetic(op: Operator) -> bool {
    op == Operator::Plus || op == Operator::Minus || op == Operator::Star || op == Operator::Slash
}

/// The type of a binary operation: arithmetic takes two integers and gives
/// an integer; a comparison takes two operands of the same type and gives
/// a boolean.
pub open spec fn binary_op_type(op: Operator, l: Type, r: Type) -> Result<Type, Seq<char>> {
    if is_arithmetic(op) {
        if l == Type::Int && r == Type::Int { Ok(Type::Int) } else { Err(arithmetic_type_error_text(l, r)) }
    } else {
        if l == r { Ok(Type::Bool) } else { Err(compare_type_error_text(l, r)) }
    }
}

/// The type of an expression, with the names it interns.
pub open spec fn check_expr_spec(env: Env, e: Expr) -> (Env, Result<Type, Seq<char>>)
    decreases e,
{
    match e {
        Expr::Number(_) => (env, Ok(Type::Int)),
        Expr::Bool(_) => (env, Ok(Type::Bool)),
        Expr::Name(n) => {
            let (env1, id) = env_intern(env, n@);
            match resolve_in(env1.scopes, id) {
                Some(t) => (env1, Ok(t)),
                None => (env1, Err(name_error_text(n@))),
            }
        },
        Expr::BinaryOp { left, op, right } => {
            let (env1, l) = check_expr_spec(env, *left);
            match l {
                Err(m) => (env1, Err(m)),
                Ok(lt) => {
                    let (env2, r) = check_expr_spec(env1, *right);
                    match r {
                        Err(m) => (env2, Err(m)),
                        Ok(rt) => (env2, binary_op_type(op, lt, rt)),
                    }
                },
            }
        },
    }
}

/// Declares a symbol in the innermost scope, unless that scope declares it already.
pub open spec fn declare_spec(env: Env, id: SymbolId, typ: Type) -> (Env, Result<(), Seq<char>>) {
    let last = env.scopes.last();
    if last.contains_key(id) {
        (env, Err(redeclaration_text(env.names[id.0 as int])))
    } else {
        (Env { scopes: env.scopes.update(env.scopes.len() - 1, last.insert(id, typ)), ..env }, Ok(()))
    }
}

/// Checks one statement.
pub open spec fn check_stmt_spec(env: Env, s: StmtV) -> (Env, Result<(), Seq<char>>)
    decreases s, 0int,
{
    match s {
        StmtV::Expr(e) => {
            let (env1, r) = check_expr_spec(env, e);
            (env1, match r { Ok(_) => Ok(()), Err(m) => Err(m) })
        },
        StmtV::VariableDecl { name, typ, initializer } => {
            let (env1, id) = env_intern(env, name@);
            match initializer {
                Some(init) => {
                    let (env2, r) = check_expr_spec(env1, init);
                    match r {
                        Err(m) => (env2, Err(m)),
                        Ok(t) => if t != typ {
                            (env2, Err(declaration_mismatch_text(name@, typ, t)))
                        } else {
                            declare_spec(env2, id, typ)
                        },
                    }
                },
                None => declare_spec(env1, id, typ),
            }
        },
        StmtV::Assign { name, value } => {
            let (env1, id) = env_intern(env, name@);
            match resolve_in(env1.scopes, id) {
                None => (env1, Err(undefined_variable_text(name@))),
                Some(expected) => {
                    let (env2, r) = check_expr_spec(env1, value);
                    match r {
                        Err(m) => (env2, Err(m)),
                        Ok(t) => if expected != t {
                            (env2, Err(assignment_mismatch_text(name@, expected, t)))
                        } else {
                            (env2, Ok(()))
                        },
                    }
                },
            }
        },
        StmtV::If { condition, then_branch, elif_branches, else_branch } => {
            let (env1, c) = check_expr_spec(env, condition);
            match c {
                Err(m) => (env1, Err(m)),
                Ok(ct) => if ct != Type::Bool {
                    (env1, Err(if_condition_text(ct)))
                } else {
                    let (env2, r2) = check_block_spec(env1, then_branch);
                    match r2 {
                        Err(m) => (env2, Err(m)),
                        Ok(()) => {
                            let (env3, r3) = check_elifs_spec(env2, elif_branches);
                            match r3 {
                                Err(m) => (env3, Err(m)),
                                Ok(()) => match else_branch {
                                    Some(b) => check_block_spec(env3, b),
                                    None => (env3, Ok(())),
                                },
                            }
                        },
                    }
                },
            }
        },
    }
}

/// Checks a block in a new innermost scope; the scope is closed again when
/// the block checks, and stays open when it fails.
pub open spec fn check_block_spec(env: Env, ss: Seq<StmtV>) -> (Env, Result<(), Seq<char>>)
    decreases ss, 2int,
{
    let inner = Env { scopes: env.scopes.push(Map::empty()), ..env };
    let (env1, r) = check_stmts_spec(inner, ss);
    match r {
        Ok(()) => (Env { scopes: env1.scopes.drop_last(), ..env1 }, Ok(())),
        Err(m) => (env1, Err(m)),
    }
}

/// Checks statements in order, stopping at the first error.
pub open spec fn check_stmts_spec(env: Env, ss: Seq<StmtV>) -> (Env, Result<(), Seq<char>>)
    decreases ss, 1int,
{
    if ss.len() == 0 {
        (env, Ok(()))
    } else {
        let (env1, r) = check_stmts_spec(env, ss.drop_last());
        match r {
            Err(m) => (env1, Err(m)),
            Ok(()) => check_stmt_spec(env1, ss.last()),
        }
    }
}

/// Checks `elif` branches in order: each condition must be a boolean, and
/// each block is checked in its own scope.
pub open spec fn check_elifs_spec(env: Env, bs: Seq<(Expr, Seq<StmtV>)>) -> (Env, Result<(), Seq<char>>)
    decreases bs, 1int,
{
    if bs.len() == 0 {
        (env, Ok(()))
    } else {
        let (env1, r) = check_elifs_spec(env, bs.drop_last());
        match r {
            Err(m) => (env1, Err(m)),
            Ok(()) => {
                let (env2, c) = check_expr_spec(env1, bs.last().0);
                match c {
                    Err(m) => (env2, Err(m)),
                    Ok(ct) => if ct != Type::Bool {
                        (env2, Err(elif_condition_text(ct)))
                    } else {
                        check_block_spec(env2, bs.last().1)
                    },
                }
            },
        }
    }
}

// ---------------------------------------------------------------------------
// What checking keeps
// ---------------------------------------------------------------------------

pub(crate) proof fn lemma_names_extend_trans(a: Seq<Seq<char>>, b: Seq<Seq<char>>, c: Seq<Seq<char>>)
    requires
        names_extend(a, b),
        names_extend(b, c),
    ensures
        names_extend(a, c),
{
}

pub(crate) proof fn lemma_expr_keeps(env: Env, e: Expr)
    ensures
        check_expr_spec(env, e).0.scopes == env.scopes,
        names_extend(env.names, check_expr_spec(env, e).0.names),
    decreases e,
{
    match e {
        Expr::Name(n) => {
            lemma_intern_extends(env.names, n@);
        },
        Expr::BinaryOp { left, op, right } => {
            let (env1, l) = check_expr_spec(env, *left);
            lemma_expr_keeps(env, *left);
            if l is Ok {
                lemma_expr_keeps(env1, *right);
                lemma_names_extend_trans(env.names, env1.names, check_expr_spec(env1, *right).0.names);
            }
        },
        _ => {},
    }
}

pub(crate) proof fn lemma_stmt_keeps(env: Env, s: StmtV)
    requires
        env.scopes.len() >= 1,
    ensures
        check_stmt_spec(env, s).1 is Ok ==> check_stmt_spec(env, s).0.scopes.len() == env.scopes.len(),
        names_extend(env.names, check_stmt_spec(env, s).0.names),
    decreases s, 0int,
{
    match s {
        StmtV::Expr(e) => {
            lemma_expr_keeps(env, e);
        },
        StmtV::VariableDecl { name, typ, initializer } => {
            let (env1, id) = env_intern(env, name@);
            lemma_intern_extends(env.names, name@);
            match initializer {
                Some(init) => {
                    lemma_expr_keeps(env1, init);
                    lemma_names_extend_trans(env.names, env1.names, check_expr_spec(env1, init).0.names);
                },
                None => {},
            }
        },
        StmtV::Assign { name, value } => {
            let (env1, id) = env_intern(env, name@);
            lemma_intern_extends(env.names, name@);
            lemma_expr_keeps(env1, value);
            lemma_names_extend_trans(env.names, env1.names, check_expr_spec(env1, value).0.names);
        },
        StmtV::If { condition, then_branch, elif_branches, else_branch } => {
            let (env1, c) = check_expr_spec(env, condition);
            lemma_expr_keeps(env, condition);
            if c matches Ok(ct) && ct == Type::Bool {
                let (env2, r2) = check_block_spec(env1, then_branch);
                lemma_block_keeps(env1, then_branch);
                lemma_names_extend_trans(env.names, env1.names, env2.names);
                if r2 is Ok {
                    let (env3, r3) = check_elifs_spec(env2, elif_branches);
                    lemma_elifs_keeps(env2, elif_branches);
                    lemma_names_extend_trans(env.names, env2.names, env3.names);
                    if r3 is Ok {
                        if let Some(b) = else_branch {
                            lemma_block_keeps(env3, b);
                            lemma_names_extend_trans(env.names, env3.names, check_block_spec(env3, b).0.names);
                        }
                    }
                }
            }
        },
    }
}

pub(crate) proof fn lemma_block_keeps(env: Env, ss: Seq<StmtV>)
    requires
        env.scopes.len() >= 1,
    ensures
        check_block_spec(env, ss).1 is Ok ==> check_block_spec(env, ss).0.scopes.len() == env.scopes.len(),
        names_extend(env.names, check_block_spec(env, ss).0.names),
    decreases ss, 2int,
{
    let inner = Env { scopes: env.scopes.push(Map::empty()), ..env };
    lemma_stmts_keeps(inner, ss);
}

pub(crate) proof fn lemma_stmts_keeps(env: Env, ss: Seq<StmtV>)
    requires
        env.scopes.len() >= 1,
    ensures
        check_stmts_spec(env, ss).1 is Ok ==> check_stmts_spec(env, ss).0.scopes.len() == env.scopes.len(),
        names_extend(env.names, check_stmts_spec(env, ss).0.names),
    decreases ss, 1int,
{
    if ss.len() > 0 {
        let (env1, r) = check_stmts_spec(env, ss.drop_last());
        lemma_stmts_keeps(env, ss.drop_last());
        if r is Ok {
            lemma_stmt_keeps(env1, ss.last());
            lemma_names_extend_trans(env.names, env1.names, check_stmt_spec(env1, ss.last()).0.names);
        }
    }
}

pub(crate) proof fn lemma_elifs_keeps(env: Env, bs: Seq<(Expr, Seq<StmtV>)>)
    requires
        env.scopes.len() >= 1,
    ensures
        check_elifs_spec(env, bs).1 is Ok ==> check_elifs_spec(env, bs).0.scopes.len() == env.scopes.len(),
        names_extend(env.names, check_elifs_spec(env, bs).0.names),
    decreases bs, 1int,
{
    if bs.len() > 0 {
        let (env1, r) = check_elifs_spec(env, bs.drop_last());
        lemma_elifs_keeps(env, bs.drop_last());
        if r is Ok {
            let (env2, c) = check_expr_spec(env1, bs.last().0);
            lemma_expr_keeps(env1, bs.last().0);
            lemma_names_extend_trans(env.names, env1.names, env2.names);
            if c matches Ok(ct) && ct == Type::Bool {
                lemma_block_keeps(env2, bs.last().1);
                lemma_names_extend_trans(env.names, env2.names, check_block_spec(env2, bs.last().1).0.names);
            }
        }
    }
}

/// Checking only adds names to the interner's table, and a program that
/// checks leaves as many scopes open as it found: each block's scope is
/// closed again, so the declarations of the top level stay in the scope
/// that was innermost before (the global one, between REPL inputs).
pub proof fn law_check_closes_block_scopes(env: Env, ss: Seq<StmtV>)
    requires
        env.scopes.len() >= 1,
    ensures
        names_extend(env.names, check_stmts_spec(env, ss).0.names),
        check_stmts_spec(env, ss).1 is Ok ==> check_stmts_spec(env, ss).0.scopes.len() == env.scopes.len(),
{
    lemma_stmts_keeps(env, ss);
}

// ---------------------------------------------------------------------------
// The executable checker
// ---------------------------------------------------------------------------

/// The declarations of a scope, from a table keyed by the symbols' numbers.
pub open spec fn types_by_symbol(m: Map<usize, Type>) -> Map<SymbolId, Type> {
    Map::new(|k: SymbolId| m.contains_key(k.0), |k: SymbolId| m[k.0])
}

pub open spec fn env_of(scopes: Seq<Map<SymbolId, Type>>, names: Seq<Seq<char>>) -> Env {
    Env { scopes, names }
}

/// `later` keeps every name of `earlier` at its id.
pub open spec fn names_extend(earlier: Seq<Seq<char>>, later: Seq<Seq<char>>) -> bool {
    &&& earlier.len() <= later.len()
    &&& forall|i: int| 0 <= i < earlier.len() ==> later[i] == earlier[i]
}

pub proof fn lemma_intern_extends(names: Seq<Seq<char>>, s: Seq<char>)
    ensures
        names_extend(names, intern_result(names, s).0),
{
}

/// Once a prefix of the statements fails, checking more of them gives the
/// same outcome.
pub proof fn lemma_stmts_error_final(env: Env, ss: Seq<StmtV>, k: int)
    requires
        0 <= k <= ss.len(),
        check_stmts_spec(env, ss.take(k)).1 is Err,
    ensures
        check_stmts_spec(env, ss) == check_stmts_spec(env, ss.take(k)),
    decreases ss.len() - k,
{
    if k < ss.len() {
        assert(ss.take(k + 1).drop_last() =~= ss.take(k));
        lemma_stmts_error_final(env, ss, k + 1);
    } else {
        assert(ss.take(k) =~= ss);
    }
}

/// Once a prefix of the branches fails, checking more of them gives the
/// same outcome.
pub proof fn lemma_elifs_error_final(env: Env, bs: Seq<(Expr, Seq<StmtV>)>, k: int)
    requires
        0 <= k <= bs.len(),
        check_elifs_spec(env, bs.take(k)).1 is Err,
    ensures
        check_elifs_spec(env, bs) == check_elifs_spec(env, bs.take(k)),
    decreases bs.len() - k,
{
    if k < bs.len() {
        assert(bs.take(k + 1).drop_last() =~= bs.take(k));
        lemma_elifs_error_final(env, bs, k + 1);
    } else {
        assert(bs.take(k) =~= bs);
    }
}

/// A static type checker.
///
/// The checker walks the statements and verifies that all expressions and
/// statements are well-typed. It keeps a stack of scopes for nested blocks.
/// Variables must be declared before use, and assignments must match the
/// declared type.
pub struct TypeChecker {
    scopes: Vec<HashMap<usize, Type>>,
}

/// The checker that the whole pipeline uses.
pub type Checker = TypeChecker;

/// Appends `'text'` to `m`.
pub(crate) fn push_quoted(m: &mut String, text: &str)
    ensures
        final(m)@ == old(m)@ + quoted(text@),
{
    m.append("'");
    m.append(text);
    m.append("'");
}

impl Default for TypeChecker {
    fn default() -> (c: Self)
        ensures
            c.wf(),
            c@ == seq![Map::<SymbolId, Type>::empty()],
    {
        Self::new()
    }
}

impl TypeChecker {
    /// The scopes, innermost last, each as a map from symbols to types.
    pub closed spec fn view(&self) -> Seq<Map<SymbolId, Type>> {
        self.scopes@.map_values(|m: HashMap<usize, Type>| types_by_symbol(m@))
    }

    /// There is always at least the global scope.
    pub closed spec fn wf(&self) -> bool {
        self@.len() >= 1
    }

    /// Creates a new type checker with an empty global scope.
    pub fn new() -> (c: Self)
        ensures
            c.wf(),
            c@ == seq![Map::<SymbolId, Type>::empty()],
    {
        let global: HashMap<usize, Type> = HashMap::new();
        assert(types_by_symbol(global@) =~= Map::<SymbolId, Type>::empty());
        let c = TypeChecker { scopes: vec![global] };
        assert(c@ =~= seq![Map::<SymbolId, Type>::empty()]);
        c
    }

    /// The type of `id` in one scope.
    fn scope_lookup(scope: &HashMap<usize, Type>, id: SymbolId) -> (r: Option<Type>)
        ensures
            r == (if types_by_symbol(scope@).contains_key(id) { Some(types_by_symbol(scope@)[id]) } else { None::<Type> }),
    {
        proof {
            broadcast use vstd::std_specs::hash::group_hash_axioms;
        }
        match scope.get(&id.0) {
            Some(t) => Some(*t),
            None => None,
        }
    }

    /// Resolves a symbol to its type by searching scopes from innermost to
    /// outermost.
    fn resolve(&self, id: SymbolId) -> (r: Option<Type>)
        ensures
            r == resolve_in(self@, id),
    {
        let mut i = self.scopes.len();
        assert(self@.take(i as int) =~= self@);
        while i > 0
            invariant
                i <= self.scopes@.len(),
                resolve_in(self@.take(i as int), id) == resolve_in(self@, id),
            decreases i,
        {
            assert(self@.take(i as int).drop_last() =~= self@.take(i - 1));
            assert(self@.take(i as int).last() == types_by_symbol(self.scopes@[i - 1]@));
            match Self::scope_lookup(&self.scopes[i - 1], id) {
                Some(t) => return Some(t),
                None => {},
            }
            i = i - 1;
        }
        assert(self@.take(0) =~= Seq::<Map<SymbolId, Type>>::empty());
        None
    }

    /// Enters a new nested scope.
    fn enter_block(&mut self)
        ensures
            final(self)@ == old(self)@.push(Map::empty()),
    {
        let ghost before = self@;
        let scope: HashMap<usize, Type> = HashMap::new();
        assert(types_by_symbol(scope@) =~= Map::<SymbolId, Type>::empty());
        self.scopes.push(scope);
        assert(self@ =~= before.push(Map::empty()));
    }

    /// Exits the current scope and returns to the parent scope.
    fn exit_block(&mut self)
        requires
            old(self)@.len() >= 1,
        ensures
            final(self)@ == old(self)@.drop_last(),
    {
        let ghost before = self@;
        self.scopes.pop();
        assert(self@ =~= before.drop_last());
    }

    /// Declares a variable in the current scope; it is an error if this
    /// scope declares it already.
    fn declare(&mut self, id: SymbolId, typ: Type, interner: &Interner) -> (r: Result<(), String>)
        requires
            old(self).wf(),
            id.0 < interner@.len(),
        ensures
            final(self).wf(),
            (env_of(final(self)@, interner@), text_result(r)) == declare_spec(env_of(old(self)@, interner@), id, typ),
    {
        let ghost before = self@;
        let mut current = match self.scopes.pop() {
            Some(v) => v,
            None => return Ok(()),
        };
        assert(before.last() == types_by_symbol(current@));
        assert(self@ =~= before.drop_last());
        match Self::scope_lookup(&current, id) {
            Some(_) => {
                self.scopes.push(current);
                assert(self@ =~= before);
                let mut m = text_of("Variable ");
                push_quoted(&mut m, interner.resolve(id));
                m.append(" already declared in this scope");
                Err(m)
            },
            None => {
                let ghost old_scope = types_by_symbol(current@);
                proof {
                    broadcast use vstd::std_specs::hash::group_hash_axioms;
                }
                current.insert(id.0, typ);
                assert(types_by_symbol(current@) =~= old_scope.insert(id, typ));
                self.scopes.push(current);
                assert(self@ =~= before.update(before.len() - 1, before.last().insert(id, typ)));
                Ok(())
            },
        }
    }

    /// Type-checks a binary operation.
    pub fn check_binary_op(&self, op: Operator, l_type: Type, r_type: Type) -> (r: Result<Type, String>)
        ensures
            text_result(r) == binary_op_type(op, l_type, r_type),
    {
        match op {
            Operator::Plus | Operator::Minus | Operator::Star | Operator::Slash => {
                if l_type == Type::Int && r_type == Type::Int {
                    Ok(Type::Int)
                } else {
                    let mut m = text_of("TypeError: unsupported operand types for arithmetic: ");
                    push_quoted(&mut m, l_type.name());
                    m.append(" and ");
                    push_quoted(&mut m, r_type.name());
                    Err(m)
                }
            },
            _ => {
                if l_type == r_type {
                    Ok(Type::Bool)
                } else {
                    let mut m = text_of("TypeError: cannot compare ");
                    push_quoted(&mut m, l_type.name());
                    m.append(" and ");
                    push_quoted(&mut m, r_type.name());
                    Err(m)
                }
            },
        }
    }

    /// Type-checks an expression and returns its type.
    fn check_expr(&self, expr: &Expr, interner: &mut Interner) -> (r: Result<Type, String>)
        ensures
            (env_of(self@, final(interner)@), text_result(r)) == check_expr_spec(env_of(self@, old(interner)@), *expr),
            names_extend(old(interner)@, final(interner)@),
        decreases expr,
    {
        match expr {
            Expr::Number(_) => Ok(Type::Int),
            Expr::Bool(_) => Ok(Type::Bool),
            Expr::Name(name) => {
                let sym_id = interner.intern(name.as_str());
                proof { lemma_intern_extends(old(interner)@, name@); }
                match self.resolve(sym_id) {
                    Some(t) => Ok(t),
                    None => {
                        let mut m = text_of("NameError: name '");
                        m.append(name.as_str());
                        m.append("' is not defined");
                        Err(m)
                    },
                }
            },
            Expr::BinaryOp { left, op, right } => {
                let l_type = match self.check_expr(left, interner) {
                    Ok(t) => t,
                    Err(m) => return Err(m),
                };
                let r_type = match self.check_expr(right, interner) {
                    Ok(t) => t,
                    Err(m) => return Err(m),
                };
                self.check_binary_op(*op, l_type, r_type)
            },
        }
    }

    /// Type-checks a single statement.
    fn check_stmt(&mut self, stmt: &Stmt, interner: &mut Interner) -> (r: Result<(), String>)
        requires
            old(self).wf(),
        ensures
            final(self).wf(),
            (env_of(final(self)@, final(interner)@), text_result(r))
                == check_stmt_spec(env_of(old(self)@, old(interner)@), stmt_view(*stmt)),
            final(self)@.len() >= old(self)@.len(),
            r is Ok ==> final(self)@.len() == old(self)@.len(),
        decreases stmt, 0int,
    {
        match stmt {
            Stmt::Expr(expr) => {
                match self.check_expr(expr, interner) {
                    Ok(_) => Ok(()),
                    Err(m) => Err(m),
                }
            },
            Stmt::VariableDecl { name, typ, initializer } => {
                let sym_id = interner.intern(name.as_str());
                proof { law_intern_then_resolve(old(interner)@, name@); }
                if let Some(init) = initializer {
                    let ghost names1 = interner@;
                    let init_type = match self.check_expr(init, interner) {
                        Ok(t) => t,
                        Err(m) => return Err(m),
                    };
                    if init_type != *typ {
                        let mut m = text_of("TypeError: mismatched types ");
                        push_quoted(&mut m, name.as_str());
                        m.append(" expected to be ");
                        push_quoted(&mut m, typ.name());
                        m.append(", got ");
                        push_quoted(&mut m, init_type.name());
                        return Err(m);
                    }
                }
                self.declare(sym_id, *typ, interner)
            },
            Stmt::Assign { name, value } => {
                let sym_id = interner.intern(name.as_str());
                let expected_type = match self.resolve(sym_id) {
                    Some(t) => t,
                    None => {
                        let mut m = text_of("TypeError: variable ");
                        push_quoted(&mut m, name.as_str());
                        m.append(" not defined");
                        return Err(m);
                    },
                };
                let val_type = match self.check_expr(value, interner) {
                    Ok(t) => t,
                    Err(m) => return Err(m),
                };
                if expected_type != val_type {
                    let mut m = text_of("TypeError: mismatched types ");
                    push_quoted(&mut m, name.as_str());
                    m.append(" expected to be ");
                    push_quoted(&mut m, expected_type.name());
                    m.append(", but got ");
                    push_quoted(&mut m, val_type.name());
                    return Err(m);
                }
                Ok(())
            },
            Stmt::If { condition, then_branch, elif_branches, else_branch } => {
                let cond_type = match self.check_expr(condition, interner) {
                    Ok(t) => t,
                    Err(m) => return Err(m),
                };
                if cond_type != Type::Bool {
                    let mut m = text_of("TypeError: if condition must be 'bool', got ");
                    push_quoted(&mut m, cond_type.name());
                    return Err(m);
                }
                match self.check_block(then_branch, interner) {
                    Ok(()) => {},
                    Err(m) => return Err(m),
                }
                match self.check_elif_branches(elif_branches, interner) {
                    Ok(()) => {},
                    Err(m) => return Err(m),
                }
                match else_branch {
                    Some(else_block) => self.check_block(else_block, interner),
                    None => Ok(()),
                }
            },
        }
    }

    /// Type-checks a block of statements in a new scope.
    fn check_block(&mut self, stmts: &Vec<Stmt>, interner: &mut Interner) -> (r: Result<(), String>)
        requires
            old(self).wf(),
        ensures
            final(self).wf(),
            (env_of(final(self)@, final(interner)@), text_result(r))
                == check_block_spec(env_of(old(self)@, old(interner)@), stmts_view(stmts@)),
            final(self)@.len() >= old(self)@.len(),
            r is Ok ==> final(self)@.len() == old(self)@.len(),
        decreases stmts, 2int,
    {
        let ghost ss = stmts_view(stmts@);
        proof { lemma_stmts_view(stmts@); }
        self.enter_block();
        let ghost inner = env_of(self@, interner@);
        let mut i: usize = 0;
        assert(ss.take(0) =~= Seq::<StmtV>::empty());
        while i < stmts.len()
            invariant
                self.wf(),
                i <= stmts@.len(),
                ss == stmts_view(stmts@),
                ss.len() == stmts@.len(),
                forall|j: int| 0 <= j < stmts@.len() ==> #[trigger] ss[j] == stmt_view(stmts@[j]),
                inner.scopes == old(self)@.push(Map::empty()),
                inner.names == old(interner)@,
                check_stmts_spec(inner, ss.take(i as int)) == (env_of(self@, interner@), Ok::<(), Seq<char>>(())),
                self@.len() == old(self)@.len() + 1,
            decreases stmts@.len() - i,
        {
            assert(ss.take(i + 1).drop_last() =~= ss.take(i as int));
            assert(ss.take(i + 1).last() == ss[i as int]);
            proof { assert(decreases_to!(stmts => stmts@[i as int])); }
            match self.check_stmt(&stmts[i], interner) {
                Ok(()) => {},
                Err(m) => {
                    proof { lemma_stmts_error_final(inner, ss, i + 1); }
                    return Err(m);
                },
            }
            i = i + 1;
        }
        assert(ss.take(i as int) =~= ss);
        self.exit_block();
        Ok(())
    }

    /// Type-checks `elif` branches in order.
    fn check_elif_branches(&mut self, branches: &Vec<(Expr, Vec<Stmt>)>, interner: &mut Interner) -> (r: Result<(), String>)
        requires
            old(self).wf(),
        ensures
            final(self).wf(),
            (env_of(final(self)@, final(interner)@), text_result(r))
                == check_elifs_spec(env_of(old(self)@, old(interner)@), elifs_view(branches@)),
            final(self)@.len() >= old(self)@.len(),
            r is Ok ==> final(self)@.len() == old(self)@.len(),
        decreases branches, 1int,
    {
        let ghost bs = elifs_view(branches@);
        proof { lemma_elifs_view(branches@); }
        let ghost start = env_of(self@, interner@);
        let mut i: usize = 0;
        assert(bs.take(0) =~= Seq::<(Expr, Seq<StmtV>)>::empty());
        while i < branches.len()
            invariant
                self.wf(),
                i <= branches@.len(),
                bs == elifs_view(branches@),
                bs.len() == branches@.len(),
                forall|j: int| 0 <= j < branches@.len() ==> #[trigger] bs[j] == (branches@[j].0, stmts_view(branches@[j].1@)),
                start.scopes == old(self)@,
                start.names == old(interner)@,
                check_elifs_spec(start, bs.take(i as int)) == (env_of(self@, interner@), Ok::<(), Seq<char>>(())),
                self@.len() == old(self)@.len(),
            decreases branches@.len() - i,
        {
            assert(bs.take(i + 1).drop_last() =~= bs.take(i as int));
            assert(bs.take(i + 1).last() == bs[i as int]);
            let cond_type = match self.check_expr(&branches[i].0, interner) {
                Ok(t) => t,
                Err(m) => {
                    proof { lemma_elifs_error_final(start, bs, i + 1); }
                    return Err(m);
                },
            };
            if cond_type != Type::Bool {
                let mut m = text_of("TypeError: elif condition must be 'bool', got ");
                push_quoted(&mut m, cond_type.name());
                proof { lemma_elifs_error_final(start, bs, i + 1); }
                return Err(m);
            }
            proof { assert(decreases_to!(branches => branches@[i as int].1)); }
            match self.check_block(&branches[i].1, interner) {
                Ok(()) => {},
                Err(m) => {
                    proof { lemma_elifs_error_final(start, bs, i + 1); }
                    return Err(m);
                },
            }
            i = i + 1;
        }
        assert(bs.take(i as int) =~= bs);
        Ok(())
    }

    /// Type-checks a list of statements, in order, stopping at the first
    /// ill-typed one.
    pub fn check(&mut self, stmts: &[Stmt], interner: &mut Interner) -> (r: Result<(), String>)
        requires
            old(self).wf(),
        ensures
            final(self).wf(),
            (env_of(final(self)@, final(interner)@), text_result(r))
                == check_stmts_spec(env_of(old(self)@, old(interner)@), stmts_view(stmts@)),
    {
        let ghost ss = stmts_view(stmts@);
        proof { lemma_stmts_view(stmts@); }
        let ghost start = env_of(self@, interner@);
        let mut i: usize = 0;
        assert(ss.take(0) =~= Seq::<StmtV>::empty());
        while i < stmts.len()
            invariant
                self.wf(),
                i <= stmts@.len(),
                ss == stmts_view(stmts@),
                ss.len() == stmts@.len(),
                forall|j: int| 0 <= j < stmts@.len() ==> #[trigger] ss[j] == stmt_view(stmts@[j]),
                start == env_of(old(self)@, old(interner)@),
                check_stmts_spec(start, ss.take(i as int)) == (env_of(self@, interner@), Ok::<(), Seq<char>>(())),
            decreases stmts@.len() - i,
        {
            assert(ss.take(i + 1).drop_last() =~= ss.take(i as int));
            assert(ss.take(i + 1).last() == ss[i as int]);
            match self.check_stmt(&stmts[i], interner) {
                Ok(()) => {},
                Err(m) => {
                    proof { lemma_stmts_error_final(start, ss, i + 1); }
                    return Err(m);
                },
            }
            i = i + 1;
        }
        assert(ss.take(i as int) =~= ss);
        Ok(())
    }
}

/// A declaration that checks binds its variable to a value of its declared
/// type: for every declared type, the initializer of a checked declaration
/// `name: T = e` has type `T`, and the declaration adds `name` with type `T`
/// to the innermost scope.
pub proof fn law_declarations_hold_their_type(env: Env, name: String, typ: Type, init: Expr)
    requires
        env.scopes.len() >= 1,
        check_stmt_spec(env, StmtV::VariableDecl { name, typ, initializer: Some(init) }).1 is Ok,
    ensures
        check_expr_spec(env_intern(env, name@).0, init).1 == Ok::<Type, Seq<char>>(typ),
        ({
            let after = check_stmt_spec(env, StmtV::VariableDecl { name, typ, initializer: Some(init) }).0;
            let id = env_intern(env, name@).1;
            &&& after.scopes.last().contains_key(id)
            &&& after.scopes.last()[id] == typ
        }),
{
    lemma_expr_keeps(env_intern(env, name@).0, init);
}

/// A declaration without initializer binds its variable with its declared
/// type as well.
pub proof fn law_bare_declarations_hold_their_type(env: Env, name: String, typ: Type)
    requires
        env.scopes.len() >= 1,
        check_stmt_spec(env, StmtV::VariableDecl { name, typ, initializer: None }).1 is Ok,
    ensures
        ({
            let after = check_stmt_spec(env, StmtV::VariableDecl { name, typ, initializer: None }).0;
            let id = env_intern(env, name@).1;
            &&& after.scopes.last().contains_key(id)
            &&& after.scopes.last()[id] == typ
        }),
{
}

/// Operators are typed by what they mean: `+ - * /` take two integers and
/// give an integer; `== != < > <= >=` take two operands of one type and
/// give a boolean; every other pair of operand types is an error.
pub proof fn law_operator_typing(env: Env, l: Expr, op: Operator, r: Expr)
    requires
        check_expr_spec(env, l).1 is Ok,
        check_expr_spec(check_expr_spec(env, l).0, r).1 is Ok,
    ensures
        ({
            let lt = check_expr_spec(env, l).1->Ok_0;
            let rt = check_expr_spec(check_expr_spec(env, l).0, r).1->Ok_0;
            let res = check_expr_spec(env, Expr::BinaryOp { left: Box::new(l), op, right: Box::new(r) }).1;
            let arithmetic = op == Operator::Plus || op == Operator::Minus || op == Operator::Star || op == Operator::Slash;
            &&& arithmetic ==> (res is Ok <==> (lt == Type::Int && rt == Type::Int))
            &&& arithmetic && res is Ok ==> res == Ok::<Type, Seq<char>>(Type::Int)
            &&& !arithmetic ==> (res is Ok <==> lt == rt)
            &&& !arithmetic && res is Ok ==> res == Ok::<Type, Seq<char>>(Type::Bool)
        }),
{
}

/// An assignment that checks stores a value of the variable's declared
/// type: the variable is declared, and the value has its type.
pub proof fn law_assignments_keep_their_type(env: Env, name: String, value: Expr)
    requires
        check_stmt_spec(env, StmtV::Assign { name, value }).1 is Ok,
    ensures
        ({
            let (env1, id) = env_intern(env, name@);
            &&& resolve_in(env1.scopes, id) is Some
            &&& check_expr_spec(env1, value).1 == Ok::<Type, Seq<char>>(resolve_in(env1.scopes, id)->Some_0)
        }),
{
}

/// The condition of an `if` that checks is a boolean.
pub proof fn law_conditions_are_booleans(env: Env, condition: Expr, then_branch: Seq<StmtV>, elif_branches: Seq<(Expr, Seq<StmtV>)>, else_branch: Option<Seq<StmtV>>)
    requires
        check_stmt_spec(env, StmtV::If { condition, then_branch, elif_branches, else_branch }).1 is Ok,
    ensures
        check_expr_spec(env, condition).1 == Ok::<Type, Seq<char>>(Type::Bool),
{
}

} // verus!
