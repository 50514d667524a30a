//! Name resolution: every reference must be bound by a parameter, by an
//! earlier assignment, or by a function of the program; no function is
//! defined twice, and none inside a body.

use crate::ast::{expr_view, stmt_view, Expr, ExprView, Program, ProgramView, Stmt, StmtView};
use crate::names::{contains_name, has_name, names_view};
use vstd::prelude::*;
use vstd::string::*;

verus! {

/// `Undefined variable or function: NAME`.
pub open spec fn undefined_name(name: Seq<char>) -> Seq<char> {
    "Undefined variable or function: "@ + name
}

/// `Undefined function: NAME`.
pub open spec fn undefined_function(name: Seq<char>) -> Seq<char> {
    "Undefined function: "@ + name
}

/// `Nested function definition: NAME`.
pub open spec fn nested_definition(name: Seq<char>) -> Seq<char> {
    "Nested function definition: "@ + name
}

/// `Function already defined: NAME`.
pub open spec fn already_defined(name: Seq<char>) -> Seq<char> {
    "Function already defined: "@ + name
}

/// The first message in a list of findings.
pub open spec fn first_error(found: Seq<Option<Seq<char>>>) -> Option<Seq<char>>
    decreases found.len(),
{
    if found.len() == 0 {
        None
    } else if found[0] is Some {
        found[0]
    } else {
        first_error(found.drop_first())
    }
}

/// Where nothing was found before `i`, the first message is that of the
/// findings from `i` on.
pub proof fn lemma_first_error_skip(found: Seq<Option<Seq<char>>>, i: int)
    requires
        0 <= i <= found.len(),
        forall|j: int| 0 <= j < i ==> found[j] is None,
    ensures
        first_error(found) == first_error(found.subrange(i, found.len() as int)),
    decreases i,
{
    if i == 0 {
        assert(found.subrange(0, found.len() as int) =~= found);
    } else {
        let rest = found.drop_first();
        assert forall|j: int| 0 <= j < i - 1 implies rest[j] is None by {
            assert(rest[j] == found[j + 1]);
        }
        lemma_first_error_skip(rest, i - 1);
        assert(rest.subrange(i - 1, rest.len() as int) =~= found.subrange(i, found.len() as int));
    }
}

/// The names that are bound where a statement stands: the variables and
/// the functions.
pub struct Scope {
    pub vars: Seq<Seq<char>>,
    pub funcs: Seq<Seq<char>>,
}

/// The first unresolved name of an expression, as a message: an
/// identifier that is neither a variable nor a function, or a call of
/// what is no function. Operands and arguments are taken from left to
/// right.
pub open spec fn expr_error(e: ExprView, scope: Scope) -> Option<Seq<char>>
    decreases e,
{
    match e {
        ExprView::Number(_) => None,
        ExprView::TypedNumber(_) => None,
        ExprView::Ident(name) => if has_name(scope.vars, name) || has_name(scope.funcs, name) {
            None
        } else {
            Some(undefined_name(name))
        },
        ExprView::BinOp(left, _, right) => match expr_error(*left, scope) {
            Some(m) => Some(m),
            None => expr_error(*right, scope),
        },
        ExprView::Call(name, args) => if !has_name(scope.funcs, name) {
            Some(undefined_function(name))
        } else {
            first_error(args_errors(args, scope))
        },
    }
}

/// What each of the arguments of a call has for a first error.
pub open spec fn args_errors(args: Seq<ExprView>, scope: Scope) -> Seq<Option<Seq<char>>>
    decreases args,
{
    Seq::new(
        args.len(),
        |i: int|
            if 0 <= i < args.len() {
                expr_error(args[i], scope)
            } else {
                None
            },
    )
}

/// The scope after a statement, or the message of its first error. An
/// assignment binds its variable after its expression was resolved. A
/// function definition is an error here: functions are defined at the
/// top level, where `register` takes them, and not inside a body.
pub open spec fn stmt_check(s: StmtView, scope: Scope) -> Result<Scope, Seq<char>>
    decreases s, 0nat,
{
    match s {
        StmtView::Assign(name, e) => match expr_error(e, scope) {
            Some(m) => Err(m),
            None => Ok(Scope { vars: scope.vars.push(name), funcs: scope.funcs }),
        },
        StmtView::If(cond, body) => match expr_error(cond, scope) {
            Some(m) => Err(m),
            None => stmts_check(body, 0, scope),
        },
        StmtView::While(cond, body) => match expr_error(cond, scope) {
            Some(m) => Err(m),
            None => stmts_check(body, 0, scope),
        },
        StmtView::Return(e) => match expr_error(e, scope) {
            Some(m) => Err(m),
            None => Ok(scope),
        },
        StmtView::Out(e) => match expr_error(e, scope) {
            Some(m) => Err(m),
            None => Ok(scope),
        },
        StmtView::FuncDef(name, _, _) => Err(nested_definition(name)),
    }
}

/// The scope after the statements from `i` on, in order, or the message
/// of the first error.
pub open spec fn stmts_check(body: Seq<StmtView>, i: int, scope: Scope) -> Result<Scope, Seq<char>>
    decreases body, body.len() - i,
{
    if i < 0 || i >= body.len() {
        Ok(scope)
    } else {
        match stmt_check(body[i], scope) {
            Ok(next) => stmts_check(body, i + 1, next),
            Err(m) => Err(m),
        }
    }
}

/// The names of the functions that the top level defines from `i` on,
/// after those in `known`, or the message for the first name that is
/// defined twice.
pub open spec fn register(stmts: Seq<StmtView>, i: int, known: Seq<Seq<char>>) -> Result<
    Seq<Seq<char>>,
    Seq<char>,
>
    decreases stmts.len() - i,
{
    if i < 0 || i >= stmts.len() {
        Ok(known)
    } else {
        match stmts[i] {
            StmtView::FuncDef(name, _, _) => if has_name(known, name) {
                Err(already_defined(name))
            } else {
                register(stmts, i + 1, known.push(name))
            },
            _ => register(stmts, i + 1, known),
        }
    }
}

/// The first error in the bodies of the functions that the top level
/// defines from `i` on. Each body is resolved by itself: its parameters
/// are its variables to begin with.
pub open spec fn bodies_error(stmts: Seq<StmtView>, i: int, funcs: Seq<Seq<char>>) -> Option<
    Seq<char>,
>
    decreases stmts.len() - i,
{
    if i < 0 || i >= stmts.len() {
        None
    } else {
        match stmts[i] {
            StmtView::FuncDef(_, params, body) => match stmts_check(
                body,
                0,
                Scope { vars: params, funcs },
            ) {
                Err(m) => Some(m),
                Ok(_) => bodies_error(stmts, i + 1, funcs),
            },
            _ => bodies_error(stmts, i + 1, funcs),
        }
    }
}

/// The first error in the top-level statements from `i` on that define
/// no function, in order.
pub open spec fn main_error(stmts: Seq<StmtView>, i: int, scope: Scope) -> Option<Seq<char>>
    decreases stmts.len() - i,
{
    if i < 0 || i >= stmts.len() {
        None
    } else if stmts[i] is FuncDef {
        main_error(stmts, i + 1, scope)
    } else {
        match stmt_check(stmts[i], scope) {
            Ok(next) => main_error(stmts, i + 1, next),
            Err(m) => Some(m),
        }
    }
}

/// The first error of a program: a function that is defined twice; else
/// an unresolved name in the body of a function, the functions taken in
/// order; else an unresolved name at the top level.
pub open spec fn program_error(p: ProgramView) -> Option<Seq<char>> {
    match register(p.statements, 0, Seq::empty()) {
        Err(m) => Some(m),
        Ok(funcs) => match bodies_error(p.statements, 0, funcs) {
            Some(m) => Some(m),
            None => main_error(p.statements, 0, Scope { vars: Seq::empty(), funcs }),
        },
    }
}

/// The expression refers to `name` by an identifier.
pub open spec fn refers(e: ExprView, name: Seq<char>) -> bool
    decreases e,
{
    match e {
        ExprView::Ident(n) => n == name,
        ExprView::BinOp(left, _, right) => refers(*left, name) || refers(*right, name),
        ExprView::Call(_, args) => exists|i: int|
            0 <= i < args.len() && refers(#[trigger] args[i], name),
        _ => false,
    }
}

/// The expression calls `name` with arguments.
pub open spec fn calls(e: ExprView, name: Seq<char>) -> bool
    decreases e,
{
    match e {
        ExprView::BinOp(left, _, right) => calls(*left, name) || calls(*right, name),
        ExprView::Call(n, args) => n == name || exists|i: int|
            0 <= i < args.len() && calls(#[trigger] args[i], name),
        _ => false,
    }
}

/// The expression holds a reference to `name` that nothing binds: an
/// identifier `name` that is neither a variable nor a function, or a
/// call of `name` that is no function.
pub open spec fn unbound_in_expr(e: ExprView, scope: Scope, name: Seq<char>) -> bool {
    ||| refers(e, name) && !has_name(scope.vars, name) && !has_name(scope.funcs, name)
    ||| calls(e, name) && !has_name(scope.funcs, name)
}

/// Where nothing was found, nothing was found for any item.
pub proof fn lemma_first_error_none(found: Seq<Option<Seq<char>>>)
    requires
        first_error(found) is None,
    ensures
        forall|i: int| 0 <= i < found.len() ==> found[i] is None,
    decreases found.len(),
{
    if found.len() > 0 {
        let rest = found.drop_first();
        lemma_first_error_none(rest);
        assert forall|i: int| 0 <= i < found.len() implies found[i] is None by {
            if i > 0 {
                assert(found[i] == rest[i - 1]);
            }
        }
    }
}

/// An expression that resolves holds no reference that nothing binds.
pub proof fn lemma_expr_resolves(e: ExprView, scope: Scope)
    requires
        expr_error(e, scope) is None,
    ensures
        forall|name: Seq<char>| !unbound_in_expr(e, scope, name),
    decreases e,
{
    match e {
        ExprView::BinOp(left, _, right) => {
            lemma_expr_resolves(*left, scope);
            lemma_expr_resolves(*right, scope);
            assert forall|name: Seq<char>| !unbound_in_expr(e, scope, name) by {
                assert(!unbound_in_expr(*left, scope, name));
                assert(!unbound_in_expr(*right, scope, name));
            }
        },
        ExprView::Call(n, args) => {
            let found = args_errors(args, scope);
            lemma_first_error_none(found);
            assert forall|i: int| 0 <= i < args.len() implies (forall|name: Seq<char>|
                !unbound_in_expr(#[trigger] args[i], scope, name)) by {
                assert(found[i] is None);
                lemma_expr_resolves(args[i], scope);
            }
            assert forall|name: Seq<char>| !unbound_in_expr(e, scope, name) by {
                if refers(e, name) {
                    let i = choose|i: int| 0 <= i < args.len() && refers(#[trigger] args[i], name);
                    assert(!unbound_in_expr(args[i], scope, name));
                }
                if calls(e, name) && n != name {
                    let i = choose|i: int| 0 <= i < args.len() && calls(#[trigger] args[i], name);
                    assert(!unbound_in_expr(args[i], scope, name));
                }
            }
        },
        _ => {},
    }
}

/// An expression that does not resolve holds a reference that nothing
/// binds, and the message names it.
pub proof fn lemma_expr_rejected(e: ExprView, scope: Scope) -> (name: Seq<char>)
    requires
        expr_error(e, scope) is Some,
    ensures
        unbound_in_expr(e, scope, name),
        expr_error(e, scope) == Some(undefined_name(name)) || expr_error(e, scope) == Some(
            undefined_function(name),
        ),
    decreases e,
{
    match e {
        ExprView::Ident(n) => n,
        ExprView::BinOp(left, _, right) => {
            if expr_error(*left, scope) is Some {
                lemma_expr_rejected(*left, scope)
            } else {
                lemma_expr_rejected(*right, scope)
            }
        },
        ExprView::Call(n, args) => {
            if !has_name(scope.funcs, n) {
                n
            } else {
                let found = args_errors(args, scope);
                let i = lemma_first_error_some(found);
                let name = lemma_expr_rejected(args[i], scope);
                assert(refers(args[i], name) ==> refers(e, name));
                assert(calls(args[i], name) ==> calls(e, name));
                name
            }
        },
        _ => Seq::empty(),
    }
}

/// Where something was found, the first message is that of some item.
pub proof fn lemma_first_error_some(found: Seq<Option<Seq<char>>>) -> (i: int)
    requires
        first_error(found) is Some,
    ensures
        0 <= i < found.len(),
        found[i] == first_error(found),
    decreases found.len(),
{
    if found[0] is Some {
        0
    } else {
        let rest = found.drop_first();
        let j = lemma_first_error_some(rest);
        assert(rest[j] == found[j + 1]);
        j + 1
    }
}

/// The statement holds no function definition.
pub open spec fn flat(s: StmtView) -> bool
    decreases s,
{
    match s {
        StmtView::If(_, body) => forall|j: int| 0 <= j < body.len() ==> flat(#[trigger] body[j]),
        StmtView::While(_, body) => forall|j: int| 0 <= j < body.len() ==> flat(#[trigger] body[j]),
        StmtView::FuncDef(_, _, _) => false,
        _ => true,
    }
}

/// The variables that a statement binds, in order: the target of an
/// assignment, and what the statements of a body bind.
pub open spec fn binds(s: StmtView) -> Seq<Seq<char>>
    decreases s, 0nat,
{
    match s {
        StmtView::Assign(name, _) => seq![name],
        StmtView::If(_, body) => binds_upto(body, body.len() as int),
        StmtView::While(_, body) => binds_upto(body, body.len() as int),
        _ => Seq::empty(),
    }
}

/// The variables that the first `j` statements of a body bind.
pub open spec fn binds_upto(body: Seq<StmtView>, j: int) -> Seq<Seq<char>>
    decreases body, j,
{
    if j <= 0 || j > body.len() {
        Seq::empty()
    } else {
        binds_upto(body, j - 1) + binds(body[j - 1])
    }
}

/// The statement holds a reference to `name` that nothing binds where it
/// stands. The variables bound where a statement of a body stands are
/// those bound before the body and those that the earlier statements of
/// the body bind; in the body of a function definition they are its
/// parameters and what the earlier statements of that body bind.
pub open spec fn unbound_in_stmt(
    s: StmtView,
    vars: Seq<Seq<char>>,
    funcs: Seq<Seq<char>>,
    name: Seq<char>,
) -> bool
    decreases s,
{
    match s {
        StmtView::Assign(_, e) => unbound_in_expr(e, Scope { vars, funcs }, name),
        StmtView::Return(e) => unbound_in_expr(e, Scope { vars, funcs }, name),
        StmtView::Out(e) => unbound_in_expr(e, Scope { vars, funcs }, name),
        StmtView::If(cond, body) => unbound_in_expr(cond, Scope { vars, funcs }, name)
            || unbound_in_body(body, vars, funcs, name),
        StmtView::While(cond, body) => unbound_in_expr(cond, Scope { vars, funcs }, name)
            || unbound_in_body(body, vars, funcs, name),
        StmtView::FuncDef(_, params, body) => unbound_in_body(body, params, funcs, name),
    }
}

/// A statement of the body holds a reference to `name` that nothing
/// binds where it stands.
pub open spec fn unbound_in_body(
    body: Seq<StmtView>,
    vars: Seq<Seq<char>>,
    funcs: Seq<Seq<char>>,
    name: Seq<char>,
) -> bool
    decreases body,
{
    exists|j: int|
        0 <= j < body.len() && unbound_in_stmt(
            #[trigger] body[j],
            vars + binds_upto(body, j),
            funcs,
            name,
        )
}

/// A statement that resolves holds no function definition and no
/// reference that nothing binds, and after it the variables are those
/// before it and those it binds.
pub proof fn lemma_stmt_resolves(s: StmtView, scope: Scope)
    requires
        stmt_check(s, scope) is Ok,
    ensures
        flat(s),
        stmt_check(s, scope)->Ok_0 == (Scope { vars: scope.vars + binds(s), funcs: scope.funcs }),
        forall|name: Seq<char>| !unbound_in_stmt(s, scope.vars, scope.funcs, name),
    decreases s, 0nat,
{
    match s {
        StmtView::Assign(n, e) => {
            lemma_expr_resolves(e, scope);
            assert(scope.vars.push(n) =~= scope.vars + seq![n]);
            assert forall|name: Seq<char>| !unbound_in_stmt(s, scope.vars, scope.funcs, name) by {
                assert(!unbound_in_expr(e, scope, name));
            }
        },
        StmtView::Return(e) => {
            lemma_expr_resolves(e, scope);
            assert(scope.vars =~= scope.vars + Seq::<Seq<char>>::empty());
            assert forall|name: Seq<char>| !unbound_in_stmt(s, scope.vars, scope.funcs, name) by {
                assert(!unbound_in_expr(e, scope, name));
            }
        },
        StmtView::Out(e) => {
            lemma_expr_resolves(e, scope);
            assert(scope.vars =~= scope.vars + Seq::<Seq<char>>::empty());
            assert forall|name: Seq<char>| !unbound_in_stmt(s, scope.vars, scope.funcs, name) by {
                assert(!unbound_in_expr(e, scope, name));
            }
        },
        StmtView::If(cond, body) => {
            lemma_expr_resolves(cond, scope);
            assert(scope.vars =~= scope.vars + binds_upto(body, 0));
            lemma_body_resolves(body, 0, scope, scope);
            assert forall|name: Seq<char>| !unbound_in_stmt(s, scope.vars, scope.funcs, name) by {
                assert(!unbound_in_expr(cond, scope, name));
                lemma_body_bound(body, scope.vars, scope.funcs, name);
            }
        },
        StmtView::While(cond, body) => {
            lemma_expr_resolves(cond, scope);
            assert(scope.vars =~= scope.vars + binds_upto(body, 0));
            lemma_body_resolves(body, 0, scope, scope);
            assert forall|name: Seq<char>| !unbound_in_stmt(s, scope.vars, scope.funcs, name) by {
                assert(!unbound_in_expr(cond, scope, name));
                lemma_body_bound(body, scope.vars, scope.funcs, name);
            }
        },
        StmtView::FuncDef(_, _, _) => {},
    }
}

/// Where no statement of a body holds a reference to `name` that nothing
/// binds, the body holds none.
pub proof fn lemma_body_bound(
    body: Seq<StmtView>,
    vars: Seq<Seq<char>>,
    funcs: Seq<Seq<char>>,
    name: Seq<char>,
)
    requires
        forall|j: int|
            0 <= j < body.len() ==> !#[trigger] unbound_in_stmt(
                body[j],
                vars + binds_upto(body, j),
                funcs,
                name,
            ),
    ensures
        !unbound_in_body(body, vars, funcs, name),
{
    if unbound_in_body(body, vars, funcs, name) {
        let j = choose|j: int|
            0 <= j < body.len() && unbound_in_stmt(
                #[trigger] body[j],
                vars + binds_upto(body, j),
                funcs,
                name,
            );
        assert(!unbound_in_stmt(body[j], vars + binds_upto(body, j), funcs, name));
    }
}

/// The statements of a body from `i` on, where they resolve in the scope
/// that the first `i` statements have led to: none holds a reference
/// that nothing binds, and after them the variables are those before the
/// body and those that the body binds.
pub proof fn lemma_body_resolves(body: Seq<StmtView>, i: int, start: Scope, scope: Scope)
    requires
        0 <= i <= body.len(),
        scope == (Scope { vars: start.vars + binds_upto(body, i), funcs: start.funcs }),
        stmts_check(body, i, scope) is Ok,
    ensures
        forall|j: int| i <= j < body.len() ==> flat(#[trigger] body[j]),
        stmts_check(body, i, scope)->Ok_0 == (Scope {
            vars: start.vars + binds_upto(body, body.len() as int),
            funcs: start.funcs,
        }),
        forall|j: int, name: Seq<char>|
            i <= j < body.len() ==> !#[trigger] unbound_in_stmt(
                body[j],
                start.vars + binds_upto(body, j),
                start.funcs,
                name,
            ),
    decreases body, body.len() - i,
{
    if i < body.len() {
        lemma_stmt_resolves(body[i], scope);
        let next = stmt_check(body[i], scope)->Ok_0;
        assert(next.vars =~= start.vars + binds_upto(body, i + 1));
        lemma_body_resolves(body, i + 1, start, next);
    }
}

/// The names bound at the top level before the statement `i`: what the
/// earlier statements bind that define no function.
pub open spec fn main_vars(stmts: Seq<StmtView>, i: int) -> Seq<Seq<char>>
    decreases i,
{
    if i <= 0 || i > stmts.len() {
        Seq::empty()
    } else if stmts[i - 1] is FuncDef {
        main_vars(stmts, i - 1)
    } else {
        main_vars(stmts, i - 1) + binds(stmts[i - 1])
    }
}

/// The program holds a reference to `name` that nothing binds where it
/// stands: in the body of a function, where the parameters, the earlier
/// assignments of the body and the functions of the program bind; or in
/// a statement of the top level, where the earlier assignments of the
/// top level and the functions of the program bind.
pub open spec fn unbound_in_program(p: ProgramView, funcs: Seq<Seq<char>>, name: Seq<char>) -> bool {
    exists|i: int|
        0 <= i < p.statements.len() && match #[trigger] p.statements[i] {
            StmtView::FuncDef(_, params, body) => unbound_in_body(body, params, funcs, name),
            s => unbound_in_stmt(s, main_vars(p.statements, i), funcs, name),
        }
}

/// The bodies of the functions from `i` on hold no reference that nothing
/// binds, where none of them has an error.
pub proof fn lemma_bodies_resolve(stmts: Seq<StmtView>, i: int, funcs: Seq<Seq<char>>)
    requires
        0 <= i <= stmts.len(),
        bodies_error(stmts, i, funcs) is None,
    ensures
        forall|k: int|
            i <= k < stmts.len() ==> match #[trigger] stmts[k] {
                StmtView::FuncDef(_, params, body) => forall|name: Seq<char>|
                    !unbound_in_body(body, params, funcs, name),
                _ => true,
            },
    decreases stmts.len() - i,
{
    if i < stmts.len() {
        lemma_bodies_resolve(stmts, i + 1, funcs);
        match stmts[i] {
            StmtView::FuncDef(_, params, body) => {
                let scope = Scope { vars: params, funcs };
                assert(params =~= params + binds_upto(body, 0));
                lemma_body_resolves(body, 0, scope, scope);
                assert forall|name: Seq<char>| !unbound_in_body(body, params, funcs, name) by {
                    lemma_body_bound(body, params, funcs, name);
                }
            },
            _ => {},
        }
    }
}

/// The statements of the top level from `i` on hold no reference that
/// nothing binds, where none of them has an error.
pub proof fn lemma_main_resolves(stmts: Seq<StmtView>, i: int, funcs: Seq<Seq<char>>, scope: Scope)
    requires
        0 <= i <= stmts.len(),
        scope == (Scope { vars: main_vars(stmts, i), funcs }),
        main_error(stmts, i, scope) is None,
    ensures
        forall|k: int|
            i <= k < stmts.len() ==> match #[trigger] stmts[k] {
                StmtView::FuncDef(_, _, _) => true,
                s => forall|name: Seq<char>|
                    !unbound_in_stmt(s, main_vars(stmts, k), funcs, name),
            },
    decreases stmts.len() - i,
{
    if i < stmts.len() {
        if stmts[i] is FuncDef {
            lemma_main_resolves(stmts, i + 1, funcs, scope);
        } else {
            lemma_stmt_resolves(stmts[i], scope);
            let next = stmt_check(stmts[i], scope)->Ok_0;
            lemma_main_resolves(stmts, i + 1, funcs, next);
        }
    }
}

/// Name resolution accepts no program that holds a reference to a name
/// that nothing binds where it stands, in whatever position: in a
/// statement of the top level, in the body of a function, or in a body
/// within one of these.
pub proof fn lemma_program_resolves(p: ProgramView)
    requires
        program_error(p) is None,
    ensures
        register(p.statements, 0, Seq::empty()) is Ok,
        forall|name: Seq<char>|
            !unbound_in_program(p, register(p.statements, 0, Seq::empty())->Ok_0, name),
{
    let stmts = p.statements;
    let funcs = register(stmts, 0, Seq::empty())->Ok_0;
    lemma_bodies_resolve(stmts, 0, funcs);
    lemma_main_resolves(stmts, 0, funcs, Scope { vars: Seq::empty(), funcs });
}

/// The analyzer: the functions and the variables that are bound.
pub struct SemanticAnalyzer {
    functions: Vec<String>,
    variables: Vec<String>,
}

impl SemanticAnalyzer {
    /// The names that are bound.
    pub closed spec fn scope(&self) -> Scope {
        Scope { vars: names_view(self.variables@), funcs: names_view(self.functions@) }
    }

    /// An analyzer with nothing bound.
    pub fn new() -> (r: Self)
        ensures
            r.scope() == (Scope { vars: Seq::empty(), funcs: Seq::empty() }),
    {
        let r = SemanticAnalyzer { functions: Vec::new(), variables: Vec::new() };
        assert(names_view(r.variables@) =~= Seq::empty());
        assert(names_view(r.functions@) =~= Seq::empty());
        r
    }

    /// Resolves the names of an expression.
    pub fn analyze_expr(&self, expr: &Expr) -> (r: Result<(), String>)
        ensures
            match r {
                Ok(_) => expr_error(expr.deep_view(), self.scope()) is None,
                Err(m) => expr_error(expr.deep_view(), self.scope()) == Some(m@),
            },
        decreases expr,
    {
        match expr {
            Expr::Number(_) => Ok(()),
            Expr::TypedNumber(_) => Ok(()),
            Expr::Ident(_) => self.analyze_ident(expr),
            Expr::BinOp(_, _, _) => self.analyze_bin_op(expr),
            Expr::Call(_, _) => self.analyze_call(expr),
        }
    }

    /// Resolves an identifier: a variable or a function.
    fn analyze_ident(&self, expr: &Expr) -> (r: Result<(), String>)
        requires
            expr is Ident,
        ensures
            match r {
                Ok(_) => expr_error(expr.deep_view(), self.scope()) is None,
                Err(m) => expr_error(expr.deep_view(), self.scope()) == Some(m@),
            },
    {
        match expr {
            Expr::Ident(name) => {
                if !contains_name(&self.variables, name.as_str()) && !contains_name(
                    &self.functions,
                    name.as_str(),
                ) {
                    let mut m = String::from_str("Undefined variable or function: ");
                    m.append(name.as_str());
                    Err(m)
                } else {
                    Ok(())
                }
            },
            _ => Err(String::from_str("Expected identifier")),
        }
    }

    /// Resolves the operands of a binary operation, the left one first.
    fn analyze_bin_op(&self, expr: &Expr) -> (r: Result<(), String>)
        requires
            expr is BinOp,
        ensures
            match r {
                Ok(_) => expr_error(expr.deep_view(), self.scope()) is None,
                Err(m) => expr_error(expr.deep_view(), self.scope()) == Some(m@),
            },
        decreases expr, 0nat,
    {
        match expr {
            Expr::BinOp(left, _, right) => {
                match self.analyze_expr(left) {
                    Ok(_) => {},
                    Err(m) => {
                        return Err(m);
                    },
                }
                self.analyze_expr(right)
            },
            _ => Err(String::from_str("Expected binary operation")),
        }
    }

    /// Resolves a call: its target must be a function; then its
    /// arguments, in order.
    fn analyze_call(&self, expr: &Expr) -> (r: Result<(), String>)
        requires
            expr is Call,
        ensures
            match r {
                Ok(_) => expr_error(expr.deep_view(), self.scope()) is None,
                Err(m) => expr_error(expr.deep_view(), self.scope()) == Some(m@),
            },
        decreases expr, 0nat,
    {
        match expr {
            Expr::Call(name, args) => {
                if !contains_name(&self.functions, name.as_str()) {
                    let mut m = String::from_str("Undefined function: ");
                    m.append(name.as_str());
                    return Err(m);
                }
                let ghost scope = self.scope();
                let ghost views = expr.deep_view()->Call_1;
                let ghost found = args_errors(views, scope);
                let mut i: usize = 0;
                while i < args.len()
                    invariant
                        i <= args@.len(),
                        scope == self.scope(),
                        *expr == Expr::Call(*name, *args),
                        views == expr.deep_view()->Call_1,
                        has_name(scope.funcs, name@),
                        found == args_errors(views, scope),
                        views.len() == args@.len(),
                        found.len() == args@.len(),
                        forall|j: int|
                            0 <= j < args@.len() ==> #[trigger] found[j] == expr_error(
                                expr_view(args@[j]),
                                scope,
                            ),
                        forall|j: int| 0 <= j < i ==> found[j] is None,
                    decreases args@.len() - i,
                {
                    match self.analyze_expr(&args[i]) {
                        Ok(_) => {},
                        Err(m) => {
                            proof {
                                lemma_first_error_skip(found, i as int);
                                let rest = found.subrange(i as int, found.len() as int);
                                assert(found[i as int] == expr_error(expr_view(args@[i as int]), scope));
                                assert(rest.len() > 0);
                                assert(rest[0] == found[i as int]);
                                assert(first_error(rest) == rest[0]);
                                assert(first_error(found) == Some(m@));
                                assert(expr.deep_view() == ExprView::Call(name@, views));
                            }
                            return Err(m);
                        },
                    }
                    i = i + 1;
                }
                proof {
                    lemma_first_error_skip(found, found.len() as int);
                }
                Ok(())
            },
            _ => Err(String::from_str("Expected function call")),
        }
    }

    /// Resolves the names of a statement and binds what it binds.
    pub fn analyze_stmt(&mut self, stmt: &Stmt) -> (r: Result<(), String>)
        ensures
            match r {
                Ok(_) => stmt_check(stmt.deep_view(), old(self).scope()) == Ok::<Scope, Seq<char>>(
                    final(self).scope(),
                ),
                Err(m) => stmt_check(stmt.deep_view(), old(self).scope()) == Err::<
                    Scope,
                    Seq<char>,
                >(m@),
            },
        decreases stmt, 1nat,
    {
        match stmt {
            Stmt::Assign(name, expr) => {
                match self.analyze_expr(expr) {
                    Ok(_) => {},
                    Err(m) => {
                        return Err(m);
                    },
                }
                let ghost before = names_view(self.variables@);
                self.variables.push(name.clone());
                assert(names_view(self.variables@) =~= before.push(name@));
                Ok(())
            },
            Stmt::If(cond, body) => {
                match self.analyze_expr(cond) {
                    Ok(_) => {},
                    Err(m) => {
                        return Err(m);
                    },
                }
                self.analyze_body(stmt, body)
            },
            Stmt::While(cond, body) => {
                match self.analyze_expr(cond) {
                    Ok(_) => {},
                    Err(m) => {
                        return Err(m);
                    },
                }
                self.analyze_body(stmt, body)
            },
            Stmt::Return(expr) => self.analyze_expr(expr),
            Stmt::Out(expr) => self.analyze_expr(expr),
            Stmt::FuncDef(name, _, _) => {
                let mut m = String::from_str("Nested function definition: ");
                m.append(name.as_str());
                Err(m)
            },
        }
    }

    /// Resolves the statements of the body of `parent`, in order.
    fn analyze_body(&mut self, parent: &Stmt, body: &Vec<Stmt>) -> (r: Result<(), String>)
        requires
            match parent {
                Stmt::If(_, b) => b == body,
                Stmt::While(_, b) => b == body,
                Stmt::FuncDef(_, _, b) => b == body,
                _ => false,
            },
        ensures
            match r {
                Ok(_) => stmts_check(body.deep_view(), 0, old(self).scope()) == Ok::<
                    Scope,
                    Seq<char>,
                >(final(self).scope()),
                Err(m) => stmts_check(body.deep_view(), 0, old(self).scope()) == Err::<
                    Scope,
                    Seq<char>,
                >(m@),
            },
            body.deep_view() == match stmt_view(*parent) {
                StmtView::If(_, b) => b,
                StmtView::While(_, b) => b,
                StmtView::FuncDef(_, _, b) => b,
                _ => Seq::empty(),
            },
        decreases parent, 0nat,
    {
        let ghost views = body.deep_view();
        proof {
            match parent {
                Stmt::If(c, b) => {
                    crate::ast::lemma_block_view(*c, *b);
                },
                Stmt::While(c, b) => {
                    crate::ast::lemma_block_view(*c, *b);
                },
                Stmt::FuncDef(n, p, b) => {
                    crate::ast::lemma_func_def_view(*n, *p, *b);
                },
                _ => {},
            }
        }
        let mut i: usize = 0;
        while i < body.len()
            invariant
                i <= body@.len(),
                views == body.deep_view(),
                match parent {
                    Stmt::If(_, b) => b == body,
                    Stmt::While(_, b) => b == body,
                    Stmt::FuncDef(_, _, b) => b == body,
                    _ => false,
                },
                stmts_check(views, 0, old(self).scope()) == stmts_check(
                    views,
                    i as int,
                    self.scope(),
                ),
            decreases body@.len() - i,
        {
            match self.analyze_stmt(&body[i]) {
                Ok(_) => {},
                Err(m) => {
                    return Err(m);
                },
            }
            i = i + 1;
        }
        Ok(())
    }

    /// Resolves the names of a program: first the functions are
    /// registered, then their bodies are resolved, then the top level.
    pub fn analyze_program(&mut self, program: &Program) -> (r: Result<(), String>)
        requires
            old(self).scope() == (Scope { vars: Seq::empty(), funcs: Seq::empty() }),
        ensures
            match r {
                Ok(_) => program_error(program.deep_view()) is None,
                Err(m) => program_error(program.deep_view()) == Some(m@),
            },
    {
        let ghost stmts = program.deep_view().statements;
        let n = program.statements.len();
        // The functions of the top level.
        let mut i: usize = 0;
        while i < n
            invariant
                i <= n,
                n == program.statements@.len(),
                stmts == program.statements.deep_view(),
                names_view(self.variables@) == Seq::<Seq<char>>::empty(),
                register(stmts, 0, Seq::empty()) == register(
                    stmts,
                    i as int,
                    names_view(self.functions@),
                ),
            decreases n - i,
        {
            match &program.statements[i] {
                Stmt::FuncDef(name, params, body) => {
                    proof {
                        crate::ast::lemma_func_def_view(*name, *params, *body);
                    }
                    if contains_name(&self.functions, name.as_str()) {
                        let mut m = String::from_str("Function already defined: ");
                        m.append(name.as_str());
                        return Err(m);
                    }
                    let ghost before = names_view(self.functions@);
                    self.functions.push(name.clone());
                    assert(names_view(self.functions@) =~= before.push(name@));
                },
                _ => {},
            }
            i = i + 1;
        }
        let ghost funcs = names_view(self.functions@);
        // The bodies of the functions, each in a scope of its own.
        let mut k: usize = 0;
        while k < n
            invariant
                k <= n,
                n == program.statements@.len(),
                stmts == program.statements.deep_view(),
                funcs == names_view(self.functions@),
                names_view(self.variables@) == Seq::<Seq<char>>::empty(),
                register(stmts, 0, Seq::empty()) == Ok::<Seq<Seq<char>>, Seq<char>>(funcs),
                bodies_error(stmts, 0, funcs) == bodies_error(stmts, k as int, funcs),
            decreases n - k,
        {
            let stmt = &program.statements[k];
            match stmt {
                Stmt::FuncDef(name, params, body) => {
                    proof {
                        crate::ast::lemma_func_def_view(*name, *params, *body);
                    }
                    let mut local = SemanticAnalyzer {
                        functions: clone_names(&self.functions),
                        variables: clone_names(params),
                    };
                    assert(names_view(params@) =~= params.deep_view());
                    match local.analyze_body(stmt, body) {
                        Ok(_) => {},
                        Err(m) => {
                            return Err(m);
                        },
                    }
                },
                _ => {},
            }
            k = k + 1;
        }
        // The statements of the top level, in order.
        let mut j: usize = 0;
        while j < n
            invariant
                j <= n,
                n == program.statements@.len(),
                stmts == program.statements.deep_view(),
                register(stmts, 0, Seq::empty()) == Ok::<Seq<Seq<char>>, Seq<char>>(funcs),
                bodies_error(stmts, 0, funcs) is None,
                main_error(stmts, 0, Scope { vars: Seq::empty(), funcs }) == main_error(
                    stmts,
                    j as int,
                    self.scope(),
                ),
            decreases n - j,
        {
            match &program.statements[j] {
                Stmt::FuncDef(_, _, _) => {},
                other => {
                    match self.analyze_stmt(other) {
                        Ok(_) => {},
                        Err(m) => {
                            return Err(m);
                        },
                    }
                },
            }
            j = j + 1;
        }
        Ok(())
    }
}

/// A copy of a list of names.
fn clone_names(names: &Vec<String>) -> (r: Vec<String>)
    ensures
        names_view(r@) == names_view(names@),
{
    let mut r: Vec<String> = Vec::new();
    let mut i: usize = 0;
    assert(names_view(r@) =~= names_view(names@).subrange(0, 0));
    while i < names.len()
        invariant
            i <= names@.len(),
            names_view(r@) == names_view(names@).subrange(0, i as int),
        decreases names@.len() - i,
    {
        let ghost before = names_view(r@);
        r.push(names[i].clone());
        assert(names_view(r@) =~= before.push(names@[i as int]@));
        assert(names_view(r@) =~= names_view(names@).subrange(0, i + 1));
        i = i + 1;
    }
    assert(names_view(names@).subrange(0, names@.len() as int) =~= names_view(names@));
    r
}

/// The program itself where every name resolves and no function is
/// defined twice; else the message of the first error.
pub fn analyze(program: Program) -> (r: Result<Program, String>)
    ensures
        match r {
            Ok(p) => p == program && program_error(program.deep_view()) is None,
            Err(m) => program_error(program.deep_view()) == Some(m@),
        },
{
    let mut analyzer = SemanticAnalyzer::new();
    match analyzer.analyze_program(&program) {
        Ok(_) => Ok(program),
        Err(m) => Err(m),
    }
}

} // verus!
