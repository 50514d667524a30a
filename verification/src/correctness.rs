//! What the lowering and the machine do together: the code of an
//! expression leaves the value of the expression on the stack, a program
//! that puts out an expression puts out its decimal form, and a tail call
//! returns for its caller, however many tail calls came before it.

use crate::ast::{BinOpType, ExprView, ProgramView, StmtView};
use crate::bytecode::{
    block_code, const_value, def_names, define_from, expr_code, op_instr, program_code, stmt_code,
    Instr,
};
use crate::machine::{
    arithmetic, bind, comparison, enter, find_function, run, step, take_args, Callee, FrameView,
    Machine, ProgramCode, Status,
};
use crate::names::has_name;
use crate::types::{IntegerType, ValueView};
use vstd::prelude::*;

verus! {

/// The result of an operator on two values, as the machine computes it.
pub open spec fn apply_op(op: BinOpType, a: ValueView, b: ValueView) -> Result<ValueView, Seq<char>> {
    match op {
        BinOpType::Plus => arithmetic(Instr::Add, a, b),
        BinOpType::Minus => arithmetic(Instr::Sub, a, b),
        BinOpType::Mul => arithmetic(Instr::Mul, a, b),
        BinOpType::Mod => arithmetic(Instr::Mod, a, b),
        _ => Ok(comparison(op_instr(op), a, b)),
    }
}

/// The value of an expression without calls where the variables are
/// `vars`: a literal is itself, a variable what it is set to or the `I64`
/// zero, and an operation the result of the operator on the values of
/// its operands, of which the left is taken first. The first arithmetic
/// that fails gives its message.
pub open spec fn eval(e: ExprView, vars: Map<Seq<char>, ValueView>) -> Result<ValueView, Seq<char>>
    decreases e,
{
    match e {
        ExprView::Number(n) => Ok(ValueView::Integer(n)),
        ExprView::TypedNumber(n) => Ok(ValueView::Integer(n)),
        ExprView::Ident(name) => Ok(
            if vars.contains_key(name) {
                vars[name]
            } else {
                ValueView::zero()
            },
        ),
        ExprView::BinOp(left, op, right) => match eval(*left, vars) {
            Err(m) => Err(m),
            Ok(a) => match eval(*right, vars) {
                Err(m) => Err(m),
                Ok(b) => apply_op(op, a, b),
            },
        },
        ExprView::Call(_, _) => Ok(ValueView::zero()),
    }
}

/// An expression holds no call: no function applied to arguments, and no
/// identifier that names a function.
pub open spec fn call_free(e: ExprView, funcs: Seq<Seq<char>>) -> bool
    decreases e,
{
    match e {
        ExprView::Number(_) => true,
        ExprView::TypedNumber(_) => true,
        ExprView::Ident(name) => !has_name(funcs, name),
        ExprView::BinOp(left, _, right) => call_free(*left, funcs) && call_free(*right, funcs),
        ExprView::Call(_, _) => false,
    }
}

/// The constant value of an expression is its value, whatever the
/// variables are.
pub proof fn lemma_constant_is_value(e: ExprView, vars: Map<Seq<char>, ValueView>)
    requires
        const_value(e) is Some,
    ensures
        eval(e, vars) == Ok::<ValueView, Seq<char>>(const_value(e)->0),
    decreases e,
{
    match e {
        ExprView::BinOp(left, op, right) => {
            lemma_constant_is_value(*left, vars);
            lemma_constant_is_value(*right, vars);
        },
        _ => {},
    }
}

/// A machine that is not running stays as it is.
pub proof fn lemma_run_stopped(p: ProgramCode, m: Machine, fuel: nat)
    requires
        !m.running(),
    ensures
        run(p, m, fuel) == m,
{
}

/// A run of `a + b` steps is a run of `a` steps and then one of `b`.
pub proof fn lemma_run_add(p: ProgramCode, m: Machine, a: nat, b: nat)
    ensures
        run(p, m, a + b) == run(p, run(p, m, a), b),
    decreases a,
{
    if a == 0 {
    } else if !m.running() {
        lemma_run_stopped(p, m, b);
    } else {
        lemma_run_add(p, step(p, m), (a - 1) as nat, b);
        assert((a + b - 1) as nat == (a - 1) as nat + b);
    }
}

/// The machine `m` with `f` for its running activation.
pub open spec fn with_top(m: Machine, f: FrameView) -> Machine {
    Machine { frames: m.frames.drop_last().push(f), ..m }
}

/// The machine `m` after a failure with the message `msg`.
pub open spec fn failed(m: Machine, msg: Seq<char>) -> Machine {
    Machine { frames: Seq::empty(), status: Status::Failed(msg), ..m }
}

/// The activation `f` holds `code` at its position.
pub open spec fn at_code(f: FrameView, code: Seq<Instr>) -> bool {
    0 <= f.pc && f.pc + code.len() <= f.code.len() && f.code.subrange(
        f.pc,
        f.pc + code.len(),
    ) == code
}

/// The machine after the code of an expression has run in its running
/// activation: the activation is past the code and has the value of the
/// expression on its stack; or the run has failed with the message of
/// the expression's first failing arithmetic.
pub open spec fn after_expr(m: Machine, e: ExprView, steps: nat) -> Machine {
    let f = m.frames.last();
    match eval(e, f.vars) {
        Ok(v) => with_top(m, FrameView { pc: f.pc + steps, stack: f.stack.push(v), ..f }),
        Err(msg) => failed(m, msg),
    }
}

/// The code of an expression without calls, run in an activation that
/// holds it at its position, takes one step for each instruction and
/// leaves the value of the expression on the stack; nothing else of the
/// machine changes. Where the arithmetic of the expression fails, the run
/// fails with its message.
#[verifier::rlimit(40)]
pub proof fn lemma_expr_runs(p: ProgramCode, m: Machine, e: ExprView, funcs: Seq<Seq<char>>)
    requires
        m.running(),
        call_free(e, funcs),
        at_code(m.frames.last(), expr_code(e, funcs)),
    ensures
        run(p, m, expr_code(e, funcs).len()) == after_expr(m, e, expr_code(e, funcs).len()),
    decreases e,
{
    let f = m.frames.last();
    let code = expr_code(e, funcs);
    if const_value(e) is Some {
        let v = const_value(e)->0;
        lemma_constant_is_value(e, f.vars);
        assert(code == seq![Instr::LoadConst(v)]);
        assert(f.code[f.pc] == f.code.subrange(f.pc, f.pc + 1)[0]);
        lemma_one_step(p, m);
    } else {
        match e {
            ExprView::Ident(name) => {
                assert(code == seq![Instr::LoadVar(name)]);
                assert(f.code[f.pc] == f.code.subrange(f.pc, f.pc + 1)[0]);
                lemma_one_step(p, m);
            },
            ExprView::BinOp(left, op, right) => {
                let lcode = expr_code(*left, funcs);
                let rcode = expr_code(*right, funcs);
                let n = code.len();
                assert(code == lcode + rcode + seq![op_instr(op)]);
                assert(f.code.subrange(f.pc, f.pc + lcode.len()) =~= lcode) by {
                    assert(f.code.subrange(f.pc, f.pc + lcode.len()) =~= code.subrange(
                        0,
                        lcode.len() as int,
                    ));
                }
                lemma_expr_runs(p, m, *left, funcs);
                let m1 = run(p, m, lcode.len());
                lemma_run_add(p, m, lcode.len(), (rcode.len() + 1) as nat);
                match eval(*left, f.vars) {
                    Err(msg) => {
                        lemma_run_stopped(p, m1, (rcode.len() + 1) as nat);
                    },
                    Ok(a) => {
                        let f1 = m1.frames.last();
                        assert(f1 == FrameView { pc: f.pc + lcode.len(), stack: f.stack.push(a), ..f });
                        assert(f1.code.subrange(f1.pc, f1.pc + rcode.len()) =~= rcode) by {
                            assert(f.code.subrange(f1.pc, f1.pc + rcode.len()) =~= code.subrange(
                                lcode.len() as int,
                                (lcode.len() + rcode.len()) as int,
                            ));
                        }
                        lemma_expr_runs(p, m1, *right, funcs);
                        let m2 = run(p, m1, rcode.len());
                        lemma_run_add(p, m1, rcode.len(), 1);
                        match eval(*right, f.vars) {
                            Err(msg) => {
                                lemma_run_stopped(p, m2, 1);
                            },
                            Ok(b) => {
                                let f2 = m2.frames.last();
                                assert(f2 == FrameView {
                                    pc: f1.pc + rcode.len(),
                                    stack: f1.stack.push(b),
                                    ..f1
                                });
                                assert(f2.code[f2.pc] == code[n - 1]) by {
                                    assert(f.code.subrange(f.pc, f.pc + n)[n - 1] == f.code[f.pc + n
                                        - 1]);
                                }
                                assert(code[n - 1] == op_instr(op));
                                lemma_one_step(p, m2);
                                assert(f2.stack.drop_last() =~= f1.stack);
                                assert(f1.stack.drop_last() =~= f.stack);
                                let f3 = FrameView { pc: f2.pc + 1, ..f2 };
                                assert(f3.popped().popped().stack =~= f.stack);
                                match apply_op(op, a, b) {
                                    Ok(v) => {
                                        assert(m2.frames.drop_last() =~= m.frames.drop_last());
                                    },
                                    Err(msg) => {},
                                }
                            },
                        }
                    },
                }
            },
            _ => {},
        }
    }
}

/// A run of one step of a running machine is its step.
pub proof fn lemma_one_step(p: ProgramCode, m: Machine)
    requires
        m.running(),
    ensures
        run(p, m, 1) == step(p, m),
{
    assert(run(p, step(p, m), 0) == step(p, m));
}

/// The program whose only statement puts out the expression `e`.
pub open spec fn out_program(e: ExprView) -> ProgramView {
    ProgramView { statements: seq![StmtView::Out(e)] }
}

/// The code of a program that puts out one expression: the code of the
/// expression, then `Out`; it has no functions.
pub proof fn lemma_out_program_code(e: ExprView)
    ensures
        program_code(out_program(e)).main == expr_code(e, Seq::empty()) + seq![Instr::Out],
        program_code(out_program(e)).functions == Map::<
            Seq<char>,
            crate::machine::FunctionView,
        >::empty(),
        program_code(out_program(e)).compiled == Map::<
            Seq<char>,
            crate::bytecode::CompiledView,
        >::empty(),
{
    let stmts = out_program(e).statements;
    let none = Seq::<Seq<char>>::empty();
    assert(def_names(stmts, 1, none) == none);
    assert(def_names(stmts, 0, none) == none);
    let t = ProgramCode {
        main: Seq::empty(),
        functions: Map::empty(),
        compiled: Map::empty(),
        cache: Map::empty(),
    };
    assert(define_from(stmts, 1, none, t) == t);
    assert(define_from(stmts, 0, none, t) == t);
    assert(block_code(stmts, 1, none) == Seq::<Instr>::empty());
    assert(block_code(stmts, 0, none) == stmt_code(stmts[0], none) + Seq::<Instr>::empty());
    assert(stmt_code(stmts[0], none) + Seq::<Instr>::empty() =~= expr_code(e, none) + seq![
        Instr::Out,
    ]);
}

/// A program that puts out one expression without calls puts out exactly
/// one line, the value of the expression as it is shown, which for an
/// integer is its decimal form; where the arithmetic of the expression
/// fails, the run fails with its message and puts out nothing. No
/// variable is set, so that each counts as the `I64` zero.
pub proof fn lemma_out_expression(e: ExprView, fuel: nat)
    requires
        call_free(e, Seq::empty()),
        fuel >= expr_code(e, Seq::empty()).len() + 2,
    ensures
        ({
            let p = program_code(out_program(e));
            let end = run(p, Machine::start(p), fuel);
            match eval(e, Map::empty()) {
                Ok(v) => end.status == Status::Done(ValueView::zero()) && end.output == seq![
                    v.shown(),
                ],
                Err(msg) => end.status == Status::Failed(msg) && end.output == Seq::<
                    Seq<char>,
                >::empty(),
            }
        }),
{
    let none = Seq::<Seq<char>>::empty();
    let p = program_code(out_program(e));
    let code = expr_code(e, none);
    let n = code.len();
    lemma_out_program_code(e);
    let m = Machine::start(p);
    let f = m.frames.last();
    assert(f.code == code + seq![Instr::Out]);
    assert(f.code.subrange(0, n as int) =~= code);
    lemma_expr_runs(p, m, e, none);
    let m1 = run(p, m, n);
    lemma_run_add(p, m, n, (fuel - n) as nat);
    match eval(e, Map::empty()) {
        Err(msg) => {
            lemma_run_stopped(p, m1, (fuel - n) as nat);
        },
        Ok(v) => {
            let f1 = m1.frames.last();
            assert(f1.code[n as int] == Instr::Out);
            // The `Out`.
            lemma_one_step(p, m1);
            let m2 = step(p, m1);
            lemma_run_add(p, m1, 1, (fuel - n - 1) as nat);
            assert(m2.output =~= seq![v.shown()]);
            // The end of the code.
            let f2 = m2.frames.last();
            assert(f2.pc == f2.code.len());
            assert(f2.stack =~= Seq::<ValueView>::empty());
            lemma_one_step(p, m2);
            let m3 = step(p, m2);
            lemma_run_add(p, m2, 1, (fuel - n - 2) as nat);
            assert(m3.status == Status::Done(ValueView::zero()));
            lemma_run_stopped(p, m3, (fuel - n - 2) as nat);
        },
    }
}

/// From the text to the output: where a text has the tokens of a program
/// whose only statement puts out an expression, and the names of the
/// program resolve, the pipeline gives exactly one line, the value of the
/// expression as it is shown, which for an integer is its decimal form;
/// or it fails with the message of the first arithmetic of the
/// expression that fails.
pub proof fn lemma_round_trip(text: Seq<char>, tokens: Seq<crate::lexer::TokenView>, e: ExprView)
    requires
        crate::lexer::lex_spec(text) == Ok::<Seq<crate::lexer::TokenView>, Seq<char>>(tokens),
        crate::parser::parse_spec(tokens) == Ok::<ProgramView, Seq<char>>(out_program(e)),
        crate::semantic::program_error(out_program(e)) is None,
        call_free(e, Seq::empty()),
        expr_code(e, Seq::empty()).len() + 2 <= crate::interpreter::MAX_STEPS,
    ensures
        crate::executor::pipeline(text) == match eval(e, Map::empty()) {
            Ok(v) => Ok((0u64, seq![v.shown()])),
            Err(msg) => Err(msg),
        },
{
    lemma_out_expression(e, crate::interpreter::MAX_STEPS as nat);
}

/// A tail call puts the activation of the called function in the place
/// of the running one: the number of activations stays what it was.
pub proof fn lemma_tail_call_keeps_depth(p: ProgramCode, m: Machine, name: Seq<char>)
    requires
        m.running(),
        0 <= m.frames.last().pc < m.frames.last().code.len(),
        m.frames.last().code[m.frames.last().pc] == Instr::TailCall(name),
    ensures
        step(p, m).status is Running ==> step(p, m).frames.len() == m.frames.len(),
{
}

/// A tail call of a function that returns the constant `k` gives `k` to
/// the caller of the running activation, as if that activation had
/// returned `k` itself, and at no step are there more activations than
/// before the call.
pub proof fn lemma_tail_call_returns_constant(
    p: ProgramCode,
    m: Machine,
    name: Seq<char>,
    k: ValueView,
)
    requires
        m.running(),
        0 <= m.frames.last().pc < m.frames.last().code.len(),
        m.frames.last().code[m.frames.last().pc] == Instr::TailCall(name),
        find_function(p, name) matches Some(callee) && callee.code == seq![
            Instr::LoadConst(k),
            Instr::Return,
        ] && callee.params.len() == callee.count,
    ensures
        run(p, m, 3) == m.returned(k),
        step(p, m).frames.len() == m.frames.len(),
        step(p, step(p, m)).frames.len() == m.frames.len(),
{
    let m1 = step(p, m);
    assert(m1.running());
    let g = m1.frames.last();
    assert(g.code == seq![Instr::LoadConst(k), Instr::Return]);
    assert(g.pc == 0);
    let m2 = step(p, m1);
    let g2 = m2.frames.last();
    assert(g2.pc == 1);
    assert(g2.stack.last() == k);
    let m3 = step(p, m2);
    assert(m1.frames.drop_last() =~= m.frames.drop_last());
    assert(m2.frames.drop_last() =~= m.frames.drop_last());
    assert(m3 == m.returned(k)) by {
        if m.frames.len() > 1 {
            assert(m2.frames[m2.frames.len() - 2] == m.frames[m.frames.len() - 2]);
            assert(m2.frames.subrange(0, m2.frames.len() - 2) =~= m.frames.subrange(
                0,
                m.frames.len() - 2,
            ));
        }
    }
    lemma_run_add(p, m, 1, 2);
    lemma_one_step(p, m);
    lemma_run_add(p, m1, 1, 1);
    lemma_one_step(p, m1);
    lemma_one_step(p, m2);
}

/// The code of a function that counts its parameter down: where the
/// parameter is the `I64` zero it returns `k`, else it calls itself in
/// tail position with one less.
pub open spec fn countdown_code(name: Seq<char>, param: Seq<char>, k: ValueView) -> Seq<Instr> {
    seq![
        Instr::LoadVar(param),
        Instr::LoadConst(ValueView::integer(IntegerType::I64, 0)),
        Instr::Eq,
        Instr::JumpIfFalse(2),
        Instr::LoadConst(k),
        Instr::Return,
        Instr::LoadVar(param),
        Instr::LoadConst(ValueView::integer(IntegerType::I64, 1)),
        Instr::Sub,
        Instr::TailCall(name),
    ]
}

/// The activation that begins to run `code` with its parameter bound to
/// the `I64` number `n`.
pub open spec fn counting(code: Seq<Instr>, param: Seq<char>, n: int) -> FrameView {
    FrameView::start(
        code,
        Map::<Seq<char>, ValueView>::empty().insert(param, ValueView::integer(IntegerType::I64, n)),
    )
}

/// `name` is the function of one parameter that counts down and returns
/// `k`.
pub open spec fn counts_down(p: ProgramCode, name: Seq<char>, param: Seq<char>, k: ValueView) -> bool {
    find_function(p, name) == Some(
        Callee { params: seq![param], count: 1, code: countdown_code(name, param, k) },
    )
}

/// One round of the countdown: from a number above zero, eight steps
/// put the activation for one less in the place of the running one, and
/// at none of them is there another number of activations.
pub proof fn lemma_countdown_round(
    p: ProgramCode,
    m: Machine,
    name: Seq<char>,
    param: Seq<char>,
    k: ValueView,
    n: int,
)
    requires
        m.running(),
        counts_down(p, name, param, k),
        0 < n <= i64::MAX,
        m.frames.last() == counting(countdown_code(name, param, k), param, n),
    ensures
        run(p, m, 8) == with_top(m, counting(countdown_code(name, param, k), param, n - 1)),
        forall|j: nat|
            j <= 8 ==> (#[trigger] run(p, m, j)).running() && run(p, m, j).frames.len()
                == m.frames.len(),
{
    let code = countdown_code(name, param, k);
    let rest = m.frames.drop_last();
    let f0 = m.frames.last();
    let number = ValueView::integer(IntegerType::I64, n);
    let zero = ValueView::integer(IntegerType::I64, 0);
    let one = ValueView::integer(IntegerType::I64, 1);
    let less = ValueView::integer(IntegerType::I64, n - 1);
    assert(f0.var(param) == number);
    let m1 = step(p, m);
    let f1 = FrameView { pc: 1, stack: seq![number], ..f0 };
    assert(m1 == with_top(m, f1)) by {
        assert(f0.stack.push(number) =~= seq![number]);
    }
    let m2 = step(p, m1);
    let f2 = FrameView { pc: 2, stack: seq![number, zero], ..f0 };
    assert(m2 == with_top(m, f2)) by {
        assert(m1.frames.drop_last() =~= rest);
        assert(f1.stack.push(zero) =~= seq![number, zero]);
    }
    let m3 = step(p, m2);
    let f3 = FrameView { pc: 3, stack: seq![ValueView::flag(false)], ..f0 };
    assert(m3 == with_top(m, f3)) by {
        assert(m2.frames.drop_last() =~= rest);
        assert(f2.stack.drop_last() =~= seq![number]);
        assert(f2.stack.drop_last().drop_last() =~= Seq::<ValueView>::empty());
        assert(number != zero);
        assert(Seq::<ValueView>::empty().push(ValueView::flag(false)) =~= seq![
            ValueView::flag(false),
        ]);
    }
    let m4 = step(p, m3);
    let f4 = FrameView { pc: 6, stack: Seq::empty(), ..f0 };
    assert(m4 == with_top(m, f4)) by {
        assert(m3.frames.drop_last() =~= rest);
        assert(f3.stack.drop_last() =~= Seq::<ValueView>::empty());
    }
    let m5 = step(p, m4);
    let f5 = FrameView { pc: 7, stack: seq![number], ..f0 };
    assert(m5 == with_top(m, f5)) by {
        assert(m4.frames.drop_last() =~= rest);
        assert(f4.stack.push(number) =~= seq![number]);
    }
    let m6 = step(p, m5);
    let f6 = FrameView { pc: 8, stack: seq![number, one], ..f0 };
    assert(m6 == with_top(m, f6)) by {
        assert(m5.frames.drop_last() =~= rest);
        assert(f5.stack.push(one) =~= seq![number, one]);
    }
    let m7 = step(p, m6);
    let f7 = FrameView { pc: 9, stack: seq![less], ..f0 };
    assert(m7 == with_top(m, f7)) by {
        assert(m6.frames.drop_last() =~= rest);
        assert(f6.stack.drop_last() =~= seq![number]);
        assert(f6.stack.drop_last().drop_last() =~= Seq::<ValueView>::empty());
        assert(Seq::<ValueView>::empty().push(less) =~= seq![less]);
    }
    let m8 = step(p, m7);
    assert(m8 == with_top(m, counting(code, param, n - 1))) by {
        assert(m7.frames.drop_last() =~= rest);
        let g = FrameView { pc: 10, ..f7 };
        let taken = take_args(g.stack, 1, Seq::empty());
        assert(g.stack.drop_last() =~= Seq::<ValueView>::empty());
        assert(take_args(g.stack.drop_last(), 0, seq![less] + Seq::<ValueView>::empty()) == (
            seq![less] + Seq::<ValueView>::empty(),
            g.stack.drop_last(),
        ));
        assert(taken.0[0] == less);
        let vars = Map::<Seq<char>, ValueView>::empty();
        assert(bind(seq![param], taken.0, 1, vars.insert(param, less)) == vars.insert(param, less));
        assert(bind(seq![param], taken.0, 0, vars) == vars.insert(param, less));
        assert(enter(p, g, name) is Ok);
        assert(enter(p, g, name)->Ok_0.1 == counting(code, param, n - 1));
    }
    lemma_one_step(p, m);
    lemma_one_step(p, m1);
    lemma_one_step(p, m2);
    lemma_one_step(p, m3);
    lemma_one_step(p, m4);
    lemma_one_step(p, m5);
    lemma_one_step(p, m6);
    lemma_one_step(p, m7);
    lemma_run_add(p, m, 1, 1);
    lemma_run_add(p, m, 2, 1);
    lemma_run_add(p, m, 3, 1);
    lemma_run_add(p, m, 4, 1);
    lemma_run_add(p, m, 5, 1);
    lemma_run_add(p, m, 6, 1);
    lemma_run_add(p, m, 7, 1);
    assert(run(p, m, 0) == m);
    assert forall|j: nat| j <= 8 implies (#[trigger] run(p, m, j)).running() && run(
        p,
        m,
        j,
    ).frames.len() == m.frames.len() by {
        if j == 0 {
        } else if j == 1 {
        } else if j == 2 {
        } else if j == 3 {
        } else if j == 4 {
        } else if j == 5 {
        } else if j == 6 {
        } else if j == 7 {
        } else {
        }
    }
}

/// The end of the countdown: at zero, six steps return `k` for the
/// running activation, and before the last of them there is no other
/// number of activations.
pub proof fn lemma_countdown_end(
    p: ProgramCode,
    m: Machine,
    name: Seq<char>,
    param: Seq<char>,
    k: ValueView,
)
    requires
        m.running(),
        m.frames.last() == counting(countdown_code(name, param, k), param, 0),
    ensures
        run(p, m, 6) == m.returned(k),
        forall|j: nat|
            j < 6 ==> (#[trigger] run(p, m, j)).running() && run(p, m, j).frames.len()
                == m.frames.len(),
{
    let rest = m.frames.drop_last();
    let f0 = m.frames.last();
    let zero = ValueView::integer(IntegerType::I64, 0);
    assert(f0.var(param) == zero);
    let m1 = step(p, m);
    let f1 = FrameView { pc: 1, stack: seq![zero], ..f0 };
    assert(m1 == with_top(m, f1)) by {
        assert(f0.stack.push(zero) =~= seq![zero]);
    }
    let m2 = step(p, m1);
    let f2 = FrameView { pc: 2, stack: seq![zero, zero], ..f0 };
    assert(m2 == with_top(m, f2)) by {
        assert(m1.frames.drop_last() =~= rest);
        assert(f1.stack.push(zero) =~= seq![zero, zero]);
    }
    let m3 = step(p, m2);
    let f3 = FrameView { pc: 3, stack: seq![ValueView::flag(true)], ..f0 };
    assert(m3 == with_top(m, f3)) by {
        assert(m2.frames.drop_last() =~= rest);
        assert(f2.stack.drop_last() =~= seq![zero]);
        assert(f2.stack.drop_last().drop_last() =~= Seq::<ValueView>::empty());
        assert(Seq::<ValueView>::empty().push(ValueView::flag(true)) =~= seq![
            ValueView::flag(true),
        ]);
    }
    let m4 = step(p, m3);
    let f4 = FrameView { pc: 4, stack: Seq::empty(), ..f0 };
    assert(m4 == with_top(m, f4)) by {
        assert(m3.frames.drop_last() =~= rest);
        assert(f3.stack.drop_last() =~= Seq::<ValueView>::empty());
    }
    let m5 = step(p, m4);
    let f5 = FrameView { pc: 5, stack: seq![k], ..f0 };
    assert(m5 == with_top(m, f5)) by {
        assert(m4.frames.drop_last() =~= rest);
        assert(f4.stack.push(k) =~= seq![k]);
    }
    let m6 = step(p, m5);
    assert(m6 == m.returned(k)) by {
        lemma_returned_of_top(m, f5);
    }
    lemma_one_step(p, m);
    lemma_one_step(p, m1);
    lemma_one_step(p, m2);
    lemma_one_step(p, m3);
    lemma_one_step(p, m4);
    lemma_one_step(p, m5);
    lemma_run_add(p, m, 1, 1);
    lemma_run_add(p, m, 2, 1);
    lemma_run_add(p, m, 3, 1);
    lemma_run_add(p, m, 4, 1);
    lemma_run_add(p, m, 5, 1);
    assert(run(p, m, 0) == m);
    assert forall|j: nat| j < 6 implies (#[trigger] run(p, m, j)).running() && run(
        p,
        m,
        j,
    ).frames.len() == m.frames.len() by {
        if j == 0 {
        } else if j == 1 {
        } else if j == 2 {
        } else if j == 3 {
        } else if j == 4 {
        } else {
        }
    }
}

/// What a machine gives to the caller of its running activation does not
/// depend on that activation.
pub proof fn lemma_returned_of_top(m: Machine, f: FrameView)
    requires
        m.frames.len() > 0,
    ensures
        forall|v: ValueView| #[trigger] with_top(m, f).returned(v) == m.returned(v),
{
    let w = with_top(m, f);
    assert(w.frames.len() == m.frames.len());
    if m.frames.len() > 1 {
        assert(w.frames[w.frames.len() - 2] == m.frames[m.frames.len() - 2]);
        assert(w.frames.subrange(0, w.frames.len() - 2) =~= m.frames.subrange(
            0,
            m.frames.len() - 2,
        ));
    }
}

/// A function that counts its parameter down from `n` by tail calls of
/// itself returns `k` to the caller of the activation that began, after
/// eight steps for each call and six at the end; and at no step before
/// the last are there more activations, or fewer, than at the beginning,
/// however large `n` is.
pub proof fn lemma_countdown(
    p: ProgramCode,
    m: Machine,
    name: Seq<char>,
    param: Seq<char>,
    k: ValueView,
    n: nat,
)
    requires
        m.running(),
        counts_down(p, name, param, k),
        n <= i64::MAX,
        m.frames.last() == counting(countdown_code(name, param, k), param, n as int),
    ensures
        run(p, m, 8 * n + 6) == m.returned(k),
        forall|j: nat|
            j < 8 * n + 6 ==> (#[trigger] run(p, m, j)).running() && run(p, m, j).frames.len()
                == m.frames.len(),
    decreases n,
{
    if n == 0 {
        lemma_countdown_end(p, m, name, param, k);
    } else {
        let next = counting(countdown_code(name, param, k), param, n - 1);
        lemma_countdown_round(p, m, name, param, k, n as int);
        let m8 = run(p, m, 8);
        assert(m8 == with_top(m, next));
        assert(m8.frames.last() == next);
        lemma_countdown(p, m8, name, param, k, (n - 1) as nat);
        lemma_returned_of_top(m, next);
        lemma_run_add(p, m, 8, (8 * (n - 1) + 6) as nat);
        assert forall|j: nat| j < 8 * n + 6 implies (#[trigger] run(p, m, j)).running() && run(
            p,
            m,
            j,
        ).frames.len() == m.frames.len() by {
            if j > 8 {
                lemma_run_add(p, m, 8, (j - 8) as nat);
                assert(run(p, m8, (j - 8) as nat).running());
            }
        }
    }
}

/// A run that begins with the one activation of the countdown from `n`
/// ends with the value `k` and puts out nothing, given the steps that
/// the countdown takes.
pub proof fn lemma_countdown_terminates(
    p: ProgramCode,
    name: Seq<char>,
    param: Seq<char>,
    k: ValueView,
    n: nat,
    fuel: nat,
)
    requires
        counts_down(p, name, param, k),
        n <= i64::MAX,
        fuel >= 8 * n + 6,
    ensures
        ({
            let m = Machine {
                frames: seq![counting(countdown_code(name, param, k), param, n as int)],
                output: Seq::empty(),
                status: Status::Running,
            };
            run(p, m, fuel) == Machine {
                frames: Seq::empty(),
                output: Seq::empty(),
                status: Status::Done(k),
            }
        }),
{
    let m = Machine {
        frames: seq![counting(countdown_code(name, param, k), param, n as int)],
        output: Seq::empty(),
        status: Status::Running,
    };
    lemma_countdown(p, m, name, param, k, n);
    lemma_run_add(p, m, 8 * n + 6, (fuel - (8 * n + 6)) as nat);
    lemma_run_stopped(p, m.returned(k), (fuel - (8 * n + 6)) as nat);
}

} // verus!
