//! The executor: a program is compiled to bytecode and run.

use crate::ast::{BinOpType, Expr};
use crate::bytecode::{compile_to_bytecode, program_code, Bytecode};
use crate::codegen::IR;
use crate::correctness::eval;
use crate::interpreter::{compare, compute, execute_bytecode, load_var, vars_view, MAX_STEPS};
use crate::machine::{as_u64, run, Machine, Status};
use crate::names::NameMap;
use crate::types::{Value, ValueView};
use vstd::prelude::*;

verus! {

/// Compiles the program and runs it: the final value as a number with
/// the lines put out, or the message of the failure.
pub fn execute(ir: IR) -> (r: Result<(u64, Vec<String>), String>)
    ensures
        ({
            let code = program_code(ir.program.deep_view());
            let end = run(code, Machine::start(code), MAX_STEPS as nat);
            match r {
                Ok((n, lines)) => end.status matches Status::Done(v) && n == as_u64(v)
                    && lines.deep_view() == end.output,
                Err(m) => match end.status {
                    Status::Failed(e) => m@ == e,
                    Status::Running => m@ == "Step limit exceeded"@,
                    Status::Done(_) => false,
                },
            }
        }),
{
    let bytecode_program = compile_to_bytecode(&ir.program);
    execute_bytecode(bytecode_program)
}

/// What the whole pipeline gives for a text: the message of the first
/// stage that fails, the tokenizer, the parser, the name resolution or
/// the machine; else the final value as a number and the lines put out.
pub open spec fn pipeline(text: Seq<char>) -> Result<(u64, Seq<Seq<char>>), Seq<char>> {
    match crate::lexer::lex_spec(text) {
        Err(m) => Err(m),
        Ok(tokens) => match crate::parser::parse_spec(tokens) {
            Err(m) => Err(m),
            Ok(program) => match crate::semantic::program_error(program) {
                Some(m) => Err(m),
                None => {
                    let code = program_code(program);
                    let end = run(code, Machine::start(code), MAX_STEPS as nat);
                    match end.status {
                        Status::Done(v) => Ok((as_u64(v), end.output)),
                        Status::Failed(m) => Err(m),
                        Status::Running => Err("Step limit exceeded"@),
                    }
                },
            },
        },
    }
}

/// Runs a text through the whole pipeline: tokens, syntax tree, name
/// resolution, bytecode, machine.
pub fn run_source(code: &str) -> (r: Result<(u64, Vec<String>), String>)
    ensures
        match r {
            Ok((n, lines)) => pipeline(code@) == Ok::<(u64, Seq<Seq<char>>), Seq<char>>(
                (n, lines.deep_view()),
            ),
            Err(m) => pipeline(code@) == Err::<(u64, Seq<Seq<char>>), Seq<char>>(m@),
        },
{
    let tokens = match crate::lexer::tokenize(code) {
        Ok(tokens) => tokens,
        Err(m) => {
            return Err(m);
        },
    };
    let ast = match crate::parser::parse(tokens) {
        Ok(ast) => ast,
        Err(m) => {
            return Err(m);
        },
    };
    let checked = match crate::semantic::analyze(ast) {
        Ok(checked) => checked,
        Err(m) => {
            return Err(m);
        },
    };
    let ir = match crate::codegen::generate(checked) {
        Ok(ir) => ir,
        Err(m) => {
            return Err(m);
        },
    };
    execute(ir)
}

/// The value of an expression without calls where the variables are
/// `variables`, computed on the syntax tree: what the machine leaves on
/// its stack after the code of the expression. A call counts as the `I64`
/// zero.
pub fn evaluate_expr(expr: &Expr, variables: &NameMap<Value>) -> (r: Result<Value, String>)
    ensures
        match r {
            Ok(v) => eval(expr.deep_view(), vars_view(*variables)) == Ok::<ValueView, Seq<char>>(
                v@,
            ),
            Err(m) => eval(expr.deep_view(), vars_view(*variables)) == Err::<
                ValueView,
                Seq<char>,
            >(m@),
        },
    decreases expr,
{
    match expr {
        Expr::Number(n) => Ok(Value::Integer(n.clone())),
        Expr::TypedNumber(n) => Ok(Value::Integer(n.clone())),
        Expr::Ident(name) => Ok(load_var(variables, name.as_str())),
        Expr::BinOp(left, op, right) => {
            let a = match evaluate_expr(left, variables) {
                Ok(v) => v,
                Err(m) => {
                    return Err(m);
                },
            };
            let b = match evaluate_expr(right, variables) {
                Ok(v) => v,
                Err(m) => {
                    return Err(m);
                },
            };
            match op {
                BinOpType::Plus => compute(&Bytecode::Add, a, b),
                BinOpType::Minus => compute(&Bytecode::Sub, a, b),
                BinOpType::Mul => compute(&Bytecode::Mul, a, b),
                BinOpType::Mod => compute(&Bytecode::Mod, a, b),
                BinOpType::Le => Ok(compare(&Bytecode::Le, &a, &b)),
                BinOpType::Lt => Ok(compare(&Bytecode::Lt, &a, &b)),
                BinOpType::Gt => Ok(compare(&Bytecode::Gt, &a, &b)),
                BinOpType::Ge => Ok(compare(&Bytecode::Ge, &a, &b)),
                BinOpType::Eq => Ok(compare(&Bytecode::Eq, &a, &b)),
            }
        },
        Expr::Call(_, _) => Ok(Value::zero()),
    }
}

} // verus!
