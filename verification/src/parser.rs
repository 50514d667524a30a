//! The parser: recursive descent over the tokens, after a scan that finds
//! the names of all functions, so that `f x y` is a call exactly when `f`
//! is defined somewhere in the text.
//!
//! The grammar is written as functions from a position in the tokens to
//! an outcome. Each goes on from the position that the part before has
//! reached, if that part has advanced; it always has, which
//! `lemma_stmt_advances` and its companions show.

use crate::ast::{
    expr_view, lemma_block_view, lemma_call_view, lemma_func_def_view, BinOpType, Expr, ExprView, Program, ProgramView, Stmt,
    StmtView,
};
use crate::lexer::{Token, TokenView};
use crate::names::{contains_name, has_name, names_view};
use crate::text::decimal_text;
use crate::types::{IntView, IntegerType, IntegerValue};
use vstd::prelude::*;
use vstd::string::*;

verus! {

/// The outcome of parsing one construct: what was parsed, or the message
/// of the error, and the position that the parser has reached.
pub struct Parse<A> {
    pub result: Result<A, Seq<char>>,
    pub pos: int,
}

/// The token at `i`, if there is one.
pub open spec fn token_at(ts: Seq<TokenView>, i: int) -> Option<TokenView> {
    if 0 <= i < ts.len() {
        Some(ts[i])
    } else {
        None
    }
}

/// The tag of a width as the debug form of a value shows it.
pub open spec fn width_tag(w: IntegerType) -> Seq<char> {
    match w {
        IntegerType::I8 => "I8"@,
        IntegerType::I16 => "I16"@,
        IntegerType::I32 => "I32"@,
        IntegerType::I64 => "I64"@,
        IntegerType::I128 => "I128"@,
        IntegerType::BigInt => "BigInt"@,
    }
}

/// The debug form of a value: its width's tag and its decimal form.
pub open spec fn value_text(v: IntView) -> Seq<char> {
    width_tag(v.width) + "("@ + decimal_text(v.value) + ")"@
}

/// The debug form of a token.
pub open spec fn token_text(t: TokenView) -> Seq<char> {
    match t {
        TokenView::Def => "Def"@,
        TokenView::If => "If"@,
        TokenView::While => "While"@,
        TokenView::Return => "Return"@,
        TokenView::End => "End"@,
        TokenView::Out => "Out"@,
        TokenView::Assign => "Assign"@,
        TokenView::PlusAssign => "PlusAssign"@,
        TokenView::MinusAssign => "MinusAssign"@,
        TokenView::MulAssign => "MulAssign"@,
        TokenView::ModAssign => "ModAssign"@,
        TokenView::Plus => "Plus"@,
        TokenView::Minus => "Minus"@,
        TokenView::Mul => "Mul"@,
        TokenView::Mod => "Mod"@,
        TokenView::Lt => "Lt"@,
        TokenView::Le => "Le"@,
        TokenView::Gt => "Gt"@,
        TokenView::Ge => "Ge"@,
        TokenView::Eq => "Eq"@,
        TokenView::Comma => "Comma"@,
        TokenView::Ident(s) => "Ident(\""@ + s + "\")"@,
        TokenView::Number(v) => "Number("@ + value_text(v) + ")"@,
        TokenView::TypedNumber(v) => "TypedNumber("@ + value_text(v) + ")"@,
        TokenView::TypedNumber16(v) => "TypedNumber16("@ + value_text(v) + ")"@,
        TokenView::TypedNumber32(v) => "TypedNumber32("@ + value_text(v) + ")"@,
        TokenView::TypedNumber64(v) => "TypedNumber64("@ + value_text(v) + ")"@,
        TokenView::TypedNumber128(v) => "TypedNumber128("@ + value_text(v) + ")"@,
        TokenView::TypedNumberBigInt(v) => "TypedNumberBigInt("@ + value_text(v) + ")"@,
        TokenView::Whitespace => "Whitespace"@,
        TokenView::Comment => "Comment"@,
    }
}

/// The debug form of a token that may be missing.
pub open spec fn found_text(t: Option<TokenView>) -> Seq<char> {
    match t {
        Some(t) => "Some("@ + token_text(t) + ")"@,
        None => "None"@,
    }
}

/// `Expected primary expression, got T`.
pub open spec fn expected_primary(t: Option<TokenView>) -> Seq<char> {
    "Expected primary expression, got "@ + found_text(t)
}

/// `Expected statement, got T`.
pub open spec fn expected_statement(t: Option<TokenView>) -> Seq<char> {
    "Expected statement, got "@ + found_text(t)
}

/// The names of the functions that the tokens define, from `p` on and
/// after those in `acc`: every identifier that follows a `def`, wherever
/// the `def` stands.
pub open spec fn scan_functions(ts: Seq<TokenView>, p: int, acc: Seq<Seq<char>>) -> Seq<Seq<char>>
    decreases ts.len() - p,
{
    if p < 0 || p >= ts.len() {
        acc
    } else if ts[p] is Def {
        match token_at(ts, p + 1) {
            Some(TokenView::Ident(name)) => scan_functions(ts, p + 1, acc.push(name)),
            _ => scan_functions(ts, p + 1, acc),
        }
    } else {
        scan_functions(ts, p + 1, acc)
    }
}

/// Every identifier that follows a `def` at or after `p` is among the
/// names that the scan gives, and so is every name in `acc`.
pub proof fn lemma_scan_finds(ts: Seq<TokenView>, p: int, acc: Seq<Seq<char>>, at: int)
    requires
        0 <= p <= at,
        at + 1 < ts.len(),
        ts[at] is Def,
        ts[at + 1] is Ident,
    ensures
        scan_functions(ts, p, acc).contains(ts[at + 1]->Ident_0),
        forall|name: Seq<char>| acc.contains(name) ==> scan_functions(ts, p, acc).contains(name),
    decreases ts.len() - p,
{
    lemma_scan_keeps(ts, p, acc);
    if p < at {
        let next = if ts[p] is Def && token_at(ts, p + 1) is Some && token_at(ts, p + 1)->0 is Ident {
            acc.push(token_at(ts, p + 1)->0->Ident_0)
        } else {
            acc
        };
        lemma_scan_finds(ts, p + 1, next, at);
    } else {
        let name = ts[at + 1]->Ident_0;
        lemma_scan_keeps(ts, p + 1, acc.push(name));
        assert(acc.push(name)[acc.len() as int] == name);
        assert(acc.push(name).contains(name));
        assert(scan_functions(ts, p, acc) == scan_functions(ts, p + 1, acc.push(name)));
    }
}

/// An identifier that follows a `def` anywhere in the tokens is a known
/// function.
pub proof fn lemma_every_def_is_known(ts: Seq<TokenView>, at: int)
    requires
        0 <= at,
        at + 1 < ts.len(),
        ts[at] is Def,
        ts[at + 1] is Ident,
    ensures
        has_name(scan_functions(ts, 0, Seq::empty()), ts[at + 1]->Ident_0),
{
    lemma_scan_finds(ts, 0, Seq::empty(), at);
    crate::names::lemma_has_name(scan_functions(ts, 0, Seq::empty()), ts[at + 1]->Ident_0);
}

/// The scan keeps every name that it has.
pub proof fn lemma_scan_keeps(ts: Seq<TokenView>, p: int, acc: Seq<Seq<char>>)
    ensures
        forall|name: Seq<char>| acc.contains(name) ==> scan_functions(ts, p, acc).contains(name),
    decreases ts.len() - p,
{
    if 0 <= p < ts.len() {
        let next = if ts[p] is Def && token_at(ts, p + 1) is Some && token_at(ts, p + 1)->0 is Ident {
            acc.push(token_at(ts, p + 1)->0->Ident_0)
        } else {
            acc
        };
        lemma_scan_keeps(ts, p + 1, next);
        assert forall|name: Seq<char>| acc.contains(name) implies next.contains(name) by {
            let i = choose|i: int| 0 <= i < acc.len() && acc[i] == name;
            assert(next[i] == name);
        }
    }
}

/// The level and the operator of a token that is a binary operator:
/// `==` at level 0, the comparisons at 1, `+` and `-` at 2, `*` and `%`
/// at 3.
pub open spec fn binary_operator(t: Option<TokenView>) -> Option<(nat, BinOpType)> {
    match t {
        Some(TokenView::Mul) => Some((3, BinOpType::Mul)),
        Some(TokenView::Mod) => Some((3, BinOpType::Mod)),
        Some(TokenView::Plus) => Some((2, BinOpType::Plus)),
        Some(TokenView::Minus) => Some((2, BinOpType::Minus)),
        Some(TokenView::Lt) => Some((1, BinOpType::Lt)),
        Some(TokenView::Le) => Some((1, BinOpType::Le)),
        Some(TokenView::Gt) => Some((1, BinOpType::Gt)),
        Some(TokenView::Ge) => Some((1, BinOpType::Ge)),
        Some(TokenView::Eq) => Some((0, BinOpType::Eq)),
        _ => None,
    }
}

/// The operator of a token that continues an expression which began a
/// statement with an identifier: `+`, `-`, `<=` or `<`.
pub open spec fn tail_operator(t: Option<TokenView>) -> Option<BinOpType> {
    match t {
        Some(TokenView::Plus) => Some(BinOpType::Plus),
        Some(TokenView::Minus) => Some(BinOpType::Minus),
        Some(TokenView::Le) => Some(BinOpType::Le),
        Some(TokenView::Lt) => Some(BinOpType::Lt),
        _ => None,
    }
}

/// The operator of a compound assignment.
pub open spec fn compound_operator(t: Option<TokenView>) -> Option<BinOpType> {
    match t {
        Some(TokenView::PlusAssign) => Some(BinOpType::Plus),
        Some(TokenView::MinusAssign) => Some(BinOpType::Minus),
        Some(TokenView::MulAssign) => Some(BinOpType::Mul),
        Some(TokenView::ModAssign) => Some(BinOpType::Mod),
        _ => None,
    }
}

/// Whether the token at `p` can begin the arguments of a call: an
/// identifier, a literal without suffix, or a minus.
pub open spec fn begins_argument(ts: Seq<TokenView>, p: int) -> bool {
    match token_at(ts, p) {
        Some(TokenView::Ident(_)) => true,
        Some(TokenView::Number(_)) => true,
        Some(TokenView::Minus) => true,
        _ => false,
    }
}

/// Whether an identifier inside an expression, with the next token at
/// `p`, is a call: the name is a function, an argument can begin at `p`,
/// and `p` does not begin an assignment.
pub open spec fn is_call(ts: Seq<TokenView>, p: int, funcs: Seq<Seq<char>>, name: Seq<char>) -> bool {
    &&& begins_argument(ts, p)
    &&& has_name(funcs, name)
    &&& !(token_at(ts, p) is Some && token_at(ts, p)->0 is Ident && token_at(ts, p + 1) == Some(
        TokenView::Assign,
    ))
}

/// A primary expression at `pos`: a literal, an identifier, or a call.
pub open spec fn primary(ts: Seq<TokenView>, pos: int, funcs: Seq<Seq<char>>) -> Parse<ExprView>
    decreases ts.len() - pos, 0nat,
{
    match token_at(ts, pos) {
        Some(TokenView::Number(n)) => Parse { result: Ok(ExprView::Number(n)), pos: pos + 1 },
        Some(TokenView::TypedNumber(v)) => Parse {
            result: Ok(ExprView::TypedNumber(v)),
            pos: pos + 1,
        },
        Some(TokenView::TypedNumber16(v)) => Parse {
            result: Ok(ExprView::TypedNumber(v)),
            pos: pos + 1,
        },
        Some(TokenView::TypedNumber32(v)) => Parse {
            result: Ok(ExprView::TypedNumber(v)),
            pos: pos + 1,
        },
        Some(TokenView::TypedNumber64(v)) => Parse {
            result: Ok(ExprView::TypedNumber(v)),
            pos: pos + 1,
        },
        Some(TokenView::TypedNumber128(v)) => Parse {
            result: Ok(ExprView::TypedNumber(v)),
            pos: pos + 1,
        },
        Some(TokenView::TypedNumberBigInt(v)) => Parse {
            result: Ok(ExprView::TypedNumber(v)),
            pos: pos + 1,
        },
        Some(TokenView::Ident(name)) => {
            if is_call(ts, pos + 1, funcs, name) {
                call(ts, pos + 1, funcs, name)
            } else {
                Parse { result: Ok(ExprView::Ident(name)), pos: pos + 1 }
            }
        },
        t => Parse { result: Err(expected_primary(t)), pos },
    }
}

/// An expression at `pos` whose operators are of level `min` or above.
pub open spec fn bin_op(ts: Seq<TokenView>, pos: int, funcs: Seq<Seq<char>>, min: nat) -> Parse<
    ExprView,
>
    decreases ts.len() - pos, 1nat,
{
    let first = primary(ts, pos, funcs);
    match first.result {
        Ok(left) => if pos < first.pos <= ts.len() {
            bin_loop(ts, first.pos, funcs, min, left)
        } else {
            first
        },
        Err(_) => first,
    }
}

/// The operators and right operands that follow `left` at `pos`, of level
/// `min` or above. Operators of one level group to the left.
pub open spec fn bin_loop(
    ts: Seq<TokenView>,
    pos: int,
    funcs: Seq<Seq<char>>,
    min: nat,
    left: ExprView,
) -> Parse<ExprView>
    decreases ts.len() - pos, 3nat,
{
    match binary_operator(token_at(ts, pos)) {
        Some((level, op)) => if level >= min {
            let right = bin_op(ts, pos + 1, funcs, level + 1);
            match right.result {
                Ok(r) => if pos < right.pos <= ts.len() {
                    bin_loop(
                        ts,
                        right.pos,
                        funcs,
                        min,
                        ExprView::BinOp(Box::new(left), op, Box::new(r)),
                    )
                } else {
                    right
                },
                Err(_) => right,
            }
        } else {
            Parse { result: Ok(left), pos }
        },
        None => Parse { result: Ok(left), pos },
    }
}

/// An expression at `pos`.
pub open spec fn expr(ts: Seq<TokenView>, pos: int, funcs: Seq<Seq<char>>) -> Parse<ExprView>
    decreases ts.len() - pos, 2nat,
{
    bin_op(ts, pos, funcs, 0)
}

/// The call of `name` whose arguments begin at `pos`: one expression, and
/// one more after each comma.
pub open spec fn call(ts: Seq<TokenView>, pos: int, funcs: Seq<Seq<char>>, name: Seq<char>) -> Parse<
    ExprView,
>
    decreases ts.len() - pos, 3nat,
{
    let first = expr(ts, pos, funcs);
    match first.result {
        Ok(e) => if pos < first.pos <= ts.len() {
            more_args(ts, first.pos, funcs, name, seq![e])
        } else {
            first
        },
        Err(_) => first,
    }
}

/// The rest of the arguments of a call, after those in `args`.
pub open spec fn more_args(
    ts: Seq<TokenView>,
    pos: int,
    funcs: Seq<Seq<char>>,
    name: Seq<char>,
    args: Seq<ExprView>,
) -> Parse<ExprView>
    decreases ts.len() - pos, 3nat,
{
    if token_at(ts, pos) == Some(TokenView::Comma) {
        let next = expr(ts, pos + 1, funcs);
        match next.result {
            Ok(e) => if pos < next.pos <= ts.len() {
                more_args(ts, next.pos, funcs, name, args.push(e))
            } else {
                next
            },
            Err(_) => next,
        }
    } else {
        Parse { result: Ok(ExprView::Call(name, args)), pos }
    }
}

/// What follows an identifier that began a statement and is no call:
/// primaries joined to `left` by `+`, `-`, `<=` or `<`, from left to
/// right.
pub open spec fn ident_tail(ts: Seq<TokenView>, pos: int, funcs: Seq<Seq<char>>, left: ExprView) -> Parse<
    ExprView,
>
    decreases ts.len() - pos, 3nat,
{
    match tail_operator(token_at(ts, pos)) {
        Some(op) => {
            let right = primary(ts, pos + 1, funcs);
            match right.result {
                Ok(r) => if pos < right.pos <= ts.len() {
                    ident_tail(
                        ts,
                        right.pos,
                        funcs,
                        ExprView::BinOp(Box::new(left), op, Box::new(r)),
                    )
                } else {
                    right
                },
                Err(_) => right,
            }
        },
        None => Parse { result: Ok(left), pos },
    }
}

/// The parameters of a function from `pos` on: identifiers, each but the
/// last followed by a comma.
pub open spec fn params(ts: Seq<TokenView>, pos: int, acc: Seq<Seq<char>>) -> (Seq<Seq<char>>, int)
    decreases ts.len() - pos,
{
    match token_at(ts, pos) {
        Some(TokenView::Ident(p)) => if token_at(ts, pos + 1) == Some(TokenView::Comma) {
            params(ts, pos + 2, acc.push(p))
        } else {
            (acc.push(p), pos + 1)
        },
        _ => (acc, pos),
    }
}

/// The parameters end at or after their start and within the tokens.
pub proof fn lemma_params_bounds(ts: Seq<TokenView>, pos: int, acc: Seq<Seq<char>>)
    requires
        0 <= pos <= ts.len(),
    ensures
        pos <= params(ts, pos, acc).1 <= ts.len(),
    decreases ts.len() - pos,
{
    match token_at(ts, pos) {
        Some(TokenView::Ident(p)) => {
            if token_at(ts, pos + 1) == Some(TokenView::Comma) {
                lemma_params_bounds(ts, pos + 2, acc.push(p));
            }
        },
        _ => {},
    }
}

/// The statement made of a parsed expression by `make`; an error stays
/// what it is.
pub open spec fn lift(e: Parse<ExprView>, made: StmtView) -> Parse<StmtView> {
    Parse {
        result: match e.result {
            Ok(_) => Ok(made),
            Err(m) => Err(m),
        },
        pos: e.pos,
    }
}

/// What was parsed, or an expression that stands for nothing where
/// parsing failed.
pub open spec fn parsed(e: Parse<ExprView>) -> ExprView {
    match e.result {
        Ok(v) => v,
        Err(_) => ExprView::Ident(Seq::empty()),
    }
}

/// A parsed expression, put out.
pub open spec fn as_out(e: Parse<ExprView>) -> Parse<StmtView> {
    lift(e, StmtView::Out(parsed(e)))
}

/// A parsed expression, returned.
pub open spec fn as_return(e: Parse<ExprView>) -> Parse<StmtView> {
    lift(e, StmtView::Return(parsed(e)))
}

/// A parsed expression, assigned to `name`.
pub open spec fn as_assign(name: Seq<char>, e: Parse<ExprView>) -> Parse<StmtView> {
    lift(e, StmtView::Assign(name, parsed(e)))
}

/// A compound assignment: `name op= e` stands for `name = name op e`.
pub open spec fn as_compound(name: Seq<char>, op: BinOpType, e: Parse<ExprView>) -> Parse<StmtView> {
    lift(
        e,
        StmtView::Assign(
            name,
            ExprView::BinOp(Box::new(ExprView::Ident(name)), op, Box::new(parsed(e))),
        ),
    )
}

/// A statement that begins with a minus: zero, as an `I8`, minus the
/// parsed primary, put out.
pub open spec fn as_negated(e: Parse<ExprView>) -> Parse<StmtView> {
    lift(
        e,
        StmtView::Out(
            ExprView::BinOp(
                Box::new(ExprView::Number(IntView { width: IntegerType::I8, value: 0 })),
                BinOpType::Minus,
                Box::new(parsed(e)),
            ),
        ),
    )
}

/// The statement that begins with the identifier `name` at `pos`: an
/// assignment, a compound assignment, a call whose result is put out, or
/// an expression that is put out.
pub open spec fn ident_stmt(ts: Seq<TokenView>, pos: int, funcs: Seq<Seq<char>>, name: Seq<char>) -> Parse<
    StmtView,
>
    decreases ts.len() - pos, 4nat,
{
    let next = token_at(ts, pos + 1);
    if next == Some(TokenView::Assign) {
        as_assign(name, expr(ts, pos + 2, funcs))
    } else if compound_operator(next) is Some {
        as_compound(name, compound_operator(next)->0, expr(ts, pos + 2, funcs))
    } else if next is None {
        Parse { result: Ok(StmtView::Out(ExprView::Ident(name))), pos: pos + 1 }
    } else if begins_argument(ts, pos + 1) && has_name(funcs, name) {
        as_out(call(ts, pos + 1, funcs, name))
    } else {
        as_out(ident_tail(ts, pos + 1, funcs, ExprView::Ident(name)))
    }
}

/// What a block has gathered: its statements and the position after it.
pub struct Block {
    pub body: Seq<StmtView>,
    pub pos: int,
}

/// The statements of a block from `pos` on, after those in `acc`, up to
/// the `end` that closes it or to the end of the tokens. After a
/// statement that fails, the parser skips one token and goes on.
pub open spec fn block(ts: Seq<TokenView>, pos: int, funcs: Seq<Seq<char>>, acc: Seq<StmtView>) -> Block
    decreases ts.len() - pos, 6nat,
{
    if pos < 0 || pos >= ts.len() {
        Block { body: acc, pos }
    } else if ts[pos] is End {
        Block { body: acc, pos: pos + 1 }
    } else {
        let s = stmt(ts, pos, funcs);
        match s.result {
            Ok(v) => if pos < s.pos <= ts.len() {
                block(ts, s.pos, funcs, acc.push(v))
            } else {
                Block { body: acc.push(v), pos: s.pos }
            },
            Err(_) => {
                let next = if s.pos < ts.len() {
                    s.pos + 1
                } else {
                    s.pos
                };
                if pos < next <= ts.len() {
                    block(ts, next, funcs, acc)
                } else {
                    Block { body: acc, pos: next }
                }
            },
        }
    }
}

/// A block statement whose condition begins at `pos`.
pub open spec fn guarded(
    ts: Seq<TokenView>,
    pos: int,
    funcs: Seq<Seq<char>>,
    is_while: bool,
) -> Parse<StmtView>
    decreases ts.len() - pos, 4nat,
{
    let cond = expr(ts, pos, funcs);
    match cond.result {
        Ok(c) => if pos < cond.pos <= ts.len() {
            let b = block(ts, cond.pos, funcs, Seq::empty());
            Parse {
                result: Ok(
                    if is_while {
                        StmtView::While(c, b.body)
                    } else {
                        StmtView::If(c, b.body)
                    },
                ),
                pos: b.pos,
            }
        } else {
            Parse { result: Err(Seq::empty()), pos: cond.pos }
        },
        Err(m) => Parse { result: Err(m), pos: cond.pos },
    }
}

/// A function definition whose `def` is at `pos`.
pub open spec fn func_def(ts: Seq<TokenView>, pos: int, funcs: Seq<Seq<char>>) -> Parse<StmtView>
    decreases ts.len() - pos, 4nat,
{
    match token_at(ts, pos + 1) {
        Some(TokenView::Ident(name)) => {
            let ps = params(ts, pos + 2, Seq::empty());
            if pos < ps.1 <= ts.len() {
                let b = block(ts, ps.1, funcs, Seq::empty());
                Parse { result: Ok(StmtView::FuncDef(name, ps.0, b.body)), pos: b.pos }
            } else {
                Parse { result: Err(Seq::empty()), pos: ps.1 }
            }
        },
        _ => Parse { result: Err("Expected function name"@), pos: pos + 1 },
    }
}

/// The statement at `pos`.
pub open spec fn stmt(ts: Seq<TokenView>, pos: int, funcs: Seq<Seq<char>>) -> Parse<StmtView>
    decreases ts.len() - pos, 5nat,
{
    match token_at(ts, pos) {
        None => Parse { result: Err("Unexpected end of input"@), pos },
        Some(TokenView::Ident(name)) => ident_stmt(ts, pos, funcs, name),
        Some(TokenView::Number(_)) => as_out(expr(ts, pos, funcs)),
        Some(TokenView::Minus) => as_negated(primary(ts, pos + 1, funcs)),
        Some(TokenView::Def) => func_def(ts, pos, funcs),
        Some(TokenView::If) => guarded(ts, pos + 1, funcs, false),
        Some(TokenView::While) => guarded(ts, pos + 1, funcs, true),
        Some(TokenView::Return) => as_return(expr(ts, pos + 1, funcs)),
        Some(TokenView::Out) => as_out(expr(ts, pos + 1, funcs)),
        t => Parse { result: Err(expected_statement(t)), pos },
    }
}

/// The warnings of a function definition whose `def` is at `pos`: those
/// of its body.
pub open spec fn func_def_warnings(ts: Seq<TokenView>, pos: int, funcs: Seq<Seq<char>>) -> Seq<
    Seq<char>,
>
    decreases ts.len() - pos, 4nat,
{
    match token_at(ts, pos + 1) {
        Some(TokenView::Ident(_)) => {
            let ps = params(ts, pos + 2, Seq::empty());
            if pos < ps.1 <= ts.len() {
                block_warnings(ts, ps.1, funcs)
            } else {
                Seq::empty()
            }
        },
        _ => Seq::empty(),
    }
}

/// The warnings of a block statement whose condition begins at `pos`:
/// those of its body.
pub open spec fn guarded_warnings(ts: Seq<TokenView>, pos: int, funcs: Seq<Seq<char>>) -> Seq<
    Seq<char>,
>
    decreases ts.len() - pos, 4nat,
{
    let cond = expr(ts, pos, funcs);
    if cond.result is Ok && pos < cond.pos <= ts.len() {
        block_warnings(ts, cond.pos, funcs)
    } else {
        Seq::empty()
    }
}

/// The warnings that the statement at `pos` gives rise to: the messages
/// of the statements that failed in its body, or in a body within.
pub open spec fn stmt_warnings(ts: Seq<TokenView>, pos: int, funcs: Seq<Seq<char>>) -> Seq<Seq<char>>
    decreases ts.len() - pos, 5nat,
{
    match token_at(ts, pos) {
        Some(TokenView::Def) => func_def_warnings(ts, pos, funcs),
        Some(TokenView::If) => guarded_warnings(ts, pos + 1, funcs),
        Some(TokenView::While) => guarded_warnings(ts, pos + 1, funcs),
        _ => Seq::empty(),
    }
}

/// The warnings of a block from `pos` on: for each of its statements
/// those it gives rise to, and its message if it fails, in order.
pub open spec fn block_warnings(ts: Seq<TokenView>, pos: int, funcs: Seq<Seq<char>>) -> Seq<
    Seq<char>,
>
    decreases ts.len() - pos, 6nat,
{
    if pos < 0 || pos >= ts.len() || ts[pos] is End {
        Seq::empty()
    } else {
        let s = stmt(ts, pos, funcs);
        let inner = stmt_warnings(ts, pos, funcs);
        match s.result {
            Ok(_) => if pos < s.pos <= ts.len() {
                inner + block_warnings(ts, s.pos, funcs)
            } else {
                inner
            },
            Err(m) => {
                let next = if s.pos < ts.len() {
                    s.pos + 1
                } else {
                    s.pos
                };
                if pos < next <= ts.len() {
                    inner.push(m) + block_warnings(ts, next, funcs)
                } else {
                    inner.push(m)
                }
            },
        }
    }
}

/// The warnings of the top level from `pos` on: those that its
/// statements give rise to, up to the first that fails.
pub open spec fn top_warnings(ts: Seq<TokenView>, pos: int, funcs: Seq<Seq<char>>) -> Seq<Seq<char>>
    decreases ts.len() - pos,
{
    if pos < 0 || pos >= ts.len() {
        Seq::empty()
    } else {
        let s = stmt(ts, pos, funcs);
        let inner = stmt_warnings(ts, pos, funcs);
        if s.result is Ok && pos < s.pos <= ts.len() {
            inner + top_warnings(ts, s.pos, funcs)
        } else {
            inner
        }
    }
}

/// The top-level statements from `pos` on, after those in `acc`. The
/// first statement that fails ends the parse with its message.
pub open spec fn top_level(ts: Seq<TokenView>, pos: int, funcs: Seq<Seq<char>>, acc: Seq<StmtView>) -> Result<
    ProgramView,
    Seq<char>,
>
    decreases ts.len() - pos,
{
    if pos < 0 || pos >= ts.len() {
        Ok(ProgramView { statements: acc })
    } else {
        let s = stmt(ts, pos, funcs);
        match s.result {
            Ok(v) => if pos < s.pos <= ts.len() {
                top_level(ts, s.pos, funcs, acc.push(v))
            } else {
                Ok(ProgramView { statements: acc.push(v) })
            },
            Err(m) => Err(m),
        }
    }
}

/// The program that the tokens make up, or the message of the first
/// error at the top level.
pub open spec fn parse_spec(ts: Seq<TokenView>) -> Result<ProgramView, Seq<char>> {
    top_level(ts, 0, scan_functions(ts, 0, Seq::empty()), Seq::empty())
}

/// The warnings of a parse: the messages of the statements that failed
/// inside a body, where the parser skips a token and goes on.
pub open spec fn parse_warnings(ts: Seq<TokenView>) -> Seq<Seq<char>> {
    top_warnings(ts, 0, scan_functions(ts, 0, Seq::empty()))
}

/// An outcome that began at `pos` has stayed within the tokens and has
/// not gone back; where something was parsed, it has gone on.
pub open spec fn advanced<A>(r: Parse<A>, pos: int, len: nat) -> bool {
    pos <= r.pos <= len && (r.result is Ok ==> pos < r.pos)
}

/// A primary expression takes at least one token.
pub proof fn lemma_primary_advances(ts: Seq<TokenView>, pos: int, funcs: Seq<Seq<char>>)
    requires
        0 <= pos <= ts.len(),
    ensures
        advanced(primary(ts, pos, funcs), pos, ts.len()),
    decreases ts.len() - pos, 0nat,
{
    match token_at(ts, pos) {
        Some(TokenView::Ident(name)) => {
            if is_call(ts, pos + 1, funcs, name) {
                lemma_call_advances(ts, pos + 1, funcs, name);
            }
        },
        _ => {},
    }
}

/// An expression takes at least one token.
pub proof fn lemma_bin_op_advances(ts: Seq<TokenView>, pos: int, funcs: Seq<Seq<char>>, min: nat)
    requires
        0 <= pos <= ts.len(),
    ensures
        advanced(bin_op(ts, pos, funcs, min), pos, ts.len()),
        advanced(expr(ts, pos, funcs), pos, ts.len()),
    decreases ts.len() - pos, 1nat,
{
    lemma_primary_advances(ts, pos, funcs);
    let first = primary(ts, pos, funcs);
    if first.result is Ok {
        lemma_bin_loop_advances(ts, first.pos, funcs, min, first.result->Ok_0);
        lemma_bin_loop_advances(ts, first.pos, funcs, 0, first.result->Ok_0);
    }
}

/// The operators and operands after a left operand take no token or
/// more, and give an expression unless an operand fails.
pub proof fn lemma_bin_loop_advances(
    ts: Seq<TokenView>,
    pos: int,
    funcs: Seq<Seq<char>>,
    min: nat,
    left: ExprView,
)
    requires
        0 <= pos <= ts.len(),
    ensures
        pos <= bin_loop(ts, pos, funcs, min, left).pos <= ts.len(),
    decreases ts.len() - pos, 3nat,
{
    match binary_operator(token_at(ts, pos)) {
        Some((level, op)) => {
            if level >= min {
                lemma_bin_op_advances(ts, pos + 1, funcs, level + 1);
                let right = bin_op(ts, pos + 1, funcs, level + 1);
                if right.result is Ok {
                    lemma_bin_loop_advances(
                        ts,
                        right.pos,
                        funcs,
                        min,
                        ExprView::BinOp(Box::new(left), op, Box::new(right.result->Ok_0)),
                    );
                }
            }
        },
        None => {},
    }
}

/// A call takes at least the tokens of its first argument.
pub proof fn lemma_call_advances(ts: Seq<TokenView>, pos: int, funcs: Seq<Seq<char>>, name: Seq<char>)
    requires
        0 <= pos <= ts.len(),
    ensures
        advanced(call(ts, pos, funcs, name), pos, ts.len()),
    decreases ts.len() - pos, 3nat,
{
    lemma_bin_op_advances(ts, pos, funcs, 0);
    let first = expr(ts, pos, funcs);
    if first.result is Ok {
        lemma_more_args_advances(ts, first.pos, funcs, name, seq![first.result->Ok_0]);
    }
}

/// The rest of the arguments of a call takes no token or more.
pub proof fn lemma_more_args_advances(
    ts: Seq<TokenView>,
    pos: int,
    funcs: Seq<Seq<char>>,
    name: Seq<char>,
    args: Seq<ExprView>,
)
    requires
        0 <= pos <= ts.len(),
    ensures
        pos <= more_args(ts, pos, funcs, name, args).pos <= ts.len(),
    decreases ts.len() - pos, 3nat,
{
    if token_at(ts, pos) == Some(TokenView::Comma) {
        lemma_bin_op_advances(ts, pos + 1, funcs, 0);
        let next = expr(ts, pos + 1, funcs);
        if next.result is Ok {
            lemma_more_args_advances(ts, next.pos, funcs, name, args.push(next.result->Ok_0));
        }
    }
}

/// What follows an identifier that began a statement takes no token or
/// more.
pub proof fn lemma_ident_tail_advances(
    ts: Seq<TokenView>,
    pos: int,
    funcs: Seq<Seq<char>>,
    left: ExprView,
)
    requires
        0 <= pos <= ts.len(),
    ensures
        pos <= ident_tail(ts, pos, funcs, left).pos <= ts.len(),
    decreases ts.len() - pos, 3nat,
{
    match tail_operator(token_at(ts, pos)) {
        Some(op) => {
            lemma_primary_advances(ts, pos + 1, funcs);
            let right = primary(ts, pos + 1, funcs);
            if right.result is Ok {
                lemma_ident_tail_advances(
                    ts,
                    right.pos,
                    funcs,
                    ExprView::BinOp(Box::new(left), op, Box::new(right.result->Ok_0)),
                );
            }
        },
        None => {},
    }
}

/// A statement takes at least one token.
pub proof fn lemma_stmt_advances(ts: Seq<TokenView>, pos: int, funcs: Seq<Seq<char>>)
    requires
        0 <= pos <= ts.len(),
    ensures
        advanced(stmt(ts, pos, funcs), pos, ts.len()),
    decreases ts.len() - pos, 5nat,
{
    match token_at(ts, pos) {
        Some(TokenView::Ident(name)) => {
            let next = token_at(ts, pos + 1);
            if next == Some(TokenView::Assign) || compound_operator(next) is Some {
                lemma_bin_op_advances(ts, pos + 2, funcs, 0);
            } else if next is None {
            } else if begins_argument(ts, pos + 1) && has_name(funcs, name) {
                lemma_call_advances(ts, pos + 1, funcs, name);
            } else {
                lemma_ident_tail_advances(ts, pos + 1, funcs, ExprView::Ident(name));
            }
        },
        Some(TokenView::Number(_)) => {
            lemma_bin_op_advances(ts, pos, funcs, 0);
        },
        Some(TokenView::Minus) => {
            lemma_primary_advances(ts, pos + 1, funcs);
        },
        Some(TokenView::Def) => {
            match token_at(ts, pos + 1) {
                Some(TokenView::Ident(name)) => {
                    lemma_params_bounds(ts, pos + 2, Seq::empty());
                    let ps = params(ts, pos + 2, Seq::empty());
                    lemma_block_advances(ts, ps.1, funcs, Seq::empty());
                },
                _ => {},
            }
        },
        Some(TokenView::If) => {
            lemma_guarded_advances(ts, pos + 1, funcs, false);
        },
        Some(TokenView::While) => {
            lemma_guarded_advances(ts, pos + 1, funcs, true);
        },
        Some(TokenView::Return) => {
            lemma_bin_op_advances(ts, pos + 1, funcs, 0);
        },
        Some(TokenView::Out) => {
            lemma_bin_op_advances(ts, pos + 1, funcs, 0);
        },
        _ => {},
    }
}

/// A block statement takes at least the tokens of its condition.
pub proof fn lemma_guarded_advances(
    ts: Seq<TokenView>,
    pos: int,
    funcs: Seq<Seq<char>>,
    is_while: bool,
)
    requires
        0 <= pos <= ts.len(),
    ensures
        advanced(guarded(ts, pos, funcs, is_while), pos, ts.len()),
    decreases ts.len() - pos, 4nat,
{
    lemma_bin_op_advances(ts, pos, funcs, 0);
    let cond = expr(ts, pos, funcs);
    if cond.result is Ok {
        lemma_block_advances(ts, cond.pos, funcs, Seq::empty());
    }
}

/// A block takes no token or more.
pub proof fn lemma_block_advances(
    ts: Seq<TokenView>,
    pos: int,
    funcs: Seq<Seq<char>>,
    acc: Seq<StmtView>,
)
    requires
        0 <= pos <= ts.len(),
    ensures
        pos <= block(ts, pos, funcs, acc).pos <= ts.len(),
    decreases ts.len() - pos, 6nat,
{
    if pos < ts.len() && !(ts[pos] is End) {
        lemma_stmt_advances(ts, pos, funcs);
        let s = stmt(ts, pos, funcs);
        match s.result {
            Ok(v) => {
                lemma_block_advances(ts, s.pos, funcs, acc.push(v));
            },
            Err(_) => {
                let next = if s.pos < ts.len() {
                    s.pos + 1
                } else {
                    s.pos
                };
                lemma_block_advances(ts, next, funcs, acc);
            },
        }
    }
}

/// Where a block goes on after the statement that begins at `pos`: after
/// the statement, or one token after the place where it failed.
pub open spec fn block_next(ts: Seq<TokenView>, pos: int, funcs: Seq<Seq<char>>) -> int {
    let s = stmt(ts, pos, funcs);
    if s.result is Err && s.pos < ts.len() {
        s.pos + 1
    } else {
        s.pos
    }
}

/// The warnings of one statement of a block: those that the statement
/// gives rise to, and its message if it fails.
pub open spec fn item_warnings(ts: Seq<TokenView>, pos: int, funcs: Seq<Seq<char>>) -> Seq<Seq<char>> {
    match stmt(ts, pos, funcs).result {
        Ok(_) => stmt_warnings(ts, pos, funcs),
        Err(m) => stmt_warnings(ts, pos, funcs).push(m),
    }
}

/// A block that is at its end: it has gathered what it has, and gives no
/// warning.
pub proof fn lemma_block_ends(ts: Seq<TokenView>, pos: int, funcs: Seq<Seq<char>>, acc: Seq<StmtView>)
    requires
        0 <= pos <= ts.len(),
        pos == ts.len() || ts[pos] is End,
    ensures
        block(ts, pos, funcs, acc).body == acc,
        block(ts, pos, funcs, acc).pos == if pos < ts.len() {
            pos + 1
        } else {
            pos
        },
        block_warnings(ts, pos, funcs) == Seq::<Seq<char>>::empty(),
{
}

/// A block that is not at its end takes the statement at its position,
/// or gives its message for a warning, and goes on.
pub proof fn lemma_block_goes_on(
    ts: Seq<TokenView>,
    pos: int,
    funcs: Seq<Seq<char>>,
    acc: Seq<StmtView>,
)
    requires
        0 <= pos < ts.len(),
        !(ts[pos] is End),
    ensures
        pos < block_next(ts, pos, funcs) <= ts.len(),
        block(ts, pos, funcs, acc) == block(
            ts,
            block_next(ts, pos, funcs),
            funcs,
            match stmt(ts, pos, funcs).result {
                Ok(v) => acc.push(v),
                Err(_) => acc,
            },
        ),
        block_warnings(ts, pos, funcs) == item_warnings(ts, pos, funcs) + block_warnings(
            ts,
            block_next(ts, pos, funcs),
            funcs,
        ),
{
    lemma_stmt_advances(ts, pos, funcs);
}

/// The top level takes the statement at its position and goes on, or
/// ends with the message of the statement.
pub proof fn lemma_top_goes_on(ts: Seq<TokenView>, pos: int, funcs: Seq<Seq<char>>, acc: Seq<StmtView>)
    requires
        0 <= pos < ts.len(),
    ensures
        match stmt(ts, pos, funcs).result {
            Ok(v) => {
                &&& pos < stmt(ts, pos, funcs).pos <= ts.len()
                &&& top_level(ts, pos, funcs, acc) == top_level(
                    ts,
                    stmt(ts, pos, funcs).pos,
                    funcs,
                    acc.push(v),
                )
                &&& top_warnings(ts, pos, funcs) == stmt_warnings(ts, pos, funcs) + top_warnings(
                    ts,
                    stmt(ts, pos, funcs).pos,
                    funcs,
                )
            },
            Err(m) => {
                &&& top_level(ts, pos, funcs, acc) == Err::<ProgramView, Seq<char>>(m)
                &&& top_warnings(ts, pos, funcs) == stmt_warnings(ts, pos, funcs)
            },
        },
{
    lemma_stmt_advances(ts, pos, funcs);
}

/// The view of what a parsing function gave: its result, and the
/// position that the parser is at.
pub open spec fn expr_outcome(r: Result<Expr, String>, pos: usize) -> Parse<ExprView> {
    Parse {
        result: match r {
            Ok(e) => Ok(e.deep_view()),
            Err(m) => Err(m@),
        },
        pos: pos as int,
    }
}

/// The view of what a parsing function gave: its result, and the
/// position that the parser is at.
pub open spec fn stmt_outcome(r: Result<Stmt, String>, pos: usize) -> Parse<StmtView> {
    Parse {
        result: match r {
            Ok(s) => Ok(s.deep_view()),
            Err(m) => Err(m@),
        },
        pos: pos as int,
    }
}

/// The debug form of a value.
fn describe_value(v: &IntegerValue) -> (r: String)
    ensures
        r@ == value_text(v@),
{
    let tag = match v.get_type() {
        IntegerType::I8 => "I8",
        IntegerType::I16 => "I16",
        IntegerType::I32 => "I32",
        IntegerType::I64 => "I64",
        IntegerType::I128 => "I128",
        IntegerType::BigInt => "BigInt",
    };
    let mut r = String::from_str(tag);
    r.append("(");
    r.append(v.to_string().as_str());
    r.append(")");
    r
}

/// `tag(` + the debug form of `v` + `)`.
fn describe_number(tag: &str, v: &IntegerValue) -> (r: String)
    ensures
        r@ == tag@ + value_text(v@) + ")"@,
{
    let mut r = String::from_str(tag);
    r.append(describe_value(v).as_str());
    r.append(")");
    r
}

/// The debug form of a token.
fn describe_token(t: &Token) -> (r: String)
    ensures
        r@ == token_text(t.deep_view()),
{
    match t {
        Token::Def => String::from_str("Def"),
        Token::If => String::from_str("If"),
        Token::While => String::from_str("While"),
        Token::Return => String::from_str("Return"),
        Token::End => String::from_str("End"),
        Token::Out => String::from_str("Out"),
        Token::Assign => String::from_str("Assign"),
        Token::PlusAssign => String::from_str("PlusAssign"),
        Token::MinusAssign => String::from_str("MinusAssign"),
        Token::MulAssign => String::from_str("MulAssign"),
        Token::ModAssign => String::from_str("ModAssign"),
        Token::Plus => String::from_str("Plus"),
        Token::Minus => String::from_str("Minus"),
        Token::Mul => String::from_str("Mul"),
        Token::Mod => String::from_str("Mod"),
        Token::Lt => String::from_str("Lt"),
        Token::Le => String::from_str("Le"),
        Token::Gt => String::from_str("Gt"),
        Token::Ge => String::from_str("Ge"),
        Token::Eq => String::from_str("Eq"),
        Token::Comma => String::from_str("Comma"),
        Token::Ident(s) => {
            let mut r = String::from_str("Ident(\"");
            r.append(s.as_str());
            r.append("\")");
            r
        },
        Token::Number(v) => describe_number("Number(", v),
        Token::TypedNumber(v) => describe_number("TypedNumber(", v),
        Token::TypedNumber16(v) => describe_number("TypedNumber16(", v),
        Token::TypedNumber32(v) => describe_number("TypedNumber32(", v),
        Token::TypedNumber64(v) => describe_number("TypedNumber64(", v),
        Token::TypedNumber128(v) => describe_number("TypedNumber128(", v),
        Token::TypedNumberBigInt(v) => describe_number("TypedNumberBigInt(", v),
        Token::Whitespace => String::from_str("Whitespace"),
        Token::Comment => String::from_str("Comment"),
    }
}

/// `prefix` + the debug form of a token that may be missing.
fn describe_found(prefix: &str, t: Option<&Token>) -> (r: String)
    ensures
        r@ == prefix@ + found_text(
            match t {
                Some(t) => Some(t.deep_view()),
                None => None,
            },
        ),
{
    let mut shown = match t {
        Some(t) => {
            let mut shown = String::from_str("Some(");
            shown.append(describe_token(t).as_str());
            shown.append(")");
            shown
        },
        None => String::from_str("None"),
    };
    let mut r = String::from_str(prefix);
    r.append(shown.as_str());
    r
}

/// The level and the operator of a token that is a binary operator.
fn binary_operator_of(t: Option<&Token>) -> (r: Option<(u32, BinOpType)>)
    ensures
        r is Some <==> binary_operator(
            match t {
                Some(t) => Some(t.deep_view()),
                None => None,
            },
        ) is Some,
        r matches Some((level, op)) ==> binary_operator(
            match t {
                Some(t) => Some(t.deep_view()),
                None => None,
            },
        ) == Some((level as nat, op)) && level <= 3,
{
    match t {
        Some(Token::Mul) => Some((3, BinOpType::Mul)),
        Some(Token::Mod) => Some((3, BinOpType::Mod)),
        Some(Token::Plus) => Some((2, BinOpType::Plus)),
        Some(Token::Minus) => Some((2, BinOpType::Minus)),
        Some(Token::Lt) => Some((1, BinOpType::Lt)),
        Some(Token::Le) => Some((1, BinOpType::Le)),
        Some(Token::Gt) => Some((1, BinOpType::Gt)),
        Some(Token::Ge) => Some((1, BinOpType::Ge)),
        Some(Token::Eq) => Some((0, BinOpType::Eq)),
        _ => None,
    }
}

/// The operator of a token that continues a statement's expression.
fn tail_operator_of(t: Option<&Token>) -> (r: Option<BinOpType>)
    ensures
        r == tail_operator(
            match t {
                Some(t) => Some(t.deep_view()),
                None => None,
            },
        ),
{
    match t {
        Some(Token::Plus) => Some(BinOpType::Plus),
        Some(Token::Minus) => Some(BinOpType::Minus),
        Some(Token::Le) => Some(BinOpType::Le),
        Some(Token::Lt) => Some(BinOpType::Lt),
        _ => None,
    }
}

/// The operator of a compound assignment.
fn compound_operator_of(t: Option<&Token>) -> (r: Option<BinOpType>)
    ensures
        r == compound_operator(
            match t {
                Some(t) => Some(t.deep_view()),
                None => None,
            },
        ),
{
    match t {
        Some(Token::PlusAssign) => Some(BinOpType::Plus),
        Some(Token::MinusAssign) => Some(BinOpType::Minus),
        Some(Token::MulAssign) => Some(BinOpType::Mul),
        Some(Token::ModAssign) => Some(BinOpType::Mod),
        _ => None,
    }
}

/// The parser: the tokens, the position of the next token, and the names
/// of the functions that the tokens define.
pub struct Parser {
    tokens: Vec<Token>,
    pos: usize,
    functions: Vec<String>,
    warnings: Vec<String>,
}

impl Parser {
    /// The tokens.
    pub closed spec fn ts(&self) -> Seq<TokenView> {
        self.tokens.deep_view()
    }

    /// The names of the known functions.
    pub closed spec fn funcs(&self) -> Seq<Seq<char>> {
        names_view(self.functions@)
    }

    /// The position of the next token.
    pub closed spec fn at(&self) -> int {
        self.pos as int
    }

    /// The position lies within the tokens or at their end.
    pub closed spec fn wf(&self) -> bool {
        self.pos <= self.tokens@.len()
    }

    /// The warnings given so far.
    pub closed spec fn warned(&self) -> Seq<Seq<char>> {
        self.warnings.deep_view()
    }

    /// The parser reads the tokens that `before` read, knows the same
    /// functions, and has not gone back.
    pub closed spec fn continues(&self, before: &Parser) -> bool {
        &&& self.tokens == before.tokens
        &&& self.functions == before.functions
        &&& before.pos <= self.pos
        &&& self.wf()
    }

    /// The parser continues `before` and has given no warning since.
    pub closed spec fn follows(&self, before: &Parser) -> bool {
        self.continues(before) && self.warnings == before.warnings
    }

    /// A parser at the start of `tokens`, after the scan for the names of
    /// the functions.
    pub fn new(tokens: Vec<Token>) -> (r: Self)
        ensures
            r.wf(),
            r.at() == 0,
            r.ts() == tokens.deep_view(),
            r.funcs() == scan_functions(tokens.deep_view(), 0, Seq::empty()),
            r.warned() == Seq::<Seq<char>>::empty(),
    {
        let mut parser = Parser { tokens, pos: 0, functions: Vec::new(), warnings: Vec::new() };
        assert(parser.warnings.deep_view() =~= Seq::empty());
        parser.scan_function_locations();
        parser
    }

    /// Finds the names of the functions: every identifier that follows a
    /// `def`.
    fn scan_function_locations(&mut self)
        requires
            old(self).functions@.len() == 0,
            old(self).wf(),
        ensures
            final(self).tokens == old(self).tokens,
            final(self).pos == old(self).pos,
            final(self).warnings == old(self).warnings,
            final(self).funcs() == scan_functions(old(self).ts(), 0, Seq::empty()),
    {
        let mut p: usize = 0;
        let ghost ts = self.ts();
        assert(names_view(self.functions@) =~= Seq::empty());
        while p < self.tokens.len()
            invariant
                p <= self.tokens@.len(),
                self.tokens == old(self).tokens,
                self.pos == old(self).pos,
                self.warnings == old(self).warnings,
                ts == self.tokens.deep_view(),
                scan_functions(ts, 0, Seq::empty()) == scan_functions(
                    ts,
                    p as int,
                    names_view(self.functions@),
                ),
            decreases self.tokens@.len() - p,
        {
            let ghost known = names_view(self.functions@);
            match &self.tokens[p] {
                Token::Def => {
                    if p + 1 < self.tokens.len() {
                        match &self.tokens[p + 1] {
                            Token::Ident(name) => {
                                self.functions.push(name.clone());
                                assert(names_view(self.functions@) =~= known.push(name@));
                            },
                            _ => {},
                        }
                    }
                },
                _ => {},
            }
            p = p + 1;
        }
    }

    /// Whether `name` is a known function.
    fn is_function(&self, name: &str) -> (r: bool)
        ensures
            r == has_name(self.funcs(), name@),
    {
        contains_name(&self.functions, name)
    }

    /// The token `ahead` places after the next one.
    fn peek_at(&self, ahead: usize) -> (r: Option<&Token>)
        requires
            self.wf(),
        ensures
            match r {
                Some(t) => token_at(self.ts(), self.at() + ahead) == Some(t.deep_view())
                    && self.pos + ahead < self.tokens@.len() && self.pos + ahead < usize::MAX,
                None => token_at(self.ts(), self.at() + ahead) is None,
            },
    {
        if ahead < self.tokens.len() - self.pos {
            Some(&self.tokens[self.pos + ahead])
        } else {
            None
        }
    }

    /// The next token.
    fn peek(&self) -> (r: Option<&Token>)
        requires
            self.wf(),
        ensures
            match r {
                Some(t) => token_at(self.ts(), self.at()) == Some(t.deep_view()) && self.pos
                    < self.tokens@.len() && self.pos < usize::MAX,
                None => token_at(self.ts(), self.at()) is None && self.pos == self.tokens@.len(),
            },
    {
        self.peek_at(0)
    }

    /// Steps over the next token, if there is one.
    fn consume_no_clone(&mut self)
        requires
            old(self).wf(),
        ensures
            final(self).follows(old(self)),
            final(self).at() == if old(self).at() < old(self).ts().len() {
                old(self).at() + 1
            } else {
                old(self).at()
            },
    {
        if self.pos < self.tokens.len() {
            self.pos = self.pos + 1;
        }
    }

    /// Whether an argument can begin at the next token.
    fn argument_follows(&self) -> (r: bool)
        requires
            self.wf(),
        ensures
            r == begins_argument(self.ts(), self.at()),
    {
        match self.peek() {
            Some(Token::Ident(_)) => true,
            Some(Token::Number(_)) => true,
            Some(Token::Minus) => true,
            _ => false,
        }
    }

    /// Whether the identifier `name`, read just before, is a call.
    fn call_follows(&self, name: &str) -> (r: bool)
        requires
            self.wf(),
        ensures
            r == is_call(self.ts(), self.at(), self.funcs(), name@),
    {
        if !self.argument_follows() {
            return false;
        }
        if !self.is_function(name) {
            return false;
        }
        match self.peek() {
            Some(Token::Ident(_)) => match self.peek_at(1) {
                Some(Token::Assign) => false,
                _ => true,
            },
            _ => true,
        }
    }

    /// A primary expression: a literal, an identifier, or a call.
    fn parse_primary(&mut self) -> (r: Result<Expr, String>)
        requires
            old(self).wf(),
        ensures
            final(self).follows(old(self)),
            expr_outcome(r, final(self).pos) == primary(
                old(self).ts(),
                old(self).at(),
                old(self).funcs(),
            ),
            r is Ok ==> final(self).at() > old(self).at(),
        decreases old(self).tokens@.len() - old(self).pos, 0nat,
    {
        let token = self.peek();
        match token {
            Some(Token::Number(n)) => {
                let e = Expr::Number(n.clone());
                self.pos = self.pos + 1;
                Ok(e)
            },
            Some(Token::TypedNumber(v)) => {
                let e = Expr::TypedNumber(v.clone());
                self.pos = self.pos + 1;
                Ok(e)
            },
            Some(Token::TypedNumber16(v)) => {
                let e = Expr::TypedNumber(v.clone());
                self.pos = self.pos + 1;
                Ok(e)
            },
            Some(Token::TypedNumber32(v)) => {
                let e = Expr::TypedNumber(v.clone());
                self.pos = self.pos + 1;
                Ok(e)
            },
            Some(Token::TypedNumber64(v)) => {
                let e = Expr::TypedNumber(v.clone());
                self.pos = self.pos + 1;
                Ok(e)
            },
            Some(Token::TypedNumber128(v)) => {
                let e = Expr::TypedNumber(v.clone());
                self.pos = self.pos + 1;
                Ok(e)
            },
            Some(Token::TypedNumberBigInt(v)) => {
                let e = Expr::TypedNumber(v.clone());
                self.pos = self.pos + 1;
                Ok(e)
            },
            Some(Token::Ident(name)) => {
                let name = name.clone();
                self.pos = self.pos + 1;
                if self.call_follows(name.as_str()) {
                    self.parse_call(name)
                } else {
                    Ok(Expr::Ident(name))
                }
            },
            _ => Err(describe_found("Expected primary expression, got ", token)),
        }
    }

    /// The call of `name`, whose arguments begin at the next token.
    fn parse_call(&mut self, name: String) -> (r: Result<Expr, String>)
        requires
            old(self).wf(),
        ensures
            final(self).follows(old(self)),
            expr_outcome(r, final(self).pos) == call(
                old(self).ts(),
                old(self).at(),
                old(self).funcs(),
                name@,
            ),
            r is Ok ==> final(self).at() > old(self).at(),
        decreases old(self).tokens@.len() - old(self).pos, 3nat,
    {
        let mut args: Vec<Expr> = Vec::new();
        match self.parse_expr() {
            Ok(e) => {
                args.push(e);
                assert(args.deep_view() =~= seq![e.deep_view()]);
            },
            Err(m) => {
                return Err(m);
            },
        }
        loop
            invariant
                self.follows(old(self)),
                self.pos > old(self).pos,
                call(old(self).ts(), old(self).at(), old(self).funcs(), name@) == more_args(
                    self.ts(),
                    self.at(),
                    self.funcs(),
                    name@,
                    args.deep_view(),
                ),
            decreases self.tokens@.len() - self.pos,
        {
            match self.peek() {
                Some(Token::Comma) => {},
                _ => {
                    proof {
                        lemma_call_view(name, args);
                    }
                    return Ok(Expr::Call(name, args));
                },
            }
            self.pos = self.pos + 1;
            let ghost before = args.deep_view();
            match self.parse_expr() {
                Ok(e) => {
                    args.push(e);
                    assert(args.deep_view() =~= before.push(e.deep_view()));
                },
                Err(m) => {
                    return Err(m);
                },
            }
        }
    }

    /// An expression.
    fn parse_expr(&mut self) -> (r: Result<Expr, String>)
        requires
            old(self).wf(),
        ensures
            final(self).follows(old(self)),
            expr_outcome(r, final(self).pos) == expr(
                old(self).ts(),
                old(self).at(),
                old(self).funcs(),
            ),
            r is Ok ==> final(self).at() > old(self).at(),
        decreases old(self).tokens@.len() - old(self).pos, 2nat,
    {
        self.parse_bin_op(0)
    }

    /// An expression whose operators are of level `min` or above.
    fn parse_bin_op(&mut self, min: u32) -> (r: Result<Expr, String>)
        requires
            old(self).wf(),
            min <= 4,
        ensures
            final(self).follows(old(self)),
            expr_outcome(r, final(self).pos) == bin_op(
                old(self).ts(),
                old(self).at(),
                old(self).funcs(),
                min as nat,
            ),
            r is Ok ==> final(self).at() > old(self).at(),
        decreases old(self).tokens@.len() - old(self).pos, 1nat,
    {
        let mut left = match self.parse_primary() {
            Ok(e) => e,
            Err(m) => {
                return Err(m);
            },
        };
        loop
            invariant
                self.follows(old(self)),
                self.pos > old(self).pos,
                min <= 4,
                bin_op(old(self).ts(), old(self).at(), old(self).funcs(), min as nat) == bin_loop(
                    self.ts(),
                    self.at(),
                    self.funcs(),
                    min as nat,
                    left.deep_view(),
                ),
            decreases self.tokens@.len() - self.pos,
        {
            let (level, op) = match binary_operator_of(self.peek()) {
                Some(found) => found,
                None => {
                    return Ok(left);
                },
            };
            if level < min {
                return Ok(left);
            }
            self.pos = self.pos + 1;
            let right = match self.parse_bin_op(level + 1) {
                Ok(e) => e,
                Err(m) => {
                    return Err(m);
                },
            };
            left = Expr::BinOp(Box::new(left), op, Box::new(right));
        }
    }

    /// What follows an identifier that began a statement and is no call.
    fn parse_ident_tail(&mut self, first: Expr) -> (r: Result<Expr, String>)
        requires
            old(self).wf(),
        ensures
            final(self).follows(old(self)),
            expr_outcome(r, final(self).pos) == ident_tail(
                old(self).ts(),
                old(self).at(),
                old(self).funcs(),
                first.deep_view(),
            ),
        decreases old(self).tokens@.len() - old(self).pos, 3nat,
    {
        let mut left = first;
        loop
            invariant
                self.follows(old(self)),
                ident_tail(old(self).ts(), old(self).at(), old(self).funcs(), first.deep_view())
                    == ident_tail(self.ts(), self.at(), self.funcs(), left.deep_view()),
            decreases self.tokens@.len() - self.pos,
        {
            let op = match tail_operator_of(self.peek()) {
                Some(op) => op,
                None => {
                    return Ok(left);
                },
            };
            self.pos = self.pos + 1;
            let right = match self.parse_primary() {
                Ok(e) => e,
                Err(m) => {
                    return Err(m);
                },
            };
            left = Expr::BinOp(Box::new(left), op, Box::new(right));
        }
    }

    /// The statement that begins with an identifier.
    #[verifier::rlimit(40)]
    fn parse_ident_stmt(&mut self) -> (r: Result<Stmt, String>)
        requires
            old(self).wf(),
            token_at(old(self).ts(), old(self).at()) is Some,
            token_at(old(self).ts(), old(self).at())->0 is Ident,
        ensures
            final(self).follows(old(self)),
            stmt_outcome(r, final(self).pos) == ident_stmt(
                old(self).ts(),
                old(self).at(),
                old(self).funcs(),
                token_at(old(self).ts(), old(self).at())->0->Ident_0,
            ),
            r is Ok ==> final(self).at() > old(self).at(),
        decreases old(self).tokens@.len() - old(self).pos, 4nat,
    {
        let ident = match self.peek() {
            Some(Token::Ident(name)) => name.clone(),
            _ => {
                return Err(String::from_str("Expected identifier"));
            },
        };
        self.pos = self.pos + 1;
        let compound = compound_operator_of(self.peek());
        match self.peek() {
            Some(Token::Assign) => {
                self.pos = self.pos + 1;
                match self.parse_expr() {
                    Ok(e) => Ok(Stmt::Assign(ident, e)),
                    Err(m) => Err(m),
                }
            },
            None => Ok(Stmt::Out(Expr::Ident(ident))),
            _ => {
                match compound {
                    Some(op) => {
                        self.pos = self.pos + 1;
                        match self.parse_expr() {
                            Ok(right) => {
                                assert(expr_view(Expr::Ident(ident)) == ExprView::Ident(ident@));
                                let e = Expr::BinOp(
                                    Box::new(Expr::Ident(ident.clone())),
                                    op,
                                    Box::new(right),
                                );
                                Ok(Stmt::Assign(ident, e))
                            },
                            Err(m) => Err(m),
                        }
                    },
                    None => {
                        if self.argument_follows() && self.is_function(ident.as_str()) {
                            match self.parse_call(ident) {
                                Ok(e) => Ok(Stmt::Out(e)),
                                Err(m) => Err(m),
                            }
                        } else {
                            match self.parse_ident_tail(Expr::Ident(ident)) {
                                Ok(e) => Ok(Stmt::Out(e)),
                                Err(m) => Err(m),
                            }
                        }
                    },
                }
            },
        }
    }

    /// The statements of a block, up to the `end` that closes it or to
    /// the end of the tokens.
    #[verifier::rlimit(40)]
    fn parse_block(&mut self) -> (body: Vec<Stmt>)
        requires
            old(self).wf(),
        ensures
            final(self).continues(old(self)),
            final(self).warned() == old(self).warned() + block_warnings(
                old(self).ts(),
                old(self).at(),
                old(self).funcs(),
            ),
            body.deep_view() == block(
                old(self).ts(),
                old(self).at(),
                old(self).funcs(),
                Seq::empty(),
            ).body,
            final(self).at() == block(
                old(self).ts(),
                old(self).at(),
                old(self).funcs(),
                Seq::empty(),
            ).pos,
        decreases old(self).tokens@.len() - old(self).pos, 7nat,
    {
        let mut body: Vec<Stmt> = Vec::new();
        let ghost ts = self.ts();
        let ghost funcs = self.funcs();
        let ghost whole = block(ts, self.at(), funcs, Seq::empty());
        let ghost all_warnings = self.warned() + block_warnings(ts, self.at(), funcs);
        assert(body.deep_view() =~= Seq::empty());
        while self.pos < self.tokens.len()
            invariant
                self.continues(old(self)),
                ts == self.ts(),
                funcs == self.funcs(),
                ts.len() == self.tokens@.len(),
                whole == block(old(self).ts(), old(self).at(), old(self).funcs(), Seq::empty()),
                all_warnings == old(self).warned() + block_warnings(
                    old(self).ts(),
                    old(self).at(),
                    old(self).funcs(),
                ),
                whole == block(ts, self.at(), funcs, body.deep_view()),
                all_warnings == self.warned() + block_warnings(ts, self.at(), funcs),
            decreases self.tokens@.len() - self.pos,
        {
            let ghost so_far = self.warned();
            let ghost here = self.at();
            let ghost before = body.deep_view();
            if self.at_end() {
                proof {
                    lemma_block_ends(ts, here, funcs, before);
                    assert(so_far + Seq::<Seq<char>>::empty() =~= so_far);
                }
                self.pos = self.pos + 1;
                return body;
            }
            proof {
                lemma_block_goes_on(ts, here, funcs, before);
            }
            let ghost added = item_warnings(ts, here, funcs);
            let ghost rest = block_warnings(ts, block_next(ts, here, funcs), funcs);
            self.parse_block_item(&mut body);
            assert(so_far + (added + rest) =~= (so_far + added) + rest);
        }
        proof {
            lemma_block_ends(ts, self.at(), funcs, body.deep_view());
            assert(self.warned() + Seq::<Seq<char>>::empty() =~= self.warned());
        }
        body
    }

    /// Whether the next token is the `end` of a block.
    fn at_end(&self) -> (r: bool)
        requires
            self.wf(),
            self.at() < self.ts().len(),
        ensures
            r == (self.ts()[self.at()] is End),
    {
        match self.peek() {
            Some(Token::End) => true,
            _ => false,
        }
    }

    /// One statement of a block: it joins the statements in `body`; or it
    /// fails, its message is a warning, and one token is skipped.
    fn parse_block_item(&mut self, body: &mut Vec<Stmt>)
        requires
            old(self).wf(),
            old(self).at() < old(self).ts().len(),
        ensures
            final(self).continues(old(self)),
            final(self).at() == block_next(old(self).ts(), old(self).at(), old(self).funcs()),
            final(body).deep_view() == match stmt(
                old(self).ts(),
                old(self).at(),
                old(self).funcs(),
            ).result {
                Ok(v) => old(body).deep_view().push(v),
                Err(_) => old(body).deep_view(),
            },
            final(self).warned() == old(self).warned() + item_warnings(
                old(self).ts(),
                old(self).at(),
                old(self).funcs(),
            ),
        decreases old(self).tokens@.len() - old(self).pos, 6nat,
    {
        let ghost before = body.deep_view();
        let ghost so_far = self.warned();
        let ghost inner = stmt_warnings(self.ts(), self.at(), self.funcs());
        match self.parse_stmt() {
            Ok(s) => {
                body.push(s);
                assert(body.deep_view() =~= before.push(s.deep_view()));
            },
            Err(m) => {
                let ghost given = self.warned();
                self.warnings.push(m);
                assert(self.warned() =~= given.push(m@));
                assert(self.warned() =~= so_far + inner.push(m@));
                if self.pos < self.tokens.len() {
                    self.pos = self.pos + 1;
                }
            },
        }
    }

    /// The parameters of a function: identifiers, each but the last
    /// followed by a comma.
    fn parse_params(&mut self) -> (r: Vec<String>)
        requires
            old(self).wf(),
        ensures
            final(self).follows(old(self)),
            r.deep_view() == params(old(self).ts(), old(self).at(), Seq::empty()).0,
            final(self).at() == params(old(self).ts(), old(self).at(), Seq::empty()).1,
    {
        let mut names: Vec<String> = Vec::new();
        assert(names.deep_view() =~= Seq::empty());
        loop
            invariant
                self.follows(old(self)),
                params(old(self).ts(), old(self).at(), Seq::empty()) == params(
                    self.ts(),
                    self.at(),
                    names.deep_view(),
                ),
            decreases self.tokens@.len() - self.pos,
        {
            let ghost before = names.deep_view();
            match self.peek() {
                Some(Token::Ident(param)) => {
                    names.push(param.clone());
                    assert(names.deep_view() =~= before.push(param@));
                },
                _ => {
                    return names;
                },
            }
            self.pos = self.pos + 1;
            match self.peek() {
                Some(Token::Comma) => {
                    self.pos = self.pos + 1;
                },
                _ => {
                    return names;
                },
            }
        }
    }

    /// A function definition, at its `def`.
    fn parse_func_def(&mut self) -> (r: Result<Stmt, String>)
        requires
            old(self).wf(),
            old(self).at() < old(self).ts().len(),
        ensures
            final(self).continues(old(self)),
            final(self).warned() == old(self).warned() + func_def_warnings(old(self).ts(), old(self).at(), old(self).funcs()),
            stmt_outcome(r, final(self).pos) == func_def(
                old(self).ts(),
                old(self).at(),
                old(self).funcs(),
            ),
            r is Ok ==> final(self).at() > old(self).at(),
        decreases old(self).tokens@.len() - old(self).pos, 4nat,
    {
        self.consume_no_clone();
        let func_name = match self.peek() {
            Some(Token::Ident(name)) => name.clone(),
            _ => {
                assert(self.warned() + Seq::<Seq<char>>::empty() =~= self.warned());
                return Err(String::from_str("Expected function name"));
            },
        };
        self.consume_no_clone();
        let params = self.parse_params();
        proof {
            lemma_params_bounds(self.ts(), old(self).at() + 2, Seq::empty());
        }
        let body = self.parse_block();
        proof {
            lemma_func_def_view(func_name, params, body);
        }
        Ok(Stmt::FuncDef(func_name, params, body))
    }

    /// An `if` or a `while`, after its keyword.
    fn parse_guarded(&mut self, is_while: bool) -> (r: Result<Stmt, String>)
        requires
            old(self).wf(),
        ensures
            final(self).continues(old(self)),
            final(self).warned() == old(self).warned() + guarded_warnings(old(self).ts(), old(self).at(), old(self).funcs()),
            stmt_outcome(r, final(self).pos) == guarded(
                old(self).ts(),
                old(self).at(),
                old(self).funcs(),
                is_while,
            ),
            r is Ok ==> final(self).at() > old(self).at(),
        decreases old(self).tokens@.len() - old(self).pos, 4nat,
    {
        let cond = match self.parse_expr() {
            Ok(e) => e,
            Err(m) => {
                assert(self.warned() + Seq::<Seq<char>>::empty() =~= self.warned());
                return Err(m);
            },
        };
        let body = self.parse_block();
        proof {
            lemma_block_view(cond, body);
        }
        if is_while {
            Ok(Stmt::While(cond, body))
        } else {
            Ok(Stmt::If(cond, body))
        }
    }

    /// An `if` statement, at its keyword.
    fn parse_if_stmt(&mut self) -> (r: Result<Stmt, String>)
        requires
            old(self).wf(),
            old(self).at() < old(self).ts().len(),
        ensures
            final(self).continues(old(self)),
            final(self).warned() == old(self).warned() + guarded_warnings(old(self).ts(), old(self).at() + 1, old(self).funcs()),
            stmt_outcome(r, final(self).pos) == guarded(
                old(self).ts(),
                old(self).at() + 1,
                old(self).funcs(),
                false,
            ),
            r is Ok ==> final(self).at() > old(self).at(),
        decreases old(self).tokens@.len() - old(self).pos, 4nat,
    {
        self.consume_no_clone();
        self.parse_guarded(false)
    }

    /// A `while` statement, at its keyword.
    fn parse_while_stmt(&mut self) -> (r: Result<Stmt, String>)
        requires
            old(self).wf(),
            old(self).at() < old(self).ts().len(),
        ensures
            final(self).continues(old(self)),
            final(self).warned() == old(self).warned() + guarded_warnings(old(self).ts(), old(self).at() + 1, old(self).funcs()),
            stmt_outcome(r, final(self).pos) == guarded(
                old(self).ts(),
                old(self).at() + 1,
                old(self).funcs(),
                true,
            ),
            r is Ok ==> final(self).at() > old(self).at(),
        decreases old(self).tokens@.len() - old(self).pos, 4nat,
    {
        self.consume_no_clone();
        self.parse_guarded(true)
    }

    /// A `return` statement, at its keyword.
    fn parse_return_stmt(&mut self) -> (r: Result<Stmt, String>)
        requires
            old(self).wf(),
            old(self).at() < old(self).ts().len(),
        ensures
            final(self).follows(old(self)),
            stmt_outcome(r, final(self).pos) == as_return(
                expr(old(self).ts(), old(self).at() + 1, old(self).funcs()),
            ),
            r is Ok ==> final(self).at() > old(self).at(),
        decreases old(self).tokens@.len() - old(self).pos, 4nat,
    {
        self.consume_no_clone();
        match self.parse_expr() {
            Ok(e) => Ok(Stmt::Return(e)),
            Err(m) => Err(m),
        }
    }

    /// An `out` statement, at its keyword.
    fn parse_out_stmt(&mut self) -> (r: Result<Stmt, String>)
        requires
            old(self).wf(),
            old(self).at() < old(self).ts().len(),
        ensures
            final(self).follows(old(self)),
            stmt_outcome(r, final(self).pos) == as_out(
                expr(old(self).ts(), old(self).at() + 1, old(self).funcs()),
            ),
            r is Ok ==> final(self).at() > old(self).at(),
        decreases old(self).tokens@.len() - old(self).pos, 4nat,
    {
        self.consume_no_clone();
        match self.parse_expr() {
            Ok(e) => Ok(Stmt::Out(e)),
            Err(m) => Err(m),
        }
    }

    /// A statement that begins with a minus: zero minus the primary that
    /// follows, put out.
    fn parse_minus_expr(&mut self) -> (r: Result<Stmt, String>)
        requires
            old(self).wf(),
            old(self).at() < old(self).ts().len(),
        ensures
            final(self).follows(old(self)),
            stmt_outcome(r, final(self).pos) == as_negated(
                primary(old(self).ts(), old(self).at() + 1, old(self).funcs()),
            ),
            r is Ok ==> final(self).at() > old(self).at(),
        decreases old(self).tokens@.len() - old(self).pos, 4nat,
    {
        self.consume_no_clone();
        assert(expr_view(Expr::Number(IntegerValue::I8(0))) == ExprView::Number(
            IntView { width: IntegerType::I8, value: 0 },
        ));
        match self.parse_primary() {
            Ok(right) => Ok(
                Stmt::Out(
                    Expr::BinOp(
                        Box::new(Expr::Number(IntegerValue::I8(0))),
                        BinOpType::Minus,
                        Box::new(right),
                    ),
                ),
            ),
            Err(m) => Err(m),
        }
    }

    /// A statement that begins with a literal: the expression, put out.
    fn parse_number_expr(&mut self) -> (r: Result<Stmt, String>)
        requires
            old(self).wf(),
        ensures
            final(self).follows(old(self)),
            stmt_outcome(r, final(self).pos) == as_out(
                expr(old(self).ts(), old(self).at(), old(self).funcs()),
            ),
            r is Ok ==> final(self).at() > old(self).at(),
        decreases old(self).tokens@.len() - old(self).pos, 4nat,
    {
        match self.parse_expr() {
            Ok(e) => Ok(Stmt::Out(e)),
            Err(m) => Err(m),
        }
    }

    /// A statement.
    #[verifier::rlimit(40)]
    fn parse_stmt(&mut self) -> (r: Result<Stmt, String>)
        requires
            old(self).wf(),
        ensures
            final(self).continues(old(self)),
            final(self).warned() == old(self).warned() + stmt_warnings(old(self).ts(), old(self).at(), old(self).funcs()),
            stmt_outcome(r, final(self).pos) == stmt(
                old(self).ts(),
                old(self).at(),
                old(self).funcs(),
            ),
            r is Ok ==> final(self).at() > old(self).at(),
        decreases old(self).tokens@.len() - old(self).pos, 5nat,
    {
        proof {
            assert(self.warned() + Seq::<Seq<char>>::empty() =~= self.warned());
        }
        let token = self.peek();
        match token {
            None => Err(String::from_str("Unexpected end of input")),
            Some(Token::Ident(_)) => self.parse_ident_stmt(),
            Some(Token::Number(_)) => self.parse_number_expr(),
            Some(Token::Minus) => self.parse_minus_expr(),
            Some(Token::Def) => self.parse_func_def(),
            Some(Token::If) => self.parse_if_stmt(),
            Some(Token::While) => self.parse_while_stmt(),
            Some(Token::Return) => self.parse_return_stmt(),
            Some(Token::Out) => self.parse_out_stmt(),
            _ => Err(describe_found("Expected statement, got ", token)),
        }
    }

    /// The program: the statements from the first token to the last. The
    /// first statement that fails ends the parse with its message.
    #[verifier::rlimit(40)]
    fn parse_program(&mut self) -> (r: Result<Program, String>)
        requires
            old(self).wf(),
        ensures
            final(self).warned() == old(self).warned() + top_warnings(
                old(self).ts(),
                0,
                old(self).funcs(),
            ),
            match r {
                Ok(p) => top_level(old(self).ts(), 0, old(self).funcs(), Seq::empty()) == Ok::<
                    ProgramView,
                    Seq<char>,
                >(p.deep_view()),
                Err(m) => top_level(old(self).ts(), 0, old(self).funcs(), Seq::empty()) == Err::<
                    ProgramView,
                    Seq<char>,
                >(m@),
            },
    {
        let mut statements: Vec<Stmt> = Vec::new();
        assert(statements.deep_view() =~= Seq::empty());
        self.pos = 0;
        let ghost ts = self.ts();
        let ghost funcs = self.funcs();
        let ghost whole = top_level(ts, 0, funcs, Seq::empty());
        let ghost all_warnings = self.warned() + top_warnings(ts, 0, funcs);
        while self.pos < self.tokens.len()
            invariant
                self.wf(),
                ts == self.ts(),
                funcs == self.funcs(),
                ts.len() == self.tokens@.len(),
                whole == top_level(old(self).ts(), 0, old(self).funcs(), Seq::empty()),
                all_warnings == old(self).warned() + top_warnings(
                    old(self).ts(),
                    0,
                    old(self).funcs(),
                ),
                whole == top_level(ts, self.at(), funcs, statements.deep_view()),
                all_warnings == self.warned() + top_warnings(ts, self.at(), funcs),
            decreases self.tokens@.len() - self.pos,
        {
            let ghost before = statements.deep_view();
            let ghost so_far = self.warned();
            let ghost here = self.at();
            let ghost inner = stmt_warnings(ts, here, funcs);
            proof {
                lemma_top_goes_on(ts, here, funcs, before);
            }
            match self.parse_stmt() {
                Ok(s) => {
                    statements.push(s);
                    assert(statements.deep_view() =~= before.push(s.deep_view()));
                    let ghost rest = top_warnings(ts, self.at(), funcs);
                    assert(so_far + (inner + rest) =~= (so_far + inner) + rest);
                },
                Err(m) => {
                    return Err(m);
                },
            }
        }
        assert(self.warned() + Seq::<Seq<char>>::empty() =~= self.warned());
        Ok(Program { statements })
    }
}

/// The program that the tokens make up, or the message of the first
/// error at the top level. The warnings are dropped.
pub fn parse(tokens: Vec<Token>) -> (r: Result<Program, String>)
    ensures
        match r {
            Ok(p) => parse_spec(tokens.deep_view()) == Ok::<ProgramView, Seq<char>>(p.deep_view()),
            Err(m) => parse_spec(tokens.deep_view()) == Err::<ProgramView, Seq<char>>(m@),
        },
{
    parse_with_warnings(tokens).0
}

/// The program that the tokens make up, or the message of the first
/// error at the top level; and the warnings: the messages of the
/// statements that failed inside a body, in order.
pub fn parse_with_warnings(tokens: Vec<Token>) -> (r: (Result<Program, String>, Vec<String>))
    ensures
        match r.0 {
            Ok(p) => parse_spec(tokens.deep_view()) == Ok::<ProgramView, Seq<char>>(p.deep_view()),
            Err(m) => parse_spec(tokens.deep_view()) == Err::<ProgramView, Seq<char>>(m@),
        },
        r.1.deep_view() == parse_warnings(tokens.deep_view()),
{
    let mut parser = Parser::new(tokens);
    let result = parser.parse_program();
    assert(Seq::<Seq<char>>::empty() + parse_warnings(tokens.deep_view()) =~= parse_warnings(
        tokens.deep_view(),
    ));
    (result, parser.warnings)
}

} // verus!
