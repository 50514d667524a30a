//! Texts that put out an expression of literals: `out`, then literals
//! with one operator between each two. Every such text goes through the
//! whole pipeline, and what it puts out is the value of its expression.
//!
//! The first half speaks of tokens: literals and operators are parsed to
//! an expression of literals, whatever they are. The second half speaks
//! of characters: a written expression has the tokens that it shows.

use crate::ast::{BinOpType, ExprView, ProgramView, StmtView};
use crate::bytecode::{expr_code, is_literal};
use crate::correctness::{call_free, eval, lemma_out_expression, out_program};
use crate::executor::pipeline;
use crate::interpreter::MAX_STEPS;
use crate::lexer::{
    digits_end, holds_at, ident_end, lemma_step_advances, lex_from, lex_spec, plain_number,
    step_at, suffix_at, typed_token, word_token, Lexeme, Step, TokenView,
};
use crate::parser::{
    bin_loop, bin_op, binary_operator, expr, parse_spec, parsed, primary, scan_functions, stmt,
    token_at, top_level, Parse,
};
use crate::semantic::{expr_error, program_error, Scope};
use crate::text::{all_digits, is_digit};
use crate::types::{from_string_spec, IntegerType, ValueView};
use vstd::prelude::*;
use vstd::string::*;

verus! {

/// The token is a literal, with a width suffix or without.
pub open spec fn literal_token(t: TokenView) -> bool {
    match t {
        TokenView::Number(_) => true,
        TokenView::TypedNumber(_) => true,
        TokenView::TypedNumber16(_) => true,
        TokenView::TypedNumber32(_) => true,
        TokenView::TypedNumber64(_) => true,
        TokenView::TypedNumber128(_) => true,
        TokenView::TypedNumberBigInt(_) => true,
        _ => false,
    }
}

/// The tokens from `from` on are literals with one binary operator
/// between each two: a literal first and a literal last.
pub open spec fn literals_from(ts: Seq<TokenView>, from: int) -> bool {
    &&& 0 <= from < ts.len()
    &&& (ts.len() - from) % 2 == 1
    &&& forall|i: int|
        from <= i < ts.len() ==> if (i - from) % 2 == 0 {
            literal_token(#[trigger] ts[i])
        } else {
            binary_operator(Some(ts[i])) is Some
        }
}

/// The tokens are `out` and then an expression of literals.
pub open spec fn puts_out_literals(ts: Seq<TokenView>) -> bool {
    ts.len() > 0 && ts[0] == TokenView::Out && literals_from(ts, 1)
}

/// The number of literals and operators of an expression.
pub open spec fn size(e: ExprView) -> nat
    decreases e,
{
    match e {
        ExprView::BinOp(left, _, right) => size(*left) + size(*right) + 1,
        _ => 1,
    }
}

/// An expression of literals was parsed from `pos` up to an operator of
/// a level below `min`, or up to the end of the tokens, and it has as
/// many literals and operators as `before` and the tokens taken.
pub open spec fn taken(
    ts: Seq<TokenView>,
    from: int,
    pos: int,
    min: nat,
    before: nat,
    r: Parse<ExprView>,
) -> bool {
    &&& r.result matches Ok(e) && is_literal(e) && size(e) == before + (r.pos - pos)
    &&& pos <= r.pos <= ts.len()
    &&& (r.pos - from) % 2 == 1
    &&& r.pos < ts.len() ==> (binary_operator(token_at(ts, r.pos)) matches Some(found) && found.0
        < min)
}

/// Among literals and operators, an expression that begins at a literal
/// is parsed up to the first operator of a level below `min`.
pub proof fn lemma_bin_op_literals(
    ts: Seq<TokenView>,
    from: int,
    pos: int,
    funcs: Seq<Seq<char>>,
    min: nat,
)
    requires
        literals_from(ts, from),
        from <= pos < ts.len(),
        (pos - from) % 2 == 0,
    ensures
        taken(ts, from, pos, min, 0, bin_op(ts, pos, funcs, min)),
        pos < bin_op(ts, pos, funcs, min).pos,
    decreases ts.len() - pos, 1nat,
{
    assert(literal_token(ts[pos]));
    let first = primary(ts, pos, funcs);
    assert(first.pos == pos + 1);
    assert(first.result is Ok);
    let left = first.result->Ok_0;
    assert(is_literal(left) && size(left) == 1);
    lemma_bin_loop_literals(ts, from, pos + 1, funcs, min, left);
}

/// Among literals and operators, the operators of a level of `min` or
/// above that follow an expression of literals are taken with their
/// right operands.
pub proof fn lemma_bin_loop_literals(
    ts: Seq<TokenView>,
    from: int,
    pos: int,
    funcs: Seq<Seq<char>>,
    min: nat,
    left: ExprView,
)
    requires
        literals_from(ts, from),
        from < pos <= ts.len(),
        (pos - from) % 2 == 1,
        is_literal(left),
    ensures
        taken(ts, from, pos, min, size(left), bin_loop(ts, pos, funcs, min, left)),
    decreases ts.len() - pos, 0nat,
{
    if pos < ts.len() {
        assert(binary_operator(Some(ts[pos])) is Some);
        let found = binary_operator(token_at(ts, pos))->0;
        if found.0 >= min {
            lemma_bin_op_literals(ts, from, pos + 1, funcs, found.0 + 1);
            let right = bin_op(ts, pos + 1, funcs, found.0 + 1);
            let both = ExprView::BinOp(Box::new(left), found.1, Box::new(right.result->Ok_0));
            lemma_bin_loop_literals(ts, from, right.pos, funcs, min, both);
        }
    }
}

/// The tokens `out` and an expression of literals make up the program
/// of one statement that puts out the expression, which is what the
/// grammar of expressions gives for the tokens after `out`; no function
/// is known.
pub proof fn lemma_literals_parse(ts: Seq<TokenView>)
    requires
        puts_out_literals(ts),
    ensures
        is_literal(literal_expr(ts)),
        size(literal_expr(ts)) == ts.len() - 1,
        parse_spec(ts) == Ok::<ProgramView, Seq<char>>(out_program(literal_expr(ts))),
{
    let none = Seq::<Seq<char>>::empty();
    lemma_no_definition(ts, 0);
    lemma_bin_op_literals(ts, 1, 1, none, 0);
    let e = expr(ts, 1, none);
    assert(e.pos == ts.len());
    let s = stmt(ts, 0, none);
    assert(s.result == Ok::<StmtView, Seq<char>>(StmtView::Out(literal_expr(ts))));
    assert(s.pos == ts.len());
    let first = Seq::<StmtView>::empty().push(StmtView::Out(literal_expr(ts)));
    assert(first =~= out_program(literal_expr(ts)).statements);
    assert(top_level(ts, ts.len() as int, none, first) == Ok::<ProgramView, Seq<char>>(
        ProgramView { statements: first },
    ));
}

/// The expression of the tokens that follow an `out` at the beginning.
pub open spec fn literal_expr(ts: Seq<TokenView>) -> ExprView {
    parsed(expr(ts, 1, Seq::empty()))
}

/// Tokens that put out an expression of literals define no function.
pub proof fn lemma_no_definition(ts: Seq<TokenView>, p: int)
    requires
        puts_out_literals(ts),
        0 <= p,
    ensures
        scan_functions(ts, p, Seq::empty()) == Seq::<Seq<char>>::empty(),
    decreases ts.len() - p,
{
    if p < ts.len() {
        if p > 0 {
            assert(if (p - 1) % 2 == 0 {
                literal_token(ts[p])
            } else {
                binary_operator(Some(ts[p])) is Some
            });
        }
        lemma_no_definition(ts, p + 1);
    }
}

/// An expression of literals refers to no name: it has no error in any
/// scope, and it holds no call.
pub proof fn lemma_literal_resolves(e: ExprView, scope: Scope, funcs: Seq<Seq<char>>)
    requires
        is_literal(e),
    ensures
        expr_error(e, scope) is None,
        call_free(e, funcs),
    decreases e,
{
    match e {
        ExprView::BinOp(left, _, right) => {
            lemma_literal_resolves(*left, scope, funcs);
            lemma_literal_resolves(*right, scope, funcs);
        },
        _ => {},
    }
}

/// The code of an expression has at most one instruction for each of
/// its literals and operators.
pub proof fn lemma_literal_code(e: ExprView, funcs: Seq<Seq<char>>)
    requires
        is_literal(e),
    ensures
        expr_code(e, funcs).len() <= size(e),
    decreases e,
{
    match e {
        ExprView::BinOp(left, _, right) => {
            lemma_literal_code(*left, funcs);
            lemma_literal_code(*right, funcs);
        },
        _ => {},
    }
}

/// The value of an expression of literals is an integer, so that it is
/// shown in decimal.
pub proof fn lemma_literal_value(e: ExprView, vars: Map<Seq<char>, ValueView>)
    requires
        is_literal(e),
    ensures
        eval(e, vars) matches Ok(v) ==> v is Integer,
    decreases e,
{
    match e {
        ExprView::BinOp(left, _, right) => {
            lemma_literal_value(*left, vars);
            lemma_literal_value(*right, vars);
        },
        _ => {},
    }
}

/// From the text to the output, for every text of literals: where the
/// tokens of a text are `out` and then literals with one operator
/// between each two, the pipeline puts out exactly one line, the value
/// of the expression in decimal; or it fails with the message of the
/// first arithmetic of the expression that fails. The expression is the
/// one that the grammar gives for the tokens, with `*` and `%` before
/// `+` and `-`, these before the comparisons, `==` last, and operators
/// of one level grouped to the left. The tokens are no more than the
/// machine has steps.
pub proof fn lemma_literal_round_trip(text: Seq<char>, tokens: Seq<TokenView>)
    requires
        lex_spec(text) == Ok::<Seq<TokenView>, Seq<char>>(tokens),
        puts_out_literals(tokens),
        tokens.len() < MAX_STEPS,
    ensures
        is_literal(literal_expr(tokens)),
        pipeline(text) == match eval(literal_expr(tokens), Map::empty()) {
            Ok(v) => Ok((0u64, seq![v.shown()])),
            Err(msg) => Err(msg),
        },
        eval(literal_expr(tokens), Map::empty()) matches Ok(v) ==> v is Integer,
{
    let e = literal_expr(tokens);
    let none = Seq::<Seq<char>>::empty();
    lemma_literals_parse(tokens);
    lemma_literal_value(e, Map::empty());
    lemma_literal_resolves(e, Scope { vars: none, funcs: none }, none);
    lemma_literal_code(e, none);
    let stmts = out_program(e).statements;
    assert(crate::semantic::register(stmts, 1, none) == Ok::<Seq<Seq<char>>, Seq<char>>(none));
    assert(crate::semantic::bodies_error(stmts, 1, none) is None);
    assert(crate::semantic::main_error(stmts, 1, Scope { vars: none, funcs: none }) is None);
    assert(program_error(out_program(e)) is None);
    lemma_out_expression(e, MAX_STEPS as nat);
}

/// A literal as it is written: its digits, and its width suffix if it
/// has one.
pub struct Written {
    pub digits: Seq<char>,
    pub suffix: Option<IntegerType>,
}

impl Written {
    /// There is at least one digit, and the number lies in the range of
    /// the suffix.
    pub open spec fn wf(self) -> bool {
        &&& self.digits.len() > 0
        &&& all_digits(self.digits)
        &&& self.suffix matches Some(w) ==> from_string_spec(self.digits, w) is Ok
    }

    /// The characters of the suffix.
    pub open spec fn suffix_text(self) -> Seq<char> {
        match self.suffix {
            Some(w) => w.name(),
            None => Seq::empty(),
        }
    }

    /// The characters of the literal.
    pub open spec fn text(self) -> Seq<char> {
        self.digits + self.suffix_text()
    }

    /// The token of the literal.
    pub open spec fn token(self) -> TokenView {
        match self.suffix {
            Some(w) => typed_token(w, from_string_spec(self.digits, w)->Ok_0),
            None => TokenView::Number(plain_number(self.digits)),
        }
    }
}

/// The characters of an operator.
pub open spec fn operator_text(op: BinOpType) -> Seq<char> {
    match op {
        BinOpType::Plus => seq!['+'],
        BinOpType::Minus => seq!['-'],
        BinOpType::Mul => seq!['*'],
        BinOpType::Mod => seq!['%'],
        BinOpType::Le => seq!['<', '='],
        BinOpType::Lt => seq!['<'],
        BinOpType::Gt => seq!['>'],
        BinOpType::Ge => seq!['>', '='],
        BinOpType::Eq => seq!['=', '='],
    }
}

/// The token of an operator.
pub open spec fn operator_token(op: BinOpType) -> TokenView {
    match op {
        BinOpType::Plus => TokenView::Plus,
        BinOpType::Minus => TokenView::Minus,
        BinOpType::Mul => TokenView::Mul,
        BinOpType::Mod => TokenView::Mod,
        BinOpType::Le => TokenView::Le,
        BinOpType::Lt => TokenView::Lt,
        BinOpType::Gt => TokenView::Gt,
        BinOpType::Ge => TokenView::Ge,
        BinOpType::Eq => TokenView::Eq,
    }
}

/// The literals and the operators between them make up an expression:
/// each literal is well formed, and there is one operator less than
/// there are literals.
pub open spec fn written_wf(literals: Seq<Written>, operators: Seq<BinOpType>) -> bool {
    &&& literals.len() == operators.len() + 1
    &&& forall|i: int| 0 <= i < literals.len() ==> (#[trigger] literals[i]).wf()
}

/// The text of the expression from the literal `i` on: a blank before
/// each literal and before each operator.
pub open spec fn written_text(literals: Seq<Written>, operators: Seq<BinOpType>, i: int) -> Seq<
    char,
>
    decreases literals.len() - i,
{
    if i < 0 || i >= literals.len() {
        Seq::empty()
    } else if i + 1 < literals.len() {
        seq![' '] + (literals[i].text() + (seq![' '] + (operator_text(operators[i]) + written_text(
            literals,
            operators,
            i + 1,
        ))))
    } else {
        seq![' '] + (literals[i].text() + Seq::empty())
    }
}

/// The tokens of the expression from the literal `i` on.
pub open spec fn written_tokens(literals: Seq<Written>, operators: Seq<BinOpType>, i: int) -> Seq<
    TokenView,
>
    decreases literals.len() - i,
{
    if i < 0 || i >= literals.len() {
        Seq::empty()
    } else if i + 1 < literals.len() {
        seq![literals[i].token(), operator_token(operators[i])] + written_tokens(
            literals,
            operators,
            i + 1,
        )
    } else {
        seq![literals[i].token()]
    }
}

/// The text that puts out the expression: `out`, then the expression.
pub open spec fn out_text(literals: Seq<Written>, operators: Seq<BinOpType>) -> Seq<char> {
    seq!['o', 'u', 't'] + written_text(literals, operators, 0)
}

/// The tokens of the text that puts out the expression.
pub open spec fn out_tokens(literals: Seq<Written>, operators: Seq<BinOpType>) -> Seq<TokenView> {
    seq![TokenView::Out] + written_tokens(literals, operators, 0)
}

/// A text that holds a pattern at a position holds each of its
/// characters.
pub proof fn lemma_holds_char(src: Seq<char>, p: int, pat: Seq<char>, k: int)
    requires
        holds_at(src, p, pat),
        0 <= k < pat.len(),
    ensures
        src[p + k] == pat[k],
{
    assert(src.subrange(p, p + pat.len())[k] == src[p + k]);
}

/// The run of digits that starts at `p` ends where the digits end.
pub proof fn lemma_digits_end(src: Seq<char>, p: int, n: nat)
    requires
        0 <= p,
        p + n <= src.len(),
        all_digits(src.subrange(p, p + n)),
        p + n == src.len() || !is_digit(src[p + n]),
    ensures
        digits_end(src, p) == p + n,
    decreases n,
{
    if n > 0 {
        assert(src.subrange(p, p + n)[0] == src[p]);
        assert forall|i: int| 0 <= i < n - 1 implies is_digit(
            #[trigger] src.subrange(p + 1, p + n)[i],
        ) by {
            assert(src.subrange(p + 1, p + n)[i] == src.subrange(p, p + n)[i + 1]);
        }
        lemma_digits_end(src, p + 1, (n - 1) as nat);
    }
}

/// The suffix that is found at `q` is the one that stands there; none
/// is found before a blank or at the end of the text.
pub proof fn lemma_suffix_found(src: Seq<char>, q: int, suffix: Option<IntegerType>)
    requires
        0 <= q <= src.len(),
        match suffix {
            Some(w) => holds_at(src, q, w.name()),
            None => q == src.len() || src[q] == ' ',
        },
    ensures
        suffix_at(src, q) == suffix,
{
    reveal_strlit("i8");
    reveal_strlit("i16");
    reveal_strlit("i32");
    reveal_strlit("i64");
    reveal_strlit("i128");
    reveal_strlit("bigint");
    lemma_name_begins(src, q, IntegerType::I8);
    lemma_name_begins(src, q, IntegerType::I16);
    lemma_name_begins(src, q, IntegerType::I32);
    lemma_name_begins(src, q, IntegerType::I64);
    lemma_name_begins(src, q, IntegerType::I128);
    lemma_name_begins(src, q, IntegerType::BigInt);
}

/// Where the text holds the name of a width at `q`, it holds the first
/// characters of that name there.
pub proof fn lemma_name_begins(src: Seq<char>, q: int, w: IntegerType)
    requires
        0 <= q <= src.len(),
    ensures
        holds_at(src, q, w.name()) ==> q + 2 <= src.len() && src[q] == w.name()[0] && src[q + 1]
            == w.name()[1] && (w.name().len() > 2 ==> src[q + 2] == w.name()[2]),
        w.name().len() >= 2,
{
    reveal_strlit("i8");
    reveal_strlit("i16");
    reveal_strlit("i32");
    reveal_strlit("i64");
    reveal_strlit("i128");
    reveal_strlit("bigint");
    if holds_at(src, q, w.name()) {
        lemma_holds_char(src, q, w.name(), 0);
        lemma_holds_char(src, q, w.name(), 1);
        if w.name().len() > 2 {
            lemma_holds_char(src, q, w.name(), 2);
        }
    }
}

/// The tokens from `p` on are what the step at `p` finds and then the
/// tokens from its end on.
pub proof fn lemma_lex_step(src: Seq<char>, p: int, acc: Seq<TokenView>)
    requires
        0 <= p < src.len(),
    ensures
        lex_from(src, p, acc) == match step_at(src, p).lexeme {
            Lexeme::Skip => lex_from(src, step_at(src, p).end, acc),
            Lexeme::Emit(t) => lex_from(src, step_at(src, p).end, acc.push(t)),
            Lexeme::Fail(e) => Err(e),
        },
{
    lemma_step_advances(src, p);
}

/// The literal that is written at `p`, before a blank or the end of the
/// text, gives its token, and the tokenizer goes on after it.
pub proof fn lemma_lex_literal(src: Seq<char>, p: int, w: Written)
    requires
        w.wf(),
        holds_at(src, p, w.text()),
        p + w.text().len() == src.len() || src[p + w.text().len()] == ' ',
    ensures
        step_at(src, p) == (Step { lexeme: Lexeme::Emit(w.token()), end: p + w.text().len() }),
{
    reveal_strlit("i8");
    reveal_strlit("i16");
    reveal_strlit("i32");
    reveal_strlit("i64");
    reveal_strlit("i128");
    reveal_strlit("bigint");
    let d = w.digits;
    let s = w.suffix_text();
    let q = p + d.len();
    let whole = src.subrange(p, p + w.text().len());
    assert(whole == d + s);
    assert forall|k: int| 0 <= k < whole.len() implies src[p + k] == #[trigger] whole[k] by {}
    assert(src.subrange(p, q) =~= d) by {
        assert forall|k: int| 0 <= k < d.len() implies src.subrange(p, q)[k] == d[k] by {
            assert(whole[k] == d[k]);
        }
    }
    assert(src.subrange(q, q + s.len()) =~= s) by {
        assert forall|k: int| 0 <= k < s.len() implies src.subrange(q, q + s.len())[k] == s[k] by {
            assert(whole[d.len() + k] == s[k]);
        }
    }
    assert(is_digit(d[0]));
    assert(src[p] == d[0]) by {
        assert(whole[0] == d[0]);
    }
    if s.len() > 0 {
        assert(src[q] == s[0]) by {
            assert(whole[d.len() as int] == s[0]);
        }
        assert(!is_digit(s[0]));
    }
    lemma_digits_end(src, p, d.len());
    lemma_suffix_found(src, q, w.suffix);
}

/// The operator that is written at `p`, before a blank, gives its
/// token, and the tokenizer goes on after it.
pub proof fn lemma_lex_operator(src: Seq<char>, p: int, op: BinOpType)
    requires
        holds_at(src, p, operator_text(op)),
        p + operator_text(op).len() < src.len(),
        src[p + operator_text(op).len()] == ' ',
    ensures
        step_at(src, p) == (Step {
            lexeme: Lexeme::Emit(operator_token(op)),
            end: p + operator_text(op).len(),
        }),
{
    let o = operator_text(op);
    lemma_holds_char(src, p, o, 0);
    if o.len() > 1 {
        lemma_holds_char(src, p, o, 1);
    }
}

/// Where the rest of a text from `p` on is `first` and then `rest`, the
/// text holds `first` at `p`, and `rest` is what follows it.
pub proof fn lemma_part(src: Seq<char>, p: int, first: Seq<char>, rest: Seq<char>)
    requires
        0 <= p <= src.len(),
        src.subrange(p, src.len() as int) == first + rest,
    ensures
        holds_at(src, p, first),
        src.subrange(p + first.len(), src.len() as int) == rest,
        p + first.len() + rest.len() == src.len(),
        rest.len() > 0 ==> src[p + first.len()] == rest[0],
{
    let whole = src.subrange(p, src.len() as int);
    let q = p + first.len();
    assert(whole.len() == first.len() + rest.len());
    assert(src.subrange(p, q) =~= first) by {
        assert forall|k: int| 0 <= k < first.len() implies src.subrange(p, q)[k] == first[k] by {
            assert(whole[k] == first[k]);
        }
    }
    assert(src.subrange(q, src.len() as int) =~= rest) by {
        assert forall|k: int| 0 <= k < rest.len() implies src.subrange(q, src.len() as int)[k]
            == rest[k] by {
            assert(whole[first.len() + k] == rest[k]);
        }
    }
    if rest.len() > 0 {
        assert(src.subrange(q, src.len() as int)[0] == src[q]);
    }
}

/// The tokens of a written expression: from a position at which the
/// rest of the text is the expression from the literal `i` on, the
/// tokenizer finds the tokens of that expression, and no error.
pub proof fn lemma_lex_written(
    src: Seq<char>,
    p: int,
    literals: Seq<Written>,
    operators: Seq<BinOpType>,
    i: int,
    acc: Seq<TokenView>,
)
    requires
        written_wf(literals, operators),
        0 <= i < literals.len(),
        0 <= p <= src.len(),
        src.subrange(p, src.len() as int) == written_text(literals, operators, i),
    ensures
        lex_from(src, p, acc) == Ok::<Seq<TokenView>, Seq<char>>(
            acc + written_tokens(literals, operators, i),
        ),
    decreases literals.len() - i,
{
    let w = literals[i];
    let t = w.text();
    let blank = seq![' '];
    assert(w.wf());
    let acc1 = acc.push(w.token());
    if i + 1 < literals.len() {
        let op = operators[i];
        let o = operator_text(op);
        let next = written_text(literals, operators, i + 1);
        assert(next.len() > 0 && next[0] == ' ');
        // The blank and the literal.
        lemma_part(src, p, blank, t + (blank + (o + next)));
        lemma_holds_char(src, p, blank, 0);
        lemma_lex_step(src, p, acc);
        let p1 = p + 1;
        lemma_part(src, p1, t, blank + (o + next));
        lemma_lex_literal(src, p1, w);
        lemma_lex_step(src, p1, acc);
        // The blank and the operator.
        let e = p1 + t.len();
        lemma_part(src, e, blank, o + next);
        lemma_lex_step(src, e, acc1);
        let e1 = e + 1;
        lemma_part(src, e1, o, next);
        lemma_lex_operator(src, e1, op);
        lemma_lex_step(src, e1, acc1);
        // The rest.
        let acc2 = acc1.push(operator_token(op));
        lemma_lex_written(src, e1 + o.len(), literals, operators, i + 1, acc2);
        assert(acc2 + written_tokens(literals, operators, i + 1) =~= acc + written_tokens(
            literals,
            operators,
            i,
        ));
    } else {
        let nothing = Seq::<char>::empty();
        lemma_part(src, p, blank, t + nothing);
        lemma_holds_char(src, p, blank, 0);
        lemma_lex_step(src, p, acc);
        let p1 = p + 1;
        lemma_part(src, p1, t, nothing);
        lemma_lex_literal(src, p1, w);
        lemma_lex_step(src, p1, acc);
        assert(acc1 =~= acc + written_tokens(literals, operators, i));
    }
}

/// The tokens of a written expression are literals with one operator
/// between each two.
pub proof fn lemma_written_tokens(literals: Seq<Written>, operators: Seq<BinOpType>, i: int)
    requires
        written_wf(literals, operators),
        0 <= i < literals.len(),
    ensures
        written_tokens(literals, operators, i).len() == 2 * (literals.len() - i) - 1,
        forall|k: int|
            0 <= k < written_tokens(literals, operators, i).len() ==> if k % 2 == 0 {
                literal_token(#[trigger] written_tokens(literals, operators, i)[k])
            } else {
                binary_operator(Some(written_tokens(literals, operators, i)[k])) is Some
            },
    decreases literals.len() - i,
{
    let ts = written_tokens(literals, operators, i);
    assert(literals[i].wf());
    assert(literal_token(literals[i].token()));
    if i + 1 < literals.len() {
        lemma_written_tokens(literals, operators, i + 1);
        let rest = written_tokens(literals, operators, i + 1);
        assert(binary_operator(Some(operator_token(operators[i]))) is Some);
        assert forall|k: int| 0 <= k < ts.len() implies if k % 2 == 0 {
            literal_token(#[trigger] ts[k])
        } else {
            binary_operator(Some(ts[k])) is Some
        } by {
            if k >= 2 {
                assert(ts[k] == rest[k - 2]);
            }
        }
    }
}

/// The text that puts out a written expression has the tokens `out`
/// and then those of the expression.
pub proof fn lemma_lex_out(literals: Seq<Written>, operators: Seq<BinOpType>)
    requires
        written_wf(literals, operators),
    ensures
        lex_spec(out_text(literals, operators)) == Ok::<Seq<TokenView>, Seq<char>>(
            out_tokens(literals, operators),
        ),
        puts_out_literals(out_tokens(literals, operators)),
{
    reveal_strlit("def");
    reveal_strlit("if");
    reveal_strlit("while");
    reveal_strlit("return");
    reveal_strlit("end");
    reveal_strlit("out");
    let src = out_text(literals, operators);
    let next = written_text(literals, operators, 0);
    let none = Seq::<TokenView>::empty();
    assert(next[0] == ' ');
    assert(src[0] == 'o' && src[1] == 'u' && src[2] == 't' && src[3] == next[0]);
    assert(ident_end(src, 3) == 3);
    assert(ident_end(src, 2) == 3);
    assert(ident_end(src, 1) == 3);
    let word = src.subrange(0, 3);
    assert(word =~= "out"@);
    assert(word[0] == 'o');
    assert(word_token(word) == TokenView::Out);
    lemma_lex_step(src, 0, none);
    assert(src.subrange(3, src.len() as int) =~= next);
    lemma_lex_written(src, 3, literals, operators, 0, none.push(TokenView::Out));
    assert(none.push(TokenView::Out) + written_tokens(literals, operators, 0) =~= out_tokens(
        literals,
        operators,
    ));
    lemma_written_tokens(literals, operators, 0);
    let ts = out_tokens(literals, operators);
    let rest = written_tokens(literals, operators, 0);
    assert forall|k: int| 1 <= k < ts.len() implies if (k - 1) % 2 == 0 {
        literal_token(#[trigger] ts[k])
    } else {
        binary_operator(Some(ts[k])) is Some
    } by {
        assert(ts[k] == rest[k - 1]);
    }
}

/// From the text to the output, for every expression of literals: the
/// text `out`, then literals with one operator between each two, a
/// blank before each, puts out exactly one line, the value of the
/// expression in decimal; or it fails with the message of the first
/// arithmetic of the expression that fails. The expression is the one
/// that the grammar gives for the tokens. There are fewer literals and
/// operators than the machine has steps.
pub proof fn lemma_written_round_trip(literals: Seq<Written>, operators: Seq<BinOpType>)
    requires
        written_wf(literals, operators),
        2 * literals.len() < MAX_STEPS,
    ensures
        is_literal(literal_expr(out_tokens(literals, operators))),
        pipeline(out_text(literals, operators)) == match eval(
            literal_expr(out_tokens(literals, operators)),
            Map::empty(),
        ) {
            Ok(v) => Ok((0u64, seq![v.shown()])),
            Err(msg) => Err(msg),
        },
        eval(literal_expr(out_tokens(literals, operators)), Map::empty()) matches Ok(v) ==> v
            is Integer,
{
    lemma_lex_out(literals, operators);
    lemma_written_tokens(literals, operators, 0);
    lemma_literal_round_trip(out_text(literals, operators), out_tokens(literals, operators));
}

} // verus!
