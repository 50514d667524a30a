//! The tokenizer: longest match over a fixed token set, with white space
//! and `//` comments skipped.

use crate::text::{
    all_digits, chars_of, digits_value, is_digit, nat_text, signed_literal, string_of, u128_text,
};
use crate::types::{
    big_literal, from_string_spec, parse_i128, IntView, IntegerType, IntegerValue,
};
use vstd::prelude::*;
use vstd::string::*;

verus! {

/// A token of the language.
#[derive(Debug, PartialEq, Eq, Hash)]
pub enum Token {
    Def,
    If,
    While,
    Return,
    End,
    Out,
    Assign,
    PlusAssign,
    MinusAssign,
    MulAssign,
    ModAssign,
    Plus,
    Minus,
    Mul,
    Mod,
    Lt,
    Le,
    Gt,
    Ge,
    Eq,
    Comma,
    /// An identifier with its name.
    Ident(String),
    /// A literal without a suffix, at the smallest width that holds it.
    Number(IntegerValue),
    /// A literal with the suffix `i8`.
    TypedNumber(IntegerValue),
    /// A literal with the suffix `i16`.
    TypedNumber16(IntegerValue),
    /// A literal with the suffix `i32`.
    TypedNumber32(IntegerValue),
    /// A literal with the suffix `i64`.
    TypedNumber64(IntegerValue),
    /// A literal with the suffix `i128`.
    TypedNumber128(IntegerValue),
    /// A literal with the suffix `bigint`.
    TypedNumberBigInt(IntegerValue),
    /// White space; the tokenizer skips it and never gives this token.
    Whitespace,
    /// A comment; the tokenizer skips it and never gives this token.
    Comment,
}

/// The mathematical content of a token.
pub enum TokenView {
    Def,
    If,
    While,
    Return,
    End,
    Out,
    Assign,
    PlusAssign,
    MinusAssign,
    MulAssign,
    ModAssign,
    Plus,
    Minus,
    Mul,
    Mod,
    Lt,
    Le,
    Gt,
    Ge,
    Eq,
    Comma,
    Ident(Seq<char>),
    Number(IntView),
    TypedNumber(IntView),
    TypedNumber16(IntView),
    TypedNumber32(IntView),
    TypedNumber64(IntView),
    TypedNumber128(IntView),
    TypedNumberBigInt(IntView),
    Whitespace,
    Comment,
}

impl DeepView for Token {
    type V = TokenView;

    open spec fn deep_view(&self) -> TokenView {
        match self {
            Token::Def => TokenView::Def,
            Token::If => TokenView::If,
            Token::While => TokenView::While,
            Token::Return => TokenView::Return,
            Token::End => TokenView::End,
            Token::Out => TokenView::Out,
            Token::Assign => TokenView::Assign,
            Token::PlusAssign => TokenView::PlusAssign,
            Token::MinusAssign => TokenView::MinusAssign,
            Token::MulAssign => TokenView::MulAssign,
            Token::ModAssign => TokenView::ModAssign,
            Token::Plus => TokenView::Plus,
            Token::Minus => TokenView::Minus,
            Token::Mul => TokenView::Mul,
            Token::Mod => TokenView::Mod,
            Token::Lt => TokenView::Lt,
            Token::Le => TokenView::Le,
            Token::Gt => TokenView::Gt,
            Token::Ge => TokenView::Ge,
            Token::Eq => TokenView::Eq,
            Token::Comma => TokenView::Comma,
            Token::Ident(s) => TokenView::Ident(s@),
            Token::Number(v) => TokenView::Number(v@),
            Token::TypedNumber(v) => TokenView::TypedNumber(v@),
            Token::TypedNumber16(v) => TokenView::TypedNumber16(v@),
            Token::TypedNumber32(v) => TokenView::TypedNumber32(v@),
            Token::TypedNumber64(v) => TokenView::TypedNumber64(v@),
            Token::TypedNumber128(v) => TokenView::TypedNumber128(v@),
            Token::TypedNumberBigInt(v) => TokenView::TypedNumberBigInt(v@),
            Token::Whitespace => TokenView::Whitespace,
            Token::Comment => TokenView::Comment,
        }
    }
}

impl Clone for Token {
    fn clone(&self) -> (r: Self)
        ensures
            r == *self,
    {
        match self {
            Token::Def => Token::Def,
            Token::If => Token::If,
            Token::While => Token::While,
            Token::Return => Token::Return,
            Token::End => Token::End,
            Token::Out => Token::Out,
            Token::Assign => Token::Assign,
            Token::PlusAssign => Token::PlusAssign,
            Token::MinusAssign => Token::MinusAssign,
            Token::MulAssign => Token::MulAssign,
            Token::ModAssign => Token::ModAssign,
            Token::Plus => Token::Plus,
            Token::Minus => Token::Minus,
            Token::Mul => Token::Mul,
            Token::Mod => Token::Mod,
            Token::Lt => Token::Lt,
            Token::Le => Token::Le,
            Token::Gt => Token::Gt,
            Token::Ge => Token::Ge,
            Token::Eq => Token::Eq,
            Token::Comma => Token::Comma,
            Token::Ident(s) => Token::Ident(s.clone()),
            Token::Number(v) => Token::Number(v.clone()),
            Token::TypedNumber(v) => Token::TypedNumber(v.clone()),
            Token::TypedNumber16(v) => Token::TypedNumber16(v.clone()),
            Token::TypedNumber32(v) => Token::TypedNumber32(v.clone()),
            Token::TypedNumber64(v) => Token::TypedNumber64(v.clone()),
            Token::TypedNumber128(v) => Token::TypedNumber128(v.clone()),
            Token::TypedNumberBigInt(v) => Token::TypedNumberBigInt(v.clone()),
            Token::Whitespace => Token::Whitespace,
            Token::Comment => Token::Comment,
        }
    }
}

/// White space: the characters with the Unicode property `White_Space`.
pub open spec fn is_space(c: char) -> bool {
    ||| ('\u{9}' <= c && c <= '\u{d}')
    ||| c == ' '
    ||| c == '\u{85}'
    ||| c == '\u{a0}'
    ||| c == '\u{1680}'
    ||| ('\u{2000}' <= c && c <= '\u{200a}')
    ||| c == '\u{2028}'
    ||| c == '\u{2029}'
    ||| c == '\u{202f}'
    ||| c == '\u{205f}'
    ||| c == '\u{3000}'
}

/// A character that can begin an identifier.
pub open spec fn is_ident_start(c: char) -> bool {
    ('a' <= c && c <= 'z') || ('A' <= c && c <= 'Z') || c == '_'
}

/// A character that can continue an identifier.
pub open spec fn is_ident_part(c: char) -> bool {
    is_ident_start(c) || is_digit(c)
}

/// The number of bytes that a character takes in UTF-8.
pub open spec fn utf8_width(c: char) -> nat {
    if c <= '\u{7f}' {
        1
    } else if c <= '\u{7ff}' {
        2
    } else if c <= '\u{ffff}' {
        3
    } else {
        4
    }
}

/// The offset in bytes of UTF-8 at which the character `p` begins.
pub open spec fn byte_offset(src: Seq<char>, p: int) -> nat
    decreases p,
{
    if p <= 0 {
        0
    } else {
        byte_offset(src, p - 1) + utf8_width(src[p - 1])
    }
}

/// The end of the longest run of digits that starts at `p`.
pub open spec fn digits_end(src: Seq<char>, p: int) -> int
    decreases src.len() - p,
{
    if 0 <= p < src.len() && is_digit(src[p]) {
        digits_end(src, p + 1)
    } else {
        p
    }
}

/// The end of the longest run of identifier characters that starts at `p`.
pub open spec fn ident_end(src: Seq<char>, p: int) -> int
    decreases src.len() - p,
{
    if 0 <= p < src.len() && is_ident_part(src[p]) {
        ident_end(src, p + 1)
    } else {
        p
    }
}

/// The end of the line that `p` lies in: the position of the next line
/// feed, or the end of the text.
pub open spec fn line_end(src: Seq<char>, p: int) -> int
    decreases src.len() - p,
{
    if 0 <= p < src.len() && src[p] != '\n' {
        line_end(src, p + 1)
    } else {
        p
    }
}

/// The three runs end at or after their start and within the text.
pub proof fn lemma_run_bounds(src: Seq<char>, p: int)
    requires
        0 <= p <= src.len(),
    ensures
        p <= digits_end(src, p) <= src.len(),
        p <= ident_end(src, p) <= src.len(),
        p <= line_end(src, p) <= src.len(),
    decreases src.len() - p,
{
    if p < src.len() {
        lemma_run_bounds(src, p + 1);
    }
}

/// The token for a word: a keyword, or else an identifier.
pub open spec fn word_token(w: Seq<char>) -> TokenView {
    if w == "def"@ {
        TokenView::Def
    } else if w == "if"@ {
        TokenView::If
    } else if w == "while"@ {
        TokenView::While
    } else if w == "return"@ {
        TokenView::Return
    } else if w == "end"@ {
        TokenView::End
    } else if w == "out"@ {
        TokenView::Out
    } else {
        TokenView::Ident(w)
    }
}

/// Whether the text holds `pat` at `p`.
pub open spec fn holds_at(src: Seq<char>, p: int, pat: Seq<char>) -> bool {
    0 <= p && p + pat.len() <= src.len() && src.subrange(p, p + pat.len()) == pat
}

/// The width suffix that begins at `p`, the longest first.
pub open spec fn suffix_at(src: Seq<char>, p: int) -> Option<IntegerType> {
    if holds_at(src, p, IntegerType::BigInt.name()) {
        Some(IntegerType::BigInt)
    } else if holds_at(src, p, IntegerType::I128.name()) {
        Some(IntegerType::I128)
    } else if holds_at(src, p, IntegerType::I16.name()) {
        Some(IntegerType::I16)
    } else if holds_at(src, p, IntegerType::I32.name()) {
        Some(IntegerType::I32)
    } else if holds_at(src, p, IntegerType::I64.name()) {
        Some(IntegerType::I64)
    } else if holds_at(src, p, IntegerType::I8.name()) {
        Some(IntegerType::I8)
    } else {
        None
    }
}

/// The smallest width that holds `v`.
pub open spec fn smallest_width(v: int) -> IntegerType {
    if IntegerType::I8.holds(v) {
        IntegerType::I8
    } else if IntegerType::I16.holds(v) {
        IntegerType::I16
    } else if IntegerType::I32.holds(v) {
        IntegerType::I32
    } else if IntegerType::I64.holds(v) {
        IntegerType::I64
    } else if IntegerType::I128.holds(v) {
        IntegerType::I128
    } else {
        IntegerType::BigInt
    }
}

/// The value of a literal without a suffix: the number that the digits
/// denote, at the smallest width that holds it.
pub open spec fn plain_number(digits: Seq<char>) -> IntView {
    IntView { width: smallest_width(digits_value(digits) as int), value: digits_value(digits) as int }
}

/// The token for a literal with the suffix of width `w`.
pub open spec fn typed_token(w: IntegerType, v: IntView) -> TokenView {
    match w {
        IntegerType::I8 => TokenView::TypedNumber(v),
        IntegerType::I16 => TokenView::TypedNumber16(v),
        IntegerType::I32 => TokenView::TypedNumber32(v),
        IntegerType::I64 => TokenView::TypedNumber64(v),
        IntegerType::I128 => TokenView::TypedNumber128(v),
        IntegerType::BigInt => TokenView::TypedNumberBigInt(v),
    }
}

/// What the tokenizer finds at one position.
pub enum Lexeme {
    /// White space or a comment.
    Skip,
    /// A token.
    Emit(TokenView),
    /// An error, with its message.
    Fail(Seq<char>),
}

/// What the tokenizer finds at one position, and where it goes on.
pub struct Step {
    pub lexeme: Lexeme,
    pub end: int,
}

/// `Unexpected character: 'C' at position N`.
pub open spec fn unexpected_text(c: char, offset: nat) -> Seq<char> {
    "Unexpected character: '"@ + seq![c] + "' at position "@ + nat_text(offset)
}

/// The operator that begins at `p`: a compound before its first character
/// alone.
pub open spec fn operator_at(src: Seq<char>, p: int) -> Option<Step> {
    let c = src[p];
    let compound = p + 1 < src.len() && src[p + 1] == '=';
    let two = |t: TokenView| Some(Step { lexeme: Lexeme::Emit(t), end: p + 2 });
    let one = |t: TokenView| Some(Step { lexeme: Lexeme::Emit(t), end: p + 1 });
    if c == '+' {
        if compound {
            two(TokenView::PlusAssign)
        } else {
            one(TokenView::Plus)
        }
    } else if c == '-' {
        if compound {
            two(TokenView::MinusAssign)
        } else {
            one(TokenView::Minus)
        }
    } else if c == '*' {
        if compound {
            two(TokenView::MulAssign)
        } else {
            one(TokenView::Mul)
        }
    } else if c == '%' {
        if compound {
            two(TokenView::ModAssign)
        } else {
            one(TokenView::Mod)
        }
    } else if c == '<' {
        if compound {
            two(TokenView::Le)
        } else {
            one(TokenView::Lt)
        }
    } else if c == '>' {
        if compound {
            two(TokenView::Ge)
        } else {
            one(TokenView::Gt)
        }
    } else if c == '=' {
        if compound {
            two(TokenView::Eq)
        } else {
            one(TokenView::Assign)
        }
    } else if c == ',' {
        one(TokenView::Comma)
    } else {
        None
    }
}

/// The literal that begins at `p`: its digits, and the width suffix if one
/// follows them. A literal that its suffix cannot hold is an error.
pub open spec fn number_at(src: Seq<char>, p: int) -> Step {
    let q = digits_end(src, p);
    let digits = src.subrange(p, q);
    match suffix_at(src, q) {
        Some(w) => Step {
            lexeme: match from_string_spec(digits, w) {
                Ok(v) => Lexeme::Emit(typed_token(w, v)),
                Err(e) => Lexeme::Fail(e),
            },
            end: q + w.name().len(),
        },
        None => Step { lexeme: Lexeme::Emit(TokenView::Number(plain_number(digits))), end: q },
    }
}

/// What begins at `p`, for `p` within the text.
pub open spec fn step_at(src: Seq<char>, p: int) -> Step {
    let c = src[p];
    if is_space(c) {
        Step { lexeme: Lexeme::Skip, end: p + 1 }
    } else if c == '/' && p + 1 < src.len() && src[p + 1] == '/' {
        Step { lexeme: Lexeme::Skip, end: line_end(src, p + 2) }
    } else if is_ident_start(c) {
        let q = ident_end(src, p + 1);
        Step { lexeme: Lexeme::Emit(word_token(src.subrange(p, q))), end: q }
    } else if is_digit(c) {
        number_at(src, p)
    } else {
        match operator_at(src, p) {
            Some(step) => step,
            None => Step {
                lexeme: Lexeme::Fail(unexpected_text(c, byte_offset(src, p))),
                end: p + 1,
            },
        }
    }
}

/// The tokens of the text from `p` on, after the tokens `acc`; or the
/// first error.
pub open spec fn lex_from(src: Seq<char>, p: int, acc: Seq<TokenView>) -> Result<
    Seq<TokenView>,
    Seq<char>,
>
    decreases src.len() - p,
{
    if p < 0 || p >= src.len() {
        Ok(acc)
    } else {
        let step = step_at(src, p);
        if step.end <= p || step.end > src.len() {
            // A step always advances, and ends within the text.
            Ok(acc)
        } else {
            match step.lexeme {
                Lexeme::Skip => lex_from(src, step.end, acc),
                Lexeme::Emit(t) => lex_from(src, step.end, acc.push(t)),
                Lexeme::Fail(e) => Err(e),
            }
        }
    }
}

/// The tokens of a text, or the first error.
pub open spec fn lex_spec(src: Seq<char>) -> Result<Seq<TokenView>, Seq<char>> {
    lex_from(src, 0, Seq::empty())
}

/// Every step ends after its start and within the text.
pub proof fn lemma_step_advances(src: Seq<char>, p: int)
    requires
        0 <= p < src.len(),
    ensures
        step_at(src, p).end > p,
        step_at(src, p).end <= src.len(),
{
    lemma_run_bounds(src, p + 1);
    if p + 2 <= src.len() {
        lemma_run_bounds(src, p + 2);
    }
    assert(digits_end(src, p) >= p + 1 || !is_digit(src[p])) by {
        if is_digit(src[p]) {
            assert(digits_end(src, p) == digits_end(src, p + 1));
        }
    }
}

/// The run of digits that starts at `p` holds digits only.
pub proof fn lemma_digits_run(src: Seq<char>, p: int)
    requires
        0 <= p <= src.len(),
    ensures
        all_digits(src.subrange(p, digits_end(src, p))),
    decreases src.len() - p,
{
    lemma_run_bounds(src, p);
    if p < src.len() && is_digit(src[p]) {
        lemma_digits_run(src, p + 1);
        lemma_run_bounds(src, p + 1);
        let q = digits_end(src, p);
        assert forall|i: int| 0 <= i < q - p implies is_digit(#[trigger] src.subrange(p, q)[i]) by {
            if i > 0 {
                assert(src.subrange(p, q)[i] == src.subrange(p + 1, q)[i - 1]);
            }
        }
    }
}

/// Taking the underscores out of a string of digits changes nothing.
pub proof fn lemma_digits_have_no_underscore(s: Seq<char>)
    requires
        all_digits(s),
    ensures
        s.filter(|c: char| c != '_') == s,
    decreases s.len(),
{
    reveal(Seq::filter);
    if s.len() > 0 {
        lemma_digits_have_no_underscore(s.drop_last());
        assert(is_digit(s.last()));
        assert(s.drop_last().push(s.last()) =~= s);
    }
}

/// The end of the run of digits that starts at `p`.
fn scan_digits(src: &Vec<char>, p: usize) -> (q: usize)
    requires
        p <= src.len(),
    ensures
        q == digits_end(src@, p as int),
        p <= q <= src.len(),
{
    let mut q = p;
    while q < src.len() && '0' <= src[q] && src[q] <= '9'
        invariant
            p <= q <= src.len(),
            digits_end(src@, p as int) == digits_end(src@, q as int),
        decreases src.len() - q,
    {
        q = q + 1;
    }
    q
}

/// Whether `c` can begin an identifier.
fn ident_start(c: char) -> (r: bool)
    ensures
        r == is_ident_start(c),
{
    ('a' <= c && c <= 'z') || ('A' <= c && c <= 'Z') || c == '_'
}

/// The end of the run of identifier characters that starts at `p`.
fn scan_ident(src: &Vec<char>, p: usize) -> (q: usize)
    requires
        p <= src.len(),
    ensures
        q == ident_end(src@, p as int),
        p <= q <= src.len(),
{
    let mut q = p;
    while q < src.len() && (ident_start(src[q]) || ('0' <= src[q] && src[q] <= '9'))
        invariant
            p <= q <= src.len(),
            ident_end(src@, p as int) == ident_end(src@, q as int),
        decreases src.len() - q,
    {
        q = q + 1;
    }
    q
}

/// The end of the line that `p` lies in.
fn scan_line(src: &Vec<char>, p: usize) -> (q: usize)
    requires
        p <= src.len(),
    ensures
        q == line_end(src@, p as int),
        p <= q <= src.len(),
{
    let mut q = p;
    while q < src.len() && src[q] != '\n'
        invariant
            p <= q <= src.len(),
            line_end(src@, p as int) == line_end(src@, q as int),
        decreases src.len() - q,
    {
        q = q + 1;
    }
    q
}

/// Whether `c` is white space.
fn space(c: char) -> (r: bool)
    ensures
        r == is_space(c),
{
    ('\u{9}' <= c && c <= '\u{d}') || c == ' ' || c == '\u{85}' || c == '\u{a0}' || c
        == '\u{1680}' || ('\u{2000}' <= c && c <= '\u{200a}') || c == '\u{2028}' || c
        == '\u{2029}' || c == '\u{202f}' || c == '\u{205f}' || c == '\u{3000}'
}

/// The offset in bytes of UTF-8 at which the character `p` begins.
fn offset_of(src: &Vec<char>, p: usize) -> (n: u128)
    requires
        p <= src.len(),
    ensures
        n == byte_offset(src@, p as int),
{
    let mut n: u128 = 0;
    let mut i: usize = 0;
    while i < p
        invariant
            i <= p <= src.len(),
            n == byte_offset(src@, i as int),
            n <= 4 * i,
        decreases p - i,
    {
        let c = src[i];
        let w: u128 = if c <= '\u{7f}' {
            1
        } else if c <= '\u{7ff}' {
            2
        } else if c <= '\u{ffff}' {
            3
        } else {
            4
        };
        n = n + w;
        i = i + 1;
    }
    n
}

/// Whether the text holds `pat` at `p`.
fn holds(src: &Vec<char>, p: usize, pat: &str) -> (r: bool)
    requires
        p <= src.len(),
    ensures
        r == holds_at(src@, p as int, pat@),
{
    let k = pat.unicode_len();
    if k > src.len() - p {
        return false;
    }
    let part = string_of(src, p, p + k);
    part == String::from_str(pat)
}

/// The width suffix that begins at `p`.
fn suffix(src: &Vec<char>, p: usize) -> (r: Option<IntegerType>)
    requires
        p <= src.len(),
    ensures
        r == suffix_at(src@, p as int),
{
    if holds(src, p, IntegerType::BigInt.as_str()) {
        Some(IntegerType::BigInt)
    } else if holds(src, p, IntegerType::I128.as_str()) {
        Some(IntegerType::I128)
    } else if holds(src, p, IntegerType::I16.as_str()) {
        Some(IntegerType::I16)
    } else if holds(src, p, IntegerType::I32.as_str()) {
        Some(IntegerType::I32)
    } else if holds(src, p, IntegerType::I64.as_str()) {
        Some(IntegerType::I64)
    } else if holds(src, p, IntegerType::I8.as_str()) {
        Some(IntegerType::I8)
    } else {
        None
    }
}

/// The token for a word.
fn word(w: String) -> (t: Token)
    ensures
        t.deep_view() == word_token(w@),
{
    if w == String::from_str("def") {
        Token::Def
    } else if w == String::from_str("if") {
        Token::If
    } else if w == String::from_str("while") {
        Token::While
    } else if w == String::from_str("return") {
        Token::Return
    } else if w == String::from_str("end") {
        Token::End
    } else if w == String::from_str("out") {
        Token::Out
    } else {
        Token::Ident(w)
    }
}

/// The value of a literal without a suffix.
pub fn plain_literal(digits: &str) -> (r: IntegerValue)
    requires
        digits@.len() > 0,
        all_digits(digits@),
    ensures
        r@ == plain_number(digits@),
{
    assert(signed_literal(digits@) == Some(digits_value(digits@) as int)) by {
        assert(is_digit(digits@[0]));
    }
    match parse_i128(digits) {
        Some(v) => {
            if IntegerType::I8.fits(v) {
                IntegerValue::I8(v as i8)
            } else if IntegerType::I16.fits(v) {
                IntegerValue::I16(v as i16)
            } else if IntegerType::I32.fits(v) {
                IntegerValue::I32(v as i32)
            } else if IntegerType::I64.fits(v) {
                IntegerValue::I64(v as i64)
            } else {
                IntegerValue::I128(v)
            }
        },
        None => {
            proof {
                lemma_digits_have_no_underscore(digits@);
                assert(is_digit(digits@[0]));
                assert(big_literal(digits@) == Some(digits_value(digits@) as int));
            }
            match IntegerValue::from_string(digits, IntegerType::BigInt) {
                Ok(v) => v,
                Err(_) => IntegerValue::I8(0),
            }
        },
    }
}

/// The token for a literal with the suffix of width `w`.
fn typed(w: IntegerType, v: IntegerValue) -> (t: Token)
    ensures
        t.deep_view() == typed_token(w, v@),
{
    match w {
        IntegerType::I8 => Token::TypedNumber(v),
        IntegerType::I16 => Token::TypedNumber16(v),
        IntegerType::I32 => Token::TypedNumber32(v),
        IntegerType::I64 => Token::TypedNumber64(v),
        IntegerType::I128 => Token::TypedNumber128(v),
        IntegerType::BigInt => Token::TypedNumberBigInt(v),
    }
}

/// What the tokenizer finds at one position, as it is computed.
enum Found {
    Skip,
    Emit(Token),
    Fail(String),
}

impl Found {
    spec fn lexeme(self) -> Lexeme {
        match self {
            Found::Skip => Lexeme::Skip,
            Found::Emit(t) => Lexeme::Emit(t.deep_view()),
            Found::Fail(e) => Lexeme::Fail(e@),
        }
    }
}

/// The literal that begins at `p`.
fn number(src: &Vec<char>, p: usize) -> (r: (Found, usize))
    requires
        p < src.len(),
        is_digit(src@[p as int]),
    ensures
        r.0.lexeme() == number_at(src@, p as int).lexeme,
        r.1 == number_at(src@, p as int).end,
        p < r.1 <= src.len(),
{
    let q = scan_digits(src, p);
    proof {
        lemma_digits_run(src@, p as int);
        assert(digits_end(src@, p as int) == digits_end(src@, p + 1));
        lemma_run_bounds(src@, p + 1);
    }
    let digits = string_of(src, p, q);
    match suffix(src, q) {
        Some(w) => {
            let k = w.as_str().unicode_len();
            let found = match IntegerValue::from_string(digits.as_str(), w) {
                Ok(v) => Found::Emit(typed(w, v)),
                Err(e) => Found::Fail(e),
            };
            (found, q + k)
        },
        None => (Found::Emit(Token::Number(plain_literal(digits.as_str()))), q),
    }
}

/// The operator that begins at `p`, if one does.
fn operator(src: &Vec<char>, p: usize) -> (r: Option<(Token, usize)>)
    requires
        p < src.len(),
    ensures
        match r {
            Some((t, end)) => operator_at(src@, p as int) == Some(
                Step { lexeme: Lexeme::Emit(t.deep_view()), end: end as int },
            ) && p < end <= src.len(),
            None => operator_at(src@, p as int) is None,
        },
{
    let c = src[p];
    let compound = p + 1 < src.len() && src[p + 1] == '=';
    if c == '+' {
        if compound {
            Some((Token::PlusAssign, p + 2))
        } else {
            Some((Token::Plus, p + 1))
        }
    } else if c == '-' {
        if compound {
            Some((Token::MinusAssign, p + 2))
        } else {
            Some((Token::Minus, p + 1))
        }
    } else if c == '*' {
        if compound {
            Some((Token::MulAssign, p + 2))
        } else {
            Some((Token::Mul, p + 1))
        }
    } else if c == '%' {
        if compound {
            Some((Token::ModAssign, p + 2))
        } else {
            Some((Token::Mod, p + 1))
        }
    } else if c == '<' {
        if compound {
            Some((Token::Le, p + 2))
        } else {
            Some((Token::Lt, p + 1))
        }
    } else if c == '>' {
        if compound {
            Some((Token::Ge, p + 2))
        } else {
            Some((Token::Gt, p + 1))
        }
    } else if c == '=' {
        if compound {
            Some((Token::Eq, p + 2))
        } else {
            Some((Token::Assign, p + 1))
        }
    } else if c == ',' {
        Some((Token::Comma, p + 1))
    } else {
        None
    }
}

/// What begins at `p`.
fn step(src: &Vec<char>, p: usize) -> (r: (Found, usize))
    requires
        p < src.len(),
    ensures
        r.0.lexeme() == step_at(src@, p as int).lexeme,
        r.1 == step_at(src@, p as int).end,
        p < r.1 <= src.len(),
{
    let c = src[p];
    if space(c) {
        (Found::Skip, p + 1)
    } else if c == '/' && p + 1 < src.len() && src[p + 1] == '/' {
        (Found::Skip, scan_line(src, p + 2))
    } else if ident_start(c) {
        let q = scan_ident(src, p + 1);
        (Found::Emit(word(string_of(src, p, q))), q)
    } else if '0' <= c && c <= '9' {
        number(src, p)
    } else {
        match operator(src, p) {
            Some((t, end)) => (Found::Emit(t), end),
            None => {
                let mut e = String::from_str("Unexpected character: '");
                e.append(string_of(src, p, p + 1).as_str());
                e.append("' at position ");
                e.append(u128_text(offset_of(src, p)).as_str());
                proof {
                    assert(src@.subrange(p as int, p + 1) =~= seq![src@[p as int]]);
                }
                (Found::Fail(e), p + 1)
            },
        }
    }
}

/// The tokens of `code`, or the first error: a character that begins no
/// token, or a literal that its suffix cannot hold.
pub fn tokenize(code: &str) -> (r: Result<Vec<Token>, String>)
    ensures
        match r {
            Ok(tokens) => lex_spec(code@) == Ok::<Seq<TokenView>, Seq<char>>(tokens.deep_view()),
            Err(e) => lex_spec(code@) == Err::<Seq<TokenView>, Seq<char>>(e@),
        },
{
    let src = chars_of(code);
    let mut tokens: Vec<Token> = Vec::new();
    let mut p: usize = 0;
    assert(tokens.deep_view() =~= Seq::empty());
    while p < src.len()
        invariant
            p <= src.len(),
            src@ == code@,
            lex_spec(code@) == lex_from(src@, p as int, tokens.deep_view()),
        decreases src.len() - p,
    {
        let ghost before = tokens.deep_view();
        let (found, end) = step(&src, p);
        match found {
            Found::Skip => {},
            Found::Emit(t) => {
                tokens.push(t);
                assert(tokens.deep_view() =~= before.push(t.deep_view()));
            },
            Found::Fail(e) => {
                return Err(e);
            },
        }
        p = end;
    }
    Ok(tokens)
}

} // verus!
