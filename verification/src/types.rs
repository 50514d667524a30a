//! The integer value algebra: six widths, promotion to the wider operand,
//! checked arithmetic, and multiplication that widens to arbitrary
//! precision instead of failing.

use crate::text::{
    all_digits, chars_of, decimal_text, digit_value, digits_value, i128_text, is_digit,
    lemma_digits_value_push, signed_literal, unsigned_part,
};
use num_bigint::BigInt;
use num_traits::cast::ToPrimitive;
use vstd::prelude::*;
use vstd::string::*;

verus! {

/// The width of an integer value. The declaration order is the promotion
/// order: a later width holds every value of an earlier one.
#[derive(Debug, Clone, Copy, PartialEq, Eq, Structural, PartialOrd, Ord, Hash)]
pub enum IntegerType {
    I8,
    I16,
    I32,
    I64,
    I128,
    BigInt,
}

impl IntegerType {
    /// Position in the promotion order.
    pub open spec fn rank(self) -> nat {
        match self {
            IntegerType::I8 => 0,
            IntegerType::I16 => 1,
            IntegerType::I32 => 2,
            IntegerType::I64 => 3,
            IntegerType::I128 => 4,
            IntegerType::BigInt => 5,
        }
    }

    /// The least value of a fixed width.
    pub open spec fn min_value(self) -> int {
        match self {
            IntegerType::I8 => i8::MIN as int,
            IntegerType::I16 => i16::MIN as int,
            IntegerType::I32 => i32::MIN as int,
            IntegerType::I64 => i64::MIN as int,
            _ => i128::MIN as int,
        }
    }

    /// The greatest value of a fixed width.
    pub open spec fn max_value(self) -> int {
        match self {
            IntegerType::I8 => i8::MAX as int,
            IntegerType::I16 => i16::MAX as int,
            IntegerType::I32 => i32::MAX as int,
            IntegerType::I64 => i64::MAX as int,
            _ => i128::MAX as int,
        }
    }

    /// Whether a value of this width can be `v`. `BigInt` holds every
    /// integer.
    pub open spec fn holds(self, v: int) -> bool {
        self is BigInt || (self.min_value() <= v && v <= self.max_value())
    }

    /// The wider of two widths.
    pub open spec fn wider(self, other: IntegerType) -> IntegerType {
        if self.rank() > other.rank() {
            self
        } else {
            other
        }
    }

    /// The width's name as it is written in literals and in messages.
    pub open spec fn name(self) -> Seq<char> {
        match self {
            IntegerType::I8 => "i8"@,
            IntegerType::I16 => "i16"@,
            IntegerType::I32 => "i32"@,
            IntegerType::I64 => "i64"@,
            IntegerType::I128 => "i128"@,
            IntegerType::BigInt => "bigint"@,
        }
    }

    /// The width's name as it is written in literals and in messages.
    pub fn as_str(&self) -> (s: &'static str)
        ensures
            s@ == self.name(),
    {
        match self {
            IntegerType::I8 => "i8",
            IntegerType::I16 => "i16",
            IntegerType::I32 => "i32",
            IntegerType::I64 => "i64",
            IntegerType::I128 => "i128",
            IntegerType::BigInt => "bigint",
        }
    }

    /// The least value of a fixed width, and of `i128` for `BigInt`.
    pub fn least(&self) -> (v: i128)
        ensures
            v == self.min_value(),
    {
        match self {
            IntegerType::I8 => -128,
            IntegerType::I16 => -32768,
            IntegerType::I32 => -2147483648,
            IntegerType::I64 => -9223372036854775808,
            _ => i128::MIN,
        }
    }

    /// Whether the machine integer `v` lies in this width's range.
    pub fn fits(&self, v: i128) -> (r: bool)
        ensures
            r == self.holds(v as int),
    {
        match self {
            IntegerType::I8 => -128 <= v && v <= 127,
            IntegerType::I16 => -32768 <= v && v <= 32767,
            IntegerType::I32 => -2147483648 <= v && v <= 2147483647,
            IntegerType::I64 => -9223372036854775808 <= v && v <= 9223372036854775807,
            IntegerType::I128 => true,
            IntegerType::BigInt => true,
        }
    }
}

/// Division that rounds toward zero, as the machine integers divide.
pub open spec fn trunc_div(x: int, d: int) -> int {
    if x >= 0 && d > 0 {
        x / d
    } else if x < 0 && d < 0 {
        (-x) / (-d)
    } else if x < 0 {
        -((-x) / d)
    } else {
        -(x / (-d))
    }
}

/// The remainder that goes with `trunc_div`: it has the dividend's sign.
pub open spec fn trunc_rem(x: int, d: int) -> int {
    if x >= 0 && d > 0 {
        x % d
    } else if x < 0 && d < 0 {
        -((-x) % (-d))
    } else if x < 0 {
        -((-x) % d)
    } else {
        x % (-d)
    }
}

/// What `BigInt::parse_bytes` accepts in radix 10: an optional `+` or `-`,
/// then a digit, then digits and underscores. The underscores do not
/// count. `None` for any other string.
pub open spec fn big_literal(s: Seq<char>) -> Option<int> {
    let body = unsigned_part(s);
    if body.len() > 0 && is_digit(body[0]) && (forall|i: int|
        0 <= i < body.len() ==> is_digit(#[trigger] body[i]) || body[i] == '_') {
        let magnitude = digits_value(body.filter(|c: char| c != '_')) as int;
        if s[0] == '-' {
            Some(-magnitude)
        } else {
            Some(magnitude)
        }
    } else {
        None
    }
}

/// An integer of any size, held as its decimal text. Arithmetic on it is
/// done by `num_bigint::BigInt`: each operation below reads its operands
/// with `BigInt::parse_bytes`, which takes every such text for the integer
/// it denotes, and writes its result with `BigInt`'s `Display`, which
/// gives a minus sign for a negative number and then the digits without
/// leading zeros. A `BigNum` is made by these operations alone.
#[derive(Debug, PartialEq, Eq, Hash)]
pub struct BigNum {
    text: String,
}

impl BigNum {
    /// The integer that the text denotes.
    pub closed spec fn value(&self) -> int {
        match signed_literal(self.text@) {
            Some(v) => v,
            None => 0,
        }
    }

    /// The text is the decimal form of the value: no `+`, no leading zero,
    /// no `-0`.
    #[verifier::type_invariant]
    spec fn canonical(self) -> bool {
        self.text@ == decimal_text(self.value())
    }

    /// The decimal form of the value.
    pub fn to_string(&self) -> (s: String)
        ensures
            s@ == decimal_text(self.value()),
    {
        proof {
            use_type_invariant(self);
        }
        self.text.clone()
    }
}

impl Clone for BigNum {
    fn clone(&self) -> (r: Self)
        ensures
            r == *self,
    {
        proof {
            use_type_invariant(self);
        }
        BigNum { text: self.text.clone() }
    }
}

/// `BigInt::parse_bytes` with radix 10 on the bytes of `s`: `Some` exactly
/// for the strings that `big_literal` accepts, with the integer it gives.
#[verifier::external_body]
fn big_parse(s: &str) -> (r: Option<BigNum>)
    ensures
        r is Some <==> big_literal(s@) is Some,
        r matches Some(v) ==> Some(v.value()) == big_literal(s@),
{
    match BigInt::parse_bytes(s.as_bytes(), 10) {
        Some(v) => Some(BigNum { text: v.to_string() }),
        None => None,
    }
}

/// `BigInt::from` on an `i128`: the same integer.
#[verifier::external_body]
fn big_from_i128(v: i128) -> (r: BigNum)
    ensures
        r.value() == v,
{
    BigNum { text: BigInt::from(v).to_string() }
}

/// `ToPrimitive::to_i128` of `BigInt`: the value where an `i128` can hold
/// it, else `None`.
#[verifier::external_body]
fn big_to_i128(a: &BigNum) -> (r: Option<i128>)
    ensures
        r == if i128::MIN <= a.value() <= i128::MAX {
            Some(a.value() as i128)
        } else {
            None
        },
{
    BigInt::parse_bytes(a.text.as_bytes(), 10).unwrap().to_i128()
}

/// `BigInt`'s `+`: the exact sum.
#[verifier::external_body]
fn big_add(a: &BigNum, b: &BigNum) -> (r: BigNum)
    ensures
        r.value() == a.value() + b.value(),
{
    let x = BigInt::parse_bytes(a.text.as_bytes(), 10).unwrap();
    let y = BigInt::parse_bytes(b.text.as_bytes(), 10).unwrap();
    BigNum { text: (x + y).to_string() }
}

/// `BigInt`'s `-`: the exact difference.
#[verifier::external_body]
fn big_sub(a: &BigNum, b: &BigNum) -> (r: BigNum)
    ensures
        r.value() == a.value() - b.value(),
{
    let x = BigInt::parse_bytes(a.text.as_bytes(), 10).unwrap();
    let y = BigInt::parse_bytes(b.text.as_bytes(), 10).unwrap();
    BigNum { text: (x - y).to_string() }
}

/// `BigInt`'s `*`: the exact product.
#[verifier::external_body]
fn big_mul(a: &BigNum, b: &BigNum) -> (r: BigNum)
    ensures
        r.value() == a.value() * b.value(),
{
    let x = BigInt::parse_bytes(a.text.as_bytes(), 10).unwrap();
    let y = BigInt::parse_bytes(b.text.as_bytes(), 10).unwrap();
    BigNum { text: (x * y).to_string() }
}

/// `BigInt`'s `/`, which panics on a zero divisor: the quotient rounded
/// toward zero.
#[verifier::external_body]
fn big_div(a: &BigNum, b: &BigNum) -> (r: BigNum)
    requires
        b.value() != 0,
    ensures
        r.value() == trunc_div(a.value(), b.value()),
{
    let x = BigInt::parse_bytes(a.text.as_bytes(), 10).unwrap();
    let y = BigInt::parse_bytes(b.text.as_bytes(), 10).unwrap();
    BigNum { text: (x / y).to_string() }
}

/// `BigInt`'s `%`, which panics on a zero divisor: the remainder of the
/// division rounded toward zero, with the dividend's sign.
#[verifier::external_body]
fn big_rem(a: &BigNum, b: &BigNum) -> (r: BigNum)
    requires
        b.value() != 0,
    ensures
        r.value() == trunc_rem(a.value(), b.value()),
{
    let x = BigInt::parse_bytes(a.text.as_bytes(), 10).unwrap();
    let y = BigInt::parse_bytes(b.text.as_bytes(), 10).unwrap();
    BigNum { text: (x % y).to_string() }
}

/// `BigInt`'s `<`: the order of the integers.
#[verifier::external_body]
fn big_lt(a: &BigNum, b: &BigNum) -> (r: bool)
    ensures
        r == (a.value() < b.value()),
{
    let x = BigInt::parse_bytes(a.text.as_bytes(), 10).unwrap();
    let y = BigInt::parse_bytes(b.text.as_bytes(), 10).unwrap();
    x < y
}

/// `BigInt`'s `==`: equality of the integers.
#[verifier::external_body]
fn big_eq(a: &BigNum, b: &BigNum) -> (r: bool)
    ensures
        r == (a.value() == b.value()),
{
    let x = BigInt::parse_bytes(a.text.as_bytes(), 10).unwrap();
    let y = BigInt::parse_bytes(b.text.as_bytes(), 10).unwrap();
    x == y
}

/// An integer together with its width.
#[derive(Debug, PartialEq, Eq, Hash)]
pub enum IntegerValue {
    I8(i8),
    I16(i16),
    I32(i32),
    I64(i64),
    I128(i128),
    BigInt(BigNum),
}

/// The mathematical content of an `IntegerValue`.
pub struct IntView {
    pub width: IntegerType,
    pub value: int,
}

impl View for IntegerValue {
    type V = IntView;

    open spec fn view(&self) -> IntView {
        match self {
            IntegerValue::I8(v) => IntView { width: IntegerType::I8, value: *v as int },
            IntegerValue::I16(v) => IntView { width: IntegerType::I16, value: *v as int },
            IntegerValue::I32(v) => IntView { width: IntegerType::I32, value: *v as int },
            IntegerValue::I64(v) => IntView { width: IntegerType::I64, value: *v as int },
            IntegerValue::I128(v) => IntView { width: IntegerType::I128, value: *v as int },
            IntegerValue::BigInt(b) => IntView { width: IntegerType::BigInt, value: b.value() },
        }
    }
}

impl IntView {
    /// The value lies in the range of its width, as it does for the view
    /// of every `IntegerValue`.
    pub open spec fn in_range(self) -> bool {
        self.width.holds(self.value)
    }
}

/// The view of a result: the value's view, or the message's characters.
pub open spec fn result_view(r: Result<IntegerValue, String>) -> Result<IntView, Seq<char>> {
    match r {
        Ok(v) => Ok(v@),
        Err(e) => Err(e@),
    }
}

/// `Value V out of range for W`.
pub open spec fn range_text(shown: Seq<char>, w: IntegerType) -> Seq<char> {
    "Value "@ + shown + " out of range for "@ + w.name()
}

/// `Op overflow for W: A sym B`.
pub open spec fn overflow_text(
    op: Seq<char>,
    w: IntegerType,
    a: int,
    sym: Seq<char>,
    b: int,
) -> Seq<char> {
    op + " overflow for "@ + w.name() + ": "@ + decimal_text(a) + sym + decimal_text(b)
}

/// A value of width `w` from a decimal numeral. A fixed width takes an
/// optional sign and digits, and the number must lie in its range;
/// `BigInt` takes what `big_literal` accepts.
pub open spec fn from_string_spec(s: Seq<char>, w: IntegerType) -> Result<IntView, Seq<char>> {
    if w is BigInt {
        match big_literal(s) {
            Some(v) => Ok(IntView { width: w, value: v }),
            None => Err("Invalid bigint value: "@ + s),
        }
    } else {
        match signed_literal(s) {
            Some(v) => if w.holds(v) {
                Ok(IntView { width: w, value: v })
            } else {
                Err(range_text(s, w))
            },
            None => Err(range_text(s, w)),
        }
    }
}

/// The value at another width: it must lie in the target's range.
pub open spec fn cast_spec(a: IntView, w: IntegerType) -> Result<IntView, Seq<char>> {
    if w.holds(a.value) {
        Ok(IntView { width: w, value: a.value })
    } else {
        Err(range_text(decimal_text(a.value), w))
    }
}

/// Checked addition at the wider of the two widths.
pub open spec fn add_spec(a: IntView, b: IntView) -> Result<IntView, Seq<char>> {
    let w = a.width.wider(b.width);
    if w.holds(a.value + b.value) {
        Ok(IntView { width: w, value: a.value + b.value })
    } else {
        Err(overflow_text("Addition"@, w, a.value, " + "@, b.value))
    }
}

/// Checked subtraction at the wider of the two widths.
pub open spec fn sub_spec(a: IntView, b: IntView) -> Result<IntView, Seq<char>> {
    let w = a.width.wider(b.width);
    if w.holds(a.value - b.value) {
        Ok(IntView { width: w, value: a.value - b.value })
    } else {
        Err(overflow_text("Subtraction"@, w, a.value, " - "@, b.value))
    }
}

/// Multiplication at the wider of the two widths; a product that the
/// width cannot hold becomes a `BigInt`. It never fails.
pub open spec fn mul_spec(a: IntView, b: IntView) -> Result<IntView, Seq<char>> {
    let w = a.width.wider(b.width);
    if w.holds(a.value * b.value) {
        Ok(IntView { width: w, value: a.value * b.value })
    } else {
        Ok(IntView { width: IntegerType::BigInt, value: a.value * b.value })
    }
}

/// Checked division, rounded toward zero, at the wider of the two widths.
pub open spec fn div_spec(a: IntView, b: IntView) -> Result<IntView, Seq<char>> {
    let w = a.width.wider(b.width);
    if b.value == 0 {
        Err("Division by zero"@)
    } else if w.holds(trunc_div(a.value, b.value)) {
        Ok(IntView { width: w, value: trunc_div(a.value, b.value) })
    } else {
        Err(overflow_text("Division"@, w, a.value, " / "@, b.value))
    }
}

/// Checked remainder at the wider of the two widths. At a fixed width the
/// least value has no remainder by -1, as its quotient does not exist.
pub open spec fn rem_spec(a: IntView, b: IntView) -> Result<IntView, Seq<char>> {
    let w = a.width.wider(b.width);
    if b.value == 0 {
        Err("Modulo by zero"@)
    } else if !(w is BigInt) && a.value == w.min_value() && b.value == -1 {
        Err(overflow_text("Modulo"@, w, a.value, " % "@, b.value))
    } else {
        Ok(IntView { width: w, value: trunc_rem(a.value, b.value) })
    }
}

/// The width of the result of a binary operation is the wider of the
/// operands' widths, except that a product which that width cannot hold
/// is a `BigInt`; and every result lies in the range of its width.
pub proof fn lemma_result_width(a: IntView, b: IntView)
    requires
        a.in_range(),
        b.in_range(),
    ensures
        add_spec(a, b) matches Ok(r) ==> r.width == a.width.wider(b.width) && r.in_range(),
        sub_spec(a, b) matches Ok(r) ==> r.width == a.width.wider(b.width) && r.in_range(),
        div_spec(a, b) matches Ok(r) ==> r.width == a.width.wider(b.width) && r.in_range(),
        rem_spec(a, b) matches Ok(r) ==> r.width == a.width.wider(b.width) && r.in_range(),
        mul_spec(a, b) is Ok,
        mul_spec(a, b) matches Ok(r) ==> r.in_range() && r.value == a.value * b.value && r.width
            == if a.width.wider(b.width).holds(a.value * b.value) {
            a.width.wider(b.width)
        } else {
            IntegerType::BigInt
        },
        a.width.wider(b.width).rank() >= a.width.rank(),
        a.width.wider(b.width).rank() >= b.width.rank(),
        a.width.wider(b.width) == a.width || a.width.wider(b.width) == b.width,
{
    let w = a.width.wider(b.width);
    if b.value != 0 && !(w is BigInt) {
        lemma_trunc_rem_bound(a.value, b.value);
        assert(w.holds(a.value));
        assert(w.holds(b.value));
    }
}

/// The remainder is smaller in magnitude than the divisor and no larger
/// than the dividend.
pub proof fn lemma_trunc_rem_bound(x: int, d: int)
    requires
        d != 0,
    ensures
        x >= 0 ==> 0 <= trunc_rem(x, d) <= x,
        x < 0 ==> x <= trunc_rem(x, d) <= 0,
        d > 0 ==> -d < trunc_rem(x, d) < d,
        d < 0 ==> d < trunc_rem(x, d) < -d,
{
    let ax = if x >= 0 { x } else { -x };
    let ad = if d > 0 { d } else { -d };
    assert(0 <= ax % ad < ad) by (nonlinear_arith)
        requires
            ad > 0,
    ;
    assert(ax % ad <= ax) by (nonlinear_arith)
        requires
            ad > 0,
            ax >= 0,
    {
        assert(ax == ad * (ax / ad) + ax % ad);
        assert(ax / ad >= 0);
        assert(ad * (ax / ad) >= 0);
    }
}

impl Clone for IntegerValue {
    fn clone(&self) -> (r: Self)
        ensures
            r == *self,
    {
        match self {
            IntegerValue::I8(v) => IntegerValue::I8(*v),
            IntegerValue::I16(v) => IntegerValue::I16(*v),
            IntegerValue::I32(v) => IntegerValue::I32(*v),
            IntegerValue::I64(v) => IntegerValue::I64(*v),
            IntegerValue::I128(v) => IntegerValue::I128(*v),
            IntegerValue::BigInt(b) => IntegerValue::BigInt(b.clone()),
        }
    }
}

/// The machine integer that a signed decimal numeral denotes, where an
/// `i128` can hold it.
pub fn parse_i128(s: &str) -> (r: Option<i128>)
    ensures
        r == match signed_literal(s@) {
            Some(v) => if i128::MIN <= v <= i128::MAX {
                Some(v as i128)
            } else {
                None
            },
            None => None,
        },
{
    let chars = chars_of(s);
    let n = chars.len();
    let negative = n > 0 && chars[0] == '-';
    let start: usize = if n > 0 && (chars[0] == '-' || chars[0] == '+') {
        1
    } else {
        0
    };
    if start == n {
        return None;
    }
    let ghost body = unsigned_part(s@);
    assert(body =~= s@.subrange(start as int, n as int));
    // The magnitude is gathered as a negative number, so that the least
    // value, which has no positive counterpart, is reached without overflow.
    let mut acc: i128 = 0;
    let mut i: usize = start;
    while i < n
        invariant
            start <= i <= n,
            start < n,
            n == chars.len(),
            chars@ == s@,
            body == unsigned_part(s@),
            body == s@.subrange(start as int, n as int),
            all_digits(body.subrange(0, i - start)),
            acc == -(digits_value(body.subrange(0, i - start)) as int),
        decreases n - i,
    {
        let c = chars[i];
        if !('0' <= c && c <= '9') {
            proof {
                assert(body[i - start] == c);
                assert(!all_digits(body));
            }
            return None;
        }
        let d: i128 = digit_of(c);
        proof {
            let p = body.subrange(0, i - start);
            assert(p.push(c) =~= body.subrange(0, i - start + 1));
            lemma_digits_value_push(p, c);
            lemma_digits_prefix_rest(body, i - start + 1);
            assert(all_digits(p.push(c)));
        }
        let next = match acc.checked_mul(10) {
            Some(m) => m.checked_sub(d),
            None => None,
        };
        match next {
            Some(v) => {
                acc = v;
            },
            None => {
                proof {
                    let whole = digits_value(body) as int;
                    let part = digits_value(body.subrange(0, i - start + 1)) as int;
                    assert(part == -(acc as int) * 10 + d);
                    assert(-part < i128::MIN);
                    assert(all_digits(body) ==> part <= whole);
                }
                return None;
            },
        }
        i = i + 1;
    }
    proof {
        assert(body.subrange(0, n - start) =~= body);
    }
    if negative {
        Some(acc)
    } else {
        let zero: i128 = 0;
        zero.checked_sub(acc)
    }
}

/// The value of an ASCII decimal digit.
fn digit_of(c: char) -> (d: i128)
    requires
        is_digit(c),
    ensures
        d == digit_value(c),
        0 <= d <= 9,
{
    if c == '0' {
        0
    } else if c == '1' {
        1
    } else if c == '2' {
        2
    } else if c == '3' {
        3
    } else if c == '4' {
        4
    } else if c == '5' {
        5
    } else if c == '6' {
        6
    } else if c == '7' {
        7
    } else if c == '8' {
        8
    } else {
        9
    }
}

/// A prefix of a string of digits denotes at most the number that the
/// whole string denotes: once a prefix is too large, the whole is.
pub proof fn lemma_digits_prefix_rest(s: Seq<char>, k: int)
    requires
        0 <= k <= s.len(),
    ensures
        digits_value(s.subrange(0, k)) <= digits_value(s) || !all_digits(s),
    decreases s.len() - k,
{
    if k == s.len() {
        assert(s.subrange(0, k) =~= s);
    } else if all_digits(s) {
        lemma_digits_prefix_rest(s, k + 1);
        let p = s.subrange(0, k);
        assert(p.push(s[k]) =~= s.subrange(0, k + 1));
        lemma_digits_value_push(p, s[k]);
        assert(is_digit(s[k]));
    }
}

impl IntegerValue {
    /// A value of width `int_type` from a decimal numeral.
    pub fn from_string(s: &str, int_type: IntegerType) -> (r: Result<IntegerValue, String>)
        ensures
            result_view(r) == from_string_spec(s@, int_type),
    {
        match int_type {
            IntegerType::BigInt => match big_parse(s) {
                Some(b) => Ok(IntegerValue::BigInt(b)),
                None => {
                    let mut e = String::from_str("Invalid bigint value: ");
                    e.append(s);
                    Err(e)
                },
            },
            _ => {
                match parse_i128(s) {
                    Some(v) => {
                        if int_type.fits(v) {
                            return Ok(IntegerValue::of_width(int_type, v));
                        }
                    },
                    None => {},
                }
                Err(range_message(s, int_type))
            },
        }
    }

    /// The value `v` at the fixed width `w`.
    pub fn of_width(w: IntegerType, v: i128) -> (r: IntegerValue)
        requires
            !(w is BigInt),
            w.holds(v as int),
        ensures
            r@ == (IntView { width: w, value: v as int }),
    {
        match w {
            IntegerType::I8 => IntegerValue::I8(v as i8),
            IntegerType::I16 => IntegerValue::I16(v as i16),
            IntegerType::I32 => IntegerValue::I32(v as i32),
            IntegerType::I64 => IntegerValue::I64(v as i64),
            _ => IntegerValue::I128(v),
        }
    }

    /// The width.
    pub fn get_type(&self) -> (t: IntegerType)
        ensures
            t == self@.width,
    {
        match self {
            IntegerValue::I8(_) => IntegerType::I8,
            IntegerValue::I16(_) => IntegerType::I16,
            IntegerValue::I32(_) => IntegerType::I32,
            IntegerValue::I64(_) => IntegerType::I64,
            IntegerValue::I128(_) => IntegerType::I128,
            IntegerValue::BigInt(_) => IntegerType::BigInt,
        }
    }

    /// The value as a machine integer, where its width is fixed.
    fn small(&self) -> (r: Option<i128>)
        ensures
            r == if self@.width is BigInt {
                None
            } else {
                Some(self@.value as i128)
            },
            !(self@.width is BigInt) ==> self@.in_range(),
    {
        match self {
            IntegerValue::I8(v) => Some(*v as i128),
            IntegerValue::I16(v) => Some(*v as i128),
            IntegerValue::I32(v) => Some(*v as i128),
            IntegerValue::I64(v) => Some(*v as i128),
            IntegerValue::I128(v) => Some(*v),
            IntegerValue::BigInt(_) => None,
        }
    }

    /// The value as a `BigNum`.
    fn big(&self) -> (r: BigNum)
        ensures
            r.value() == self@.value,
    {
        match self {
            IntegerValue::I8(v) => big_from_i128(*v as i128),
            IntegerValue::I16(v) => big_from_i128(*v as i128),
            IntegerValue::I32(v) => big_from_i128(*v as i128),
            IntegerValue::I64(v) => big_from_i128(*v as i128),
            IntegerValue::I128(v) => big_from_i128(*v),
            IntegerValue::BigInt(b) => b.clone(),
        }
    }

    /// The value as a machine integer, where an `i128` can hold it.
    fn machine(&self) -> (r: Option<i128>)
        ensures
            r == if i128::MIN <= self@.value <= i128::MAX {
                Some(self@.value as i128)
            } else {
                None
            },
    {
        match self {
            IntegerValue::BigInt(b) => big_to_i128(b),
            _ => self.small(),
        }
    }

    /// The decimal form of the value.
    pub fn to_string(&self) -> (s: String)
        ensures
            s@ == decimal_text(self@.value),
    {
        match self {
            IntegerValue::BigInt(b) => b.to_string(),
            _ => match self.small() {
                Some(v) => i128_text(v),
                None => String::new(),
            },
        }
    }

    /// The value as a machine integer in the range of the fixed width `w`.
    fn narrow(&self, w: IntegerType) -> (r: Result<i128, String>)
        requires
            !(w is BigInt),
        ensures
            match r {
                Ok(v) => cast_spec(self@, w) is Ok && v == self@.value,
                Err(e) => cast_spec(self@, w) == Err::<IntView, Seq<char>>(e@),
            },
    {
        match self.machine() {
            Some(v) => {
                if w.fits(v) {
                    return Ok(v);
                }
            },
            None => {},
        }
        let shown = self.to_string();
        Err(range_message(shown.as_str(), w))
    }

    /// The value as an `i8`, or why it is none.
    pub fn to_i8(&self) -> (r: Result<i8, String>)
        ensures
            match r {
                Ok(v) => IntegerType::I8.holds(self@.value) && v == self@.value,
                Err(e) => cast_spec(self@, IntegerType::I8) == Err::<IntView, Seq<char>>(e@),
            },
    {
        match self.narrow(IntegerType::I8) {
            Ok(v) => Ok(v as i8),
            Err(e) => Err(e),
        }
    }

    /// The value as an `i16`, or why it is none.
    pub fn to_i16(&self) -> (r: Result<i16, String>)
        ensures
            match r {
                Ok(v) => IntegerType::I16.holds(self@.value) && v == self@.value,
                Err(e) => cast_spec(self@, IntegerType::I16) == Err::<IntView, Seq<char>>(e@),
            },
    {
        match self.narrow(IntegerType::I16) {
            Ok(v) => Ok(v as i16),
            Err(e) => Err(e),
        }
    }

    /// The value as an `i32`, or why it is none.
    pub fn to_i32(&self) -> (r: Result<i32, String>)
        ensures
            match r {
                Ok(v) => IntegerType::I32.holds(self@.value) && v == self@.value,
                Err(e) => cast_spec(self@, IntegerType::I32) == Err::<IntView, Seq<char>>(e@),
            },
    {
        match self.narrow(IntegerType::I32) {
            Ok(v) => Ok(v as i32),
            Err(e) => Err(e),
        }
    }

    /// The value as an `i64`, or why it is none.
    pub fn to_i64(&self) -> (r: Result<i64, String>)
        ensures
            match r {
                Ok(v) => IntegerType::I64.holds(self@.value) && v == self@.value,
                Err(e) => cast_spec(self@, IntegerType::I64) == Err::<IntView, Seq<char>>(e@),
            },
    {
        match self.narrow(IntegerType::I64) {
            Ok(v) => Ok(v as i64),
            Err(e) => Err(e),
        }
    }

    /// The value as an `i128`, or why it is none.
    pub fn to_i128(&self) -> (r: Result<i128, String>)
        ensures
            match r {
                Ok(v) => IntegerType::I128.holds(self@.value) && v == self@.value,
                Err(e) => cast_spec(self@, IntegerType::I128) == Err::<IntView, Seq<char>>(e@),
            },
    {
        self.narrow(IntegerType::I128)
    }

    /// The same integer as a `BigInt`.
    pub fn to_bigint(&self) -> (r: IntegerValue)
        ensures
            r@ == (IntView { width: IntegerType::BigInt, value: self@.value }),
    {
        IntegerValue::BigInt(self.big())
    }

    /// The wider of the two values' widths.
    pub fn promote_type(a: &IntegerValue, b: &IntegerValue) -> (t: IntegerType)
        ensures
            t == a@.width.wider(b@.width),
    {
        let a_type = a.get_type();
        let b_type = b.get_type();
        if type_rank(a_type) > type_rank(b_type) {
            a_type
        } else {
            b_type
        }
    }

    /// The value at the width `target_type`, where that width holds it.
    pub fn cast_to(&self, target_type: &IntegerType) -> (r: Result<IntegerValue, String>)
        ensures
            result_view(r) == cast_spec(self@, *target_type),
    {
        match target_type {
            IntegerType::BigInt => Ok(self.to_bigint()),
            _ => match self.narrow(*target_type) {
                Ok(v) => Ok(IntegerValue::of_width(*target_type, v)),
                Err(e) => Err(e),
            },
        }
    }

    /// Checked addition at the wider width.
    pub fn add(self, rhs: IntegerValue) -> (r: Result<IntegerValue, String>)
        ensures
            result_view(r) == add_spec(self@, rhs@),
    {
        let w = IntegerValue::promote_type(&self, &rhs);
        match (self.small(), rhs.small()) {
            (Some(x), Some(y)) => {
                match x.checked_add(y) {
                    Some(v) => {
                        if w.fits(v) {
                            return Ok(IntegerValue::of_width(w, v));
                        }
                    },
                    None => {},
                }
                Err(overflow_message("Addition", w, x, " + ", y))
            },
            _ => Ok(IntegerValue::BigInt(big_add(&self.big(), &rhs.big()))),
        }
    }

    /// Checked subtraction at the wider width.
    pub fn sub(self, rhs: IntegerValue) -> (r: Result<IntegerValue, String>)
        ensures
            result_view(r) == sub_spec(self@, rhs@),
    {
        let w = IntegerValue::promote_type(&self, &rhs);
        match (self.small(), rhs.small()) {
            (Some(x), Some(y)) => {
                match x.checked_sub(y) {
                    Some(v) => {
                        if w.fits(v) {
                            return Ok(IntegerValue::of_width(w, v));
                        }
                    },
                    None => {},
                }
                Err(overflow_message("Subtraction", w, x, " - ", y))
            },
            _ => Ok(IntegerValue::BigInt(big_sub(&self.big(), &rhs.big()))),
        }
    }

    /// Multiplication at the wider width, widened to `BigInt` where that
    /// width cannot hold the product.
    pub fn mul(self, rhs: IntegerValue) -> (r: Result<IntegerValue, String>)
        ensures
            result_view(r) == mul_spec(self@, rhs@),
    {
        let w = IntegerValue::promote_type(&self, &rhs);
        match (self.small(), rhs.small()) {
            (Some(x), Some(y)) => {
                match x.checked_mul(y) {
                    Some(v) => {
                        if w.fits(v) {
                            return Ok(IntegerValue::of_width(w, v));
                        }
                    },
                    None => {},
                }
            },
            _ => {},
        }
        Ok(IntegerValue::BigInt(big_mul(&self.big(), &rhs.big())))
    }

    /// Checked division, rounded toward zero, at the wider width.
    pub fn div(self, rhs: IntegerValue) -> (r: Result<IntegerValue, String>)
        ensures
            result_view(r) == div_spec(self@, rhs@),
    {
        let w = IntegerValue::promote_type(&self, &rhs);
        match (self.small(), rhs.small()) {
            (Some(x), Some(y)) => {
                if y == 0 {
                    return Err(String::from_str("Division by zero"));
                }
                match x.checked_div(y) {
                    Some(v) => {
                        if w.fits(v) {
                            return Ok(IntegerValue::of_width(w, v));
                        }
                    },
                    None => {},
                }
                Err(overflow_message("Division", w, x, " / ", y))
            },
            _ => {
                let b = rhs.big();
                if big_eq(&b, &big_from_i128(0)) {
                    return Err(String::from_str("Division by zero"));
                }
                Ok(IntegerValue::BigInt(big_div(&self.big(), &b)))
            },
        }
    }

    /// Checked remainder at the wider width.
    pub fn rem(self, rhs: IntegerValue) -> (r: Result<IntegerValue, String>)
        ensures
            result_view(r) == rem_spec(self@, rhs@),
    {
        let w = IntegerValue::promote_type(&self, &rhs);
        match (self.small(), rhs.small()) {
            (Some(x), Some(y)) => {
                if y == 0 {
                    return Err(String::from_str("Modulo by zero"));
                }
                if y == -1 && x == w.least() {
                    return Err(overflow_message("Modulo", w, x, " % ", y));
                }
                match x.checked_rem(y) {
                    Some(v) => {
                        proof {
                            lemma_trunc_rem_bound(x as int, y as int);
                        }
                        Ok(IntegerValue::of_width(w, v))
                    },
                    None => Err(overflow_message("Modulo", w, x, " % ", y)),
                }
            },
            _ => {
                let b = rhs.big();
                if big_eq(&b, &big_from_i128(0)) {
                    return Err(String::from_str("Modulo by zero"));
                }
                Ok(IntegerValue::BigInt(big_rem(&self.big(), &b)))
            },
        }
    }

    /// Whether the value is zero.
    pub fn is_zero(&self) -> (r: bool)
        ensures
            r == (self@.value == 0),
    {
        match self {
            IntegerValue::BigInt(b) => big_eq(b, &big_from_i128(0)),
            _ => match self.small() {
                Some(v) => v == 0,
                None => false,
            },
        }
    }

    /// `self < other` as integers, whatever the widths.
    pub fn lt(&self, other: &IntegerValue) -> (r: bool)
        ensures
            r == (self@.value < other@.value),
    {
        match (self.small(), other.small()) {
            (Some(x), Some(y)) => x < y,
            _ => big_lt(&self.big(), &other.big()),
        }
    }

    /// `self <= other` as integers, whatever the widths.
    pub fn le(&self, other: &IntegerValue) -> (r: bool)
        ensures
            r == (self@.value <= other@.value),
    {
        !other.lt(self)
    }

    /// `self > other` as integers, whatever the widths.
    pub fn gt(&self, other: &IntegerValue) -> (r: bool)
        ensures
            r == (self@.value > other@.value),
    {
        other.lt(self)
    }

    /// `self >= other` as integers, whatever the widths.
    pub fn ge(&self, other: &IntegerValue) -> (r: bool)
        ensures
            r == (self@.value >= other@.value),
    {
        !self.lt(other)
    }

    /// The same width and the same integer.
    pub fn same(&self, other: &IntegerValue) -> (r: bool)
        ensures
            r == (self@ == other@),
    {
        if !(self.get_type() == other.get_type()) {
            return false;
        }
        match (self.small(), other.small()) {
            (Some(x), Some(y)) => x == y,
            _ => big_eq(&self.big(), &other.big()),
        }
    }
}

/// `a + b` is `a.add(b)`.
impl core::ops::Add for IntegerValue {
    type Output = Result<IntegerValue, String>;

    fn add(self, rhs: IntegerValue) -> (r: Result<IntegerValue, String>)
        ensures
            result_view(r) == self::add_spec(self@, rhs@),
    {
        IntegerValue::add(self, rhs)
    }
}

/// The operator promises what the method `add` promises, over the views
/// of the operands and of the result; no more is said here.
impl vstd::std_specs::ops::AddSpecImpl for IntegerValue {
    open spec fn obeys_add_spec() -> bool {
        false
    }

    open spec fn add_req(self, rhs: IntegerValue) -> bool {
        true
    }

    open spec fn add_spec(self, rhs: IntegerValue) -> Result<IntegerValue, String> {
        arbitrary()
    }
}

/// `a - b` is `a.sub(b)`.
impl core::ops::Sub for IntegerValue {
    type Output = Result<IntegerValue, String>;

    fn sub(self, rhs: IntegerValue) -> (r: Result<IntegerValue, String>)
        ensures
            result_view(r) == self::sub_spec(self@, rhs@),
    {
        IntegerValue::sub(self, rhs)
    }
}

/// The operator promises what the method `sub` promises, over the views
/// of the operands and of the result; no more is said here.
impl vstd::std_specs::ops::SubSpecImpl for IntegerValue {
    open spec fn obeys_sub_spec() -> bool {
        false
    }

    open spec fn sub_req(self, rhs: IntegerValue) -> bool {
        true
    }

    open spec fn sub_spec(self, rhs: IntegerValue) -> Result<IntegerValue, String> {
        arbitrary()
    }
}

/// `a * b` is `a.mul(b)`.
impl core::ops::Mul for IntegerValue {
    type Output = Result<IntegerValue, String>;

    fn mul(self, rhs: IntegerValue) -> (r: Result<IntegerValue, String>)
        ensures
            result_view(r) == self::mul_spec(self@, rhs@),
    {
        IntegerValue::mul(self, rhs)
    }
}

/// The operator promises what the method `mul` promises, over the views
/// of the operands and of the result; no more is said here.
impl vstd::std_specs::ops::MulSpecImpl for IntegerValue {
    open spec fn obeys_mul_spec() -> bool {
        false
    }

    open spec fn mul_req(self, rhs: IntegerValue) -> bool {
        true
    }

    open spec fn mul_spec(self, rhs: IntegerValue) -> Result<IntegerValue, String> {
        arbitrary()
    }
}

/// `a / b` is `a.div(b)`.
impl core::ops::Div for IntegerValue {
    type Output = Result<IntegerValue, String>;

    fn div(self, rhs: IntegerValue) -> (r: Result<IntegerValue, String>)
        ensures
            result_view(r) == self::div_spec(self@, rhs@),
    {
        IntegerValue::div(self, rhs)
    }
}

/// The operator promises what the method `div` promises, over the views
/// of the operands and of the result; no more is said here.
impl vstd::std_specs::ops::DivSpecImpl for IntegerValue {
    open spec fn obeys_div_spec() -> bool {
        false
    }

    open spec fn div_req(self, rhs: IntegerValue) -> bool {
        true
    }

    open spec fn div_spec(self, rhs: IntegerValue) -> Result<IntegerValue, String> {
        arbitrary()
    }
}

/// `a % b` is `a.rem(b)`.
impl core::ops::Rem for IntegerValue {
    type Output = Result<IntegerValue, String>;

    fn rem(self, rhs: IntegerValue) -> (r: Result<IntegerValue, String>)
        ensures
            result_view(r) == self::rem_spec(self@, rhs@),
    {
        IntegerValue::rem(self, rhs)
    }
}

/// The operator promises what the method `rem` promises, over the views
/// of the operands and of the result; no more is said here.
impl vstd::std_specs::ops::RemSpecImpl for IntegerValue {
    open spec fn obeys_rem_spec() -> bool {
        false
    }

    open spec fn rem_req(self, rhs: IntegerValue) -> bool {
        true
    }

    open spec fn rem_spec(self, rhs: IntegerValue) -> Result<IntegerValue, String> {
        arbitrary()
    }
}

/// Position of a width in the promotion order.
fn type_rank(t: IntegerType) -> (r: u8)
    ensures
        r == t.rank(),
{
    match t {
        IntegerType::I8 => 0,
        IntegerType::I16 => 1,
        IntegerType::I32 => 2,
        IntegerType::I64 => 3,
        IntegerType::I128 => 4,
        IntegerType::BigInt => 5,
    }
}

/// The message for a value that a width cannot hold.
fn range_message(shown: &str, w: IntegerType) -> (e: String)
    ensures
        e@ == range_text(shown@, w),
{
    let mut e = String::from_str("Value ");
    e.append(shown);
    e.append(" out of range for ");
    e.append(w.as_str());
    e
}

/// The message for an operation whose result the width cannot hold.
fn overflow_message(op: &str, w: IntegerType, a: i128, sym: &str, b: i128) -> (e: String)
    ensures
        e@ == overflow_text(op@, w, a as int, sym@, b as int),
{
    let mut e = String::from_str(op);
    e.append(" overflow for ");
    e.append(w.as_str());
    e.append(": ");
    e.append(i128_text(a).as_str());
    e.append(sym);
    e.append(i128_text(b).as_str());
    e
}

/// A piece of text as a run-time value.
#[derive(Debug, PartialEq, Eq, Hash)]
pub struct StringValue {
    value: String,
}

impl View for StringValue {
    type V = Seq<char>;

    closed spec fn view(&self) -> Seq<char> {
        self.value@
    }
}

impl StringValue {
    /// The value that holds `value`.
    pub fn new(value: String) -> (r: Self)
        ensures
            r@ == value@,
    {
        StringValue { value }
    }

    /// The text.
    pub fn as_str(&self) -> (s: &str)
        ensures
            s@ == self@,
    {
        self.value.as_str()
    }

    /// The length of the text in bytes of UTF-8.
    pub fn len(&self) -> (n: usize)
        ensures
            n == vstd::utf8::encode_utf8(self@).len() as usize,
    {
        self.value.as_str().len()
    }

    /// The text, as it is shown.
    pub fn to_string(&self) -> (s: String)
        ensures
            s@ == self@,
    {
        self.value.clone()
    }
}

impl Clone for StringValue {
    fn clone(&self) -> (r: Self)
        ensures
            r == *self,
    {
        StringValue { value: self.value.clone() }
    }
}

/// A run-time value: an integer or a piece of text.
#[derive(Debug, PartialEq, Eq, Hash)]
pub enum Value {
    Integer(IntegerValue),
    String(StringValue),
}

/// The mathematical content of a `Value`.
pub enum ValueView {
    Integer(IntView),
    String(Seq<char>),
}

impl View for Value {
    type V = ValueView;

    open spec fn view(&self) -> ValueView {
        match self {
            Value::Integer(v) => ValueView::Integer(v@),
            Value::String(s) => ValueView::String(s@),
        }
    }
}

impl DeepView for Value {
    type V = ValueView;

    open spec fn deep_view(&self) -> ValueView {
        self@
    }
}

impl ValueView {
    /// The integer of the given width.
    pub open spec fn integer(width: IntegerType, value: int) -> ValueView {
        ValueView::Integer(IntView { width, value })
    }

    /// The `I64` zero that stands in for a missing operand or variable.
    pub open spec fn zero() -> ValueView {
        ValueView::integer(IntegerType::I64, 0)
    }

    /// The `I64` one or zero that a comparison gives.
    pub open spec fn flag(b: bool) -> ValueView {
        ValueView::integer(
            IntegerType::I64,
            if b {
                1
            } else {
                0
            },
        )
    }

    /// How the value is shown: an integer in decimal, text as it is.
    pub open spec fn shown(self) -> Seq<char> {
        match self {
            ValueView::Integer(v) => decimal_text(v.value),
            ValueView::String(s) => s,
        }
    }

    /// A value counts as false when it is the integer zero, of any width,
    /// or a piece of text.
    pub open spec fn is_false(self) -> bool {
        match self {
            ValueView::Integer(v) => v.value == 0,
            ValueView::String(_) => true,
        }
    }

    /// Integers lie in the range of their width.
    pub open spec fn in_range(self) -> bool {
        match self {
            ValueView::Integer(v) => v.in_range(),
            ValueView::String(_) => true,
        }
    }
}

impl Clone for Value {
    fn clone(&self) -> (r: Self)
        ensures
            r == *self,
    {
        match self {
            Value::Integer(v) => Value::Integer(v.clone()),
            Value::String(s) => Value::String(s.clone()),
        }
    }
}

impl Value {
    /// The `I64` zero.
    pub fn zero() -> (r: Value)
        ensures
            r@ == ValueView::zero(),
    {
        Value::Integer(IntegerValue::I64(0))
    }

    /// The `I64` one for `true`, zero for `false`.
    pub fn flag(b: bool) -> (r: Value)
        ensures
            r@ == ValueView::flag(b),
    {
        if b {
            Value::Integer(IntegerValue::I64(1))
        } else {
            Value::Integer(IntegerValue::I64(0))
        }
    }

    /// How the value is shown: an integer in decimal, text as it is.
    pub fn to_string(&self) -> (s: String)
        ensures
            s@ == self@.shown(),
    {
        match self {
            Value::Integer(v) => v.to_string(),
            Value::String(s) => s.to_string(),
        }
    }

    /// Whether a conditional jump takes the value for false.
    pub fn is_false(&self) -> (r: bool)
        ensures
            r == self@.is_false(),
    {
        match self {
            Value::Integer(v) => v.is_zero(),
            Value::String(_) => true,
        }
    }

    /// The same kind of value with the same content; for integers, the
    /// same width too.
    pub fn same(&self, other: &Value) -> (r: bool)
        ensures
            r == (self@ == other@),
    {
        match (self, other) {
            (Value::Integer(a), Value::Integer(b)) => a.same(b),
            (Value::String(a), Value::String(b)) => a.value == b.value,
            _ => false,
        }
    }

    /// Every integer in a value lies in the range of its width.
    pub proof fn lemma_in_range(self)
        ensures
            self@.in_range(),
    {
        match self {
            Value::Integer(v) => {
                v.lemma_in_range();
            },
            Value::String(_) => {},
        }
    }
}

impl IntegerValue {
    /// Every value lies in the range of its width.
    pub proof fn lemma_in_range(self)
        ensures
            self@.in_range(),
    {
    }
}

} // verus!
