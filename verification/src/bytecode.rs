//! The bytecode: its instructions, the lowering of the syntax tree to
//! them, and the cache of compiled functions.

use crate::ast::{
    lemma_block_view, lemma_call_view, lemma_func_def_view, BinOpType, Expr, ExprView, Program,
    ProgramView, Stmt, StmtView,
};
use crate::machine::{FunctionView, ProgramCode};
use crate::names::{contains_name, has_name, names_view, NameMap};
use crate::types::{
    add_spec, mul_spec, rem_spec, sub_spec, IntView, IntegerType, IntegerValue, Value, ValueView,
};
pub use crate::interpreter::{execute_bytecode, BytecodeInterpreter};
use vstd::prelude::*;
use vstd::string::*;

verus! {

/// An instruction of the stack machine. A jump's offset counts from the
/// instruction that follows the jump.
#[derive(Debug, PartialEq, Eq)]
pub enum Bytecode {
    /// Pushes a constant.
    LoadConst(Value),
    /// Pushes the value of a variable.
    LoadVar(String),
    /// Pops a value into a variable.
    StoreVar(String),
    Add,
    Sub,
    Mul,
    Mod,
    Le,
    Lt,
    Gt,
    Ge,
    Eq,
    /// Loads a variable into a register and pushes it.
    LoadReg(u8, String),
    /// Stores a register into a variable.
    StoreReg(String, u8),
    /// Adds the second register to the first and pushes the sum.
    AddReg(u8, u8),
    /// Subtracts the second register from the first and pushes the
    /// difference.
    SubReg(u8, u8),
    /// Multiplies the first register by the second and pushes the product.
    MulReg(u8, u8),
    /// Jumps by the offset.
    Jump(i32),
    /// Pops a value and jumps by the offset if it counts as false.
    JumpIfFalse(i32),
    /// Calls a function and pushes what it returns.
    Call(String),
    /// Calls a function in place of the running one.
    TailCall(String),
    /// Returns the value on top of the stack.
    Return,
    /// Pops a value and appends it to the output.
    Out,
    /// A function definition: its name, its parameters and its code.
    FuncDef(String, String, Vec<Bytecode>),
}

/// The mathematical content of an instruction.
pub enum Instr {
    LoadConst(ValueView),
    LoadVar(Seq<char>),
    StoreVar(Seq<char>),
    Add,
    Sub,
    Mul,
    Mod,
    Le,
    Lt,
    Gt,
    Ge,
    Eq,
    LoadReg(u8, Seq<char>),
    StoreReg(Seq<char>, u8),
    AddReg(u8, u8),
    SubReg(u8, u8),
    MulReg(u8, u8),
    Jump(i32),
    JumpIfFalse(i32),
    Call(Seq<char>),
    TailCall(Seq<char>),
    Return,
    Out,
    FuncDef(Seq<char>, Seq<char>, Seq<Instr>),
}

/// The content of an instruction.
pub open spec fn instr_view(b: Bytecode) -> Instr
    decreases b,
{
    match b {
        Bytecode::LoadConst(v) => Instr::LoadConst(v@),
        Bytecode::LoadVar(name) => Instr::LoadVar(name@),
        Bytecode::StoreVar(name) => Instr::StoreVar(name@),
        Bytecode::Add => Instr::Add,
        Bytecode::Sub => Instr::Sub,
        Bytecode::Mul => Instr::Mul,
        Bytecode::Mod => Instr::Mod,
        Bytecode::Le => Instr::Le,
        Bytecode::Lt => Instr::Lt,
        Bytecode::Gt => Instr::Gt,
        Bytecode::Ge => Instr::Ge,
        Bytecode::Eq => Instr::Eq,
        Bytecode::LoadReg(r, name) => Instr::LoadReg(r, name@),
        Bytecode::StoreReg(name, r) => Instr::StoreReg(name@, r),
        Bytecode::AddReg(a, b) => Instr::AddReg(a, b),
        Bytecode::SubReg(a, b) => Instr::SubReg(a, b),
        Bytecode::MulReg(a, b) => Instr::MulReg(a, b),
        Bytecode::Jump(offset) => Instr::Jump(offset),
        Bytecode::JumpIfFalse(offset) => Instr::JumpIfFalse(offset),
        Bytecode::Call(name) => Instr::Call(name@),
        Bytecode::TailCall(name) => Instr::TailCall(name@),
        Bytecode::Return => Instr::Return,
        Bytecode::Out => Instr::Out,
        Bytecode::FuncDef(name, params, code) => Instr::FuncDef(
            name@,
            params@,
            Seq::new(
                code@.len(),
                |i: int|
                    if 0 <= i < code@.len() {
                        instr_view(code@[i])
                    } else {
                        Instr::Return
                    },
            ),
        ),
    }
}

impl DeepView for Bytecode {
    type V = Instr;

    open spec fn deep_view(&self) -> Instr {
        instr_view(*self)
    }
}

/// The view of a function definition holds the views of its code.
pub proof fn lemma_code_view(name: String, params: String, code: Vec<Bytecode>)
    ensures
        Bytecode::FuncDef(name, params, code).deep_view() == Instr::FuncDef(
            name@,
            params@,
            code.deep_view(),
        ),
{
    assert(Bytecode::FuncDef(name, params, code).deep_view()->FuncDef_2 =~= code.deep_view());
}

impl Clone for Bytecode {
    fn clone(&self) -> (r: Self)
        ensures
            r.deep_view() == self.deep_view(),
    {
        clone_instr(self)
    }
}

/// A copy of an instruction.
pub fn clone_instr(b: &Bytecode) -> (r: Bytecode)
    ensures
        r.deep_view() == b.deep_view(),
    decreases b,
{
    match b {
        Bytecode::LoadConst(v) => Bytecode::LoadConst(v.clone()),
        Bytecode::LoadVar(name) => Bytecode::LoadVar(name.clone()),
        Bytecode::StoreVar(name) => Bytecode::StoreVar(name.clone()),
        Bytecode::Add => Bytecode::Add,
        Bytecode::Sub => Bytecode::Sub,
        Bytecode::Mul => Bytecode::Mul,
        Bytecode::Mod => Bytecode::Mod,
        Bytecode::Le => Bytecode::Le,
        Bytecode::Lt => Bytecode::Lt,
        Bytecode::Gt => Bytecode::Gt,
        Bytecode::Ge => Bytecode::Ge,
        Bytecode::Eq => Bytecode::Eq,
        Bytecode::LoadReg(r, name) => Bytecode::LoadReg(*r, name.clone()),
        Bytecode::StoreReg(name, r) => Bytecode::StoreReg(name.clone(), *r),
        Bytecode::AddReg(x, y) => Bytecode::AddReg(*x, *y),
        Bytecode::SubReg(x, y) => Bytecode::SubReg(*x, *y),
        Bytecode::MulReg(x, y) => Bytecode::MulReg(*x, *y),
        Bytecode::Jump(offset) => Bytecode::Jump(*offset),
        Bytecode::JumpIfFalse(offset) => Bytecode::JumpIfFalse(*offset),
        Bytecode::Call(name) => Bytecode::Call(name.clone()),
        Bytecode::TailCall(name) => Bytecode::TailCall(name.clone()),
        Bytecode::Return => Bytecode::Return,
        Bytecode::Out => Bytecode::Out,
        Bytecode::FuncDef(name, params, code) => {
            let mut copy: Vec<Bytecode> = Vec::new();
            let mut i: usize = 0;
            while i < code.len()
                invariant
                    i <= code@.len(),
                    *b == Bytecode::FuncDef(*name, *params, *code),
                    copy@.len() == i,
                    forall|j: int|
                        0 <= j < i ==> instr_view(#[trigger] copy@[j]) == instr_view(code@[j]),
                decreases code@.len() - i,
            {
                let item = &code[i];
                assert(decreases_to!(*b => b->FuncDef_2));
                assert(decreases_to!(b->FuncDef_2 => b->FuncDef_2@));
                assert(decreases_to!(b->FuncDef_2@ => b->FuncDef_2@[i as int]));
                copy.push(clone_instr(item));
                i = i + 1;
            }
            proof {
                lemma_code_view(*name, *params, *code);
                lemma_code_view(*name, *params, copy);
                assert(copy.deep_view() =~= code.deep_view());
            }
            Bytecode::FuncDef(name.clone(), params.clone(), copy)
        },
    }
}

/// A copy of a sequence of instructions.
pub fn clone_code(code: &Vec<Bytecode>) -> (r: Vec<Bytecode>)
    ensures
        r.deep_view() == code.deep_view(),
{
    let mut copy: Vec<Bytecode> = Vec::new();
    let mut i: usize = 0;
    while i < code.len()
        invariant
            i <= code@.len(),
            copy@.len() == i,
            forall|j: int| 0 <= j < i ==> (#[trigger] copy@[j]).deep_view() == code@[j].deep_view(),
        decreases code@.len() - i,
    {
        copy.push(code[i].clone());
        i = i + 1;
    }
    assert(copy.deep_view() =~= code.deep_view());
    copy
}

/// An offset as an `i32`; one that an `i32` cannot hold becomes the
/// nearest that it can.
pub open spec fn clamp(n: int) -> i32 {
    if n > i32::MAX {
        i32::MAX
    } else if n < i32::MIN {
        i32::MIN
    } else {
        n as i32
    }
}

/// An offset as an `i32`.
fn clamp_offset(n: i128) -> (r: i32)
    ensures
        r == clamp(n as int),
{
    if n > 2147483647 {
        2147483647
    } else if n < -2147483648 {
        -2147483648
    } else {
        n as i32
    }
}

/// The value of an expression that is made of literals alone, where it
/// has one: the arithmetic is that of the integer algebra, and a
/// comparison gives the `I64` one or zero. An expression that mentions a
/// name, or whose arithmetic fails, has none.
pub open spec fn const_value(e: ExprView) -> Option<ValueView>
    decreases e,
{
    match e {
        ExprView::Number(n) => Some(ValueView::Integer(n)),
        ExprView::TypedNumber(n) => Some(ValueView::Integer(n)),
        ExprView::BinOp(left, op, right) => match (const_value(*left), const_value(*right)) {
            (Some(ValueView::Integer(a)), Some(ValueView::Integer(b))) => const_op(a, op, b),
            _ => None,
        },
        _ => None,
    }
}

/// The value of an operator applied to two integers, where it has one.
pub open spec fn const_op(a: IntView, op: BinOpType, b: IntView) -> Option<ValueView> {
    match op {
        BinOpType::Plus => match add_spec(a, b) {
            Ok(v) => Some(ValueView::Integer(v)),
            Err(_) => None,
        },
        BinOpType::Minus => match sub_spec(a, b) {
            Ok(v) => Some(ValueView::Integer(v)),
            Err(_) => None,
        },
        BinOpType::Mul => match mul_spec(a, b) {
            Ok(v) => Some(ValueView::Integer(v)),
            Err(_) => None,
        },
        BinOpType::Mod => match rem_spec(a, b) {
            Ok(v) => Some(ValueView::Integer(v)),
            Err(_) => None,
        },
        BinOpType::Le => Some(ValueView::flag(a.value <= b.value)),
        BinOpType::Lt => Some(ValueView::flag(a.value < b.value)),
        BinOpType::Gt => Some(ValueView::flag(a.value > b.value)),
        BinOpType::Ge => Some(ValueView::flag(a.value >= b.value)),
        BinOpType::Eq => Some(ValueView::flag(a == b)),
    }
}

/// The instruction of a binary operator.
pub open spec fn op_instr(op: BinOpType) -> Instr {
    match op {
        BinOpType::Plus => Instr::Add,
        BinOpType::Minus => Instr::Sub,
        BinOpType::Mul => Instr::Mul,
        BinOpType::Mod => Instr::Mod,
        BinOpType::Le => Instr::Le,
        BinOpType::Lt => Instr::Lt,
        BinOpType::Gt => Instr::Gt,
        BinOpType::Ge => Instr::Ge,
        BinOpType::Eq => Instr::Eq,
    }
}

/// The code of an expression. One that has a constant value is a single
/// `LoadConst`. Otherwise the operands come first and the operator last;
/// an identifier that names a known function is a call without
/// arguments, any other a variable; a call has its arguments in source
/// order, then the `Call`.
pub open spec fn expr_code(e: ExprView, funcs: Seq<Seq<char>>) -> Seq<Instr>
    decreases e, 0nat,
{
    match const_value(e) {
        Some(v) => seq![Instr::LoadConst(v)],
        None => match e {
            ExprView::Number(n) => seq![Instr::LoadConst(ValueView::Integer(n))],
            ExprView::TypedNumber(n) => seq![Instr::LoadConst(ValueView::Integer(n))],
            ExprView::Ident(name) => if has_name(funcs, name) {
                seq![Instr::Call(name)]
            } else {
                seq![Instr::LoadVar(name)]
            },
            ExprView::BinOp(left, op, right) => expr_code(*left, funcs) + expr_code(*right, funcs)
                + seq![op_instr(op)],
            ExprView::Call(name, args) => args_code(args, 0, funcs) + seq![Instr::Call(name)],
        },
    }
}

/// The code of the arguments from `i` on, in source order.
pub open spec fn args_code(args: Seq<ExprView>, i: int, funcs: Seq<Seq<char>>) -> Seq<Instr>
    decreases args, args.len() - i,
{
    if i < 0 || i >= args.len() {
        Seq::empty()
    } else {
        expr_code(args[i], funcs) + args_code(args, i + 1, funcs)
    }
}

/// Whether a statement ends the lowering of the statements around it: a
/// `return` of a call, which becomes a tail call.
pub open spec fn is_tail_call(s: StmtView) -> bool {
    s matches StmtView::Return(e) && e is Call
}

/// The code of a statement.
///
/// An `if` jumps over the code of its body where its condition counts as
/// false. A `while` leaves the loop by a `JumpIfFalse` that lands after the
/// `Jump` which closes the body and leads back to the condition. A
/// `return` of a call is the arguments and a `TailCall`. A function
/// definition has no code of its own.
pub open spec fn stmt_code(s: StmtView, funcs: Seq<Seq<char>>) -> Seq<Instr>
    decreases s, 0nat,
{
    match s {
        StmtView::Assign(name, e) => expr_code(e, funcs) + seq![Instr::StoreVar(name)],
        StmtView::If(cond, body) => expr_code(cond, funcs) + seq![
            Instr::JumpIfFalse(clamp(block_code(body, 0, funcs).len() as int)),
        ] + block_code(body, 0, funcs),
        StmtView::While(cond, body) => {
            let head = expr_code(cond, funcs);
            let inner = block_code(body, 0, funcs);
            head + seq![Instr::JumpIfFalse(clamp(inner.len() as int + 1))] + inner + seq![
                Instr::Jump(clamp(-(head.len() + inner.len() + 2))),
            ]
        },
        StmtView::Return(e) => match e {
            ExprView::Call(name, args) => args_code(args, 0, funcs) + seq![Instr::TailCall(name)],
            _ => expr_code(e, funcs) + seq![Instr::Return],
        },
        StmtView::Out(e) => expr_code(e, funcs) + seq![Instr::Out],
        StmtView::FuncDef(_, _, _) => Seq::empty(),
    }
}

/// The code of the statements from `i` on, in order, up to and with the
/// first tail call.
pub open spec fn block_code(body: Seq<StmtView>, i: int, funcs: Seq<Seq<char>>) -> Seq<Instr>
    decreases body, body.len() - i,
{
    if i < 0 || i >= body.len() {
        Seq::empty()
    } else if is_tail_call(body[i]) {
        stmt_code(body[i], funcs)
    } else {
        stmt_code(body[i], funcs) + block_code(body, i + 1, funcs)
    }
}

/// The code of `LoadConst` in the compact form.
pub const COMPACT_CONST: u8 = 0x01;

/// The code of `Add` in the compact form.
pub const COMPACT_ADD: u8 = 0x10;

/// The code of `Sub` in the compact form.
pub const COMPACT_SUB: u8 = 0x11;

/// The code of `Mul` in the compact form.
pub const COMPACT_MUL: u8 = 0x12;

/// The code in the compact form of every instruction that has no code
/// of its own.
pub const COMPACT_OTHER: u8 = 0xFF;

/// The compact form of an instruction: a code, and for a constant the
/// length of its text modulo 256 and the text, which is the constant as
/// it is shown, in UTF-8.
pub open spec fn compact(b: Instr) -> Seq<u8> {
    match b {
        Instr::LoadConst(v) => {
            let text = vstd::utf8::encode_utf8(v.shown());
            seq![COMPACT_CONST, (text.len() % 256) as u8] + text
        },
        Instr::Add => seq![COMPACT_ADD],
        Instr::Sub => seq![COMPACT_SUB],
        Instr::Mul => seq![COMPACT_MUL],
        _ => seq![COMPACT_OTHER],
    }
}

/// The integer that the text of a compact constant denotes: the text must
/// be a signed decimal numeral in ASCII whose number an `i64` holds. Any
/// other text denotes zero.
pub open spec fn compact_value(text: Seq<u8>) -> int {
    if forall|i: int| 0 <= i < text.len() ==> #[trigger] text[i] < 128 {
        match crate::text::signed_literal(text.map_values(|b: u8| b as char)) {
            Some(v) => if IntegerType::I64.holds(v) {
                v
            } else {
                0
            },
            None => 0,
        }
    } else {
        0
    }
}

/// The instruction that a compact form stands for. A constant comes back
/// as an `I64`. What is no compact form of a constant or of `Add`, `Sub`
/// or `Mul` stands for `Return`.
pub open spec fn expand(data: Seq<u8>) -> Instr {
    if data.len() == 0 {
        Instr::Return
    } else if data[0] == COMPACT_CONST && data.len() >= 2 {
        if data.len() >= 2 + data[1] {
            Instr::LoadConst(
                ValueView::integer(IntegerType::I64, compact_value(data.subrange(2, 2 + data[1]))),
            )
        } else {
            Instr::Return
        }
    } else if data[0] == COMPACT_ADD {
        Instr::Add
    } else if data[0] == COMPACT_SUB {
        Instr::Sub
    } else if data[0] == COMPACT_MUL {
        Instr::Mul
    } else {
        Instr::Return
    }
}

/// An instruction in a compact form of bytes.
pub struct CompactBytecode {
    data: Vec<u8>,
}

impl CompactBytecode {
    /// The bytes.
    pub closed spec fn bytes(&self) -> Seq<u8> {
        self.data@
    }

    /// The compact form that holds the bytes `data`.
    pub fn from_bytes(data: Vec<u8>) -> (r: Self)
        ensures
            r.bytes() == data@,
    {
        CompactBytecode { data }
    }

    /// The bytes.
    pub fn as_bytes(&self) -> (r: &Vec<u8>)
        ensures
            r@ == self.bytes(),
    {
        &self.data
    }

    /// The compact form of an instruction.
    pub fn from_bytecode(bytecode: &Bytecode) -> (r: Self)
        ensures
            r.bytes() == compact(bytecode.deep_view()),
    {
        let mut data: Vec<u8> = Vec::new();
        match bytecode {
            Bytecode::LoadConst(n) => {
                data.push(COMPACT_CONST);
                let value_str = n.to_string();
                let text = value_str.as_str().as_bytes_vec();
                let len = (text.len() % 256) as u8;
                data.push(len);
                let mut i: usize = 0;
                while i < text.len()
                    invariant
                        i <= text@.len(),
                        data@ == seq![COMPACT_CONST, len] + text@.subrange(0, i as int),
                    decreases text@.len() - i,
                {
                    data.push(text[i]);
                    assert(data@ =~= seq![COMPACT_CONST, len] + text@.subrange(0, i + 1));
                    i = i + 1;
                }
                assert(text@.subrange(0, text@.len() as int) =~= text@);
            },
            Bytecode::Add => {
                data.push(COMPACT_ADD);
            },
            Bytecode::Sub => {
                data.push(COMPACT_SUB);
            },
            Bytecode::Mul => {
                data.push(COMPACT_MUL);
            },
            _ => {
                data.push(COMPACT_OTHER);
            },
        }
        assert(data@ =~= compact(bytecode.deep_view()));
        CompactBytecode { data }
    }

    /// The integer that the bytes `data[from..to]` denote as the text of
    /// a constant.
    fn constant(&self, from: usize, to: usize) -> (r: i64)
        requires
            from <= to <= self.bytes().len(),
        ensures
            r == compact_value(self.bytes().subrange(from as int, to as int)),
    {
        let ghost text = self.data@.subrange(from as int, to as int);
        let mut chars: Vec<char> = Vec::new();
        let mut i: usize = from;
        while i < to
            invariant
                from <= i <= to <= self.data@.len(),
                text == self.data@.subrange(from as int, to as int),
                chars@ == text.subrange(0, i - from).map_values(|b: u8| b as char),
                forall|j: int| 0 <= j < i - from ==> #[trigger] text[j] < 128,
            decreases to - i,
        {
            let b = self.data[i];
            if b >= 128 {
                assert(text[i - from] == b);
                return 0;
            }
            chars.push(b as char);
            assert(chars@ =~= text.subrange(0, i - from + 1).map_values(|b: u8| b as char));
            i = i + 1;
        }
        assert(text.subrange(0, to - from) =~= text);
        let shown = crate::text::string_of(&chars, 0, chars.len());
        assert(chars@.subrange(0, chars@.len() as int) =~= chars@);
        match crate::types::parse_i128(shown.as_str()) {
            Some(v) => {
                if IntegerType::I64.fits(v) {
                    v as i64
                } else {
                    0
                }
            },
            None => 0,
        }
    }

    /// The instruction that the compact form stands for.
    pub fn to_bytecode(&self) -> (r: Bytecode)
        ensures
            r.deep_view() == expand(self.bytes()),
    {
        if self.data.len() == 0 {
            return Bytecode::Return;
        }
        let code = self.data[0];
        if code == COMPACT_CONST && self.data.len() >= 2 {
            let len = self.data[1] as usize;
            if self.data.len() >= 2 + len {
                let v = self.constant(2, 2 + len);
                Bytecode::LoadConst(Value::Integer(IntegerValue::I64(v)))
            } else {
                Bytecode::Return
            }
        } else if code == COMPACT_ADD {
            Bytecode::Add
        } else if code == COMPACT_SUB {
            Bytecode::Sub
        } else if code == COMPACT_MUL {
            Bytecode::Mul
        } else {
            Bytecode::Return
        }
    }
}

/// Appends an instruction.
fn emit(out: &mut Vec<Bytecode>, b: Bytecode)
    ensures
        final(out).deep_view() == old(out).deep_view().push(b.deep_view()),
{
    out.push(b);
    assert(out.deep_view() =~= old(out).deep_view().push(b.deep_view()));
}

/// The value of an operator applied to two constant integers.
fn fold_operator(a: IntegerValue, op: &BinOpType, b: IntegerValue) -> (r: Option<Value>)
    ensures
        match r {
            Some(v) => const_op(a@, *op, b@) == Some(v@),
            None => const_op(a@, *op, b@) is None,
        },
{
    match op {
        BinOpType::Plus => match a.add(b) {
            Ok(v) => Some(Value::Integer(v)),
            Err(_) => None,
        },
        BinOpType::Minus => match a.sub(b) {
            Ok(v) => Some(Value::Integer(v)),
            Err(_) => None,
        },
        BinOpType::Mul => match a.mul(b) {
            Ok(v) => Some(Value::Integer(v)),
            Err(_) => None,
        },
        BinOpType::Mod => match a.rem(b) {
            Ok(v) => Some(Value::Integer(v)),
            Err(_) => None,
        },
        BinOpType::Le => Some(Value::flag(a.le(&b))),
        BinOpType::Lt => Some(Value::flag(a.lt(&b))),
        BinOpType::Gt => Some(Value::flag(a.gt(&b))),
        BinOpType::Ge => Some(Value::flag(a.ge(&b))),
        BinOpType::Eq => Some(Value::flag(a.same(&b))),
    }
}

/// The value of an expression that is made of literals alone, where it
/// has one.
pub fn evaluate_const_expr(expr: &Expr) -> (r: Option<Value>)
    ensures
        match r {
            Some(v) => const_value(expr.deep_view()) == Some(v@),
            None => const_value(expr.deep_view()) is None,
        },
    decreases expr,
{
    match expr {
        Expr::Number(n) => Some(Value::Integer(n.clone())),
        Expr::TypedNumber(n) => Some(Value::Integer(n.clone())),
        Expr::BinOp(left, op, right) => {
            let a = evaluate_const_expr(left);
            let b = evaluate_const_expr(right);
            match (a, b) {
                (Some(Value::Integer(a)), Some(Value::Integer(b))) => fold_operator(a, op, b),
                _ => None,
            }
        },
        _ => None,
    }
}

/// The instruction of a binary operator.
fn operator_instruction(op: &BinOpType) -> (r: Bytecode)
    ensures
        r.deep_view() == op_instr(*op),
{
    match op {
        BinOpType::Plus => Bytecode::Add,
        BinOpType::Minus => Bytecode::Sub,
        BinOpType::Mul => Bytecode::Mul,
        BinOpType::Mod => Bytecode::Mod,
        BinOpType::Le => Bytecode::Le,
        BinOpType::Lt => Bytecode::Lt,
        BinOpType::Gt => Bytecode::Gt,
        BinOpType::Ge => Bytecode::Ge,
        BinOpType::Eq => Bytecode::Eq,
    }
}

/// Appends the code of an expression; `known` holds the names of the
/// functions.
pub fn compile_expr(expr: &Expr, instructions: &mut Vec<Bytecode>, known: &Vec<String>)
    ensures
        final(instructions).deep_view() == old(instructions).deep_view() + expr_code(
            expr.deep_view(),
            names_view(known@),
        ),
    decreases expr, 1nat,
{
    let ghost before = instructions.deep_view();
    let ghost funcs = names_view(known@);
    match evaluate_const_expr(expr) {
        Some(v) => {
            emit(instructions, Bytecode::LoadConst(v));
            assert(instructions.deep_view() =~= before + seq![Instr::LoadConst(v@)]);
            return ;
        },
        None => {},
    }
    match expr {
        Expr::Number(n) => {
            emit(instructions, Bytecode::LoadConst(Value::Integer(n.clone())));
        },
        Expr::TypedNumber(n) => {
            emit(instructions, Bytecode::LoadConst(Value::Integer(n.clone())));
        },
        Expr::Ident(name) => {
            if contains_name(known, name.as_str()) {
                emit(instructions, Bytecode::Call(name.clone()));
                assert(instructions.deep_view() =~= before + seq![Instr::Call(name@)]);
            } else {
                emit(instructions, Bytecode::LoadVar(name.clone()));
                assert(instructions.deep_view() =~= before + seq![Instr::LoadVar(name@)]);
            }
        },
        Expr::BinOp(left, op, right) => {
            compile_expr(left, instructions, known);
            compile_expr(right, instructions, known);
            emit(instructions, operator_instruction(op));
            assert(instructions.deep_view() =~= before + (expr_code(left.deep_view(), funcs)
                + expr_code(right.deep_view(), funcs) + seq![op_instr(*op)]));
        },
        Expr::Call(name, args) => {
            proof {
                lemma_call_view(*name, *args);
            }
            compile_args(expr, args, instructions, known);
            emit(instructions, Bytecode::Call(name.clone()));
            assert(instructions.deep_view() =~= before + (args_code(args.deep_view(), 0, funcs)
                + seq![Instr::Call(name@)]));
        },
    }
}

/// Appends the code of the arguments `args` of the call `parent`, in
/// source order.
fn compile_args(parent: &Expr, args: &Vec<Expr>, instructions: &mut Vec<Bytecode>, known: &Vec<String>)
    requires
        parent is Call,
        parent->Call_1 == args,
    ensures
        final(instructions).deep_view() == old(instructions).deep_view() + args_code(
            args.deep_view(),
            0,
            names_view(known@),
        ),
    decreases parent, 0nat,
{
    let ghost before = instructions.deep_view();
    let ghost funcs = names_view(known@);
    let ghost views = args.deep_view();
    let mut i: usize = 0;
    assert(before + args_code(views, 0, funcs) =~= before + args_code(views, 0, funcs));
    while i < args.len()
        invariant
            i <= args@.len(),
            parent is Call,
            parent->Call_1 == args,
            views == args.deep_view(),
            funcs == names_view(known@),
            before + args_code(views, 0, funcs) == instructions.deep_view() + args_code(
                views,
                i as int,
                funcs,
            ),
        decreases args@.len() - i,
    {
        let ghost so_far = instructions.deep_view();
        assert(decreases_to!(*parent => parent->Call_1));
        assert(decreases_to!(parent->Call_1 => parent->Call_1@));
        assert(decreases_to!(parent->Call_1@ => parent->Call_1@[i as int]));
        compile_expr(&args[i], instructions, known);
        assert(so_far + (expr_code(views[i as int], funcs) + args_code(views, i + 1, funcs)) =~= (
        so_far + expr_code(views[i as int], funcs)) + args_code(views, i + 1, funcs));
        i = i + 1;
    }
    assert(instructions.deep_view() + args_code(views, i as int, funcs)
        =~= instructions.deep_view());
}

/// Appends the code of a statement.
pub fn compile_statement(stmt: &Stmt, instructions: &mut Vec<Bytecode>, known: &Vec<String>)
    ensures
        final(instructions).deep_view() == old(instructions).deep_view() + stmt_code(
            stmt.deep_view(),
            names_view(known@),
        ),
    decreases stmt, 1nat,
{
    let ghost before = instructions.deep_view();
    let ghost funcs = names_view(known@);
    match stmt {
        Stmt::Assign(name, expr) => {
            compile_expr(expr, instructions, known);
            emit(instructions, Bytecode::StoreVar(name.clone()));
            assert(instructions.deep_view() =~= before + (expr_code(expr.deep_view(), funcs)
                + seq![Instr::StoreVar(name@)]));
        },
        Stmt::If(cond, body) => {
            proof {
                lemma_block_view(*cond, *body);
            }
            compile_expr(cond, instructions, known);
            let jump_if_false_pos = instructions.len();
            // The offset is not known yet: a placeholder takes its place.
            emit(instructions, Bytecode::JumpIfFalse(0));
            assert(decreases_to!(*stmt => stmt->If_1));
            compile_block(body, instructions, known);
            let body_end = instructions.len();
            let jump_out_offset = clamp_offset(body_end as i128 - (jump_if_false_pos as i128 + 1));
            let ghost unpatched = instructions.deep_view();
            assert(instructions@.len() == instructions.deep_view().len());
            instructions.set(jump_if_false_pos, Bytecode::JumpIfFalse(jump_out_offset));
            proof {
                let head = expr_code(cond.deep_view(), funcs);
                let inner = block_code(body.deep_view(), 0, funcs);
                assert(jump_if_false_pos == before.len() + head.len());
                assert(body_end == jump_if_false_pos + 1 + inner.len());
                assert(instructions.deep_view() =~= unpatched.update(
                    jump_if_false_pos as int,
                    Instr::JumpIfFalse(jump_out_offset),
                ));
                assert(instructions.deep_view() =~= before + (head + seq![
                    Instr::JumpIfFalse(clamp(inner.len() as int)),
                ] + inner));
            }
        },
        Stmt::While(cond, body) => {
            proof {
                lemma_block_view(*cond, *body);
            }
            let loop_start = instructions.len();
            compile_expr(cond, instructions, known);
            let jump_if_false_pos = instructions.len();
            // The offset is not known yet: a placeholder takes its place.
            emit(instructions, Bytecode::JumpIfFalse(0));
            let ghost with_placeholder = instructions.deep_view();
            assert(decreases_to!(*stmt => stmt->While_1));
            compile_block(body, instructions, known);
            let jump_back_pos = instructions.len();
            let jump_back_offset = clamp_offset(loop_start as i128 - (jump_back_pos as i128 + 1));
            emit(instructions, Bytecode::Jump(jump_back_offset));
            let loop_end = instructions.len();
            let jump_out_offset = clamp_offset(loop_end as i128 - (jump_if_false_pos as i128 + 1));
            let ghost unpatched = instructions.deep_view();
            assert(instructions@.len() == instructions.deep_view().len());
            instructions.set(jump_if_false_pos, Bytecode::JumpIfFalse(jump_out_offset));
            proof {
                let head = expr_code(cond.deep_view(), funcs);
                let inner = block_code(body.deep_view(), 0, funcs);
                assert(before.len() == loop_start);
                assert(jump_if_false_pos == loop_start + head.len());
                assert(jump_back_pos == jump_if_false_pos + 1 + inner.len());
                assert(instructions.deep_view() =~= unpatched.update(
                    jump_if_false_pos as int,
                    Instr::JumpIfFalse(jump_out_offset),
                ));
                assert(instructions.deep_view() =~= before + (head + seq![
                    Instr::JumpIfFalse(clamp(inner.len() as int + 1)),
                ] + inner + seq![Instr::Jump(clamp(-(head.len() + inner.len() + 2)))]));
            }
        },
        Stmt::Return(expr) => {
            match expr {
                Expr::Call(name, args) => {
                    proof {
                        lemma_call_view(*name, *args);
                    }
                    compile_args(expr, args, instructions, known);
                    emit(instructions, Bytecode::TailCall(name.clone()));
                    assert(instructions.deep_view() =~= before + (args_code(
                        args.deep_view(),
                        0,
                        funcs,
                    ) + seq![Instr::TailCall(name@)]));
                },
                _ => {
                    compile_expr(expr, instructions, known);
                    emit(instructions, Bytecode::Return);
                    assert(instructions.deep_view() =~= before + (expr_code(
                        expr.deep_view(),
                        funcs,
                    ) + seq![Instr::Return]));
                },
            }
        },
        Stmt::Out(expr) => {
            compile_expr(expr, instructions, known);
            emit(instructions, Bytecode::Out);
            assert(instructions.deep_view() =~= before + (expr_code(expr.deep_view(), funcs)
                + seq![Instr::Out]));
        },
        Stmt::FuncDef(_, _, _) => {
            assert(instructions.deep_view() =~= before + Seq::<Instr>::empty());
        },
    }
}

/// Whether a statement is a `return` of a call.
fn ends_block(stmt: &Stmt) -> (r: bool)
    ensures
        r == is_tail_call(stmt.deep_view()),
{
    match stmt {
        Stmt::Return(Expr::Call(_, _)) => true,
        _ => false,
    }
}

/// Appends the code of the statements of a block, in order, up to and
/// with the first tail call.
pub fn compile_block(body: &Vec<Stmt>, instructions: &mut Vec<Bytecode>, known: &Vec<String>)
    ensures
        final(instructions).deep_view() == old(instructions).deep_view() + block_code(
            body.deep_view(),
            0,
            names_view(known@),
        ),
    decreases body, 0nat,
{
    let ghost before = instructions.deep_view();
    let ghost funcs = names_view(known@);
    let ghost views = body.deep_view();
    let mut i: usize = 0;
    while i < body.len()
        invariant
            i <= body@.len(),
            views == body.deep_view(),
            funcs == names_view(known@),
            before == old(instructions).deep_view(),
            before + block_code(views, 0, funcs) == instructions.deep_view() + block_code(
                views,
                i as int,
                funcs,
            ),
        decreases body@.len() - i,
    {
        let ghost so_far = instructions.deep_view();
        assert(decreases_to!(body => body@));
        assert(decreases_to!(body@ => body@[i as int]));
        compile_statement(&body[i], instructions, known);
        if ends_block(&body[i]) {
            assert(views[i as int] == body@[i as int].deep_view());
            assert(block_code(views, i as int, funcs) == stmt_code(views[i as int], funcs));
            return ;
        }
        assert(so_far + (stmt_code(views[i as int], funcs) + block_code(views, i + 1, funcs))
            =~= (so_far + stmt_code(views[i as int], funcs)) + block_code(views, i + 1, funcs));
        i = i + 1;
    }
    assert(instructions.deep_view() + block_code(views, i as int, funcs)
        =~= instructions.deep_view());
}

/// The code of a list of statements.
pub fn compile_statements(statements: &Vec<Stmt>, known: &Vec<String>) -> (r: Vec<Bytecode>)
    ensures
        r.deep_view() == block_code(statements.deep_view(), 0, names_view(known@)),
{
    let mut instructions: Vec<Bytecode> = Vec::new();
    assert(instructions.deep_view() =~= Seq::empty());
    compile_block(statements, &mut instructions, known);
    assert(Seq::<Instr>::empty() + block_code(statements.deep_view(), 0, names_view(known@))
        =~= block_code(statements.deep_view(), 0, names_view(known@)));
    instructions
}

/// An expression that has a constant value is compiled to a single
/// `LoadConst` of that value, whatever functions are known.
pub proof fn lemma_constant_is_folded(e: ExprView, funcs: Seq<Seq<char>>)
    requires
        const_value(e) is Some,
    ensures
        expr_code(e, funcs) == seq![Instr::LoadConst(const_value(e)->0)],
{
}

/// An expression is made of literals alone.
pub open spec fn is_literal(e: ExprView) -> bool
    decreases e,
{
    match e {
        ExprView::Number(_) => true,
        ExprView::TypedNumber(_) => true,
        ExprView::BinOp(left, _, right) => is_literal(*left) && is_literal(*right),
        _ => false,
    }
}

/// Only an expression made of literals alone has a constant value, and
/// its value is an integer in the range of its width. Such an expression
/// has none only where its arithmetic fails.
pub proof fn lemma_constant_of_literals(e: ExprView)
    requires
        literals_in_range(e),
    ensures
        const_value(e) is Some ==> is_literal(e),
        const_value(e) matches Some(v) ==> v is Integer && v.in_range(),
    decreases e,
{
    match e {
        ExprView::BinOp(left, op, right) => {
            lemma_constant_of_literals(*left);
            lemma_constant_of_literals(*right);
            match (const_value(*left), const_value(*right)) {
                (Some(ValueView::Integer(a)), Some(ValueView::Integer(b))) => {
                    crate::types::lemma_result_width(a, b);
                },
                _ => {},
            }
        },
        _ => {},
    }
}

/// Every literal of an expression lies in the range of its width, as the
/// literals of every parsed expression do.
pub open spec fn literals_in_range(e: ExprView) -> bool
    decreases e,
{
    match e {
        ExprView::Number(n) => n.in_range(),
        ExprView::TypedNumber(n) => n.in_range(),
        ExprView::Ident(_) => true,
        ExprView::BinOp(left, _, right) => literals_in_range(*left) && literals_in_range(*right),
        ExprView::Call(_, args) => forall|i: int|
            0 <= i < args.len() ==> literals_in_range(#[trigger] args[i]),
    }
}

/// The `JumpIfFalse` at the head of a `while` loop leads to the first
/// instruction after the `Jump` that closes the loop, and that `Jump`
/// leads back to the first instruction of the condition. This holds of
/// every loop whose code an `i32` can count.
pub proof fn lemma_while_jumps(cond: ExprView, body: Seq<StmtView>, funcs: Seq<Seq<char>>)
    requires
        stmt_code(StmtView::While(cond, body), funcs).len() <= i32::MAX,
    ensures
        ({
            let code = stmt_code(StmtView::While(cond, body), funcs);
            let head = expr_code(cond, funcs);
            let inner = block_code(body, 0, funcs);
            let branch = head.len() as int;
            let back = code.len() - 1;
            &&& code.len() == head.len() + inner.len() + 2
            &&& code.subrange(0, branch) == head
            &&& code.subrange(branch + 1, back) == inner
            &&& code[branch] matches Instr::JumpIfFalse(out) && branch + 1 + out == code.len()
            &&& code[back] matches Instr::Jump(again) && back + 1 + again == 0
        }),
{
    let code = stmt_code(StmtView::While(cond, body), funcs);
    let head = expr_code(cond, funcs);
    let inner = block_code(body, 0, funcs);
    assert(code.subrange(0, head.len() as int) =~= head);
    assert(code.subrange(head.len() as int + 1, code.len() - 1) =~= inner);
}

/// The `JumpIfFalse` of an `if` leads to the first instruction after the
/// body: it skips exactly the code of the body. This holds of every `if`
/// whose body an `i32` can count.
pub proof fn lemma_if_jump(cond: ExprView, body: Seq<StmtView>, funcs: Seq<Seq<char>>)
    requires
        block_code(body, 0, funcs).len() <= i32::MAX,
    ensures
        ({
            let code = stmt_code(StmtView::If(cond, body), funcs);
            let head = expr_code(cond, funcs);
            let inner = block_code(body, 0, funcs);
            let branch = head.len() as int;
            &&& code.len() == head.len() + 1 + inner.len()
            &&& code.subrange(0, branch) == head
            &&& code.subrange(branch + 1, code.len() as int) == inner
            &&& code[branch] matches Instr::JumpIfFalse(out) && out == inner.len() && branch + 1
                + out == code.len()
        }),
{
    let code = stmt_code(StmtView::If(cond, body), funcs);
    let head = expr_code(cond, funcs);
    let inner = block_code(body, 0, funcs);
    assert(code.subrange(0, head.len() as int) =~= head);
    assert(code.subrange(head.len() as int + 1, code.len() as int) =~= inner);
}

/// Whether the value of an expression cannot change inside a loop: it is
/// made of literals alone.
pub fn is_loop_invariant(expr: &Expr) -> (r: bool)
    ensures
        r == is_literal(expr.deep_view()),
    decreases expr,
{
    match expr {
        Expr::Number(_) => true,
        Expr::TypedNumber(_) => true,
        Expr::BinOp(left, _, right) => is_loop_invariant(left) && is_loop_invariant(right),
        Expr::Ident(_) => false,
        Expr::Call(_, _) => false,
    }
}

/// Whether a statement of a loop body can run before the loop: it
/// assigns an expression made of literals alone.
pub open spec fn is_hoisted(s: StmtView) -> bool {
    s matches StmtView::Assign(_, e) && is_literal(e)
}

/// The code of the statements from `i` on that are hoisted, if `hoisted`,
/// or of those that are not; each statement is compiled by itself.
pub open spec fn selected_code(
    body: Seq<StmtView>,
    i: int,
    funcs: Seq<Seq<char>>,
    hoisted: bool,
) -> Seq<Instr>
    decreases body.len() - i,
{
    if i < 0 || i >= body.len() {
        Seq::empty()
    } else if is_hoisted(body[i]) == hoisted {
        stmt_code(body[i], funcs) + selected_code(body, i + 1, funcs, hoisted)
    } else {
        selected_code(body, i + 1, funcs, hoisted)
    }
}

/// The code of a loop body with the assignments of constants moved to
/// the front: first the code of the statements that are hoisted, in
/// order, then the code of the others, in order.
pub fn optimize_loop_body(body: &Vec<Stmt>, known: &Vec<String>) -> (r: Vec<Bytecode>)
    ensures
        r.deep_view() == selected_code(body.deep_view(), 0, names_view(known@), true)
            + selected_code(body.deep_view(), 0, names_view(known@), false),
{
    let ghost views = body.deep_view();
    let ghost funcs = names_view(known@);
    let mut invariant_instructions: Vec<Bytecode> = Vec::new();
    let mut optimized_instructions: Vec<Bytecode> = Vec::new();
    assert(invariant_instructions.deep_view() =~= Seq::empty());
    assert(optimized_instructions.deep_view() =~= Seq::empty());
    assert(Seq::<Instr>::empty() + selected_code(views, 0, funcs, true) =~= selected_code(
        views,
        0,
        funcs,
        true,
    ));
    assert(Seq::<Instr>::empty() + selected_code(views, 0, funcs, false) =~= selected_code(
        views,
        0,
        funcs,
        false,
    ));
    let mut i: usize = 0;
    while i < body.len()
        invariant
            i <= body@.len(),
            views == body.deep_view(),
            funcs == names_view(known@),
            selected_code(views, 0, funcs, true) == invariant_instructions.deep_view()
                + selected_code(views, i as int, funcs, true),
            selected_code(views, 0, funcs, false) == optimized_instructions.deep_view()
                + selected_code(views, i as int, funcs, false),
        decreases body@.len() - i,
    {
        let ghost hoisted_so_far = invariant_instructions.deep_view();
        let ghost kept_so_far = optimized_instructions.deep_view();
        let ghost code = stmt_code(views[i as int], funcs);
        let hoist = match &body[i] {
            Stmt::Assign(_, expr) => is_loop_invariant(expr),
            _ => false,
        };
        if hoist {
            compile_statement(&body[i], &mut invariant_instructions, known);
            assert(hoisted_so_far + (code + selected_code(views, i + 1, funcs, true)) =~= (
            hoisted_so_far + code) + selected_code(views, i + 1, funcs, true));
        } else {
            compile_statement(&body[i], &mut optimized_instructions, known);
            assert(kept_so_far + (code + selected_code(views, i + 1, funcs, false)) =~= (kept_so_far
                + code) + selected_code(views, i + 1, funcs, false));
        }
        i = i + 1;
    }
    let ghost first = invariant_instructions.deep_view();
    let ghost second = optimized_instructions.deep_view();
    assert(first + Seq::<Instr>::empty() =~= first);
    assert(second + Seq::<Instr>::empty() =~= second);
    let mut k: usize = 0;
    while k < optimized_instructions.len()
        invariant
            k <= optimized_instructions@.len(),
            second == optimized_instructions.deep_view(),
            invariant_instructions.deep_view() == first + second.subrange(0, k as int),
        decreases optimized_instructions@.len() - k,
    {
        let ghost so_far = invariant_instructions.deep_view();
        emit(&mut invariant_instructions, clone_instr(&optimized_instructions[k]));
        assert(invariant_instructions.deep_view() =~= first + second.subrange(0, k + 1));
        k = k + 1;
    }
    assert(second.subrange(0, second.len() as int) =~= second);
    invariant_instructions
}

/// The start value of the hash.
pub const HASH_START: u64 = 0xcbf29ce484222325;

/// The multiplier of the hash.
pub const HASH_PRIME: u64 = 0x100000001b3;

/// One step of the hash, FNV-1a on 64 bits: the state takes `x` in by
/// exclusive or and is multiplied by the prime, modulo 2 to the 64.
pub open spec fn mix(h: u64, x: u64) -> u64 {
    (h ^ x).wrapping_mul(HASH_PRIME)
}

/// The hash after the characters of `s` from `i` on.
pub open spec fn hash_chars(h: u64, s: Seq<char>, i: int) -> u64
    decreases s.len() - i,
{
    if i < 0 || i >= s.len() {
        h
    } else {
        hash_chars(mix(h, s[i] as u64), s, i + 1)
    }
}

/// The hash after a text: its characters, then an end mark.
pub open spec fn hash_text(h: u64, s: Seq<char>) -> u64 {
    mix(hash_chars(h, s, 0), 0xff)
}

/// The hash after the names from `i` on, then an end mark.
pub open spec fn hash_names(h: u64, names: Seq<Seq<char>>, i: int) -> u64
    decreases names.len() - i,
{
    if i < 0 || i >= names.len() {
        mix(h, 0xfe)
    } else {
        hash_names(hash_text(h, names[i]), names, i + 1)
    }
}

/// The number of an operator.
pub open spec fn op_number(op: BinOpType) -> u64 {
    match op {
        BinOpType::Plus => 0,
        BinOpType::Minus => 1,
        BinOpType::Mul => 2,
        BinOpType::Mod => 3,
        BinOpType::Le => 4,
        BinOpType::Lt => 5,
        BinOpType::Gt => 6,
        BinOpType::Ge => 7,
        BinOpType::Eq => 8,
    }
}

/// The hash after an integer: its width, then its decimal form.
pub open spec fn hash_value(h: u64, v: IntView) -> u64 {
    hash_text(mix(h, v.width.rank() as u64), crate::text::decimal_text(v.value))
}

/// The hash after an expression: a mark for its kind, then its parts in
/// source order.
pub open spec fn hash_expr(h: u64, e: ExprView) -> u64
    decreases e, 0nat,
{
    match e {
        ExprView::Number(n) => hash_value(mix(h, 1), n),
        ExprView::TypedNumber(n) => hash_value(mix(h, 2), n),
        ExprView::Ident(name) => hash_text(mix(h, 3), name),
        ExprView::BinOp(left, op, right) => hash_expr(
            hash_expr(mix(mix(h, 4), op_number(op)), *left),
            *right,
        ),
        ExprView::Call(name, args) => hash_exprs(hash_text(mix(h, 5), name), args, 0),
    }
}

/// The hash after the expressions from `i` on, then an end mark.
pub open spec fn hash_exprs(h: u64, args: Seq<ExprView>, i: int) -> u64
    decreases args, args.len() - i,
{
    if i < 0 || i >= args.len() {
        mix(h, 0xfd)
    } else {
        hash_exprs(hash_expr(h, args[i]), args, i + 1)
    }
}

/// The hash after a statement: a mark for its kind, then its parts in
/// source order.
pub open spec fn hash_stmt(h: u64, s: StmtView) -> u64
    decreases s, 0nat,
{
    match s {
        StmtView::Assign(name, e) => hash_expr(hash_text(mix(h, 11), name), e),
        StmtView::If(cond, body) => hash_stmts(hash_expr(mix(h, 12), cond), body, 0),
        StmtView::While(cond, body) => hash_stmts(hash_expr(mix(h, 13), cond), body, 0),
        StmtView::Return(e) => hash_expr(mix(h, 14), e),
        StmtView::Out(e) => hash_expr(mix(h, 15), e),
        StmtView::FuncDef(name, params, body) => hash_stmts(
            hash_names(hash_text(mix(h, 16), name), params, 0),
            body,
            0,
        ),
    }
}

/// The hash after the statements from `i` on, then an end mark.
pub open spec fn hash_stmts(h: u64, body: Seq<StmtView>, i: int) -> u64
    decreases body, body.len() - i,
{
    if i < 0 || i >= body.len() {
        mix(h, 0xfc)
    } else {
        hash_stmts(hash_stmt(h, body[i]), body, i + 1)
    }
}

/// The hash of a function definition: of its name, its parameters and
/// its body.
pub open spec fn function_hash(name: Seq<char>, params: Seq<Seq<char>>, body: Seq<StmtView>) -> u64 {
    hash_stmts(hash_names(hash_text(HASH_START, name), params, 0), body, 0)
}

/// One step of the hash.
fn mix_in(h: u64, x: u64) -> (r: u64)
    ensures
        r == mix(h, x),
{
    (h ^ x).wrapping_mul(HASH_PRIME)
}

/// The hash after a text.
fn hash_str(h: u64, s: &str) -> (r: u64)
    ensures
        r == hash_text(h, s@),
{
    let chars = crate::text::chars_of(s);
    let mut state = h;
    let mut i: usize = 0;
    while i < chars.len()
        invariant
            i <= chars@.len(),
            chars@ == s@,
            hash_chars(h, s@, 0) == hash_chars(state, s@, i as int),
        decreases chars@.len() - i,
    {
        let c: char = chars[i];
        state = mix_in(state, c as u64);
        i = i + 1;
    }
    mix_in(state, 0xff)
}

/// The hash after a list of names.
fn hash_name_list(h: u64, names: &Vec<String>) -> (r: u64)
    ensures
        r == hash_names(h, names.deep_view(), 0),
{
    let mut state = h;
    let mut i: usize = 0;
    while i < names.len()
        invariant
            i <= names@.len(),
            hash_names(h, names.deep_view(), 0) == hash_names(state, names.deep_view(), i as int),
        decreases names@.len() - i,
    {
        state = hash_str(state, names[i].as_str());
        i = i + 1;
    }
    mix_in(state, 0xfe)
}

/// The number of an operator.
fn operator_number(op: &BinOpType) -> (r: u64)
    ensures
        r == op_number(*op),
{
    match op {
        BinOpType::Plus => 0,
        BinOpType::Minus => 1,
        BinOpType::Mul => 2,
        BinOpType::Mod => 3,
        BinOpType::Le => 4,
        BinOpType::Lt => 5,
        BinOpType::Gt => 6,
        BinOpType::Ge => 7,
        BinOpType::Eq => 8,
    }
}

/// The hash after an integer.
fn hash_integer(h: u64, v: &IntegerValue) -> (r: u64)
    ensures
        r == hash_value(h, v@),
{
    let rank: u64 = match v.get_type() {
        IntegerType::I8 => 0,
        IntegerType::I16 => 1,
        IntegerType::I32 => 2,
        IntegerType::I64 => 3,
        IntegerType::I128 => 4,
        IntegerType::BigInt => 5,
    };
    hash_str(mix_in(h, rank), v.to_string().as_str())
}

/// The hash after an expression.
fn hash_expression(h: u64, e: &Expr) -> (r: u64)
    ensures
        r == hash_expr(h, e.deep_view()),
    decreases e,
{
    match e {
        Expr::Number(n) => hash_integer(mix_in(h, 1), n),
        Expr::TypedNumber(n) => hash_integer(mix_in(h, 2), n),
        Expr::Ident(name) => hash_str(mix_in(h, 3), name.as_str()),
        Expr::BinOp(left, op, right) => {
            let state = mix_in(mix_in(h, 4), operator_number(op));
            let state = hash_expression(state, left);
            hash_expression(state, right)
        },
        Expr::Call(name, args) => {
            proof {
                lemma_call_view(*name, *args);
            }
            let start = hash_str(mix_in(h, 5), name.as_str());
            let mut state = start;
            let mut i: usize = 0;
            while i < args.len()
                invariant
                    i <= args@.len(),
                    *e == Expr::Call(*name, *args),
                    hash_exprs(start, args.deep_view(), 0) == hash_exprs(
                        state,
                        args.deep_view(),
                        i as int,
                    ),
                decreases args@.len() - i,
            {
                assert(decreases_to!(*e => e->Call_1));
                assert(decreases_to!(e->Call_1 => e->Call_1@));
                assert(decreases_to!(e->Call_1@ => e->Call_1@[i as int]));
                state = hash_expression(state, &args[i]);
                i = i + 1;
            }
            mix_in(state, 0xfd)
        },
    }
}

/// The hash after a statement.
fn hash_statement(h: u64, s: &Stmt) -> (r: u64)
    ensures
        r == hash_stmt(h, s.deep_view()),
    decreases s, 1nat,
{
    match s {
        Stmt::Assign(name, e) => hash_expression(hash_str(mix_in(h, 11), name.as_str()), e),
        Stmt::If(cond, body) => {
            proof {
                lemma_block_view(*cond, *body);
            }
            assert(decreases_to!(*s => s->If_1));
            hash_statements(hash_expression(mix_in(h, 12), cond), body)
        },
        Stmt::While(cond, body) => {
            proof {
                lemma_block_view(*cond, *body);
            }
            assert(decreases_to!(*s => s->While_1));
            hash_statements(hash_expression(mix_in(h, 13), cond), body)
        },
        Stmt::Return(e) => hash_expression(mix_in(h, 14), e),
        Stmt::Out(e) => hash_expression(mix_in(h, 15), e),
        Stmt::FuncDef(name, params, body) => {
            proof {
                lemma_func_def_view(*name, *params, *body);
            }
            assert(decreases_to!(*s => s->FuncDef_2));
            let state = hash_name_list(hash_str(mix_in(h, 16), name.as_str()), params);
            hash_statements(state, body)
        },
    }
}

/// The hash after a list of statements.
fn hash_statements(h: u64, body: &Vec<Stmt>) -> (r: u64)
    ensures
        r == hash_stmts(h, body.deep_view(), 0),
    decreases body, 0nat,
{
    let mut state = h;
    let mut i: usize = 0;
    while i < body.len()
        invariant
            i <= body@.len(),
            hash_stmts(h, body.deep_view(), 0) == hash_stmts(state, body.deep_view(), i as int),
        decreases body@.len() - i,
    {
        assert(decreases_to!(body => body@));
        assert(decreases_to!(body@ => body@[i as int]));
        state = hash_statement(state, &body[i]);
        i = i + 1;
    }
    mix_in(state, 0xfc)
}

/// A compiled function: its parameters joined by commas, its code, the
/// number of its parameters, and whether it is short enough to inline.
#[derive(Debug)]
pub struct CompiledFunction {
    pub param_str: String,
    pub instructions: Vec<Bytecode>,
    pub param_count: usize,
    pub inline_hint: bool,
}

/// The mathematical content of a compiled function.
pub struct CompiledView {
    pub param_str: Seq<char>,
    pub instructions: Seq<Instr>,
    pub param_count: nat,
    pub inline_hint: bool,
}

/// A function with fewer instructions than this is marked for inlining.
pub const INLINE_LIMIT: usize = 10;

impl DeepView for CompiledFunction {
    type V = CompiledView;

    open spec fn deep_view(&self) -> CompiledView {
        CompiledView {
            param_str: self.param_str@,
            instructions: self.instructions.deep_view(),
            param_count: self.param_count as nat,
            inline_hint: self.inline_hint,
        }
    }
}

impl Clone for CompiledFunction {
    fn clone(&self) -> (r: Self)
        ensures
            r.deep_view() == self.deep_view(),
    {
        CompiledFunction {
            param_str: self.param_str.clone(),
            instructions: clone_code(&self.instructions),
            param_count: self.param_count,
            inline_hint: self.inline_hint,
        }
    }
}

/// What compiling a function gives: its parameters joined by commas, the
/// code of its body, the number of its parameters, and the mark for
/// inlining.
pub open spec fn compiled_spec(
    params: Seq<Seq<char>>,
    body: Seq<StmtView>,
    funcs: Seq<Seq<char>>,
) -> CompiledView {
    CompiledView {
        param_str: crate::text::joined(params),
        instructions: block_code(body, 0, funcs),
        param_count: params.len(),
        inline_hint: block_code(body, 0, funcs).len() < INLINE_LIMIT,
    }
}

/// A compiled function as the cache keeps it: with the hash of the
/// definition it was compiled from.
pub struct CachedFunction {
    pub hash: u64,
    pub function: CompiledFunction,
}

/// The mathematical content of a cache entry.
pub struct CachedView {
    pub hash: u64,
    pub function: CompiledView,
}

/// The cache of compiled functions, by name.
pub struct IncrementalCompiler {
    pub cache: NameMap<CachedFunction>,
}

impl IncrementalCompiler {
    /// The cache as a map from names to entries.
    pub open spec fn view(&self) -> Map<Seq<char>, CachedView> {
        self.cache.map().map_values(
            |e: CachedFunction| CachedView { hash: e.hash, function: e.function.deep_view() },
        )
    }

    /// An empty cache.
    pub fn new() -> (r: Self)
        ensures
            r.view() == Map::<Seq<char>, CachedView>::empty(),
    {
        let r = IncrementalCompiler { cache: NameMap::new() };
        assert(r.view() =~= Map::<Seq<char>, CachedView>::empty());
        r
    }

    /// The hash of a function definition.
    pub fn compute_function_hash(name: &str, params: &Vec<String>, body: &Vec<Stmt>) -> (h: u64)
        ensures
            h == function_hash(name@, params.deep_view(), body.deep_view()),
    {
        let state = hash_str(HASH_START, name);
        let state = hash_name_list(state, params);
        hash_statements(state, body)
    }

    /// What the cache answers for a definition with the hash `h`: the
    /// entry under its name, if that has the same hash.
    pub open spec fn hit(cache: Map<Seq<char>, CachedView>, name: Seq<char>, h: u64) -> bool {
        cache.contains_key(name) && cache[name].hash == h
    }

    /// The cache after a definition was compiled: unchanged on a hit,
    /// else with the new entry under the name.
    pub open spec fn after(
        cache: Map<Seq<char>, CachedView>,
        name: Seq<char>,
        h: u64,
        fresh: CompiledView,
    ) -> Map<Seq<char>, CachedView> {
        if Self::hit(cache, name, h) {
            cache
        } else {
            cache.insert(name, CachedView { hash: h, function: fresh })
        }
    }

    /// The compiled function of a definition: the cached one on a hit,
    /// else the one compiled now.
    pub open spec fn answer(
        cache: Map<Seq<char>, CachedView>,
        name: Seq<char>,
        h: u64,
        fresh: CompiledView,
    ) -> CompiledView {
        if Self::hit(cache, name, h) {
            cache[name].function
        } else {
            fresh
        }
    }

    /// Compiles a function, or takes it from the cache where the cache has
    /// an entry under the name with the hash of this definition. A
    /// function compiled now replaces the entry under its name.
    pub fn compile_function(
        &mut self,
        name: &str,
        params: &Vec<String>,
        body: &Vec<Stmt>,
        known: &Vec<String>,
    ) -> (r: CompiledFunction)
        ensures
            r.deep_view() == Self::answer(
                old(self).view(),
                name@,
                function_hash(name@, params.deep_view(), body.deep_view()),
                compiled_spec(params.deep_view(), body.deep_view(), names_view(known@)),
            ),
            final(self).view() == Self::after(
                old(self).view(),
                name@,
                function_hash(name@, params.deep_view(), body.deep_view()),
                compiled_spec(params.deep_view(), body.deep_view(), names_view(known@)),
            ),
    {
        let func_hash = Self::compute_function_hash(name, params, body);
        match self.cache.get(name) {
            Some(entry) => {
                if entry.hash == func_hash {
                    return entry.function.clone();
                }
            },
            None => {},
        }
        let func_code = compile_statements(body, known);
        let param_str = crate::text::join_names(params);
        let param_count = params.len();
        let inline_hint = func_code.len() < INLINE_LIMIT;
        assert(func_code@.len() == func_code.deep_view().len());
        let compiled_func = CompiledFunction {
            param_str,
            instructions: func_code,
            param_count,
            inline_hint,
        };
        let ghost before = self.view();
        let copy = compiled_func.clone();
        let entry = CachedFunction { hash: func_hash, function: copy };
        self.cache.insert(String::from_str(name), entry);
        assert(self.view() =~= before.insert(
            name@,
            CachedView { hash: func_hash, function: compiled_func.deep_view() },
        ));
        compiled_func
    }
}

/// A function of the plain table: its parameters joined by commas, and
/// its code.
pub struct FunctionCode {
    pub param_str: String,
    pub code: Vec<Bytecode>,
}

impl DeepView for FunctionCode {
    type V = FunctionView;

    open spec fn deep_view(&self) -> FunctionView {
        FunctionView { param_str: self.param_str@, code: self.code.deep_view() }
    }
}

/// A compiled program: the code of the top level, the functions by name,
/// their compiled records by name, and the cache of the compiler.
pub struct BytecodeProgram {
    pub instructions: Vec<Bytecode>,
    pub functions: NameMap<FunctionCode>,
    pub compiled_functions: NameMap<CompiledFunction>,
    pub incremental_compiler: IncrementalCompiler,
}

impl DeepView for BytecodeProgram {
    type V = ProgramCode;

    open spec fn deep_view(&self) -> ProgramCode {
        ProgramCode {
            main: self.instructions.deep_view(),
            functions: self.functions.map().map_values(|f: FunctionCode| f.deep_view()),
            compiled: self.compiled_functions.map().map_values(
                |f: CompiledFunction| f.deep_view(),
            ),
            cache: self.incremental_compiler.view(),
        }
    }
}

/// The names of the functions that the top level defines from `i` on, in
/// order, after those in `acc`.
pub open spec fn def_names(stmts: Seq<StmtView>, i: int, acc: Seq<Seq<char>>) -> Seq<Seq<char>>
    decreases stmts.len() - i,
{
    if i < 0 || i >= stmts.len() {
        acc
    } else {
        match stmts[i] {
            StmtView::FuncDef(name, _, _) => def_names(stmts, i + 1, acc.push(name)),
            _ => def_names(stmts, i + 1, acc),
        }
    }
}

/// The tables after one more function definition: the function enters
/// both tables under its name, in place of an earlier one of that name.
/// Its compiled record is the cache's where the cache has an entry under
/// the name with the hash of this definition.
pub open spec fn define(
    t: ProgramCode,
    name: Seq<char>,
    params: Seq<Seq<char>>,
    body: Seq<StmtView>,
    funcs: Seq<Seq<char>>,
) -> ProgramCode {
    let fresh = compiled_spec(params, body, funcs);
    let h = function_hash(name, params, body);
    ProgramCode {
        main: t.main,
        functions: t.functions.insert(
            name,
            FunctionView { param_str: fresh.param_str, code: fresh.instructions },
        ),
        compiled: t.compiled.insert(name, IncrementalCompiler::answer(t.cache, name, h, fresh)),
        cache: IncrementalCompiler::after(t.cache, name, h, fresh),
    }
}

/// The tables after the function definitions of the top level from `i`
/// on, in order.
pub open spec fn define_from(stmts: Seq<StmtView>, i: int, funcs: Seq<Seq<char>>, t: ProgramCode) -> ProgramCode
    decreases stmts.len() - i,
{
    if i < 0 || i >= stmts.len() {
        t
    } else {
        match stmts[i] {
            StmtView::FuncDef(name, params, body) => define_from(
                stmts,
                i + 1,
                funcs,
                define(t, name, params, body, funcs),
            ),
            _ => define_from(stmts, i + 1, funcs, t),
        }
    }
}

/// The compiled form of a program. Every function that the top level
/// defines is known in every body and at the top level, wherever its
/// definition stands. The code of the top level is that of its
/// statements.
pub open spec fn program_code(p: ProgramView) -> ProgramCode {
    let funcs = def_names(p.statements, 0, Seq::empty());
    let t = define_from(
        p.statements,
        0,
        funcs,
        ProgramCode {
            main: Seq::empty(),
            functions: Map::empty(),
            compiled: Map::empty(),
            cache: Map::empty(),
        },
    );
    ProgramCode { main: block_code(p.statements, 0, funcs), ..t }
}

/// The names of the functions that the top level of a program defines.
fn function_names(program: &Program) -> (known: Vec<String>)
    ensures
        names_view(known@) == def_names(program.deep_view().statements, 0, Seq::empty()),
{
    let ghost stmts = program.deep_view().statements;
    let mut known: Vec<String> = Vec::new();
    let mut i: usize = 0;
    assert(names_view(known@) =~= Seq::empty());
    while i < program.statements.len()
        invariant
            i <= program.statements@.len(),
            stmts == program.statements.deep_view(),
            def_names(stmts, 0, Seq::empty()) == def_names(stmts, i as int, names_view(known@)),
        decreases program.statements@.len() - i,
    {
        match &program.statements[i] {
            Stmt::FuncDef(name, params, body) => {
                proof {
                    lemma_func_def_view(*name, *params, *body);
                }
                let ghost before = names_view(known@);
                known.push(name.clone());
                assert(names_view(known@) =~= before.push(name@));
            },
            _ => {},
        }
        i = i + 1;
    }
    known
}

/// Compiles a program: each function of the top level into both tables,
/// then the statements of the top level.
pub fn compile_to_bytecode(program: &Program) -> (r: BytecodeProgram)
    ensures
        r.deep_view() == program_code(program.deep_view()),
{
    let ghost stmts = program.deep_view().statements;
    let known = function_names(program);
    let ghost funcs = names_view(known@);
    let mut functions: NameMap<FunctionCode> = NameMap::new();
    let mut compiled_functions: NameMap<CompiledFunction> = NameMap::new();
    let mut incremental_compiler = IncrementalCompiler::new();
    let ghost empty = ProgramCode {
        main: Seq::empty(),
        functions: Map::empty(),
        compiled: Map::empty(),
        cache: Map::empty(),
    };
    let mut i: usize = 0;
    assert(functions.map().map_values(|f: FunctionCode| f.deep_view()) =~= Map::empty());
    assert(compiled_functions.map().map_values(|f: CompiledFunction| f.deep_view())
        =~= Map::empty());
    while i < program.statements.len()
        invariant
            i <= program.statements@.len(),
            stmts == program.statements.deep_view(),
            funcs == names_view(known@),
            define_from(stmts, 0, funcs, empty) == define_from(
                stmts,
                i as int,
                funcs,
                ProgramCode {
                    main: Seq::empty(),
                    functions: functions.map().map_values(|f: FunctionCode| f.deep_view()),
                    compiled: compiled_functions.map().map_values(
                        |f: CompiledFunction| f.deep_view(),
                    ),
                    cache: incremental_compiler.view(),
                },
            ),
        decreases program.statements@.len() - i,
    {
        match &program.statements[i] {
            Stmt::FuncDef(name, params, body) => {
                proof {
                    lemma_func_def_view(*name, *params, *body);
                }
                let ghost old_functions = functions.map().map_values(
                    |f: FunctionCode| f.deep_view(),
                );
                let ghost old_compiled = compiled_functions.map().map_values(
                    |f: CompiledFunction| f.deep_view(),
                );
                let func_code = compile_statements(body, &known);
                let param_str = crate::text::join_names(params);
                let entry = FunctionCode { param_str, code: func_code };
                functions.insert(name.clone(), entry);
                let compiled = incremental_compiler.compile_function(
                    name.as_str(),
                    params,
                    body,
                    &known,
                );
                compiled_functions.insert(name.clone(), compiled);
                proof {
                    assert(functions.map().map_values(|f: FunctionCode| f.deep_view())
                        =~= old_functions.insert(name@, entry.deep_view()));
                    assert(compiled_functions.map().map_values(
                        |f: CompiledFunction| f.deep_view(),
                    ) =~= old_compiled.insert(name@, compiled.deep_view()));
                }
            },
            _ => {},
        }
        i = i + 1;
    }
    let instructions = compile_statements(&program.statements, &known);
    BytecodeProgram { instructions, functions, compiled_functions, incremental_compiler }
}

/// The eight registers: which are in use, and which variable has which.
pub struct RegisterAllocator {
    used_registers: [bool; 8],
    var_to_reg: NameMap<u8>,
}

impl RegisterAllocator {
    /// Which registers are in use.
    pub closed spec fn used(&self) -> Seq<bool> {
        self.used_registers@
    }

    /// Which variable has which register.
    pub closed spec fn table(&self) -> Map<Seq<char>, u8> {
        self.var_to_reg.map()
    }

    /// The register of a variable, if it has one.
    pub open spec fn register_of(&self, name: Seq<char>) -> Option<u8> {
        if self.table().contains_key(name) {
            Some(self.table()[name])
        } else {
            None
        }
    }

    /// No register is in use, and no variable has one.
    pub fn new() -> (r: Self)
        ensures
            r.used() == Seq::new(8, |i: int| false),
            r.table() == Map::<Seq<char>, u8>::empty(),
    {
        let r = RegisterAllocator { used_registers: [false; 8], var_to_reg: NameMap::new() };
        assert(r.used_registers@ =~= Seq::new(8, |i: int| false));
        r
    }

    /// Takes the first register that is not in use, if there is one. No
    /// variable gets it.
    pub fn allocate_register(&mut self) -> (r: Option<u8>)
        ensures
            match r {
                Some(reg) => {
                    &&& reg < 8
                    &&& !old(self).used()[reg as int]
                    &&& forall|j: int| 0 <= j < reg ==> old(self).used()[j]
                    &&& final(self).used() == old(self).used().update(reg as int, true)
                },
                None => {
                    &&& forall|j: int| 0 <= j < 8 ==> old(self).used()[j]
                    &&& final(self).used() == old(self).used()
                },
            },
            final(self).table() == old(self).table(),
    {
        let mut i: usize = 0;
        while i < 8
            invariant
                i <= 8,
                *self == *old(self),
                forall|j: int| 0 <= j < i ==> self.used_registers@[j],
            decreases 8 - i,
        {
            if !self.used_registers[i] {
                self.used_registers[i] = true;
                return Some(i as u8);
            }
            i = i + 1;
        }
        None
    }

    /// The register of a variable: the one it has, and then nothing
    /// changes; else the first that is not in use, which the variable
    /// then has, while every other variable keeps what it has. Where
    /// every register is in use, the variable gets none and nothing
    /// changes.
    pub fn allocate_register_for_var(&mut self, var_name: &str) -> (r: Option<u8>)
        ensures
            match old(self).register_of(var_name@) {
                Some(reg) => {
                    &&& r == Some(reg)
                    &&& final(self).used() == old(self).used()
                    &&& final(self).table() == old(self).table()
                },
                None => match r {
                    Some(reg) => {
                        &&& reg < 8
                        &&& !old(self).used()[reg as int]
                        &&& forall|j: int| 0 <= j < reg ==> old(self).used()[j]
                        &&& final(self).used() == old(self).used().update(reg as int, true)
                        &&& final(self).table() == old(self).table().insert(var_name@, reg)
                    },
                    None => {
                        &&& forall|j: int| 0 <= j < 8 ==> old(self).used()[j]
                        &&& final(self).used() == old(self).used()
                        &&& final(self).table() == old(self).table()
                    },
                },
            },
    {
        match self.var_to_reg.get(var_name) {
            Some(reg) => {
                return Some(*reg);
            },
            None => {},
        }
        match self.allocate_register() {
            Some(reg) => {
                self.var_to_reg.insert(String::from_str(var_name), reg);
                Some(reg)
            },
            None => None,
        }
    }

    /// Marks a register as not in use; a number that is no register is
    /// ignored. Every variable keeps what it has.
    pub fn free_register(&mut self, reg: u8)
        ensures
            final(self).used() == if reg < 8 {
                old(self).used().update(reg as int, false)
            } else {
                old(self).used()
            },
            final(self).table() == old(self).table(),
    {
        if reg < 8 {
            self.used_registers[reg as usize] = false;
        }
    }

    /// Takes the register from a variable and marks it as not in use:
    /// the variable has none any more, and every other variable keeps what
    /// it has.
    pub fn free_register_for_var(&mut self, var_name: &str)
        ensures
            final(self).used() == match old(self).register_of(var_name@) {
                Some(reg) => if reg < 8 {
                    old(self).used().update(reg as int, false)
                } else {
                    old(self).used()
                },
                None => old(self).used(),
            },
            final(self).table() == old(self).table().remove(var_name@),
    {
        match self.var_to_reg.remove_all(var_name) {
            Some(reg) => {
                self.free_register(reg);
            },
            None => {},
        }
    }
}

} // verus!
