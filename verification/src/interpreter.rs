//! The interpreter: the stack machine as it runs, one explicit stack of
//! activations, so that calls of any depth and tail calls of any number
//! need no more of the host's stack.

use crate::bytecode::{clone_code, clone_instr, Bytecode, BytecodeProgram};
use crate::machine::{
    arithmetic, as_u64, bind, comparison, effect, enter, find_function, run, split_from,
    split_params, step, take_args, Callee, Effect, FrameView, Machine, ProgramCode, Status,
    REGISTERS,
};
use crate::memory::{get_interpreter_pool, InterpreterMemoryPool};
use crate::names::NameMap;
use crate::text::{chars_of, string_of, u128_text};
use crate::types::{Value, ValueView};
use vstd::prelude::*;
use vstd::string::*;

verus! {

/// The greatest number of steps that one call of `execute` takes.
pub const MAX_STEPS: u64 = 0xffff_ffff_ffff_ffff;

/// The variables of an activation as a map.
pub open spec fn vars_view(vars: NameMap<Value>) -> Map<Seq<char>, ValueView> {
    vars.map().map_values(|v: Value| v@)
}

/// An activation.
pub struct Frame {
    pub code: Vec<Bytecode>,
    pub pc: usize,
    pub stack: Vec<Value>,
    pub variables: NameMap<Value>,
    pub registers: Vec<Option<Value>>,
}

impl DeepView for Frame {
    type V = FrameView;

    open spec fn deep_view(&self) -> FrameView {
        FrameView {
            code: self.code.deep_view(),
            pc: self.pc as int,
            stack: self.stack.deep_view(),
            vars: vars_view(self.variables),
            regs: self.registers.deep_view(),
        }
    }
}

/// Takes the value on top of a stack; the `I64` zero for an empty stack.
fn pop_value(stack: &mut Vec<Value>) -> (v: Value)
    ensures
        v@ == if old(stack).deep_view().len() > 0 {
            old(stack).deep_view().last()
        } else {
            ValueView::zero()
        },
        final(stack).deep_view() == if old(stack).deep_view().len() > 0 {
            old(stack).deep_view().drop_last()
        } else {
            old(stack).deep_view()
        },
{
    let ghost before = stack.deep_view();
    match stack.pop() {
        Some(v) => {
            assert(stack.deep_view() =~= before.drop_last());
            v
        },
        None => {
            assert(stack.deep_view() =~= before);
            Value::zero()
        },
    }
}

/// Puts a value on top of a stack.
fn push_value(stack: &mut Vec<Value>, v: Value)
    ensures
        final(stack).deep_view() == old(stack).deep_view().push(v@),
{
    stack.push(v);
    assert(stack.deep_view() =~= old(stack).deep_view().push(v@));
}

/// The value of a variable; the `I64` zero for one that is not set.
pub fn load_var(vars: &NameMap<Value>, name: &str) -> (v: Value)
    ensures
        v@ == if vars_view(*vars).contains_key(name@) {
            vars_view(*vars)[name@]
        } else {
            ValueView::zero()
        },
{
    match vars.get(name) {
        Some(v) => v.clone(),
        None => Value::zero(),
    }
}

/// Sets a variable.
fn store_var(vars: &mut NameMap<Value>, name: &str, v: Value)
    ensures
        vars_view(*final(vars)) == vars_view(*old(vars)).insert(name@, v@),
{
    vars.insert(String::from_str(name), v);
    assert(vars_view(*vars) =~= vars_view(*old(vars)).insert(name@, v@));
}

/// The result of an arithmetic instruction on two values.
pub fn compute(instr: &Bytecode, a: Value, b: Value) -> (r: Result<Value, String>)
    requires
        instr is Add || instr is Sub || instr is Mul || instr is Mod || instr is AddReg
            || instr is SubReg || instr is MulReg,
    ensures
        match r {
            Ok(v) => arithmetic(instr.deep_view(), a@, b@) == Ok::<ValueView, Seq<char>>(v@),
            Err(m) => arithmetic(instr.deep_view(), a@, b@) == Err::<ValueView, Seq<char>>(m@),
        },
{
    match (a, b) {
        (Value::Integer(x), Value::Integer(y)) => {
            let r = match instr {
                Bytecode::Add => x.add(y),
                Bytecode::AddReg(_, _) => x.add(y),
                Bytecode::Sub => x.sub(y),
                Bytecode::SubReg(_, _) => x.sub(y),
                Bytecode::Mul => x.mul(y),
                Bytecode::MulReg(_, _) => x.mul(y),
                _ => x.rem(y),
            };
            match r {
                Ok(v) => Ok(Value::Integer(v)),
                Err(m) => Err(m),
            }
        },
        _ => Ok(Value::zero()),
    }
}

/// The result of a comparison of two values.
pub fn compare(instr: &Bytecode, a: &Value, b: &Value) -> (r: Value)
    requires
        instr is Le || instr is Lt || instr is Gt || instr is Ge || instr is Eq,
    ensures
        r@ == comparison(instr.deep_view(), a@, b@),
{
    match instr {
        Bytecode::Eq => Value::flag(a.same(b)),
        _ => match (a, b) {
            (Value::Integer(x), Value::Integer(y)) => Value::flag(
                match instr {
                    Bytecode::Le => x.le(y),
                    Bytecode::Lt => x.lt(y),
                    Bytecode::Gt => x.gt(y),
                    _ => x.ge(y),
                },
            ),
            _ => Value::zero(),
        },
    }
}

/// The names of the parameters in a string that joins them by commas.
pub fn split_parameters(param_str: &str) -> (r: Vec<String>)
    ensures
        r.deep_view() == split_params(param_str@),
{
    let chars = chars_of(param_str);
    let mut names: Vec<String> = Vec::new();
    let mut start: usize = 0;
    let mut i: usize = 0;
    assert(names.deep_view() =~= Seq::empty());
    assert(chars@.subrange(0, 0) =~= Seq::empty());
    while i < chars.len()
        invariant
            start <= i <= chars@.len(),
            chars@ == param_str@,
            split_params(param_str@) == split_from(
                chars@,
                i as int,
                chars@.subrange(start as int, i as int),
                names.deep_view(),
            ),
        decreases chars@.len() - i,
    {
        let ghost before = names.deep_view();
        let ghost current = chars@.subrange(start as int, i as int);
        if chars[i] == ',' {
            if i > start {
                names.push(string_of(&chars, start, i));
                assert(names.deep_view() =~= before.push(current));
            }
            start = i + 1;
            assert(chars@.subrange(start as int, start as int) =~= Seq::empty());
        } else {
            assert(chars@.subrange(start as int, i + 1) =~= current.push(chars@[i as int]));
        }
        i = i + 1;
    }
    let ghost before = names.deep_view();
    if i > start {
        names.push(string_of(&chars, start, i));
        assert(names.deep_view() =~= before.push(chars@.subrange(start as int, i as int)));
    }
    names
}

/// A function as a call finds it.
pub struct Found {
    pub params: Vec<String>,
    pub count: usize,
    pub code: Vec<Bytecode>,
}

impl DeepView for Found {
    type V = Callee;

    open spec fn deep_view(&self) -> Callee {
        Callee {
            params: self.params.deep_view(),
            count: self.count as nat,
            code: self.code.deep_view(),
        }
    }
}

/// The function that a call of `name` finds: the compiled one, else the
/// one of the plain table.
pub fn lookup_function(program: &BytecodeProgram, name: &str) -> (r: Option<Found>)
    ensures
        match r {
            Some(f) => find_function(program.deep_view(), name@) == Some(f.deep_view()),
            None => find_function(program.deep_view(), name@) is None,
        },
{
    match program.compiled_functions.get(name) {
        Some(f) => {
            return Some(
                Found {
                    params: split_parameters(f.param_str.as_str()),
                    count: f.param_count,
                    code: clone_code(&f.instructions),
                },
            );
        },
        None => {},
    }
    match program.functions.get(name) {
        Some(f) => {
            let params = split_parameters(f.param_str.as_str());
            let count = params.len();
            assert(params@.len() == params.deep_view().len());
            Some(Found { params, count, code: clone_code(&f.code) })
        },
        None => None,
    }
}

/// Takes the arguments of a call from the stack: `n` values, the topmost
/// being the last argument.
fn take_arguments(stack: &mut Vec<Value>, n: usize) -> (args: Vec<Value>)
    ensures
        args.deep_view() == take_args(old(stack).deep_view(), n as nat, Seq::empty()).0,
        final(stack).deep_view() == take_args(old(stack).deep_view(), n as nat, Seq::empty()).1,
{
    let mut args: Vec<Value> = Vec::new();
    let mut left = n;
    assert(args.deep_view() =~= Seq::empty());
    while left > 0
        invariant
            take_args(old(stack).deep_view(), n as nat, Seq::empty()) == take_args(
                stack.deep_view(),
                left as nat,
                args.deep_view(),
            ),
        decreases left,
    {
        let ghost before = args.deep_view();
        let v = pop_value(stack);
        args.insert(0, v);
        assert(args.deep_view() =~= seq![v@] + before);
        left = left - 1;
    }
    args
}

/// The variables of a new activation: each parameter bound to its
/// argument.
fn bind_arguments(params: &Vec<String>, args: Vec<Value>) -> (vars: NameMap<Value>)
    ensures
        vars_view(vars) == bind(params.deep_view(), args.deep_view(), 0, Map::empty()),
{
    let mut vars: NameMap<Value> = NameMap::new();
    let mut i: usize = 0;
    assert(vars_view(vars) =~= Map::empty());
    while i < params.len() && i < args.len()
        invariant
            i <= params@.len(),
            i <= args@.len(),
            bind(params.deep_view(), args.deep_view(), 0, Map::empty()) == bind(
                params.deep_view(),
                args.deep_view(),
                i as int,
                vars_view(vars),
            ),
        decreases params@.len() - i,
    {
        store_var(&mut vars, params[i].as_str(), args[i].clone());
        i = i + 1;
    }
    vars
}

/// Eight empty registers.
fn empty_registers() -> (r: Vec<Option<Value>>)
    ensures
        r.deep_view() == Seq::new(REGISTERS as nat, |i: int| None::<ValueView>),
        r@.len() == REGISTERS,
{
    let mut r: Vec<Option<Value>> = Vec::new();
    let mut i: usize = 0;
    while i < REGISTERS
        invariant
            i <= REGISTERS,
            r@.len() == i,
            forall|j: int| 0 <= j < i ==> r@[j] is None,
        decreases REGISTERS - i,
    {
        r.push(None);
        i = i + 1;
    }
    assert(r.deep_view() =~= Seq::new(REGISTERS as nat, |i: int| None::<ValueView>));
    r
}

impl Frame {
    /// The position lies in the code or at its end, and there are eight
    /// registers.
    pub open spec fn wf(&self) -> bool {
        self.pc <= self.code@.len() && self.registers@.len() == REGISTERS
    }

    /// The activation that begins to run `code` with the variables
    /// `variables`.
    pub fn start(code: Vec<Bytecode>, variables: NameMap<Value>) -> (r: Frame)
        ensures
            r.wf(),
            r.deep_view() == FrameView::start(code.deep_view(), vars_view(variables)),
    {
        let stack: Vec<Value> = Vec::new();
        assert(stack.deep_view() =~= Seq::empty());
        Frame { code, pc: 0, stack, variables, registers: empty_registers() }
    }

    /// Moves the position by `offset`; a target outside the code is the
    /// end of the code.
    fn jump(&mut self, offset: i32)
        requires
            old(self).wf(),
        ensures
            final(self).wf(),
            final(self).deep_view() == old(self).deep_view().jumped(offset),
    {
        let target = self.pc as i128 + offset as i128;
        if 0 <= target && target <= self.code.len() as i128 {
            self.pc = target as usize;
        } else {
            self.pc = self.code.len();
        }
        assert(self.code@.len() == self.code.deep_view().len());
    }

    /// Sets a register.
    fn set_register(&mut self, r: u8, v: Value)
        requires
            old(self).wf(),
            r < REGISTERS,
        ensures
            final(self).wf(),
            final(self).deep_view() == old(self).deep_view().with_reg(r, v@),
    {
        let ghost before = self.registers.deep_view();
        self.registers.set(r as usize, Some(v));
        assert(self.registers.deep_view() =~= before.update(r as int, Some(v@)));
    }

    /// The value of a register, if it has one.
    fn register(&self, r: u8) -> (v: Option<Value>)
        requires
            self.wf(),
            r < REGISTERS,
        ensures
            match v {
                Some(x) => self.deep_view().regs[r as int] == Some(x@),
                None => self.deep_view().regs[r as int] is None,
            },
    {
        match &self.registers[r as usize] {
            Some(v) => Some(v.clone()),
            None => None,
        }
    }

    /// The activation of the function `name`, with its arguments taken
    /// from the stack of this one.
    fn enter(&mut self, program: &BytecodeProgram, name: &str) -> (r: Result<Frame, String>)
        requires
            old(self).wf(),
        ensures
            final(self).wf(),
            match r {
                Ok(callee) => enter(program.deep_view(), old(self).deep_view(), name@) == Ok::<
                    (FrameView, FrameView),
                    Seq<char>,
                >((final(self).deep_view(), callee.deep_view())) && callee.wf(),
                Err(m) => enter(program.deep_view(), old(self).deep_view(), name@) == Err::<
                    (FrameView, FrameView),
                    Seq<char>,
                >(m@),
            },
    {
        let found = match lookup_function(program, name) {
            Some(found) => found,
            None => {
                let mut m = String::from_str("Function not found: ");
                m.append(name);
                return Err(m);
            },
        };
        let args = take_arguments(&mut self.stack, found.count);
        assert(found.params@.len() == found.params.deep_view().len());
        if found.params.len() != found.count {
            let mut m = String::from_str("Parameter count mismatch: expected ");
            m.append(u128_text(found.params.len() as u128).as_str());
            m.append(" parameters, got ");
            m.append(u128_text(found.count as u128).as_str());
            return Err(m);
        }
        let variables = bind_arguments(&found.params, args);
        Ok(Frame::start(found.code, variables))
    }
}

/// What one instruction has done to the activation that ran it.
pub enum Action {
    /// The activation goes on.
    Next,
    /// The activation goes on, and a line is put out.
    Print(String),
    /// The activation waits while a new one runs.
    Call(Frame),
    /// A new activation takes the place of this one.
    TailCall(Frame),
    /// The activation ends with a value.
    Return(Value),
    /// The run fails with a message.
    Fail(String),
}

impl Action {
    /// The effect that the action stands for, on the activation `f`.
    pub open spec fn effect(self, f: FrameView) -> Effect {
        match self {
            Action::Next => Effect::Next(f),
            Action::Print(line) => Effect::Print(f, line@),
            Action::Call(callee) => Effect::Call(f, callee.deep_view()),
            Action::TailCall(callee) => Effect::TailCall(callee.deep_view()),
            Action::Return(v) => Effect::Return(v@),
            Action::Fail(m) => Effect::Fail(m@),
        }
    }

    /// A new activation is well formed.
    pub open spec fn wf(self) -> bool {
        match self {
            Action::Call(callee) => callee.wf(),
            Action::TailCall(callee) => callee.wf(),
            _ => true,
        }
    }
}

/// Executes one instruction on the activation `frame`, whose position is
/// already past the instruction.
pub fn perform(program: &BytecodeProgram, frame: &mut Frame, instr: &Bytecode) -> (a: Action)
    requires
        old(frame).wf(),
    ensures
        final(frame).wf(),
        a.wf(),
        a.effect(final(frame).deep_view()) == effect(
            program.deep_view(),
            old(frame).deep_view(),
            instr.deep_view(),
        ),
{
    match instr {
        Bytecode::LoadConst(v) => {
            push_value(&mut frame.stack, v.clone());
            Action::Next
        },
        Bytecode::LoadVar(name) => {
            let v = load_var(&frame.variables, name.as_str());
            push_value(&mut frame.stack, v);
            Action::Next
        },
        Bytecode::StoreVar(name) => {
            let v = pop_value(&mut frame.stack);
            store_var(&mut frame.variables, name.as_str(), v);
            Action::Next
        },
        Bytecode::Add | Bytecode::Sub | Bytecode::Mul | Bytecode::Mod => {
            let b = pop_value(&mut frame.stack);
            let a = pop_value(&mut frame.stack);
            match compute(instr, a, b) {
                Ok(v) => {
                    push_value(&mut frame.stack, v);
                    Action::Next
                },
                Err(m) => Action::Fail(m),
            }
        },
        Bytecode::Le | Bytecode::Lt | Bytecode::Gt | Bytecode::Ge | Bytecode::Eq => {
            let b = pop_value(&mut frame.stack);
            let a = pop_value(&mut frame.stack);
            push_value(&mut frame.stack, compare(instr, &a, &b));
            Action::Next
        },
        Bytecode::LoadReg(r, name) => {
            if (*r as usize) < REGISTERS {
                let v = load_var(&frame.variables, name.as_str());
                frame.set_register(*r, v.clone());
                push_value(&mut frame.stack, v);
            }
            Action::Next
        },
        Bytecode::StoreReg(name, r) => {
            if (*r as usize) < REGISTERS {
                match frame.register(*r) {
                    Some(v) => {
                        store_var(&mut frame.variables, name.as_str(), v);
                    },
                    None => {},
                }
            }
            Action::Next
        },
        Bytecode::AddReg(r1, r2) | Bytecode::SubReg(r1, r2) | Bytecode::MulReg(r1, r2) => {
            if (*r1 as usize) < REGISTERS && (*r2 as usize) < REGISTERS {
                match (frame.register(*r1), frame.register(*r2)) {
                    (Some(a), Some(b)) => {
                        match compute(instr, a, b) {
                            Ok(v) => {
                                frame.set_register(*r1, v.clone());
                                push_value(&mut frame.stack, v);
                            },
                            Err(m) => {
                                return Action::Fail(m);
                            },
                        }
                    },
                    _ => {},
                }
            }
            Action::Next
        },
        Bytecode::Jump(offset) => {
            frame.jump(*offset);
            Action::Next
        },
        Bytecode::JumpIfFalse(offset) => {
            let v = pop_value(&mut frame.stack);
            if v.is_false() {
                frame.jump(*offset);
            }
            Action::Next
        },
        Bytecode::Call(name) => match frame.enter(program, name.as_str()) {
            Ok(callee) => Action::Call(callee),
            Err(m) => Action::Fail(m),
        },
        Bytecode::TailCall(name) => match frame.enter(program, name.as_str()) {
            Ok(callee) => Action::TailCall(callee),
            Err(m) => Action::Fail(m),
        },
        Bytecode::Return => Action::Return(pop_value(&mut frame.stack)),
        Bytecode::Out => {
            let v = pop_value(&mut frame.stack);
            Action::Print(v.to_string())
        },
        Bytecode::FuncDef(_, _, _) => Action::Next,
    }
}

/// How a run stands.
pub enum RunStatus {
    /// There is an activation to go on with.
    Running,
    /// The first activation has ended with a value.
    Done(Value),
    /// The run has failed with a message.
    Failed(String),
}

impl DeepView for RunStatus {
    type V = Status;

    open spec fn deep_view(&self) -> Status {
        match self {
            RunStatus::Running => Status::Running,
            RunStatus::Done(v) => Status::Done(v@),
            RunStatus::Failed(m) => Status::Failed(m@),
        }
    }
}

/// The number that the caller of `execute` gets for a final value.
pub fn value_as_u64(v: &Value) -> (r: u64)
    ensures
        r == as_u64(v@),
{
    match v {
        Value::Integer(n) => match n.to_i64() {
            Ok(x) => {
                if x >= 0 {
                    x as u64
                } else {
                    (x as i128 + 0x1_0000_0000_0000_0000) as u64
                }
            },
            Err(_) => 0,
        },
        Value::String(_) => 0,
    }
}

/// The interpreter of a compiled program.
pub struct BytecodeInterpreter {
    frames: Vec<Frame>,
    program: BytecodeProgram,
    output: Vec<String>,
    status: RunStatus,
    memory_pool: InterpreterMemoryPool,
}

impl BytecodeInterpreter {
    /// The program.
    pub closed spec fn code(&self) -> ProgramCode {
        self.program.deep_view()
    }

    /// The machine as it stands.
    pub closed spec fn machine(&self) -> Machine {
        Machine {
            frames: self.frames.deep_view(),
            output: self.output.deep_view(),
            status: self.status.deep_view(),
        }
    }

    /// Every activation is well formed.
    pub closed spec fn wf(&self) -> bool {
        forall|i: int| 0 <= i < self.frames@.len() ==> (#[trigger] self.frames@[i]).wf()
    }

    /// The interpreter that is about to run the top level of `program`.
    pub fn new(program: BytecodeProgram) -> (r: Self)
        ensures
            r.wf(),
            r.code() == program.deep_view(),
            r.machine() == Machine::start(program.deep_view()),
    {
        let memory_pool = get_interpreter_pool();
        let variables: NameMap<Value> = NameMap::new();
        assert(vars_view(variables) =~= Map::empty());
        let first = Frame::start(clone_code(&program.instructions), variables);
        let mut frames: Vec<Frame> = Vec::new();
        frames.push(first);
        let output: Vec<String> = Vec::new();
        assert(frames.deep_view() =~= seq![first.deep_view()]);
        assert(output.deep_view() =~= Seq::empty());
        BytecodeInterpreter { frames, program, output, status: RunStatus::Running, memory_pool }
    }

    /// The lines put out so far.
    pub fn get_output(&self) -> (r: &Vec<String>)
        ensures
            r.deep_view() == self.machine().output,
    {
        &self.output
    }

    /// Whether the machine can take a step.
    fn is_running(&self) -> (r: bool)
        ensures
            r == self.machine().running(),
    {
        assert(self.frames@.len() == self.frames.deep_view().len());
        match self.status {
            RunStatus::Running => self.frames.len() > 0,
            _ => false,
        }
    }

    /// Ends the running activation, which was taken off the stack of
    /// activations, with the value `v`.
    fn finish(&mut self, v: Value, Ghost(before): Ghost<Machine>)
        requires
            old(self).wf(),
            before.frames.len() > 0,
            before.frames.drop_last() == old(self).frames.deep_view(),
            before.output == old(self).output.deep_view(),
            before.status == old(self).status.deep_view(),
        ensures
            final(self).wf(),
            final(self).program == old(self).program,
            final(self).machine() == before.returned(v@),
    {
        let ghost waiting = self.frames.deep_view();
        assert(self.frames@.len() == waiting.len());
        match self.frames.pop() {
            Some(mut caller) => {
                let ghost rest = self.frames.deep_view();
                assert(caller.deep_view() == waiting.last());
                assert(waiting.last() == before.frames[before.frames.len() - 2]);
                assert(rest =~= before.frames.subrange(0, before.frames.len() - 2));
                assert(caller.wf());
                push_value(&mut caller.stack, v);
                self.frames.push(caller);
                assert(self.frames.deep_view() =~= rest.push(caller.deep_view()));
            },
            None => {
                self.status = RunStatus::Done(v);
                assert(self.frames.deep_view() =~= Seq::empty());
            },
        }
    }

    /// Takes one step.
    pub fn step(&mut self)
        requires
            old(self).wf(),
            old(self).machine().running(),
        ensures
            final(self).wf(),
            final(self).code() == old(self).code(),
            final(self).machine() == step(old(self).code(), old(self).machine()),
    {
        let ghost before = self.machine();
        assert(self.frames@.len() == self.frames.deep_view().len());
        let mut frame = match self.frames.pop() {
            Some(frame) => frame,
            None => {
                return ;
            },
        };
        assert(self.frames.deep_view() =~= before.frames.drop_last());
        assert(frame.deep_view() == before.frames.last());
        assert(frame.code@.len() == frame.code.deep_view().len());
        if frame.pc >= frame.code.len() {
            let v = pop_value(&mut frame.stack);
            self.finish(v, Ghost(before));
            return ;
        }
        let instr = clone_instr(&frame.code[frame.pc]);
        frame.pc = frame.pc + 1;
        let ghost rest = self.frames.deep_view();
        let action = perform(&self.program, &mut frame, &instr);
        match action {
            Action::Next => {
                self.frames.push(frame);
                assert(self.frames.deep_view() =~= rest.push(frame.deep_view()));
            },
            Action::Print(line) => {
                let ghost lines = self.output.deep_view();
                self.frames.push(frame);
                self.output.push(line);
                assert(self.frames.deep_view() =~= rest.push(frame.deep_view()));
                assert(self.output.deep_view() =~= lines.push(line@));
            },
            Action::Call(callee) => {
                self.frames.push(frame);
                self.frames.push(callee);
                assert(self.frames.deep_view() =~= rest.push(frame.deep_view()).push(
                    callee.deep_view(),
                ));
            },
            Action::TailCall(callee) => {
                self.frames.push(callee);
                assert(self.frames.deep_view() =~= rest.push(callee.deep_view()));
            },
            Action::Return(v) => {
                self.finish(v, Ghost(before));
            },
            Action::Fail(m) => {
                self.frames.clear();
                self.status = RunStatus::Failed(m);
                assert(self.frames.deep_view() =~= Seq::empty());
            },
        }
    }

    /// Runs the machine until the run is done or has failed, for at most
    /// `MAX_STEPS` steps, and gives the final value as a number, or the
    /// message of the failure. A run that is not over after that many
    /// steps gives `Step limit exceeded`.
    pub fn execute(&mut self) -> (r: Result<u64, String>)
        requires
            old(self).wf(),
        ensures
            final(self).wf(),
            final(self).code() == old(self).code(),
            final(self).machine() == run(old(self).code(), old(self).machine(), MAX_STEPS as nat),
            match r {
                Ok(n) => final(self).machine().status matches Status::Done(v) && n == as_u64(v),
                Err(m) => match final(self).machine().status {
                    Status::Failed(e) => m@ == e,
                    Status::Running => m@ == "Step limit exceeded"@,
                    Status::Done(_) => false,
                },
            },
    {
        let mut fuel: u64 = MAX_STEPS;
        while fuel > 0 && self.is_running()
            invariant
                self.wf(),
                self.code() == old(self).code(),
                run(old(self).code(), old(self).machine(), MAX_STEPS as nat) == run(
                    self.code(),
                    self.machine(),
                    fuel as nat,
                ),
            decreases fuel,
        {
            self.step();
            fuel = fuel - 1;
        }
        match &self.status {
            RunStatus::Done(v) => Ok(value_as_u64(v)),
            RunStatus::Failed(m) => Err(m.clone()),
            RunStatus::Running => Err(String::from_str("Step limit exceeded")),
        }
    }
}

/// Runs a compiled program from its first instruction and gives the
/// final value as a number with the lines put out, or the message of the
/// failure.
pub fn execute_bytecode(program: BytecodeProgram) -> (r: Result<(u64, Vec<String>), String>)
    ensures
        ({
            let end = run(
                program.deep_view(),
                Machine::start(program.deep_view()),
                MAX_STEPS as nat,
            );
            match r {
                Ok((n, lines)) => end.status matches Status::Done(v) && n == as_u64(v)
                    && lines.deep_view() == end.output,
                Err(m) => match end.status {
                    Status::Failed(e) => m@ == e,
                    Status::Running => m@ == "Step limit exceeded"@,
                    Status::Done(_) => false,
                },
            }
        }),
{
    let mut interpreter = BytecodeInterpreter::new(program);
    match interpreter.execute() {
        Ok(n) => Ok((n, interpreter.output)),
        Err(m) => Err(m),
    }
}

} // verus!
