//! The stack machine, as mathematics: what one step does to an
//! activation and to the stack of activations, and what a run of steps
//! gives.

use crate::bytecode::{CachedView, CompiledView, Instr};
use crate::text::nat_text;
use crate::types::{add_spec, mul_spec, rem_spec, sub_spec, IntegerType, ValueView};
use vstd::prelude::*;

verus! {

/// The number of registers of an activation.
pub const REGISTERS: usize = 8;

/// A function of the plain table: its parameters joined by commas, and
/// its code.
pub struct FunctionView {
    pub param_str: Seq<char>,
    pub code: Seq<Instr>,
}

/// A compiled program: the code of the top level, the two tables of
/// functions, and the cache of the compiler.
pub struct ProgramCode {
    pub main: Seq<Instr>,
    pub functions: Map<Seq<char>, FunctionView>,
    pub compiled: Map<Seq<char>, CompiledView>,
    pub cache: Map<Seq<char>, CachedView>,
}

/// A function as a call finds it: the names of its parameters, the number
/// of arguments it takes from the stack, and its code.
pub struct Callee {
    pub params: Seq<Seq<char>>,
    pub count: nat,
    pub code: Seq<Instr>,
}

/// The pieces of `s` from `i` on that commas separate, without the empty
/// ones; `current` is the piece that is being read and `acc` holds
/// those before it.
pub open spec fn split_from(s: Seq<char>, i: int, current: Seq<char>, acc: Seq<Seq<char>>) -> Seq<
    Seq<char>,
>
    decreases s.len() - i,
{
    let closed = if current.len() > 0 {
        acc.push(current)
    } else {
        acc
    };
    if i < 0 || i >= s.len() {
        closed
    } else if s[i] == ',' {
        split_from(s, i + 1, Seq::empty(), closed)
    } else {
        split_from(s, i + 1, current.push(s[i]), acc)
    }
}

/// The names of the parameters in a string that joins them by commas.
pub open spec fn split_params(s: Seq<char>) -> Seq<Seq<char>> {
    split_from(s, 0, Seq::empty(), Seq::empty())
}

/// The function that a call of `name` finds: the compiled one, else the
/// one of the plain table.
pub open spec fn find_function(p: ProgramCode, name: Seq<char>) -> Option<Callee> {
    if p.compiled.contains_key(name) {
        Some(
            Callee {
                params: split_params(p.compiled[name].param_str),
                count: p.compiled[name].param_count,
                code: p.compiled[name].instructions,
            },
        )
    } else if p.functions.contains_key(name) {
        Some(
            Callee {
                params: split_params(p.functions[name].param_str),
                count: split_params(p.functions[name].param_str).len(),
                code: p.functions[name].code,
            },
        )
    } else {
        None
    }
}

/// An activation: the code it runs, the position of the next instruction,
/// its operand stack, its variables and its registers.
pub struct FrameView {
    pub code: Seq<Instr>,
    pub pc: int,
    pub stack: Seq<ValueView>,
    pub vars: Map<Seq<char>, ValueView>,
    pub regs: Seq<Option<ValueView>>,
}

impl FrameView {
    /// The activation that begins to run `code` with the variables `vars`.
    pub open spec fn start(code: Seq<Instr>, vars: Map<Seq<char>, ValueView>) -> FrameView {
        FrameView {
            code,
            pc: 0,
            stack: Seq::empty(),
            vars,
            regs: Seq::new(REGISTERS as nat, |i: int| None::<ValueView>),
        }
    }

    /// The position lies in the code or at its end, and there are eight
    /// registers.
    pub open spec fn wf(self) -> bool {
        0 <= self.pc <= self.code.len() && self.regs.len() == REGISTERS
    }

    /// The value on top of the stack; the `I64` zero for an empty stack.
    pub open spec fn top(self) -> ValueView {
        if self.stack.len() > 0 {
            self.stack.last()
        } else {
            ValueView::zero()
        }
    }

    /// The activation without the value on top of its stack.
    pub open spec fn popped(self) -> FrameView {
        FrameView {
            stack: if self.stack.len() > 0 {
                self.stack.drop_last()
            } else {
                self.stack
            },
            ..self
        }
    }

    /// The activation with `v` on top of its stack.
    pub open spec fn pushed(self, v: ValueView) -> FrameView {
        FrameView { stack: self.stack.push(v), ..self }
    }

    /// The value of a variable; the `I64` zero for one that is not set.
    pub open spec fn var(self, name: Seq<char>) -> ValueView {
        if self.vars.contains_key(name) {
            self.vars[name]
        } else {
            ValueView::zero()
        }
    }

    /// The activation with the variable `name` set to `v`.
    pub open spec fn with_var(self, name: Seq<char>, v: ValueView) -> FrameView {
        FrameView { vars: self.vars.insert(name, v), ..self }
    }

    /// The activation with the register `r` set to `v`.
    pub open spec fn with_reg(self, r: u8, v: ValueView) -> FrameView {
        FrameView { regs: self.regs.update(r as int, Some(v)), ..self }
    }

    /// The activation after a jump by `offset`, counted from the position
    /// it is at. A target outside the code is the end of the code.
    pub open spec fn jumped(self, offset: i32) -> FrameView {
        let target = self.pc + offset;
        FrameView {
            pc: if 0 <= target <= self.code.len() {
                target
            } else {
                self.code.len() as int
            },
            ..self
        }
    }
}

/// What one instruction does to the activation that runs it.
pub enum Effect {
    /// The activation goes on as given.
    Next(FrameView),
    /// The activation goes on as given, and a line is put out.
    Print(FrameView, Seq<char>),
    /// The activation waits as given while a new one runs.
    Call(FrameView, FrameView),
    /// A new activation takes the place of this one.
    TailCall(FrameView),
    /// The activation ends with a value.
    Return(ValueView),
    /// The run fails with a message.
    Fail(Seq<char>),
}

/// The result of an arithmetic instruction on the two values on top of
/// the stack: of integers, what the integer algebra gives; of anything
/// else, the `I64` zero.
pub open spec fn arithmetic(instr: Instr, a: ValueView, b: ValueView) -> Result<ValueView, Seq<char>> {
    match (a, b) {
        (ValueView::Integer(x), ValueView::Integer(y)) => {
            let r = match instr {
                Instr::Add => add_spec(x, y),
                Instr::AddReg(_, _) => add_spec(x, y),
                Instr::Sub => sub_spec(x, y),
                Instr::SubReg(_, _) => sub_spec(x, y),
                Instr::Mul => mul_spec(x, y),
                Instr::MulReg(_, _) => mul_spec(x, y),
                _ => rem_spec(x, y),
            };
            match r {
                Ok(v) => Ok(ValueView::Integer(v)),
                Err(m) => Err(m),
            }
        },
        _ => Ok(ValueView::zero()),
    }
}

/// The result of a comparison of the two values on top of the stack: the
/// `I64` one or zero. `Eq` holds of two values of the same kind and
/// content, integers of the same width too; the others compare integers
/// by their value and give zero for anything else.
pub open spec fn comparison(instr: Instr, a: ValueView, b: ValueView) -> ValueView {
    match instr {
        Instr::Eq => ValueView::flag(a == b),
        _ => match (a, b) {
            (ValueView::Integer(x), ValueView::Integer(y)) => ValueView::flag(
                match instr {
                    Instr::Le => x.value <= y.value,
                    Instr::Lt => x.value < y.value,
                    Instr::Gt => x.value > y.value,
                    _ => x.value >= y.value,
                },
            ),
            _ => ValueView::zero(),
        },
    }
}

/// The arguments of a call: `n` values from the top of the stack, the
/// topmost being the last argument, before those in `args`; and the
/// stack without them. A value that the stack lacks is the `I64` zero.
pub open spec fn take_args(stack: Seq<ValueView>, n: nat, args: Seq<ValueView>) -> (
    Seq<ValueView>,
    Seq<ValueView>,
)
    decreases n,
{
    if n == 0 {
        (args, stack)
    } else if stack.len() > 0 {
        take_args(stack.drop_last(), (n - 1) as nat, seq![stack.last()] + args)
    } else {
        take_args(stack, (n - 1) as nat, seq![ValueView::zero()] + args)
    }
}

/// The variables of a new activation: each parameter from `i` on bound to
/// its argument, a later one of the same name in place of an earlier.
pub open spec fn bind(
    params: Seq<Seq<char>>,
    args: Seq<ValueView>,
    i: int,
    vars: Map<Seq<char>, ValueView>,
) -> Map<Seq<char>, ValueView>
    decreases params.len() - i,
{
    if i < 0 || i >= params.len() || i >= args.len() {
        vars
    } else {
        bind(params, args, i + 1, vars.insert(params[i], args[i]))
    }
}

/// `Function not found: NAME`.
pub open spec fn not_found(name: Seq<char>) -> Seq<char> {
    "Function not found: "@ + name
}

/// `Parameter count mismatch: expected P parameters, got A`.
pub open spec fn count_mismatch(params: nat, args: nat) -> Seq<char> {
    "Parameter count mismatch: expected "@ + nat_text(params) + " parameters, got "@ + nat_text(
        args,
    )
}

/// The activation of the function `name` with its arguments taken from
/// the stack of `f`, and `f` without them; or the message where no such
/// function is found, or where it names another number of parameters
/// than it takes arguments.
pub open spec fn enter(p: ProgramCode, f: FrameView, name: Seq<char>) -> Result<
    (FrameView, FrameView),
    Seq<char>,
> {
    match find_function(p, name) {
        None => Err(not_found(name)),
        Some(callee) => {
            let taken = take_args(f.stack, callee.count, Seq::empty());
            if callee.params.len() != callee.count {
                Err(count_mismatch(callee.params.len(), callee.count))
            } else {
                Ok(
                    (
                        FrameView { stack: taken.1, ..f },
                        FrameView::start(callee.code, bind(callee.params, taken.0, 0, Map::empty())),
                    ),
                )
            }
        },
    }
}

/// What the instruction `instr` does to the activation `f`, whose
/// position is already past the instruction.
pub open spec fn effect(p: ProgramCode, f: FrameView, instr: Instr) -> Effect {
    match instr {
        Instr::LoadConst(v) => Effect::Next(f.pushed(v)),
        Instr::LoadVar(name) => Effect::Next(f.pushed(f.var(name))),
        Instr::StoreVar(name) => Effect::Next(f.popped().with_var(name, f.top())),
        Instr::Add | Instr::Sub | Instr::Mul | Instr::Mod => {
            let b = f.top();
            let a = f.popped().top();
            match arithmetic(instr, a, b) {
                Ok(v) => Effect::Next(f.popped().popped().pushed(v)),
                Err(m) => Effect::Fail(m),
            }
        },
        Instr::Le | Instr::Lt | Instr::Gt | Instr::Ge | Instr::Eq => {
            let b = f.top();
            let a = f.popped().top();
            Effect::Next(f.popped().popped().pushed(comparison(instr, a, b)))
        },
        Instr::LoadReg(r, name) => if r < REGISTERS {
            Effect::Next(f.with_reg(r, f.var(name)).pushed(f.var(name)))
        } else {
            Effect::Next(f)
        },
        Instr::StoreReg(name, r) => if r < REGISTERS && f.regs[r as int] is Some {
            Effect::Next(f.with_var(name, f.regs[r as int]->0))
        } else {
            Effect::Next(f)
        },
        Instr::AddReg(r1, r2) | Instr::SubReg(r1, r2) | Instr::MulReg(r1, r2) => if r1 < REGISTERS
            && r2 < REGISTERS && f.regs[r1 as int] is Some && f.regs[r2 as int] is Some {
            match arithmetic(instr, f.regs[r1 as int]->0, f.regs[r2 as int]->0) {
                Ok(v) => Effect::Next(f.with_reg(r1, v).pushed(v)),
                Err(m) => Effect::Fail(m),
            }
        } else {
            Effect::Next(f)
        },
        Instr::Jump(offset) => Effect::Next(f.jumped(offset)),
        Instr::JumpIfFalse(offset) => if f.top().is_false() {
            Effect::Next(f.popped().jumped(offset))
        } else {
            Effect::Next(f.popped())
        },
        Instr::Call(name) => match enter(p, f, name) {
            Ok(pair) => Effect::Call(pair.0, pair.1),
            Err(m) => Effect::Fail(m),
        },
        Instr::TailCall(name) => match enter(p, f, name) {
            Ok(pair) => Effect::TailCall(pair.1),
            Err(m) => Effect::Fail(m),
        },
        Instr::Return => Effect::Return(f.top()),
        Instr::Out => Effect::Print(f.popped(), f.top().shown()),
        Instr::FuncDef(_, _, _) => Effect::Next(f),
    }
}

/// How a run stands.
pub enum Status {
    /// There is an activation to go on with.
    Running,
    /// The first activation has ended with a value.
    Done(ValueView),
    /// The run has failed with a message.
    Failed(Seq<char>),
}

/// The machine: the activations, the running one last; the lines put out
/// so far; and how the run stands.
pub struct Machine {
    pub frames: Seq<FrameView>,
    pub output: Seq<Seq<char>>,
    pub status: Status,
}

impl Machine {
    /// The machine that begins to run the top level of a program.
    pub open spec fn start(p: ProgramCode) -> Machine {
        Machine {
            frames: seq![FrameView::start(p.main, Map::empty())],
            output: Seq::empty(),
            status: Status::Running,
        }
    }

    /// The machine can take a step.
    pub open spec fn running(self) -> bool {
        self.status is Running && self.frames.len() > 0
    }

    /// The machine after the running activation has ended with `v`: the
    /// value goes on the stack of the activation that called it, or ends
    /// the run where there is none.
    pub open spec fn returned(self, v: ValueView) -> Machine {
        if self.frames.len() <= 1 {
            Machine { frames: Seq::empty(), status: Status::Done(v), ..self }
        } else {
            let caller = self.frames[self.frames.len() - 2];
            Machine {
                frames: self.frames.subrange(0, self.frames.len() - 2).push(caller.pushed(v)),
                ..self
            }
        }
    }

    /// The machine after an effect on its running activation. A failure
    /// ends the run and leaves no activation.
    pub open spec fn after(self, e: Effect) -> Machine {
        let rest = self.frames.drop_last();
        match e {
            Effect::Next(f) => Machine { frames: rest.push(f), ..self },
            Effect::Print(f, line) => Machine {
                frames: rest.push(f),
                output: self.output.push(line),
                ..self
            },
            Effect::Call(caller, callee) => Machine { frames: rest.push(caller).push(callee), ..self },
            Effect::TailCall(callee) => Machine { frames: rest.push(callee), ..self },
            Effect::Return(v) => self.returned(v),
            Effect::Fail(m) => Machine { frames: Seq::empty(), status: Status::Failed(m), ..self },
        }
    }
}

/// The machine after one step of a machine that is running: the running
/// activation executes the instruction at its position and moves past
/// it; at the end of its code it returns the value on top of its stack.
pub open spec fn step(p: ProgramCode, m: Machine) -> Machine {
    let f = m.frames.last();
    if 0 <= f.pc < f.code.len() {
        m.after(effect(p, FrameView { pc: f.pc + 1, ..f }, f.code[f.pc]))
    } else {
        m.returned(f.top())
    }
}

/// The machine after at most `fuel` steps; it stops before that where the
/// run is done or has failed.
pub open spec fn run(p: ProgramCode, m: Machine, fuel: nat) -> Machine
    decreases fuel,
{
    if fuel == 0 || !m.running() {
        m
    } else {
        run(p, step(p, m), (fuel - 1) as nat)
    }
}

/// The number that the caller of `execute` gets for the final value: an
/// integer that an `i64` holds, taken modulo 2 to the 64; zero for any
/// other value.
pub open spec fn as_u64(v: ValueView) -> u64 {
    match v {
        ValueView::Integer(n) => if IntegerType::I64.holds(n.value) {
            if n.value >= 0 {
                n.value as u64
            } else {
                (n.value + 0x1_0000_0000_0000_0000) as u64
            }
        } else {
            0
        },
        ValueView::String(_) => 0,
    }
}

} // verus!
