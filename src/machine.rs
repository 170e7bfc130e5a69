//! The machine: its state, its dictionary of words and the execution engine.
use vstd::prelude::*;
use crate::compiler::{compile, compile_effect, finish_compile, finish_compile_effect};
use crate::dictionary::{Dictionary, Function, FunctionView, Primitive};
use crate::instructions;
use crate::instructions::{
    Effect, binary_effect, branch0_effect, branch_effect, dot_effect, dot_quote_effect, drop_effect,
    dup_effect, else_effect, find_match, from_r_effect, if_effect, invert_effect, over_effect,
    quote_text, rot_effect, sdot_effect, swap_effect, to_r_effect,
};
use crate::value::{ErrorType, Output, OutputView, Value, ValueView, copy_values, is_kw, outputs, tokens};

verus! {

/// The whole state of the interpreter.
#[derive(Debug)]
pub struct Machine {
    pub compile_mode: bool,
    pub compile_buffer: Vec<Value>,
    pub dictionary: Dictionary,
    pub stack: Vec<i32>,
    pub return_stack: Vec<i32>,
    pub control_flow_stack: Vec<i32>,
    /// Position of the next token in the instruction stream being executed.
    /// `0branch` may step it one past the end of the stream, so it is wider
    /// than any stream's length.
    pub pc: u128,
    /// The instruction stream being executed.
    pub data: Vec<Value>,
    /// Everything printed so far, in order.
    pub output: Vec<Output>,
}

/// The mathematical view of a `Machine`.
pub struct MachineView {
    pub compile_mode: bool,
    pub compile_buffer: Seq<ValueView>,
    pub dictionary: Map<Seq<char>, FunctionView>,
    pub stack: Seq<i32>,
    pub return_stack: Seq<i32>,
    pub control_flow_stack: Seq<i32>,
    pub pc: int,
    pub data: Seq<ValueView>,
    pub output: Seq<OutputView>,
}

impl View for Machine {
    type V = MachineView;

    open spec fn view(&self) -> MachineView {
        MachineView {
            compile_mode: self.compile_mode,
            compile_buffer: tokens(self.compile_buffer@),
            dictionary: self.dictionary@,
            stack: self.stack@,
            return_stack: self.return_stack@,
            control_flow_stack: self.control_flow_stack@,
            pc: self.pc as int,
            data: tokens(self.data@),
            output: outputs(self.output@),
        }
    }
}

/// `m` with its data stack replaced by `s`.
pub open spec fn with_stack(m: MachineView, s: Seq<i32>) -> MachineView {
    MachineView { stack: s, ..m }
}

/// The dictionary of a new machine.
pub open spec fn initial_dictionary() -> Map<Seq<char>, FunctionView> {
    map![
        ":"@ => FunctionView::Builtin(Primitive::Compile),
        ";"@ => FunctionView::Builtin(Primitive::FinishCompile),
        "+"@ => FunctionView::Builtin(Primitive::Add),
        "-"@ => FunctionView::Builtin(Primitive::Sub),
        "*"@ => FunctionView::Builtin(Primitive::Mult),
        "/"@ => FunctionView::Builtin(Primitive::Div),
        "mod"@ => FunctionView::Builtin(Primitive::Mod),
        "dup"@ => FunctionView::Builtin(Primitive::Dup),
        "drop"@ => FunctionView::Builtin(Primitive::Drop),
        "swap"@ => FunctionView::Builtin(Primitive::Swap),
        "over"@ => FunctionView::Builtin(Primitive::Over),
        "rot"@ => FunctionView::Builtin(Primitive::Rot),
        "."@ => FunctionView::Builtin(Primitive::Dot),
        ".s"@ => FunctionView::Builtin(Primitive::DotS),
        ".\""@ => FunctionView::Builtin(Primitive::DotQuote),
        "="@ => FunctionView::Builtin(Primitive::Eq),
        ">"@ => FunctionView::Builtin(Primitive::GreaterThan),
        "<"@ => FunctionView::Builtin(Primitive::LessThan),
        "and"@ => FunctionView::Builtin(Primitive::And),
        "or"@ => FunctionView::Builtin(Primitive::Or),
        "invert"@ => FunctionView::Builtin(Primitive::Invert),
        "clearstack"@ => FunctionView::Builtin(Primitive::ClearStack),
        "0branch"@ => FunctionView::Builtin(Primitive::Branch0),
        "branch"@ => FunctionView::Builtin(Primitive::Branch),
        ">r"@ => FunctionView::Builtin(Primitive::ToR),
        "r>"@ => FunctionView::Builtin(Primitive::FromR),
        "if"@ => FunctionView::Builtin(Primitive::If),
        "then"@ => FunctionView::Builtin(Primitive::Then),
        "else"@ => FunctionView::Builtin(Primitive::Else),
        "do"@ => FunctionView::Action,
        "loop"@ => FunctionView::Action
    ]
}

fn define(d: &mut Dictionary, name: &str, f: Function)
    ensures
        final(d)@ == old(d)@.insert(name@, f@),
{
    d.insert(String::from_str(name), f);
}

impl Machine {
    /// A machine in interpreting mode with empty stacks and the built-in words defined.
    pub fn new() -> (m: Machine)
        ensures
            m@ == (MachineView {
                compile_mode: false,
                compile_buffer: Seq::empty(),
                dictionary: initial_dictionary(),
                stack: Seq::empty(),
                return_stack: Seq::empty(),
                control_flow_stack: Seq::empty(),
                pc: 0,
                data: Seq::empty(),
                output: Seq::empty(),
            }),
    {
        let mut d = Dictionary::new();
        define(&mut d, ":", Function::Builtin(Primitive::Compile));
        define(&mut d, ";", Function::Builtin(Primitive::FinishCompile));
        define(&mut d, "+", Function::Builtin(Primitive::Add));
        define(&mut d, "-", Function::Builtin(Primitive::Sub));
        define(&mut d, "*", Function::Builtin(Primitive::Mult));
        define(&mut d, "/", Function::Builtin(Primitive::Div));
        define(&mut d, "mod", Function::Builtin(Primitive::Mod));
        define(&mut d, "dup", Function::Builtin(Primitive::Dup));
        define(&mut d, "drop", Function::Builtin(Primitive::Drop));
        define(&mut d, "swap", Function::Builtin(Primitive::Swap));
        define(&mut d, "over", Function::Builtin(Primitive::Over));
        define(&mut d, "rot", Function::Builtin(Primitive::Rot));
        define(&mut d, ".", Function::Builtin(Primitive::Dot));
        define(&mut d, ".s", Function::Builtin(Primitive::DotS));
        define(&mut d, ".\"", Function::Builtin(Primitive::DotQuote));
        define(&mut d, "=", Function::Builtin(Primitive::Eq));
        define(&mut d, ">", Function::Builtin(Primitive::GreaterThan));
        define(&mut d, "<", Function::Builtin(Primitive::LessThan));
        define(&mut d, "and", Function::Builtin(Primitive::And));
        define(&mut d, "or", Function::Builtin(Primitive::Or));
        define(&mut d, "invert", Function::Builtin(Primitive::Invert));
        define(&mut d, "clearstack", Function::Builtin(Primitive::ClearStack));
        define(&mut d, "0branch", Function::Builtin(Primitive::Branch0));
        define(&mut d, "branch", Function::Builtin(Primitive::Branch));
        define(&mut d, ">r", Function::Builtin(Primitive::ToR));
        define(&mut d, "r>", Function::Builtin(Primitive::FromR));
        define(&mut d, "if", Function::Builtin(Primitive::If));
        define(&mut d, "then", Function::Builtin(Primitive::Then));
        define(&mut d, "else", Function::Builtin(Primitive::Else));
        define(&mut d, "do", Function::Action);
        define(&mut d, "loop", Function::Action);
        let m = Machine {
            compile_mode: false,
            compile_buffer: Vec::new(),
            dictionary: d,
            stack: Vec::new(),
            return_stack: Vec::new(),
            control_flow_stack: Vec::new(),
            pc: 0,
            data: Vec::new(),
            output: Vec::new(),
        };
        proof {
            assert(tokens(m.compile_buffer@) =~= Seq::empty());
            assert(tokens(m.data@) =~= Seq::empty());
            assert(outputs(m.output@) =~= Seq::empty());
        }
        m
    }

    /// Pushes `input` onto the data stack.
    pub fn push(&mut self, input: i32)
        ensures
            final(self)@ == with_stack(old(self)@, old(self)@.stack.push(input)),
    {
        self.stack.push(input);
    }

    /// Pops the top of the data stack, if there is one.
    pub fn pop(&mut self) -> (r: Option<i32>)
        ensures
            old(self)@.stack.len() == 0 ==> r is None && final(self)@ == old(self)@,
            old(self)@.stack.len() > 0 ==> r == Some(old(self)@.stack.last())
                && final(self)@ == with_stack(old(self)@, old(self)@.stack.drop_last()),
    {
        self.stack.pop()
    }
}

/// How deeply calls of user-defined words may nest.
pub const MAX_CALL_DEPTH: usize = 512;

/// What primitive `p` does to the machine.
pub open spec fn primitive_effect(p: Primitive, m: MachineView) -> Effect {
    match p {
        Primitive::Compile => compile_effect(m),
        Primitive::FinishCompile => finish_compile_effect(m),
        Primitive::Dup => dup_effect(m),
        Primitive::Drop => drop_effect(m),
        Primitive::Swap => swap_effect(m),
        Primitive::Over => over_effect(m),
        Primitive::Rot => rot_effect(m),
        Primitive::Dot => dot_effect(m),
        Primitive::DotS => sdot_effect(m),
        Primitive::DotQuote => dot_quote_effect(m),
        Primitive::Invert => invert_effect(m),
        Primitive::ClearStack => (with_stack(m, Seq::empty()), Ok(())),
        Primitive::Branch0 => branch0_effect(m),
        Primitive::Branch => branch_effect(m),
        Primitive::ToR => to_r_effect(m),
        Primitive::FromR => from_r_effect(m),
        Primitive::If => if_effect(m),
        Primitive::Then => (m, Ok(())),
        Primitive::Else => else_effect(m),
        _ => binary_effect(p, m),
    }
}

/// How many tokens of the stream lie at or after the instruction pointer.
pub open spec fn remaining(m: MachineView) -> nat {
    if 0 <= m.pc < m.data.len() {
        (m.data.len() - m.pc) as nat
    } else {
        0
    }
}

/// Executes the instruction stream `m.data` from position `m.pc` to its end,
/// allowing `depth` more levels of nested calls. A number is pushed; a word
/// is looked up: a primitive acts on the machine, a user-defined word runs
/// its body as a stream of its own and execution then resumes after the
/// word in the caller's stream. In compile mode every token but `;` is
/// appended to the compile buffer instead. The first failure ends the run
/// and leaves the machine as it stands.
///
/// A call's frame, the caller's instruction pointer and stream, is kept by
/// the call itself and restored when the body returns; it is not pushed on
/// the return stack, which serves only `>r` and `r>`. The body run is the
/// one the dictionary holds when the call is dispatched.
pub open spec fn run(m: MachineView, depth: nat) -> Effect
    decreases depth, remaining(m),
    via run_decreases
{
    if m.pc < 0 || m.pc >= m.data.len() {
        (m, Ok(()))
    } else {
        let t = m.data[m.pc];
        let m1 = MachineView { pc: m.pc + 1, ..m };
        if m.compile_mode && !is_kw(t, ";"@) {
            run(MachineView { compile_buffer: m.compile_buffer.push(t), ..m1 }, depth)
        } else {
            match t {
                ValueView::Number(n) => run(with_stack(m1, m.stack.push(n)), depth),
                ValueView::Word(w) => if !m.dictionary.contains_key(w) {
                    (
                        MachineView { output: m.output.push(OutputView::UnknownWord(w)), ..m1 },
                        Err(ErrorType::WordNotFound),
                    )
                } else {
                    match m.dictionary[w] {
                        FunctionView::Action => (m1, Err(ErrorType::OutsideCompileMode)),
                        FunctionView::Builtin(p) => {
                            let (m2, r) = primitive_effect(p, m1);
                            if r is Err {
                                (m2, r)
                            } else {
                                run(m2, depth)
                            }
                        },
                        FunctionView::UserDefined(body) => if depth == 0 {
                            (m1, Err(ErrorType::CallDepthExceeded))
                        } else {
                            let (m2, r) = run(
                                MachineView { pc: 0, data: body, ..m1 },
                                (depth - 1) as nat,
                            );
                            if r is Err {
                                (m2, r)
                            } else {
                                run(MachineView { pc: m1.pc, data: m.data, ..m2 }, depth)
                            }
                        },
                    }
                },
            }
        }
    }
}

#[via_fn]
proof fn run_decreases(m: MachineView, depth: nat) {
    if 0 <= m.pc < m.data.len() {
        let t = m.data[m.pc];
        let m1 = MachineView { pc: m.pc + 1, ..m };
        if !(m.compile_mode && !is_kw(t, ";"@)) {
            if let ValueView::Word(w) = t {
                if m.dictionary.contains_key(w) {
                    if let FunctionView::Builtin(p) = m.dictionary[w] {
                        lemma_primitive_progress(p, m1);
                    }
                }
            }
        }
    }
}

proof fn lemma_quote_text_end(data: Seq<ValueView>, i: int)
    requires
        0 <= i < data.len(),
    ensures
        i < quote_text(data, i).1 <= data.len(),
    decreases data.len() - i,
{
    if i + 1 < data.len() {
        lemma_quote_text_end(data, i + 1);
    } else {
        assert(quote_text(data, i + 1).1 == i + 1);
    }
}

proof fn lemma_find_match_range(data: Seq<ValueView>, i: int, depth: int, stop_at_else: bool)
    requires
        0 <= i <= data.len(),
    ensures
        i <= find_match(data, i, depth, stop_at_else) <= data.len(),
    decreases data.len() - i,
{
    if i < data.len() {
        lemma_find_match_range(data, i + 1, depth + 1, stop_at_else);
        lemma_find_match_range(data, i + 1, depth - 1, stop_at_else);
        lemma_find_match_range(data, i + 1, depth, stop_at_else);
    }
}

/// A primitive that succeeds keeps the instruction stream and does not move
/// the instruction pointer backward.
pub proof fn lemma_primitive_progress(p: Primitive, m: MachineView)
    requires
        0 <= m.pc <= m.data.len(),
    ensures
        primitive_effect(p, m).1 is Ok ==> primitive_effect(p, m).0.data == m.data && m.pc
            <= primitive_effect(p, m).0.pc,
{
    if m.pc < m.data.len() {
        lemma_quote_text_end(m.data, m.pc);
    }
    lemma_find_match_range(m.data, m.pc, 0, true);
    lemma_find_match_range(m.data, m.pc, 0, false);
}

impl Machine {
    fn apply(&mut self, p: Primitive) -> (r: Result<(), ErrorType>)
        requires
            old(self).pc < u128::MAX,
        ensures
            (final(self)@, r) == primitive_effect(p, old(self)@),
    {
        match p {
            Primitive::Compile => compile(self),
            Primitive::FinishCompile => finish_compile(self),
            Primitive::Add => instructions::add(self),
            Primitive::Sub => instructions::sub(self),
            Primitive::Mult => instructions::mult(self),
            Primitive::Div => instructions::div(self),
            Primitive::Mod => instructions::mod_(self),
            Primitive::Dup => instructions::dup(self),
            Primitive::Drop => instructions::drop(self),
            Primitive::Swap => instructions::swap(self),
            Primitive::Over => instructions::over(self),
            Primitive::Rot => instructions::rot(self),
            Primitive::Dot => instructions::dot(self),
            Primitive::DotS => instructions::sdot(self),
            Primitive::DotQuote => instructions::dot_quote(self),
            Primitive::Eq => instructions::eq(self),
            Primitive::GreaterThan => instructions::greater_than(self),
            Primitive::LessThan => instructions::less_than(self),
            Primitive::And => instructions::and(self),
            Primitive::Or => instructions::or(self),
            Primitive::Invert => instructions::invert(self),
            Primitive::ClearStack => instructions::clearstack(self),
            Primitive::Branch0 => instructions::branch0(self),
            Primitive::Branch => instructions::branch(self),
            Primitive::ToR => instructions::to_r(self),
            Primitive::FromR => instructions::from_r(self),
            Primitive::If => instructions::if_(self),
            Primitive::Then => instructions::then_(self),
            Primitive::Else => instructions::else_(self),
        }
    }

    /// Runs the current instruction stream to its end, as `run` states.
    fn run_stream(&mut self, depth: usize) -> (r: Result<(), ErrorType>)
        ensures
            (final(self)@, r) == run(old(self)@, depth as nat),
        decreases depth,
    {
        loop
            invariant
                run(old(self)@, depth as nat) == run(self@, depth as nat),
            decreases remaining(self@),
        {
            if self.pc >= self.data.len() as u128 {
                return Ok(());
            }
            let ghost m = self@;
            let token = self.data[self.pc as usize].copy();
            assert(token@ == m.data[m.pc]);
            self.pc = self.pc + 1;
            if self.compile_mode && !token.is_word(";") {
                self.compile_buffer.push(token);
                assert(tokens(self.compile_buffer@) =~= m.compile_buffer.push(m.data[m.pc]));
                continue;
            }
            match token {
                Value::Number(n) => {
                    self.push(n);
                },
                Value::Word(w) => {
                    let f = match self.dictionary.get(&w) {
                        Some(f) => f.copy(),
                        None => {
                            let ghost wv = w@;
                            self.output.push(Output::UnknownWord(w));
                            assert(outputs(self.output@) =~= m.output.push(OutputView::UnknownWord(wv)));
                            return Err(ErrorType::WordNotFound);
                        },
                    };
                    match f {
                        Function::Action => {
                            return Err(ErrorType::OutsideCompileMode);
                        },
                        Function::Builtin(p) => {
                            proof {
                                lemma_primitive_progress(p, self@);
                            }
                            let r = self.apply(p);
                            if r.is_err() {
                                return r;
                            }
                        },
                        Function::UserDefined(body) => {
                            if depth == 0 {
                                return Err(ErrorType::CallDepthExceeded);
                            }
                            let ghost m1 = self@;
                            let saved_pc = self.pc;
                            let mut saved_data = body;
                            std::mem::swap(&mut self.data, &mut saved_data);
                            self.pc = 0;
                            let r = self.run_stream(depth - 1);
                            if r.is_err() {
                                return r;
                            }
                            self.data = saved_data;
                            self.pc = saved_pc;
                            assert(self@ == (MachineView { pc: m1.pc, data: m.data, ..self@ }));
                        },
                    }
                },
            }
        }
    }

    /// Executes `input` from its start against the machine's dictionary and
    /// stacks, allowing `MAX_CALL_DEPTH` levels of nested calls.
    pub fn execute(&mut self, input: &Vec<Value>) -> (r: Result<(), ErrorType>)
        ensures
            (final(self)@, r) == run(
                MachineView { pc: 0, data: tokens(input@), ..old(self)@ },
                MAX_CALL_DEPTH as nat,
            ),
    {
        self.execute_with_depth(input, MAX_CALL_DEPTH)
    }

    /// Executes `input` as `execute` does, allowing `depth` levels of nested
    /// calls. Each level uses some of the host's stack, so a deep bound needs
    /// a correspondingly large stack.
    pub fn execute_with_depth(&mut self, input: &Vec<Value>, depth: usize) -> (r: Result<
        (),
        ErrorType,
    >)
        ensures
            (final(self)@, r) == run(
                MachineView { pc: 0, data: tokens(input@), ..old(self)@ },
                depth as nat,
            ),
    {
        self.pc = 0;
        self.data = copy_values(input);
        self.run_stream(depth)
    }
}

} // verus!
