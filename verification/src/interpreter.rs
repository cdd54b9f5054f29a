//! The virtual machine that runs bytecode, one instruction at a time.

use vstd::prelude::*;
use vstd::string::StringExecFns;
use crate::compiler::{find_function, Bytecode, BytecodeView, Instruction, InstructionView};
use crate::error::{leaf, leaf_of, wrapped, Error, ErrorType, ErrorView};
use crate::eval::{eval, eval_spec, no_variable, render_spec};
use crate::expr::{parse_spec, parse_tokens};
use crate::float::{float_unit, model_of, FloatModel, FloatReply, FloatRequest};
use crate::stdlib::{
    array_length, array_length_spec, array_of, array_of_spec, array_pop, array_pop_spec,
    array_push, array_push_spec, array_replace, array_replace_spec, builtin, builtin_arity,
    put_char, put_char_spec, read_line, read_line_spec,
};
use crate::text::{join, push_char};
use crate::tokenizer::{Token, TokenView};
use crate::util::{
    clone_objects, contexts_view, lemma_object_view, objects_view, scope_declare, scope_get,
    scope_has, scope_set, Bindings, Context, ObjectView, RickrollObject, Scope,
};

verus! {

/// The greatest number of calls that can be in progress at once.
pub const MAX_RECURSION_DEPTH: usize = 10000;

/// The greatest number of tracebacks that a failure adds for the calls
/// that were in progress.
pub const MAX_UNWIND_LIMIT: usize = 8;

/// A call in progress: the place of its function in the bytecode, and
/// the instruction that it is at.
#[derive(Debug, Clone, Copy, PartialEq, Eq, Structural)]
pub struct Frame {
    pub function: usize,
    pub ip: usize,
}

/// Where a run stands: not started, in the block of globals, in the main
/// block, or over.
#[derive(Debug, Clone, Copy, PartialEq, Eq, Structural)]
pub enum Phase {
    Fresh,
    Globals,
    Main,
    Done,
}

/// The state of the machine: the calls in progress, the innermost last;
/// the live scope; for each call but the first the blocks of its caller
/// that were set aside; the values passed to the next call; and what was
/// printed so far.
pub struct MachineView {
    pub frames: Seq<Frame>,
    pub scope: Seq<Bindings>,
    pub saved: Seq<Seq<Bindings>>,
    pub queue: Seq<ObjectView>,
    pub output: Seq<char>,
    pub phase: Phase,
}

/// What a step leaves to do.
pub enum StatusView {
    /// The next instruction can be run.
    Running,
    /// The next instruction reads a line: run it with one.
    NeedsInput,
    /// The program returned this value.
    Finished(ObjectView),
}

/// The machine after a step, and what the step gave.
pub struct Outcome {
    pub machine: MachineView,
    pub result: Result<StatusView, ErrorView>,
}

/// The value of an expression at an instruction. An error comes wrapped
/// in a traceback with the line of the instruction.
pub open spec fn value_of(tokens: Seq<TokenView>, scope: Seq<Bindings>, line: usize, unit: FloatModel) -> Result<
    ObjectView,
    ErrorView,
> {
    match parse_spec(tokens, scope) {
        Err(e) => Err(wrapped(e, Some(line))),
        Ok(expr) => match eval_spec(expr, scope, unit) {
            Err(e) => Err(wrapped(e, Some(line))),
            Ok(v) => Ok(v),
        },
    }
}

/// Whether the frame points into the bytecode.
pub open spec fn frame_ok(bc: BytecodeView, frame: Frame) -> bool {
    frame.function < bc.functions.len() && frame.ip <= bc.functions[frame.function as int].code.len()
}

/// The source line of the instruction that the frame is at.
pub open spec fn line_at(bc: BytecodeView, frame: Frame) -> Option<usize> {
    if frame.function < bc.functions.len() && frame.ip < bc.functions[frame.function as int].code.len() {
        Some(bc.functions[frame.function as int].code[frame.ip as int].0)
    } else {
        None
    }
}

/// The error with one traceback for each caller from `k` down, at most
/// `budget` of them: each carries the line of the call that was in progress.
pub open spec fn unwind(e: ErrorView, bc: BytecodeView, frames: Seq<Frame>, k: int, budget: nat) -> ErrorView
    decreases budget,
{
    if k < 0 || k >= frames.len() || budget == 0 {
        e
    } else {
        unwind(wrapped(e, line_at(bc, frames[k])), bc, frames, k - 1, (budget - 1) as nat)
    }
}

/// A failure: the run is over, and the error carries a traceback for each
/// call that was waiting for the failed one.
pub open spec fn fail(bc: BytecodeView, m: MachineView, e: ErrorView) -> Outcome {
    Outcome {
        machine: MachineView { frames: Seq::empty(), phase: Phase::Done, ..m },
        result: Err(unwind(e, bc, m.frames, m.frames.len() - 2, MAX_UNWIND_LIMIT as nat)),
    }
}

/// The machine with the innermost call at instruction `ip`.
pub open spec fn at(m: MachineView, ip: usize) -> MachineView {
    MachineView {
        frames: m.frames.drop_last().push(Frame { function: m.frames.last().function, ip }),
        ..m
    }
}

/// The machine goes on with the next instruction.
pub open spec fn next(m: MachineView) -> Outcome {
    Outcome { machine: at(m, (m.frames.last().ip + 1) as usize), result: Ok(StatusView::Running) }
}

pub open spec fn no_entry() -> ErrorView {
    leaf(ErrorType::RuntimeError, "could not find an entry block"@, None)
}

pub open spec fn not_running() -> ErrorView {
    leaf(ErrorType::RuntimeError, "The program is not running"@, None)
}

/// Starts the main block, which must be there.
pub open spec fn start_main(bc: BytecodeView, m: MachineView) -> Outcome {
    let i = find_function(bc.functions, "[Main]"@, 0);
    if !bc.has_main || i >= bc.functions.len() {
        Outcome {
            machine: MachineView { frames: Seq::empty(), phase: Phase::Done, ..m },
            result: Err(no_entry()),
        }
    } else {
        Outcome {
            machine: MachineView {
                frames: seq![Frame { function: i as usize, ip: 0 }],
                phase: Phase::Main,
                ..m
            },
            result: Ok(StatusView::Running),
        }
    }
}

/// Starts the run: with the block of globals where there is one, else
/// with the main block.
pub open spec fn start(bc: BytecodeView, m: MachineView) -> Outcome {
    let i = find_function(bc.functions, "[Global]"@, 0);
    if bc.has_global && i < bc.functions.len() {
        Outcome {
            machine: MachineView {
                frames: seq![Frame { function: i as usize, ip: 0 }],
                phase: Phase::Globals,
                ..m
            },
            result: Ok(StatusView::Running),
        }
    } else {
        start_main(bc, m)
    }
}

/// The innermost call returns `v`. The scope is stripped to the global
/// block. The last call of the block of globals hands over to the main
/// block; the last call of the main block ends the run with `v`. Any
/// other call gives the blocks that were set aside back to its caller,
/// which binds `v` where the call was an `Scall` and goes on behind it.
#[verifier::opaque]
pub open spec fn finish_call(bc: BytecodeView, m: MachineView, v: ObjectView) -> Outcome {
    let frames = m.frames.drop_last();
    let global = m.scope.subrange(0, 1);
    if frames.len() == 0 {
        let base = MachineView { frames, scope: global, saved: Seq::empty(), ..m };
        if m.phase == Phase::Globals {
            start_main(bc, base)
        } else {
            Outcome {
                machine: MachineView { phase: Phase::Done, ..base },
                result: Ok(StatusView::Finished(v)),
            }
        }
    } else {
        let caller = frames.last();
        let tail = if m.saved.len() > 0 {
            m.saved.last()
        } else {
            Seq::empty()
        };
        let restored = global + tail;
        let bound = if frame_ok(bc, caller) && caller.ip < bc.functions[caller.function as int].code.len() {
            match bc.functions[caller.function as int].code[caller.ip as int].1 {
                InstructionView::Scall(_, var) => scope_set(restored, var, v),
                _ => restored,
            }
        } else {
            restored
        };
        let ip = if caller.ip < usize::MAX {
            (caller.ip + 1) as usize
        } else {
            caller.ip
        };
        Outcome {
            machine: MachineView {
                frames: frames.drop_last().push(Frame { function: caller.function, ip }),
                scope: bound,
                saved: if m.saved.len() > 0 {
                    m.saved.drop_last()
                } else {
                    m.saved
                },
                ..m
            },
            result: Ok(StatusView::Running),
        }
    }
}

/// What a host function gives on the queued arguments: its value and
/// what it prints.
pub open spec fn host_result(func: Seq<char>, args: Seq<ObjectView>, input: Seq<char>) -> Result<
    (ObjectView, Seq<char>),
    ErrorView,
> {
    if func == "PutChar"@ {
        match put_char_spec(args) {
            Ok(c) => Ok((ObjectView::Undefined, seq![c])),
            Err(e) => Err(e),
        }
    } else {
        let value = if func == "ArrayOf"@ {
            array_of_spec(args)
        } else if func == "ArrayPop"@ {
            array_pop_spec(args)
        } else if func == "ArrayPush"@ {
            array_push_spec(args)
        } else if func == "ArrayReplace"@ {
            array_replace_spec(args)
        } else if func == "ArrayLength"@ {
            array_length_spec(args)
        } else {
            read_line_spec(args, input)
        };
        match value {
            Ok(v) => Ok((v, Seq::empty())),
            Err(e) => Err(e),
        }
    }
}

/// Whether the call has to wait for a line of input.
pub open spec fn waits_for_input(func: Seq<char>, args: Seq<ObjectView>, input: Option<Seq<char>>) -> bool {
    func == "ReadLine"@ && args.len() == 0 && input is None
}

pub open spec fn stack_overflow(func: Seq<char>, line: usize) -> ErrorView {
    leaf(
        ErrorType::StackOverflowError,
        "Maximum recursion depth exceeded in function "@ + func,
        Some(line),
    )
}

pub open spec fn unknown_function(func: Seq<char>, line: usize) -> ErrorView {
    leaf(ErrorType::NameError, "Function name "@ + func + " doesn't exist"@, Some(line))
}

/// A call of `func`, whose result goes to `var` where there is one. A
/// function of the program is entered: the blocks of the caller but the
/// global one are set aside, and the callee starts at its first
/// instruction; with `MAX_RECURSION_DEPTH` calls in progress the call
/// fails instead. A host function takes the queued values as its
/// arguments and is done in this step.
#[verifier::opaque]
pub open spec fn call_spec(
    bc: BytecodeView,
    m: MachineView,
    func: Seq<char>,
    var: Option<Seq<char>>,
    line: usize,
    input: Option<Seq<char>>,
) -> Outcome {
    let i = find_function(bc.functions, func, 0);
    if i < bc.functions.len() {
        if m.frames.len() >= MAX_RECURSION_DEPTH {
            fail(bc, m, stack_overflow(func, line))
        } else {
            Outcome {
                machine: MachineView {
                    frames: m.frames.push(Frame { function: i as usize, ip: 0 }),
                    scope: m.scope.subrange(0, 1),
                    saved: m.saved.push(m.scope.subrange(1, m.scope.len() as int)),
                    ..m
                },
                result: Ok(StatusView::Running),
            }
        }
    } else if builtin_arity(func) is None {
        fail(bc, m, unknown_function(func, line))
    } else if waits_for_input(func, m.queue, input) {
        Outcome { machine: m, result: Ok(StatusView::NeedsInput) }
    } else {
        let text = match input {
            Some(t) => t,
            None => Seq::empty(),
        };
        match host_result(func, m.queue, text) {
            Err(e) => fail(bc, m, wrapped(e, Some(line))),
            Ok((v, printed)) => next(
                MachineView {
                    queue: Seq::empty(),
                    output: m.output + printed,
                    scope: match var {
                        Some(name) => scope_set(m.scope, name, v),
                        None => m.scope,
                    },
                    ..m
                },
            ),
        }
    }
}

pub open spec fn non_boolean(line: usize) -> ErrorView {
    leaf(ErrorType::IllegalArgumentError, "Unexpected non-boolean argument"@, Some(line))
}

pub open spec fn jump_out_of_range(line: usize) -> ErrorView {
    leaf(ErrorType::RuntimeError, "Jump out of range"@, Some(line))
}

pub open spec fn no_context(line: usize) -> ErrorView {
    leaf(ErrorType::RuntimeError, "No context to delete"@, Some(line))
}

pub open spec fn missing_argument(name: Seq<char>, line: usize) -> ErrorView {
    leaf(ErrorType::RuntimeError, "Missing argument "@ + name, Some(line))
}

/// A jump of the innermost call to instruction `t` of its function.
pub open spec fn jump(bc: BytecodeView, m: MachineView, t: usize, line: usize) -> Outcome {
    if t > bc.functions[m.frames.last().function as int].code.len() {
        fail(bc, m, jump_out_of_range(line))
    } else {
        Outcome { machine: at(m, t), result: Ok(StatusView::Running) }
    }
}

/// One instruction of the innermost call.
#[verifier::opaque]
pub open spec fn execute_spec(
    bc: BytecodeView,
    m: MachineView,
    ins: InstructionView,
    line: usize,
    input: Option<Seq<char>>,
    unit: FloatModel,
) -> Outcome {
    match ins {
        InstructionView::Put(e) => match value_of(e, m.scope, line, unit) {
            Err(x) => fail(bc, m, x),
            Ok(v) => next(
                MachineView { output: m.output + render_spec(v, unit) + seq!['\n'], ..m },
            ),
        },
        InstructionView::Let(name) => next(
            MachineView { scope: scope_declare(m.scope, m.scope.len() - 1, name), ..m },
        ),
        InstructionView::Glb(name) => next(
            MachineView { scope: scope_declare(m.scope, 0, name), ..m },
        ),
        InstructionView::SetVar(name, e) => match value_of(e, m.scope, line, unit) {
            Err(x) => fail(bc, m, x),
            Ok(v) => next(MachineView { scope: scope_set(m.scope, name, v), ..m }),
        },
        InstructionView::Jmp(t) => jump(bc, m, t, line),
        InstructionView::Jmpif(e, t) => match value_of(e, m.scope, line, unit) {
            Err(x) => fail(bc, m, x),
            Ok(ObjectView::Bool(b)) => if b {
                jump(bc, m, t, line)
            } else {
                next(m)
            },
            Ok(_) => fail(bc, m, non_boolean(line)),
        },
        InstructionView::Pctx => next(MachineView { scope: m.scope.push(Map::empty()), ..m }),
        InstructionView::Dctx => if m.scope.len() <= 1 {
            fail(bc, m, no_context(line))
        } else {
            next(MachineView { scope: m.scope.drop_last(), ..m })
        },
        InstructionView::Call(func) => call_spec(bc, m, func, None, line, input),
        InstructionView::Scall(func, var) => call_spec(bc, m, func, Some(var), line, input),
        InstructionView::Ret(e) => match value_of(e, m.scope, line, unit) {
            Err(x) => fail(bc, m, x),
            Ok(v) => finish_call(bc, m, v),
        },
        InstructionView::Pushq(name) => if scope_has(m.scope, name) {
            next(MachineView { queue: m.queue.push(scope_get(m.scope, name)), ..m })
        } else {
            fail(bc, m, wrapped(no_variable(name), Some(line)))
        },
        InstructionView::Exp(name) => if m.queue.len() == 0 {
            fail(bc, m, missing_argument(name, line))
        } else {
            next(
                MachineView {
                    scope: m.scope.update(
                        m.scope.len() - 1,
                        m.scope.last().insert(name, m.queue[0]),
                    ),
                    queue: m.queue.drop_first(),
                    ..m
                },
            )
        },
    }
}

pub open spec fn corrupt_stack() -> ErrorView {
    leaf(ErrorType::RuntimeError, "Corrupt call stack"@, None)
}

/// One step of the machine. A fresh machine starts its run. A running
/// one executes the instruction that its innermost call is at; at the end
/// of its function the call returns the undefined value.
#[verifier::opaque]
pub open spec fn step_spec(bc: BytecodeView, m: MachineView, input: Option<Seq<char>>, unit: FloatModel) -> Outcome {
    if m.phase == Phase::Fresh {
        start(bc, m)
    } else if m.phase == Phase::Done || m.frames.len() == 0 {
        Outcome { machine: m, result: Err(not_running()) }
    } else {
        let top = m.frames.last();
        if !frame_ok(bc, top) {
            fail(bc, m, corrupt_stack())
        } else {
            let code = bc.functions[top.function as int].code;
            if top.ip >= code.len() {
                finish_call(bc, m, ObjectView::Undefined)
            } else {
                execute_spec(bc, m, code[top.ip as int].1, code[top.ip as int].0, input, unit)
            }
        }
    }
}

/// At most `fuel` steps without input: the run goes on until a step
/// gives something else than `Running`.
pub open spec fn run_spec(bc: BytecodeView, m: MachineView, fuel: nat, unit: FloatModel) -> Outcome
    decreases fuel,
{
    if fuel == 0 {
        Outcome { machine: m, result: Ok(StatusView::Running) }
    } else {
        let o = step_spec(bc, m, None, unit);
        match o.result {
            Ok(StatusView::Running) => run_spec(bc, o.machine, (fuel - 1) as nat, unit),
            _ => o,
        }
    }
}

/// What a step leaves to do.
#[derive(Debug)]
pub enum Status {
    /// The next instruction can be run.
    Running,
    /// The next instruction reads a line: run it with one.
    NeedsInput,
    /// The program returned this value.
    Finished(RickrollObject),
}

impl View for Status {
    type V = StatusView;

    open spec fn view(&self) -> StatusView {
        match self {
            Status::Running => StatusView::Running,
            Status::NeedsInput => StatusView::NeedsInput,
            Status::Finished(v) => StatusView::Finished(v@),
        }
    }
}

/// What a result of a step is.
pub open spec fn status_result(r: Result<Status, Error>) -> Result<StatusView, ErrorView> {
    match r {
        Ok(s) => Ok(s@),
        Err(e) => Err(e@),
    }
}

/// What the blocks that were set aside are.
pub open spec fn saved_view(saved: Seq<Vec<Context>>) -> Seq<Seq<Bindings>> {
    Seq::new(saved.len(), |i: int| contexts_view(saved[i]@))
}

/// What a text that may be there is.
pub open spec fn text_view(text: Option<String>) -> Option<Seq<char>> {
    match text {
        Some(t) => Some(t@),
        None => None,
    }
}

#[derive(Debug)]
pub struct Interpreter {
    bytecode: Bytecode,
    function_stack: Vec<Frame>,
    scope: Scope,
    context_stack: Vec<Vec<Context>>,
    arg_queue: Vec<RickrollObject>,
    output: String,
    phase: Phase,
}

impl Interpreter {
    /// The bytecode that the machine runs.
    pub closed spec fn program(&self) -> BytecodeView {
        self.bytecode@
    }

    /// The state of the machine.
    pub closed spec fn machine(&self) -> MachineView {
        MachineView {
            frames: self.function_stack@,
            scope: self.scope@,
            saved: saved_view(self.context_stack@),
            queue: objects_view(self.arg_queue@),
            output: self.output@,
            phase: self.phase,
        }
    }

    /// A machine that has not started, with an empty global block.
    pub fn new(bytecode: Bytecode) -> (r: Interpreter)
        ensures
            r.program() == bytecode@,
            r.machine() == (MachineView {
                frames: Seq::empty(),
                scope: seq![Map::empty()],
                saved: Seq::empty(),
                queue: Seq::empty(),
                output: Seq::empty(),
                phase: Phase::Fresh,
            }),
    {
        let r = Interpreter {
            bytecode,
            function_stack: Vec::new(),
            scope: Scope::new(),
            context_stack: Vec::new(),
            arg_queue: Vec::new(),
            output: String::new(),
            phase: Phase::Fresh,
        };
        assert(r.machine().saved =~= Seq::<Seq<Bindings>>::empty());
        assert(r.machine().queue =~= Seq::<ObjectView>::empty());
        assert(r.machine().frames =~= Seq::<Frame>::empty());
        r
    }

    /// What was printed so far.
    pub fn output(&self) -> (r: &String)
        ensures
            r@ == self.machine().output,
    {
        &self.output
    }

    /// Hands out what was printed so far, and starts the output anew.
    pub fn take_output(&mut self) -> (r: String)
        ensures
            r@ == old(self).machine().output,
            final(self).program() == old(self).program(),
            final(self).machine() == (MachineView { output: Seq::empty(), ..old(self).machine() }),
    {
        let mut out = String::new();
        core::mem::swap(&mut self.output, &mut out);
        out
    }

    /// The number of calls in progress.
    pub fn depth(&self) -> (r: usize)
        ensures
            r == self.machine().frames.len(),
    {
        self.function_stack.len()
    }

    /// The live scope.
    pub fn scope(&self) -> (r: &Scope)
        ensures
            r@ == self.machine().scope,
    {
        &self.scope
    }

    // the value of an expression at an instruction
    fn value<F: Fn(FloatRequest) -> FloatReply>(&self, tokens: &Vec<Token>, line: usize, unit: &F) -> (r:
        Result<RickrollObject, Error>)
        requires
            float_unit(unit),
        ensures
            crate::eval::object_result(r) == value_of(
                crate::tokenizer::tokens_view(tokens@),
                self.machine().scope,
                line,
                model_of(unit),
            ),
    {
        let expr = match parse_tokens(tokens, &self.scope) {
            Ok(expr) => expr,
            Err(e) => {
                return Err(Error::traceback(e, Some(line)));
            },
        };
        match eval(&expr, &self.scope, unit) {
            Ok(v) => Ok(v),
            Err(e) => Err(Error::traceback(e, Some(line))),
        }
    }

    // the line of the instruction that a frame is at
    fn line_of(&self, frame: Frame) -> (r: Option<usize>)
        ensures
            r == line_at(self.program(), frame),
    {
        if frame.function < self.bytecode.functions_len() {
            let f = self.bytecode.function(frame.function);
            if frame.ip < f.len() {
                return Some(f.debug_line(frame.ip));
            }
        }
        None
    }

    // ends the run with an error, which gets its tracebacks
    fn fail(&mut self, e: Error) -> (r: Error)
        ensures
            final(self).program() == old(self).program(),
            final(self).machine() == fail(old(self).program(), old(self).machine(), e@).machine,
            Err::<StatusView, ErrorView>(r@) == fail(
                old(self).program(),
                old(self).machine(),
                e@,
            ).result,
    {
        let ghost bc = self.program();
        let ghost frames = self.machine().frames;
        let mut error = e;
        let mut budget: usize = MAX_UNWIND_LIMIT;
        let mut k: usize = self.function_stack.len();
        if k >= 2 {
            k = k - 1;
            while k > 0 && budget > 0
                invariant
                    bc == self.program(),
                    frames == self.machine().frames,
                    k < frames.len(),
                    unwind(e@, bc, frames, frames.len() - 2, MAX_UNWIND_LIMIT as nat) == unwind(
                        error@,
                        bc,
                        frames,
                        k - 1,
                        budget as nat,
                    ),
                decreases k,
            {
                k = k - 1;
                let line = self.line_of(self.function_stack[k]);
                error = Error::traceback(error, line);
                budget = budget - 1;
            }
        }
        self.function_stack = Vec::new();
        self.phase = Phase::Done;
        assert(self.machine().frames =~= Seq::<Frame>::empty());
        error
    }

    // moves the innermost call to instruction `ip`
    fn go(&mut self, ip: usize)
        requires
            old(self).machine().frames.len() > 0,
        ensures
            final(self).program() == old(self).program(),
            final(self).machine() == at(old(self).machine(), ip),
    {
        let last = self.function_stack.len() - 1;
        let function = self.function_stack[last].function;
        self.function_stack.set(last, Frame { function, ip });
        assert(self.machine().frames =~= old(self).machine().frames.drop_last().push(
            Frame { function, ip },
        ));
    }
}

/// The machine after a step and what the step gave, as an outcome.
pub open spec fn outcome_of(machine: MachineView, r: Result<Status, Error>) -> Outcome {
    Outcome { machine, result: status_result(r) }
}

impl Interpreter {
    // goes on with the next instruction
    fn proceed(&mut self) -> (r: Result<Status, Error>)
        requires
            old(self).machine().frames.len() > 0,
            old(self).machine().frames.last().ip < usize::MAX,
        ensures
            final(self).program() == old(self).program(),
            outcome_of(final(self).machine(), r) == next(old(self).machine()),
    {
        let ip = self.function_stack[self.function_stack.len() - 1].ip;
        self.go(ip + 1);
        Ok(Status::Running)
    }

    // starts the main block
    fn start_main(&mut self) -> (r: Result<Status, Error>)
        ensures
            final(self).program() == old(self).program(),
            outcome_of(final(self).machine(), r) == start_main(
                old(self).program(),
                old(self).machine(),
            ),
    {
        let found = self.bytecode.index_of(&String::from_str("[Main]"));
        match found {
            Some(i) => {
                if self.bytecode.has_main() {
                    let mut frames: Vec<Frame> = Vec::new();
                    frames.push(Frame { function: i, ip: 0 });
                    self.function_stack = frames;
                    self.phase = Phase::Main;
                    assert(self.machine().frames =~= seq![Frame { function: i, ip: 0 }]);
                    return Ok(Status::Running);
                }
            },
            None => {},
        }
        self.function_stack = Vec::new();
        self.phase = Phase::Done;
        assert(self.machine().frames =~= Seq::<Frame>::empty());
        Err(Error::new(ErrorType::RuntimeError, "could not find an entry block", None))
    }

    // starts the run
    fn start(&mut self) -> (r: Result<Status, Error>)
        ensures
            final(self).program() == old(self).program(),
            outcome_of(final(self).machine(), r) == start(old(self).program(), old(self).machine()),
    {
        let found = self.bytecode.index_of(&String::from_str("[Global]"));
        match found {
            Some(i) => {
                if self.bytecode.has_global() {
                    let mut frames: Vec<Frame> = Vec::new();
                    frames.push(Frame { function: i, ip: 0 });
                    self.function_stack = frames;
                    self.phase = Phase::Globals;
                    assert(self.machine().frames =~= seq![Frame { function: i, ip: 0 }]);
                    return Ok(Status::Running);
                }
            },
            None => {},
        }
        self.start_main()
    }

    // the variable that the call at a frame binds, if it is an Scall
    fn bound_variable(&self, caller: Frame) -> (r: Option<String>)
        ensures
            text_view(r) == if frame_ok(self.program(), caller) && caller.ip
                < self.program().functions[caller.function as int].code.len() {
                match self.program().functions[caller.function as int].code[caller.ip as int].1 {
                    InstructionView::Scall(_, var) => Some(var),
                    _ => None,
                }
            } else {
                None
            },
    {
        if caller.function < self.bytecode.functions_len() {
            let f = self.bytecode.function(caller.function);
            if caller.ip < f.len() {
                return match f.get(caller.ip) {
                    Instruction::Scall(_, var) => Some(var.clone()),
                    _ => None,
                };
            }
        }
        None
    }

    // the innermost call returns
    fn finish(&mut self, v: RickrollObject) -> (r: Result<Status, Error>)
        requires
            old(self).machine().frames.len() > 0,
        ensures
            final(self).program() == old(self).program(),
            outcome_of(final(self).machine(), r) == finish_call(
                old(self).program(),
                old(self).machine(),
                v@,
            ),
    {
        reveal(finish_call);
        let ghost m = self.machine();
        proof {
            use_type_invariant(&self.scope);
            self.scope.lemma_nonempty();
        }
        self.scope.behead();
        self.function_stack.pop();
        assert(self.machine().frames =~= m.frames.drop_last());
        if self.function_stack.len() == 0 {
            self.context_stack = Vec::new();
            assert(self.machine().saved =~= Seq::<Seq<Bindings>>::empty());
            if self.phase == Phase::Globals {
                return self.start_main();
            }
            self.phase = Phase::Done;
            return Ok(Status::Finished(v));
        }
        let caller = self.function_stack[self.function_stack.len() - 1];
        if self.context_stack.len() > 0 {
            let ghost before = saved_view(self.context_stack@);
            let tail = self.context_stack.pop().unwrap();
            assert(saved_view(self.context_stack@) =~= before.drop_last());
            assert(contexts_view(tail@) == before.last());
            self.scope.push_all(tail);
        } else {
            assert(m.scope.subrange(0, 1) + Seq::<Bindings>::empty() =~= m.scope.subrange(0, 1));
        }
        match self.bound_variable(caller) {
            Some(var) => {
                self.scope.set_var(var, v);
            },
            None => {},
        }
        let ip = if caller.ip < usize::MAX {
            caller.ip + 1
        } else {
            caller.ip
        };
        self.go(ip);
        Ok(Status::Running)
    }
}

/// What a host function gave: its value and what it printed.
pub open spec fn host_view(r: Result<(RickrollObject, String), Error>) -> Result<
    (ObjectView, Seq<char>),
    ErrorView,
> {
    match r {
        Ok((v, printed)) => Ok((v@, printed@)),
        Err(e) => Err(e@),
    }
}

// runs a host function on its arguments
fn host(func: &str, args: Vec<RickrollObject>, input: &str) -> (r: Result<
    (RickrollObject, String),
    Error,
>)
    ensures
        host_view(r) == host_result(func@, objects_view(args@), input@),
{
    if crate::util::same_text(func, "PutChar") {
        return match put_char(args) {
            Ok(c) => {
                let mut printed = String::new();
                push_char(&mut printed, c);
                assert(printed@ =~= seq![c]);
                proof {
                    lemma_object_view(RickrollObject::Undefined);
                }
                Ok((RickrollObject::Undefined, printed))
            },
            Err(e) => Err(e),
        };
    }
    let value = if crate::util::same_text(func, "ArrayOf") {
        array_of(args)
    } else if crate::util::same_text(func, "ArrayPop") {
        array_pop(args)
    } else if crate::util::same_text(func, "ArrayPush") {
        array_push(args)
    } else if crate::util::same_text(func, "ArrayReplace") {
        array_replace(args)
    } else if crate::util::same_text(func, "ArrayLength") {
        array_length(args)
    } else {
        read_line(args, input)
    };
    match value {
        Ok(v) => Ok((v, String::new())),
        Err(e) => Err(e),
    }
}

impl Interpreter {
    // a call of `func`, whose result goes to `var` where there is one
    fn call(&mut self, func: &String, var: Option<&String>, line: usize, input: Option<String>) -> (r:
        Result<Status, Error>)
        requires
            old(self).machine().frames.len() > 0,
            old(self).machine().frames.last().ip < usize::MAX,
        ensures
            final(self).program() == old(self).program(),
            outcome_of(final(self).machine(), r) == call_spec(
                old(self).program(),
                old(self).machine(),
                func@,
                match var {
                    Some(name) => Some(name@),
                    None => None,
                },
                line,
                text_view(input),
            ),
    {
        reveal(call_spec);
        match self.bytecode.index_of(func) {
            Some(i) => {
                if self.function_stack.len() >= MAX_RECURSION_DEPTH {
                    let e = Error::new(
                        ErrorType::StackOverflowError,
                        join("Maximum recursion depth exceeded in function ", func.as_str()).as_str(),
                        Some(line),
                    );
                    return Err(self.fail(e));
                }
                proof {
                    use_type_invariant(&self.scope);
                    self.scope.lemma_nonempty();
                }
                let tail = self.scope.behead();
                let ghost before = saved_view(self.context_stack@);
                self.context_stack.push(tail);
                assert(saved_view(self.context_stack@) =~= before.push(contexts_view(tail@)));
                self.function_stack.push(Frame { function: i, ip: 0 });
                return Ok(Status::Running);
            },
            None => {},
        }
        if builtin(func.as_str()).is_none() {
            let mut msg = join("Function name ", func.as_str());
            msg.append(" doesn't exist");
            let e = Error::new(ErrorType::NameError, msg.as_str(), Some(line));
            return Err(self.fail(e));
        }
        if crate::util::same_text(func.as_str(), "ReadLine") && self.arg_queue.len() == 0
            && input.is_none() {
            return Ok(Status::NeedsInput);
        }
        let text = match input {
            Some(t) => t,
            None => String::new(),
        };
        let args = clone_objects(&self.arg_queue);
        match host(func.as_str(), args, text.as_str()) {
            Err(e) => Err(self.fail(Error::traceback(e, Some(line)))),
            Ok((v, printed)) => {
                self.arg_queue = Vec::new();
                assert(objects_view(self.arg_queue@) =~= Seq::<ObjectView>::empty());
                self.output.append(printed.as_str());
                match var {
                    Some(name) => {
                        self.scope.set_var(name.clone(), v);
                    },
                    None => {},
                }
                self.proceed()
            },
        }
    }

    // a jump of the innermost call
    fn jump(&mut self, function: usize, t: usize, line: usize) -> (r: Result<Status, Error>)
        requires
            old(self).machine().frames.len() > 0,
            function == old(self).machine().frames.last().function,
            function < old(self).program().functions.len(),
        ensures
            final(self).program() == old(self).program(),
            outcome_of(final(self).machine(), r) == jump(
                old(self).program(),
                old(self).machine(),
                t,
                line,
            ),
    {
        if t > self.bytecode.function(function).len() {
            let e = Error::new(ErrorType::RuntimeError, "Jump out of range", Some(line));
            return Err(self.fail(e));
        }
        self.go(t);
        Ok(Status::Running)
    }
}

impl Interpreter {
    // one instruction of the innermost call
    fn instruction<F: Fn(FloatRequest) -> FloatReply>(
        &mut self,
        top: Frame,
        ins: &Instruction,
        line: usize,
        input: Option<String>,
        unit: &F,
    ) -> (r: Result<Status, Error>)
        requires
            float_unit(unit),
            old(self).machine().frames.len() > 0,
            top == old(self).machine().frames.last(),
            top.function < old(self).program().functions.len(),
            top.ip < usize::MAX,
        ensures
            final(self).program() == old(self).program(),
            outcome_of(final(self).machine(), r) == execute_spec(
                old(self).program(),
                old(self).machine(),
                ins@,
                line,
                text_view(input),
                model_of(unit),
            ),
    {
        reveal(execute_spec);
        let depth = self.scope.len();
        match ins {
            Instruction::Put(expr) => {
                match self.value(expr, line, unit) {
                    Err(e) => Err(self.fail(e)),
                    Ok(res) => {
                        let text = res.to_string(unit);
                        self.output.append(text.as_str());
                        push_char(&mut self.output, '\n');
                        assert(self.output@ =~= old(self).machine().output + text@ + seq!['\n']);
                        self.proceed()
                    },
                }
            },
            Instruction::Let(name) => {
                self.scope.add_var(name.clone());
                self.proceed()
            },
            Instruction::Glb(name) => {
                self.scope.add_global(name.clone());
                self.proceed()
            },
            Instruction::SetVar(name, expr) => {
                match self.value(expr, line, unit) {
                    Err(e) => Err(self.fail(e)),
                    Ok(res) => {
                        self.scope.set_var(name.clone(), res);
                        self.proceed()
                    },
                }
            },
            Instruction::Jmp(t) => self.jump(top.function, *t, line),
            Instruction::Jmpif(expr, t) => {
                match self.value(expr, line, unit) {
                    Err(e) => Err(self.fail(e)),
                    Ok(res) => {
                        proof {
                            lemma_object_view(res);
                        }
                        match res {
                            RickrollObject::Bool(b) => {
                                if b {
                                    self.jump(top.function, *t, line)
                                } else {
                                    self.proceed()
                                }
                            },
                            _ => {
                                let e = Error::new(
                                    ErrorType::IllegalArgumentError,
                                    "Unexpected non-boolean argument",
                                    Some(line),
                                );
                                Err(self.fail(e))
                            },
                        }
                    },
                }
            },
            Instruction::Pctx => {
                self.scope.push(Context::new());
                self.proceed()
            },
            Instruction::Dctx => {
                if depth <= 1 {
                    let e = Error::new(ErrorType::RuntimeError, "No context to delete", Some(line));
                    return Err(self.fail(e));
                }
                self.scope.pop();
                self.proceed()
            },
            Instruction::Call(func) => self.call(func, None, line, input),
            Instruction::Scall(func, var) => self.call(func, Some(var), line, input),
            Instruction::Ret(expr) => {
                match self.value(expr, line, unit) {
                    Err(e) => Err(self.fail(e)),
                    Ok(res) => self.finish(res),
                }
            },
            Instruction::Pushq(name) => {
                match self.scope.get_var(name.clone()) {
                    Some(v) => {
                        let ghost before = objects_view(self.arg_queue@);
                        let ghost vv = v@;
                        self.arg_queue.push(v);
                        assert(objects_view(self.arg_queue@) =~= before.push(vv));
                        self.proceed()
                    },
                    None => {
                        let mut msg = join("Variable ", name.as_str());
                        msg.append(" doesn't exist");
                        let e = Error::new(ErrorType::NameError, msg.as_str(), None);
                        Err(self.fail(Error::traceback(e, Some(line))))
                    },
                }
            },
            Instruction::Exp(name) => {
                if self.arg_queue.len() == 0 {
                    let e = Error::new(
                        ErrorType::RuntimeError,
                        join("Missing argument ", name.as_str()).as_str(),
                        Some(line),
                    );
                    return Err(self.fail(e));
                }
                let ghost before = objects_view(self.arg_queue@);
                let v = self.arg_queue.remove(0);
                assert(objects_view(self.arg_queue@) =~= before.drop_first());
                assert(v@ == before[0]);
                self.scope.bind(name.clone(), v);
                self.proceed()
            },
        }
    }

    // execute an instruction: one step of the machine
    /// `input` is the line that was read for an instruction that gave
    /// `NeedsInput`; no other instruction looks at it.
    pub fn execute<F: Fn(FloatRequest) -> FloatReply>(&mut self, unit: &F, input: Option<String>) -> (r:
        Result<Status, Error>)
        requires
            float_unit(unit),
        ensures
            final(self).program() == old(self).program(),
            outcome_of(final(self).machine(), r) == step_spec(
                old(self).program(),
                old(self).machine(),
                text_view(input),
                model_of(unit),
            ),
    {
        reveal(step_spec);
        if self.phase == Phase::Fresh {
            return self.start();
        }
        if self.phase == Phase::Done || self.function_stack.len() == 0 {
            return Err(Error::new(ErrorType::RuntimeError, "The program is not running", None));
        }
        let top = self.function_stack[self.function_stack.len() - 1];
        if top.function >= self.bytecode.functions_len() {
            let e = Error::new(ErrorType::RuntimeError, "Corrupt call stack", None);
            return Err(self.fail(e));
        }
        let length = self.bytecode.function(top.function).len();
        if top.ip > length {
            let e = Error::new(ErrorType::RuntimeError, "Corrupt call stack", None);
            return Err(self.fail(e));
        }
        if top.ip >= length {
            proof {
                lemma_object_view(RickrollObject::Undefined);
            }
            return self.finish(RickrollObject::Undefined);
        }
        let ins = self.bytecode.function(top.function).get(top.ip).clone();
        let line = self.bytecode.function(top.function).debug_line(top.ip);
        self.instruction(top, &ins, line, input, unit)
    }
}

pub open spec fn no_function(func: Seq<char>) -> ErrorView {
    leaf(ErrorType::NameError, "Function name "@ + func + " doesn't exist"@, None)
}

/// The machine at the start of a run of the function at place `i` on the
/// arguments `args`: it sees the global block and nothing else, and its
/// return ends the run.
pub open spec fn entered(m: MachineView, i: usize, args: Seq<ObjectView>) -> MachineView {
    MachineView {
        frames: seq![Frame { function: i, ip: 0 }],
        scope: m.scope.subrange(0, 1),
        saved: Seq::empty(),
        queue: args,
        phase: Phase::Main,
        ..m
    }
}

/// A run of the function `func` of the program on `args`, for at most
/// `fuel` steps.
pub open spec fn run_function_spec(
    bc: BytecodeView,
    m: MachineView,
    func: Seq<char>,
    args: Seq<ObjectView>,
    fuel: nat,
    unit: FloatModel,
) -> Outcome {
    let i = find_function(bc.functions, func, 0);
    if i < bc.functions.len() {
        run_spec(bc, entered(m, i as usize, args), fuel, unit)
    } else {
        Outcome { machine: m, result: Err(no_function(func)) }
    }
}

impl Interpreter {
    // execute the program
    /// Runs at most `budget` steps, none of them with input. The result
    /// is `Running` where the budget ran out first.
    pub fn run<F: Fn(FloatRequest) -> FloatReply>(&mut self, unit: &F, budget: usize) -> (r: Result<
        Status,
        Error,
    >)
        requires
            float_unit(unit),
        ensures
            final(self).program() == old(self).program(),
            outcome_of(final(self).machine(), r) == run_spec(
                old(self).program(),
                old(self).machine(),
                budget as nat,
                model_of(unit),
            ),
    {
        let ghost bc = self.program();
        let ghost m0 = self.machine();
        let ghost model = model_of(unit);
        let mut left: usize = budget;
        while left > 0
            invariant
                float_unit(unit),
                model == model_of(unit),
                bc == self.program(),
                bc == old(self).program(),
                m0 == old(self).machine(),
                run_spec(bc, m0, budget as nat, model) == run_spec(
                    bc,
                    self.machine(),
                    left as nat,
                    model,
                ),
            decreases left,
        {
            match self.execute(unit, None) {
                Ok(Status::Running) => {},
                other => {
                    return other;
                },
            }
            left -= 1;
        }
        Ok(Status::Running)
    }

    // executes a function
    /// Runs the function `func` of the program on the arguments `passed`,
    /// as the entry of a run of its own, for at most `budget` steps.
    pub fn run_function<F: Fn(FloatRequest) -> FloatReply>(
        &mut self,
        func: String,
        passed: Vec<RickrollObject>,
        unit: &F,
        budget: usize,
    ) -> (r: Result<Status, Error>)
        requires
            float_unit(unit),
        ensures
            final(self).program() == old(self).program(),
            outcome_of(final(self).machine(), r) == run_function_spec(
                old(self).program(),
                old(self).machine(),
                func@,
                objects_view(passed@),
                budget as nat,
                model_of(unit),
            ),
    {
        let i = match self.bytecode.index_of(&func) {
            Some(i) => i,
            None => {
                let mut msg = join("Function name ", func.as_str());
                msg.append(" doesn't exist");
                return Err(Error::new(ErrorType::NameError, msg.as_str(), None));
            },
        };
        proof {
            use_type_invariant(&self.scope);
            self.scope.lemma_nonempty();
        }
        self.scope.behead();
        let mut frames: Vec<Frame> = Vec::new();
        frames.push(Frame { function: i, ip: 0 });
        self.function_stack = frames;
        self.context_stack = Vec::new();
        self.arg_queue = passed;
        self.phase = Phase::Main;
        assert(self.machine().frames =~= seq![Frame { function: i, ip: 0 }]);
        assert(self.machine().saved =~= Seq::<Seq<Bindings>>::empty());
        self.run(unit, budget)
    }
}

/// The tracebacks that a failure adds leave the error itself as it is.
pub proof fn lemma_unwind_leaf(e: ErrorView, bc: BytecodeView, frames: Seq<Frame>, k: int, budget: nat)
    ensures
        leaf_of(unwind(e, bc, frames, k, budget)) == leaf_of(e),
    decreases budget,
{
    if !(k < 0 || k >= frames.len() || budget == 0) {
        lemma_unwind_leaf(
            wrapped(e, line_at(bc, frames[k])),
            bc,
            frames,
            k - 1,
            (budget - 1) as nat,
        );
    }
}

/// Whether the machine is about to run a call of the function `func` of
/// the program.
pub open spec fn at_call(bc: BytecodeView, m: MachineView, func: Seq<char>) -> bool {
    &&& m.phase != Phase::Fresh
    &&& m.phase != Phase::Done
    &&& m.frames.len() > 0
    &&& frame_ok(bc, m.frames.last())
    &&& m.frames.last().ip < bc.functions[m.frames.last().function as int].code.len()
    &&& match bc.functions[m.frames.last().function as int].code[m.frames.last().ip as int].1 {
        InstructionView::Call(f) => f == func,
        InstructionView::Scall(f, _) => f == func,
        _ => false,
    }
    &&& find_function(bc.functions, func, 0) < bc.functions.len()
}

/// The recursion ceiling: a call of a function of the program is entered
/// while fewer than `MAX_RECURSION_DEPTH` calls are in progress, and then
/// one more call is in progress; with `MAX_RECURSION_DEPTH` calls in
/// progress it fails with a stack overflow, and the run is over.
pub proof fn lemma_recursion_ceiling(
    bc: BytecodeView,
    m: MachineView,
    func: Seq<char>,
    input: Option<Seq<char>>,
    unit: FloatModel,
)
    requires
        at_call(bc, m, func),
    ensures
        m.frames.len() < MAX_RECURSION_DEPTH ==> {
            let o = step_spec(bc, m, input, unit);
            &&& o.result == Ok::<StatusView, ErrorView>(StatusView::Running)
            &&& o.machine.frames == m.frames.push(
                Frame { function: find_function(bc.functions, func, 0) as usize, ip: 0 },
            )
        },
        m.frames.len() >= MAX_RECURSION_DEPTH ==> {
            let o = step_spec(bc, m, input, unit);
            &&& o.result is Err
            &&& leaf_of(o.result->Err_0).err == ErrorType::StackOverflowError
            &&& o.machine.frames.len() == 0
        },
{
    reveal(step_spec);
    reveal(execute_spec);
    reveal(call_spec);
    let top = m.frames.last();
    let line = bc.functions[top.function as int].code[top.ip as int].0;
    lemma_unwind_leaf(
        stack_overflow(func, line),
        bc,
        m.frames,
        m.frames.len() - 2,
        MAX_UNWIND_LIMIT as nat,
    );
}

/// A function that is entered sees the global block and nothing else of
/// its caller: the other blocks of the caller are set aside.
pub proof fn lemma_call_isolates(
    bc: BytecodeView,
    m: MachineView,
    func: Seq<char>,
    input: Option<Seq<char>>,
    unit: FloatModel,
)
    requires
        at_call(bc, m, func),
        m.frames.len() < MAX_RECURSION_DEPTH,
    ensures
        step_spec(bc, m, input, unit).machine.scope == m.scope.subrange(0, 1),
        step_spec(bc, m, input, unit).machine.saved == m.saved.push(
            m.scope.subrange(1, m.scope.len() as int),
        ),
{
    reveal(step_spec);
    reveal(execute_spec);
    reveal(call_spec);
}

/// A machine in the middle of a run: for each call in progress but the
/// first, the blocks of its caller are set aside.
pub open spec fn aligned(m: MachineView) -> bool {
    &&& m.phase == Phase::Globals || m.phase == Phase::Main
    &&& m.frames.len() == m.saved.len() + 1
}

/// The machine after one step for each of the inputs.
pub open spec fn after_steps(
    bc: BytecodeView,
    m: MachineView,
    inputs: Seq<Option<Seq<char>>>,
    unit: FloatModel,
) -> MachineView
    decreases inputs.len(),
{
    if inputs.len() == 0 {
        m
    } else {
        after_steps(bc, step_spec(bc, m, inputs[0], unit).machine, inputs.drop_first(), unit)
    }
}

/// Whether each of the steps succeeds and leaves more than `floor` calls
/// in progress.
pub open spec fn stays_above(
    bc: BytecodeView,
    m: MachineView,
    inputs: Seq<Option<Seq<char>>>,
    floor: nat,
    unit: FloatModel,
) -> bool
    decreases inputs.len(),
{
    inputs.len() == 0 || {
        let o = step_spec(bc, m, inputs[0], unit);
        &&& o.result is Ok
        &&& o.machine.frames.len() > floor
        &&& stays_above(bc, o.machine, inputs.drop_first(), floor, unit)
    }
}

/// Whether the machine `n` is in the middle of a run and has the calls
/// and the blocks set aside below `floor` that `m` has.
pub open spec fn keeps(m: MachineView, n: MachineView, floor: nat) -> bool {
    &&& aligned(n)
    &&& n.saved.subrange(0, floor as int) == m.saved.subrange(0, floor as int)
    &&& n.frames.subrange(0, floor as int) == m.frames.subrange(0, floor as int)
}

proof fn lemma_moved_keeps(m: MachineView, changed: MachineView, ip: usize, floor: nat)
    requires
        aligned(m),
        m.frames.len() > floor,
        changed.frames == m.frames,
        changed.saved == m.saved,
        changed.phase == m.phase,
    ensures
        keeps(m, at(changed, ip), floor),
        keeps(m, next(changed).machine, floor),
        keeps(m, changed, floor),
{
    let n = at(changed, ip);
    assert(n.frames.subrange(0, floor as int) =~= m.frames.subrange(0, floor as int));
    let k = next(changed).machine;
    assert(k.frames.subrange(0, floor as int) =~= m.frames.subrange(0, floor as int));
}

proof fn lemma_finish_keeps(bc: BytecodeView, m: MachineView, v: ObjectView, floor: nat)
    requires
        aligned(m),
        m.frames.len() > floor,
        finish_call(bc, m, v).result is Ok,
        finish_call(bc, m, v).machine.frames.len() > floor,
    ensures
        keeps(m, finish_call(bc, m, v).machine, floor),
{
    reveal(finish_call);
    let n = finish_call(bc, m, v).machine;
    assert(n.saved.subrange(0, floor as int) =~= m.saved.subrange(0, floor as int));
    assert(n.frames.subrange(0, floor as int) =~= m.frames.subrange(0, floor as int));
}

proof fn lemma_call_keeps(
    bc: BytecodeView,
    m: MachineView,
    func: Seq<char>,
    var: Option<Seq<char>>,
    line: usize,
    input: Option<Seq<char>>,
    floor: nat,
)
    requires
        aligned(m),
        m.frames.len() > floor,
        call_spec(bc, m, func, var, line, input).result is Ok,
    ensures
        keeps(m, call_spec(bc, m, func, var, line, input).machine, floor),
{
    reveal(call_spec);
    let n = call_spec(bc, m, func, var, line, input).machine;
    assert(n.saved.subrange(0, floor as int) =~= m.saved.subrange(0, floor as int));
    assert(n.frames.subrange(0, floor as int) =~= m.frames.subrange(0, floor as int));
}

proof fn lemma_jump_keeps(bc: BytecodeView, m: MachineView, t: usize, line: usize, floor: nat)
    requires
        aligned(m),
        m.frames.len() > floor,
        jump(bc, m, t, line).result is Ok,
    ensures
        keeps(m, jump(bc, m, t, line).machine, floor),
{
    lemma_moved_keeps(m, m, t, floor);
}

proof fn lemma_execute_keeps(
    bc: BytecodeView,
    m: MachineView,
    ins: InstructionView,
    line: usize,
    input: Option<Seq<char>>,
    unit: FloatModel,
    floor: nat,
)
    requires
        aligned(m),
        m.frames.len() > floor,
        execute_spec(bc, m, ins, line, input, unit).result is Ok,
        execute_spec(bc, m, ins, line, input, unit).machine.frames.len() > floor,
    ensures
        keeps(m, execute_spec(bc, m, ins, line, input, unit).machine, floor),
{
    reveal(execute_spec);
    match ins {
        InstructionView::Put(e) => {
            match value_of(e, m.scope, line, unit) {
                Ok(v) => {
                    lemma_moved_keeps(
                        m,
                        MachineView { output: m.output + render_spec(v, unit) + seq!['\n'], ..m },
                        0,
                        floor,
                    );
                },
                Err(_) => {},
            }
        },
        InstructionView::Let(name) => {
            lemma_moved_keeps(
                m,
                MachineView { scope: scope_declare(m.scope, m.scope.len() - 1, name), ..m },
                0,
                floor,
            );
        },
        InstructionView::Glb(name) => {
            lemma_moved_keeps(m, MachineView { scope: scope_declare(m.scope, 0, name), ..m }, 0, floor);
        },
        InstructionView::SetVar(name, e) => {
            match value_of(e, m.scope, line, unit) {
                Ok(v) => {
                    lemma_moved_keeps(
                        m,
                        MachineView { scope: scope_set(m.scope, name, v), ..m },
                        0,
                        floor,
                    );
                },
                Err(_) => {},
            }
        },
        InstructionView::Jmp(t) => {
            lemma_jump_keeps(bc, m, t, line, floor);
        },
        InstructionView::Jmpif(e, t) => {
            match value_of(e, m.scope, line, unit) {
                Ok(ObjectView::Bool(b)) => {
                    if b {
                        lemma_jump_keeps(bc, m, t, line, floor);
                    } else {
                        lemma_moved_keeps(m, m, 0, floor);
                    }
                },
                _ => {},
            }
        },
        InstructionView::Pctx => {
            lemma_moved_keeps(m, MachineView { scope: m.scope.push(Map::empty()), ..m }, 0, floor);
        },
        InstructionView::Dctx => {
            lemma_moved_keeps(m, MachineView { scope: m.scope.drop_last(), ..m }, 0, floor);
        },
        InstructionView::Call(func) => {
            lemma_call_keeps(bc, m, func, None, line, input, floor);
        },
        InstructionView::Scall(func, var) => {
            lemma_call_keeps(bc, m, func, Some(var), line, input, floor);
        },
        InstructionView::Ret(e) => {
            match value_of(e, m.scope, line, unit) {
                Ok(v) => {
                    lemma_finish_keeps(bc, m, v, floor);
                },
                Err(_) => {},
            }
        },
        InstructionView::Pushq(name) => {
            lemma_moved_keeps(
                m,
                MachineView { queue: m.queue.push(scope_get(m.scope, name)), ..m },
                0,
                floor,
            );
        },
        InstructionView::Exp(name) => {
            lemma_moved_keeps(
                m,
                MachineView {
                    scope: m.scope.update(
                        m.scope.len() - 1,
                        m.scope.last().insert(name, m.queue[0]),
                    ),
                    queue: m.queue.drop_first(),
                    ..m
                },
                0,
                floor,
            );
        },
    }
}

proof fn lemma_step_keeps(
    bc: BytecodeView,
    m: MachineView,
    input: Option<Seq<char>>,
    floor: nat,
    unit: FloatModel,
)
    requires
        aligned(m),
        m.frames.len() > floor,
        step_spec(bc, m, input, unit).result is Ok,
        step_spec(bc, m, input, unit).machine.frames.len() > floor,
    ensures
        keeps(m, step_spec(bc, m, input, unit).machine, floor),
{
    reveal(step_spec);
    let top = m.frames.last();
    if frame_ok(bc, top) {
        let code = bc.functions[top.function as int].code;
        if top.ip >= code.len() {
            lemma_finish_keeps(bc, m, ObjectView::Undefined, floor);
        } else {
            lemma_execute_keeps(bc, m, code[top.ip as int].1, code[top.ip as int].0, input, unit, floor);
        }
    }
}

/// While a call and the calls that it makes are running, the calls below
/// it and the blocks that were set aside for them stay as they are.
pub proof fn lemma_callers_kept(
    bc: BytecodeView,
    m: MachineView,
    inputs: Seq<Option<Seq<char>>>,
    floor: nat,
    unit: FloatModel,
)
    requires
        aligned(m),
        m.frames.len() > floor,
        stays_above(bc, m, inputs, floor, unit),
    ensures
        keeps(m, after_steps(bc, m, inputs, unit), floor),
        after_steps(bc, m, inputs, unit).frames.len() > floor,
    decreases inputs.len(),
{
    if inputs.len() > 0 {
        lemma_step_keeps(bc, m, inputs[0], floor, unit);
        lemma_callers_kept(
            bc,
            step_spec(bc, m, inputs[0], unit).machine,
            inputs.drop_first(),
            floor,
            unit,
        );
    }
}

/// The scope of a caller after its call returned `v`: the global block as
/// it is now, the other blocks `tail`, and `v` bound where the call at
/// `caller` was an `Scall`.
pub open spec fn resumed_scope(
    bc: BytecodeView,
    caller: Frame,
    global: Seq<Bindings>,
    tail: Seq<Bindings>,
    v: ObjectView,
) -> Seq<Bindings> {
    match bc.functions[caller.function as int].code[caller.ip as int].1 {
        InstructionView::Scall(_, var) => scope_set(global + tail, var, v),
        _ => global + tail,
    }
}

/// Scope isolation. A caller makes a call; the callee runs, with calls of
/// its own, through any number of steps; then the callee returns a value.
/// Whatever the callee did, the caller gets back the blocks that it had
/// before the call, all but the global one, exactly as they were, with
/// the value bound where the call was an `Scall`; the blocks set aside
/// for the calls below are as they were; and the caller goes on behind
/// its call.
pub proof fn lemma_scope_isolation(
    bc: BytecodeView,
    m: MachineView,
    func: Seq<char>,
    first: Option<Seq<char>>,
    inputs: Seq<Option<Seq<char>>>,
    v: ObjectView,
    unit: FloatModel,
)
    requires
        aligned(m),
        at_call(bc, m, func),
        bc.functions[m.frames.last().function as int].code.len() <= usize::MAX,
        m.frames.len() < MAX_RECURSION_DEPTH,
        stays_above(bc, step_spec(bc, m, first, unit).machine, inputs, m.frames.len(), unit),
        after_steps(bc, step_spec(bc, m, first, unit).machine, inputs, unit).frames.len()
            == m.frames.len() + 1,
    ensures
        ({
            let callee = after_steps(bc, step_spec(bc, m, first, unit).machine, inputs, unit);
            let back = finish_call(bc, callee, v);
            &&& back.result == Ok::<StatusView, ErrorView>(StatusView::Running)
            &&& back.machine.saved == m.saved
            &&& back.machine.scope == resumed_scope(
                bc,
                m.frames.last(),
                callee.scope.subrange(0, 1),
                m.scope.subrange(1, m.scope.len() as int),
                v,
            )
            &&& back.machine.frames == m.frames.drop_last().push(
                Frame {
                    function: m.frames.last().function,
                    ip: (m.frames.last().ip + 1) as usize,
                },
            )
        }),
{
    let entered = step_spec(bc, m, first, unit).machine;
    let d = m.frames.len();
    lemma_recursion_ceiling(bc, m, func, first, unit);
    lemma_call_isolates(bc, m, func, first, unit);
    assert(entered.frames.len() == d + 1);
    assert(entered.saved.len() == d);
    assert(aligned(entered)) by {
        reveal(step_spec);
        reveal(execute_spec);
        reveal(call_spec);
    }
    lemma_callers_kept(bc, entered, inputs, d, unit);
    let callee = after_steps(bc, entered, inputs, unit);
    assert(callee.saved.len() == d);
    assert(callee.saved.subrange(0, d as int) =~= callee.saved);
    assert(entered.saved.subrange(0, d as int) =~= entered.saved);
    assert(callee.saved == m.saved.push(m.scope.subrange(1, m.scope.len() as int)));
    assert(entered.frames.subrange(0, d as int) =~= m.frames);
    assert(callee.frames.drop_last() =~= callee.frames.subrange(0, d as int));
    assert(callee.frames.drop_last() == m.frames);
    assert(callee.saved.drop_last() =~= m.saved);
    assert(callee.saved.last() == m.scope.subrange(1, m.scope.len() as int));
    reveal(finish_call);
    let back = finish_call(bc, callee, v);
    assert(back.machine.frames =~= m.frames.drop_last().push(
        Frame { function: m.frames.last().function, ip: (m.frames.last().ip + 1) as usize },
    ));
}

} // verus!
