//! The bytecode, and the compiler from statements to bytecode.

use vstd::prelude::*;
use vstd::string::StringExecFns;
use crate::error::{leaf, Error, ErrorType, ErrorView};
use crate::float::{float_unit, model_of, FloatModel, FloatReply, FloatRequest};
use crate::lexer::{
    clone_names, lex_spec, names_view, Intermediate, Lexer, Statement, StatementView,
};
use crate::tokenizer::{clone_tokens, tokens_view, Token, TokenView};

verus! {

/// What an instruction is.
pub enum InstructionView {
    Put(Seq<TokenView>),
    Let(Seq<char>),
    Glb(Seq<char>),
    SetVar(Seq<char>, Seq<TokenView>),
    Jmp(usize),
    Jmpif(Seq<TokenView>, usize),
    Pctx,
    Dctx,
    Call(Seq<char>),
    Scall(Seq<char>, Seq<char>),
    Ret(Seq<TokenView>),
    Pushq(Seq<char>),
    Exp(Seq<char>),
}

// bytecode instruction
#[derive(Debug)]
pub enum Instruction {
    // print
    Put(Vec<Token>),
    // let, globally let, and set variables
    Let(String),
    Glb(String),
    SetVar(String, Vec<Token>),
    // jump and conditionally jump
    Jmp(usize),
    Jmpif(Vec<Token>, usize),
    // push and pop context
    Pctx,
    Dctx,
    // function instructions: the function; the function and the variable
    // that takes its result
    Call(String),
    Scall(String, String),
    Ret(Vec<Token>),
    // argument queue instructions
    Pushq(String),
    Exp(String),
}

impl View for Instruction {
    type V = InstructionView;

    open spec fn view(&self) -> InstructionView {
        match self {
            Instruction::Put(t) => InstructionView::Put(tokens_view(t@)),
            Instruction::Let(n) => InstructionView::Let(n@),
            Instruction::Glb(n) => InstructionView::Glb(n@),
            Instruction::SetVar(n, t) => InstructionView::SetVar(n@, tokens_view(t@)),
            Instruction::Jmp(t) => InstructionView::Jmp(*t),
            Instruction::Jmpif(c, t) => InstructionView::Jmpif(tokens_view(c@), *t),
            Instruction::Pctx => InstructionView::Pctx,
            Instruction::Dctx => InstructionView::Dctx,
            Instruction::Call(f) => InstructionView::Call(f@),
            Instruction::Scall(f, v) => InstructionView::Scall(f@, v@),
            Instruction::Ret(t) => InstructionView::Ret(tokens_view(t@)),
            Instruction::Pushq(n) => InstructionView::Pushq(n@),
            Instruction::Exp(n) => InstructionView::Exp(n@),
        }
    }
}

impl Clone for Instruction {
    fn clone(&self) -> (r: Self)
        ensures
            r@ == self@,
    {
        match self {
            Instruction::Put(t) => Instruction::Put(clone_tokens(t)),
            Instruction::Let(n) => Instruction::Let(n.clone()),
            Instruction::Glb(n) => Instruction::Glb(n.clone()),
            Instruction::SetVar(n, t) => Instruction::SetVar(n.clone(), clone_tokens(t)),
            Instruction::Jmp(t) => Instruction::Jmp(*t),
            Instruction::Jmpif(c, t) => Instruction::Jmpif(clone_tokens(c), *t),
            Instruction::Pctx => Instruction::Pctx,
            Instruction::Dctx => Instruction::Dctx,
            Instruction::Call(f) => Instruction::Call(f.clone()),
            Instruction::Scall(f, v) => Instruction::Scall(f.clone(), v.clone()),
            Instruction::Ret(t) => Instruction::Ret(clone_tokens(t)),
            Instruction::Pushq(n) => Instruction::Pushq(n.clone()),
            Instruction::Exp(n) => Instruction::Exp(n.clone()),
        }
    }
}

/// What a function is: its name, its parameters, and its instructions,
/// each with the source line it came from.
pub struct FunctionView {
    pub name: Seq<char>,
    pub args: Seq<Seq<char>>,
    pub code: Seq<(usize, InstructionView)>,
}

/// What a list of instructions with their lines is.
pub open spec fn code_view(code: Seq<(usize, Instruction)>) -> Seq<(usize, InstructionView)> {
    Seq::new(code.len(), |i: int| (code[i].0, code[i].1@))
}

// bytecode function
#[derive(Debug)]
pub struct Function {
    name: String,
    code: Vec<(usize, Instruction)>,
    args: Vec<String>,
}

impl View for Function {
    type V = FunctionView;

    closed spec fn view(&self) -> FunctionView {
        FunctionView { name: self.name@, args: names_view(self.args@), code: code_view(self.code@) }
    }
}

impl Function {
    pub fn new(name: String, args: Vec<String>) -> (r: Function)
        ensures
            r@ == (FunctionView { name: name@, args: names_view(args@), code: Seq::empty() }),
    {
        let r = Function { name, code: Vec::new(), args };
        assert(r@.code =~= Seq::<(usize, InstructionView)>::empty());
        r
    }

    pub fn set_args(&mut self, args: Vec<String>)
        ensures
            final(self)@ == (FunctionView { args: names_view(args@), ..old(self)@ }),
    {
        self.args = args;
    }

    pub fn get_args(&self) -> (r: &Vec<String>)
        ensures
            names_view(r@) == self@.args,
    {
        &self.args
    }

    pub fn get_name(&self) -> (r: &String)
        ensures
            r@ == self@.name,
    {
        &self.name
    }

    pub fn set_name(&mut self, name: String)
        ensures
            final(self)@ == (FunctionView { name: name@, ..old(self)@ }),
    {
        self.name = name;
    }

    pub fn len(&self) -> (r: usize)
        ensures
            r == self@.code.len(),
    {
        self.code.len()
    }

    /// The function with the instructions of `vec`, each with its line.
    pub fn from(name: String, args: Vec<String>, vec: Vec<(usize, Instruction)>) -> (r: Function)
        ensures
            r@ == (FunctionView { name: name@, args: names_view(args@), code: code_view(vec@) }),
    {
        Function { name, code: vec, args }
    }

    /// The instructions, each with its line.
    pub fn to_vec(&self) -> (r: Vec<(usize, Instruction)>)
        ensures
            code_view(r@) == self@.code,
    {
        let mut res: Vec<(usize, Instruction)> = Vec::new();
        let mut i: usize = 0;
        while i < self.code.len()
            invariant
                i <= self.code.len(),
                res.len() == i,
                forall|j: int|
                    0 <= j < i ==> (#[trigger] res[j]).0 == self.code[j].0 && res[j].1@
                        == self.code[j].1@,
            decreases self.code.len() - i,
        {
            res.push((self.code[i].0, self.code[i].1.clone()));
            i += 1;
        }
        assert(code_view(res@) =~= self@.code);
        res
    }

    /// The source line of instruction `index`.
    pub fn debug_line(&self, index: usize) -> (r: usize)
        requires
            index < self@.code.len(),
        ensures
            r == self@.code[index as int].0,
    {
        self.code[index].0
    }

    /// Instruction `index`.
    pub fn get(&self, index: usize) -> (r: &Instruction)
        requires
            index < self@.code.len(),
        ensures
            r@ == self@.code[index as int].1,
    {
        &self.code[index].1
    }

    /// Puts `instruction` in place of instruction `index`, on the same line.
    pub fn set(&mut self, index: usize, instruction: Instruction)
        requires
            index < old(self)@.code.len(),
        ensures
            final(self)@ == (FunctionView {
                code: old(self)@.code.update(
                    index as int,
                    (old(self)@.code[index as int].0, instruction@),
                ),
                ..old(self)@
            }),
    {
        let line = self.code[index].0;
        self.code.set(index, (line, instruction));
        assert(self@.code =~= old(self)@.code.update(index as int, (line, instruction@)));
    }

    pub fn push(&mut self, instruction: Instruction, orig_line: usize)
        ensures
            final(self)@ == (FunctionView {
                code: old(self)@.code.push((orig_line, instruction@)),
                ..old(self)@
            }),
    {
        self.code.push((orig_line, instruction));
        assert(self@.code =~= old(self)@.code.push((orig_line, instruction@)));
    }
}

impl Clone for Function {
    fn clone(&self) -> (r: Self)
        ensures
            r@ == self@,
    {
        Function { name: self.name.clone(), code: self.to_vec(), args: clone_names(&self.args) }
    }
}

/// What the bytecode of a program is: its functions, and whether a main
/// block and a block of globals were there.
pub struct BytecodeView {
    pub functions: Seq<FunctionView>,
    pub has_main: bool,
    pub has_global: bool,
}

/// The index of the first function of that name from `i` on, or the
/// number of functions.
pub open spec fn find_function(fs: Seq<FunctionView>, name: Seq<char>, i: int) -> int
    decreases fs.len() - i,
{
    if i < 0 || i >= fs.len() {
        fs.len() as int
    } else if fs[i].name == name {
        i
    } else {
        find_function(fs, name, i + 1)
    }
}

/// The functions after `f` is added: in place of the function of its
/// name, or at the end where there is none.
pub open spec fn with_function(fs: Seq<FunctionView>, f: FunctionView) -> Seq<FunctionView> {
    let i = find_function(fs, f.name, 0);
    if i < fs.len() {
        fs.update(i, f)
    } else {
        fs.push(f)
    }
}

/// A function that is found has the name that was looked for.
pub proof fn lemma_find_function(fs: Seq<FunctionView>, name: Seq<char>, i: int)
    requires
        0 <= i <= fs.len(),
    ensures
        i <= find_function(fs, name, i) <= fs.len(),
        find_function(fs, name, i) < fs.len() ==> fs[find_function(fs, name, i)].name == name,
    decreases fs.len() - i,
{
    if i < fs.len() && fs[i].name != name {
        lemma_find_function(fs, name, i + 1);
    }
}

/// What a list of functions is.
pub open spec fn functions_view(fs: Seq<Function>) -> Seq<FunctionView> {
    Seq::new(fs.len(), |i: int| fs[i]@)
}

// bytecode definition
#[derive(Debug)]
pub struct Bytecode {
    functions: Vec<Function>,
    has_main: bool,
    has_global: bool,
}

impl View for Bytecode {
    type V = BytecodeView;

    closed spec fn view(&self) -> BytecodeView {
        BytecodeView {
            functions: functions_view(self.functions@),
            has_main: self.has_main,
            has_global: self.has_global,
        }
    }
}

impl Bytecode {
    pub fn new() -> (r: Bytecode)
        ensures
            r@ == (BytecodeView { functions: Seq::empty(), has_main: false, has_global: false }),
    {
        let r = Bytecode { functions: Vec::new(), has_main: false, has_global: false };
        assert(r@.functions =~= Seq::<FunctionView>::empty());
        r
    }

    pub fn has_main(&self) -> (r: bool)
        ensures
            r == self@.has_main,
    {
        self.has_main
    }

    pub fn has_global(&self) -> (r: bool)
        ensures
            r == self@.has_global,
    {
        self.has_global
    }

    /// The place of the function of that name.
    pub fn index_of(&self, func: &String) -> (r: Option<usize>)
        ensures
            match r {
                Some(i) => i == find_function(self@.functions, func@, 0) && i
                    < self@.functions.len(),
                None => find_function(self@.functions, func@, 0) == self@.functions.len(),
            },
    {
        let ghost fs = self@.functions;
        let mut i: usize = 0;
        while i < self.functions.len()
            invariant
                i <= self.functions.len(),
                fs == self@.functions,
                find_function(fs, func@, 0) == find_function(fs, func@, i as int),
            decreases self.functions.len() - i,
        {
            assert(fs[i as int] == self.functions[i as int]@);
            if *self.functions[i].get_name() == *func {
                return Some(i);
            }
            i += 1;
        }
        None
    }

    /// The number of functions.
    pub fn functions_len(&self) -> (r: usize)
        ensures
            r == self@.functions.len(),
    {
        self.functions.len()
    }

    /// The function at place `index`.
    pub fn function(&self, index: usize) -> (r: &Function)
        requires
            index < self@.functions.len(),
        ensures
            r@ == self@.functions[index as int],
    {
        &self.functions[index]
    }

    pub fn has_func(&self, func: &String) -> (r: bool)
        ensures
            r == (find_function(self@.functions, func@, 0) < self@.functions.len()),
    {
        self.index_of(func).is_some()
    }

    /// The source line of instruction `index` of the function `func`.
    pub fn debug_line(&self, func: String, index: usize) -> (r: usize)
        requires
            find_function(self@.functions, func@, 0) < self@.functions.len(),
            index < self@.functions[find_function(self@.functions, func@, 0)].code.len(),
        ensures
            r == self@.functions[find_function(self@.functions, func@, 0)].code[index as int].0,
    {
        let i = self.index_of(&func).unwrap();
        self.functions[i].debug_line(index)
    }

    // pushes a function into the bytecode
    // replaces old function if same name
    pub fn push(&mut self, func: Function)
        ensures
            final(self)@ == (BytecodeView {
                functions: with_function(old(self)@.functions, func@),
                ..old(self)@
            }),
    {
        let ghost before = self@.functions;
        match self.index_of(func.get_name()) {
            Some(i) => {
                self.functions.set(i, func);
                assert(self@.functions =~= before.update(i as int, func@));
            },
            None => {
                self.functions.push(func);
                assert(self@.functions =~= before.push(func@));
            },
        }
    }

    // main function
    pub fn set_main(&mut self, func: Function)
        ensures
            final(self)@ == (BytecodeView {
                functions: with_function(
                    old(self)@.functions,
                    FunctionView { name: "[Main]"@, ..func@ },
                ),
                has_main: true,
                has_global: old(self)@.has_global,
            }),
    {
        let mut func = func;
        func.set_name(String::from_str("[Main]"));
        self.push(func);
        self.has_main = true;
    }

    // global function (i.e. Intro block)
    pub fn set_global(&mut self, func: Function)
        ensures
            final(self)@ == (BytecodeView {
                functions: with_function(
                    old(self)@.functions,
                    FunctionView { name: "[Global]"@, ..func@ },
                ),
                has_main: old(self)@.has_main,
                has_global: true,
            }),
    {
        let mut func = func;
        func.set_name(String::from_str("[Global]"));
        self.push(func);
        self.has_global = true;
    }

    /// A copy of the function of that name.
    pub fn get_func(&self, name: String) -> (r: Function)
        requires
            find_function(self@.functions, name@, 0) < self@.functions.len(),
        ensures
            r@ == self@.functions[find_function(self@.functions, name@, 0)],
    {
        let i = self.index_of(&name).unwrap();
        self.functions[i].clone()
    }
}

/// The function with one more instruction at its end.
pub open spec fn emit(f: FunctionView, ins: InstructionView, line: usize) -> FunctionView {
    FunctionView { code: f.code.push((line, ins)), ..f }
}

/// The function with `ins` in place of instruction `index`.
pub open spec fn patch(f: FunctionView, index: int, ins: InstructionView) -> FunctionView {
    FunctionView { code: f.code.update(index, (f.code[index].0, ins)), ..f }
}

/// The function with one `Pushq` for each of the names from `i` on.
pub open spec fn emit_pushes(f: FunctionView, args: Seq<Seq<char>>, i: int, line: usize) -> FunctionView
    decreases args.len() - i,
{
    if i < 0 || i >= args.len() {
        f
    } else {
        emit_pushes(emit(f, InstructionView::Pushq(args[i]), line), args, i + 1, line)
    }
}

/// The function with one `Exp` for each of the names from `i` on.
pub open spec fn emit_params(f: FunctionView, params: Seq<Seq<char>>, i: int, line: usize) -> FunctionView
    decreases params.len() - i,
{
    if i < 0 || i >= params.len() {
        f
    } else {
        emit_params(emit(f, InstructionView::Exp(params[i]), line), params, i + 1, line)
    }
}

/// A function under construction: its instructions so far, and the places
/// of the jumps that wait for the end of their `if` or `while`, the
/// innermost last.
pub struct Partial {
    pub f: FunctionView,
    pub checks: Seq<usize>,
}

pub open spec fn too_long(line: usize) -> ErrorView {
    leaf(ErrorType::RuntimeError, "Function too long"@, Some(line))
}

pub open spec fn stray_end(line: usize) -> ErrorView {
    leaf(ErrorType::SyntaxError, "Mismatched while or if end"@, Some(line))
}

pub open spec fn unclosed_check(line: usize) -> ErrorView {
    leaf(ErrorType::SyntaxError, "Mismatched while or if start"@, Some(line))
}

pub open spec fn unblocked(line: usize) -> ErrorView {
    leaf(ErrorType::SyntaxError, "Unblocked statement"@, Some(line))
}

/// The function after one statement of a block. A condition becomes a
/// `Jmpif` over the next instruction, a `Jmp` whose target is filled in
/// at the end of the `if` or `while`, and a `Pctx`. The end of a `while`
/// jumps back to the `Jmpif`; both ends make the waiting `Jmp` point
/// behind them. In the block of globals a declaration is global.
pub open spec fn compile_statement(p: Partial, s: StatementView, line: usize, global: bool) -> Result<
    Partial,
    ErrorView,
> {
    let here = p.f.code.len();
    match s {
        StatementView::Say(t) => Ok(Partial { f: emit(p.f, InstructionView::Put(t), line), ..p }),
        StatementView::Let(n) => Ok(
            Partial {
                f: emit(
                    p.f,
                    if global {
                        InstructionView::Glb(n)
                    } else {
                        InstructionView::Let(n)
                    },
                    line,
                ),
                ..p
            },
        ),
        StatementView::Assign(n, t) => Ok(
            Partial { f: emit(p.f, InstructionView::SetVar(n, t), line), ..p },
        ),
        StatementView::Check(t) => if here + 3 > usize::MAX {
            Err(too_long(line))
        } else {
            Ok(
                Partial {
                    f: emit(
                        emit(
                            emit(p.f, InstructionView::Jmpif(t, (here + 2) as usize), line),
                            InstructionView::Jmp(usize::MAX),
                            line,
                        ),
                        InstructionView::Pctx,
                        line,
                    ),
                    checks: p.checks.push((here + 1) as usize),
                },
            )
        },
        StatementView::WhileEnd => if p.checks.len() == 0 {
            Err(stray_end(line))
        } else {
            let top = p.checks.last();
            Ok(
                Partial {
                    f: patch(
                        emit(
                            emit(p.f, InstructionView::Dctx, line),
                            InstructionView::Jmp((top - 1) as usize),
                            line,
                        ),
                        top as int,
                        InstructionView::Jmp((here + 2) as usize),
                    ),
                    checks: p.checks.drop_last(),
                },
            )
        },
        StatementView::IfEnd => if p.checks.len() == 0 {
            Err(stray_end(line))
        } else {
            Ok(
                Partial {
                    f: patch(
                        emit(p.f, InstructionView::Dctx, line),
                        p.checks.last() as int,
                        InstructionView::Jmp((here + 1) as usize),
                    ),
                    checks: p.checks.drop_last(),
                },
            )
        },
        StatementView::Return(t) => Ok(Partial { f: emit(p.f, InstructionView::Ret(t), line), ..p }),
        StatementView::Run(func, args) => Ok(
            Partial {
                f: emit(emit_pushes(p.f, args, 0, line), InstructionView::Call(func), line),
                ..p
            },
        ),
        StatementView::RunAssign(var, func, args) => Ok(
            Partial {
                f: emit(emit_pushes(p.f, args, 0, line), InstructionView::Scall(func, var), line),
                ..p
            },
        ),
        _ => Err(unblocked(line)),
    }
}

/// Whether the statement starts a block.
pub open spec fn is_block_marker(s: StatementView) -> bool {
    s is Chorus || s is Intro || s is Verse
}

/// The function that the statements from `i` on complete, up to the next
/// block or the end, and the place of that block. The function ends with
/// a `Dctx`. A condition that is still open there is an error at its line.
pub open spec fn compile_body(
    ir: Seq<(usize, StatementView)>,
    i: int,
    p: Partial,
    global: bool,
) -> Result<(FunctionView, int), ErrorView>
    decreases ir.len() - i,
{
    if i < 0 || i >= ir.len() || is_block_marker(ir[i].1) {
        if p.checks.len() > 0 {
            Err(unclosed_check(p.f.code[p.checks.last() as int].0))
        } else {
            Ok((emit(p.f, InstructionView::Dctx, 0), i))
        }
    } else {
        match compile_statement(p, ir[i].1, ir[i].0, global) {
            Err(e) => Err(e),
            Ok(q) => compile_body(ir, i + 1, q, global),
        }
    }
}

/// A function that holds its opening `Pctx` and nothing else.
pub open spec fn open_function(name: Seq<char>, args: Seq<Seq<char>>) -> Partial {
    Partial {
        f: emit(FunctionView { name, args, code: Seq::empty() }, InstructionView::Pctx, 0),
        checks: Seq::empty(),
    }
}

/// The bytecode with the function `f` in it.
pub open spec fn with_block(bc: BytecodeView, s: StatementView, f: FunctionView) -> BytecodeView {
    match s {
        StatementView::Chorus => BytecodeView {
            functions: with_function(bc.functions, FunctionView { name: "[Main]"@, ..f }),
            has_main: true,
            has_global: bc.has_global,
        },
        StatementView::Intro => BytecodeView {
            functions: with_function(bc.functions, FunctionView { name: "[Global]"@, ..f }),
            has_main: bc.has_main,
            has_global: true,
        },
        _ => BytecodeView { functions: with_function(bc.functions, f), ..bc },
    }
}

/// The function that a block marker opens: the main block and the block
/// of globals under their reserved names, a function under its own name
/// with one `Exp` for each of its parameters.
pub open spec fn start_block(ir: Seq<(usize, StatementView)>, i: int) -> Partial {
    match ir[i].1 {
        StatementView::Chorus => open_function("[Main]"@, Seq::empty()),
        StatementView::Intro => open_function("[Global]"@, Seq::empty()),
        StatementView::Verse(name, params) => {
            let line = if i + 1 < ir.len() {
                ir[i + 1].0
            } else {
                ir[i].0
            };
            Partial { f: emit_params(open_function(name, params).f, params, 0, line), checks: Seq::empty() }
        },
        _ => open_function(Seq::empty(), Seq::empty()),
    }
}

/// The bytecode of the statements from `i` on, added to `bc`. A statement
/// outside of any block is an error.
pub open spec fn compile_program(ir: Seq<(usize, StatementView)>, i: int, bc: BytecodeView) -> Result<
    BytecodeView,
    ErrorView,
>
    decreases ir.len() - i,
{
    if i < 0 || i >= ir.len() {
        Ok(bc)
    } else if !is_block_marker(ir[i].1) {
        Err(unblocked(ir[i].0))
    } else {
        match compile_body(ir, i + 1, start_block(ir, i), ir[i].1 is Intro) {
            Err(e) => Err(e),
            Ok((f, next)) => if next <= i || next > ir.len() {
                Ok(bc)
            } else {
                compile_program(ir, next, with_block(bc, ir[i].1, f))
            },
        }
    }
}

/// The bytecode of a program.
pub open spec fn compile_spec(ir: Seq<(usize, StatementView)>) -> Result<BytecodeView, ErrorView> {
    compile_program(
        ir,
        0,
        BytecodeView { functions: Seq::empty(), has_main: false, has_global: false },
    )
}

/// Every jump of the function goes to one of its instructions.
pub open spec fn jumps_in_range(f: FunctionView) -> bool {
    forall|i: int|
        0 <= i < f.code.len() ==> match (#[trigger] f.code[i]).1 {
            InstructionView::Jmp(t) => t < f.code.len(),
            InstructionView::Jmpif(_, t) => t < f.code.len(),
            _ => true,
        }
}

/// Every jump of every function goes to an instruction of that function.
pub open spec fn well_formed(bc: BytecodeView) -> bool {
    forall|k: int| 0 <= k < bc.functions.len() ==> jumps_in_range(#[trigger] bc.functions[k])
}

/// A function under construction is in order: each waiting jump is in the
/// function, behind its `Jmpif`, and every other jump goes to an
/// instruction that is there or to the one that comes next.
pub open spec fn partial_ok(p: Partial) -> bool {
    &&& forall|k: int|
        0 <= k < p.checks.len() ==> 1 <= (#[trigger] p.checks[k]) < p.f.code.len()
    &&& forall|i: int|
        0 <= i < p.f.code.len() ==> match (#[trigger] p.f.code[i]).1 {
            InstructionView::Jmp(t) => t <= p.f.code.len() || exists|k: int|
                0 <= k < p.checks.len() && p.checks[k] == i,
            InstructionView::Jmpif(_, t) => t <= p.f.code.len(),
            _ => true,
        }
}

proof fn lemma_emit_ok(p: Partial, ins: InstructionView, line: usize)
    requires
        partial_ok(p),
        match ins {
            InstructionView::Jmp(t) => t <= p.f.code.len() + 1,
            InstructionView::Jmpif(_, t) => t <= p.f.code.len() + 1,
            _ => true,
        },
    ensures
        partial_ok(Partial { f: emit(p.f, ins, line), checks: p.checks }),
{
    let q = Partial { f: emit(p.f, ins, line), checks: p.checks };
    assert forall|i: int| 0 <= i < q.f.code.len() implies match (#[trigger] q.f.code[i]).1 {
        InstructionView::Jmp(t) => t <= q.f.code.len() || exists|k: int|
            0 <= k < q.checks.len() && q.checks[k] == i,
        InstructionView::Jmpif(_, t) => t <= q.f.code.len(),
        _ => true,
    } by {
        if i < p.f.code.len() {
            assert(q.f.code[i] == p.f.code[i]);
            match p.f.code[i].1 {
                InstructionView::Jmp(t) => {
                    if t > p.f.code.len() {
                        let k = choose|k: int| 0 <= k < p.checks.len() && p.checks[k] == i;
                        assert(q.checks[k] == i);
                    }
                },
                _ => {},
            }
        }
    }
}

proof fn lemma_patch_ok(p: Partial, line: usize)
    requires
        partial_ok(p),
        p.checks.len() > 0,
    ensures
        partial_ok(
            Partial {
                f: patch(p.f, p.checks.last() as int, InstructionView::Jmp(p.f.code.len() as usize)),
                checks: p.checks.drop_last(),
            },
        ),
{
    let top = p.checks.last() as int;
    assert(p.checks[p.checks.len() - 1] == top);
    let q = Partial {
        f: patch(p.f, top, InstructionView::Jmp(p.f.code.len() as usize)),
        checks: p.checks.drop_last(),
    };
    assert forall|k: int| 0 <= k < q.checks.len() implies 1 <= (#[trigger] q.checks[k])
        < q.f.code.len() by {
        assert(q.checks[k] == p.checks[k]);
    }
    assert forall|i: int| 0 <= i < q.f.code.len() implies match (#[trigger] q.f.code[i]).1 {
        InstructionView::Jmp(t) => t <= q.f.code.len() || exists|k: int|
            0 <= k < q.checks.len() && q.checks[k] == i,
        InstructionView::Jmpif(_, t) => t <= q.f.code.len(),
        _ => true,
    } by {
        if i != top {
            assert(q.f.code[i] == p.f.code[i]);
            match p.f.code[i].1 {
                InstructionView::Jmp(t) => {
                    if t > p.f.code.len() {
                        let k = choose|k: int| 0 <= k < p.checks.len() && p.checks[k] == i;
                        assert(k < p.checks.len() - 1);
                        assert(q.checks[k] == i);
                    }
                },
                _ => {},
            }
        }
    }
}

/// The function and the waiting jumps as the compiler holds them.
pub open spec fn partial_of(function: Function, checks: Seq<usize>) -> Partial {
    Partial { f: function@, checks }
}

// parse common statement that doesn't vary between functions
fn parse_common(
    function: &mut Function,
    checks: &mut Vec<usize>,
    statement: &Statement,
    line: usize,
    global: bool,
) -> (r: Result<(), Error>)
    requires
        partial_ok(partial_of(*old(function), old(checks)@)),
    ensures
        match r {
            Ok(_) => compile_statement(
                partial_of(*old(function), old(checks)@),
                statement@,
                line,
                global,
            ) == Ok::<Partial, ErrorView>(partial_of(*final(function), final(checks)@))
                && partial_ok(partial_of(*final(function), final(checks)@)),
            Err(e) => compile_statement(
                partial_of(*old(function), old(checks)@),
                statement@,
                line,
                global,
            ) == Err::<Partial, ErrorView>(e@),
        },
{
    let ghost p0 = partial_of(*function, checks@);
    let here = function.len();
    match statement {
        // print
        Statement::Say(tokens) => {
            let ins = Instruction::Put(clone_tokens(tokens));
            proof {
                lemma_emit_ok(p0, ins@, line);
            }
            function.push(ins, line);
        },
        // let and assign variables
        Statement::Let(varname) => {
            let ins = if global {
                Instruction::Glb(varname.clone())
            } else {
                Instruction::Let(varname.clone())
            };
            proof {
                lemma_emit_ok(p0, ins@, line);
            }
            function.push(ins, line);
        },
        Statement::Assign(varname, tokens) => {
            let ins = Instruction::SetVar(varname.clone(), clone_tokens(tokens));
            proof {
                lemma_emit_ok(p0, ins@, line);
            }
            function.push(ins, line);
        },
        // while loops and if statements
        Statement::Check(tokens) => {
            if here > usize::MAX - 3 {
                return Err(Error::new(ErrorType::RuntimeError, "Function too long", Some(line)));
            }
            // skip the next line if tokens evaluates to true
            let first = Instruction::Jmpif(clone_tokens(tokens), here + 2);
            function.push(first, line);
            // jump to end of loop/if
            // we don't know where that is, so put a temporary value for now
            function.push(Instruction::Jmp(usize::MAX), line);
            checks.push(here + 1);  // store index of jmp(umax)
            // add new context
            function.push(Instruction::Pctx, line);
            proof {
                let q = partial_of(*function, checks@);
                assert(q.checks[q.checks.len() - 1] == here + 1);
                assert forall|k: int| 0 <= k < q.checks.len() implies 1 <= (#[trigger] q.checks[k])
                    < q.f.code.len() by {
                    if k < p0.checks.len() {
                        assert(q.checks[k] == p0.checks[k]);
                    }
                }
                assert forall|i: int| 0 <= i < q.f.code.len() implies match (
                #[trigger] q.f.code[i]).1 {
                    InstructionView::Jmp(t) => t <= q.f.code.len() || exists|k: int|
                        0 <= k < q.checks.len() && q.checks[k] == i,
                    InstructionView::Jmpif(_, t) => t <= q.f.code.len(),
                    _ => true,
                } by {
                    if i < here {
                        assert(q.f.code[i] == p0.f.code[i]);
                        match p0.f.code[i].1 {
                            InstructionView::Jmp(t) => {
                                if t > p0.f.code.len() {
                                    let k = choose|k: int|
                                        0 <= k < p0.checks.len() && p0.checks[k] == i;
                                    assert(q.checks[k] == i);
                                }
                            },
                            _ => {},
                        }
                    }
                }
            }
        },
        Statement::WhileEnd => {
            if checks.len() == 0 {
                return Err(
                    Error::new(ErrorType::SyntaxError, "Mismatched while or if end", Some(line)),
                );
            }
            let top = checks[checks.len() - 1];
            // delete context
            proof {
                lemma_emit_ok(p0, InstructionView::Dctx, line);
            }
            function.push(Instruction::Dctx, line);
            // jump back to condition checking
            proof {
                lemma_emit_ok(partial_of(*function, checks@), InstructionView::Jmp((top - 1) as usize), line);
            }
            function.push(Instruction::Jmp(top - 1), line);
            // replace temporary index from before
            proof {
                lemma_patch_ok(partial_of(*function, checks@), line);
            }
            let end = function.len();
            function.set(top, Instruction::Jmp(end));
            checks.pop();
        },
        Statement::IfEnd => {
            if checks.len() == 0 {
                return Err(
                    Error::new(ErrorType::SyntaxError, "Mismatched while or if end", Some(line)),
                );
            }
            let top = checks[checks.len() - 1];
            // delete context
            proof {
                lemma_emit_ok(p0, InstructionView::Dctx, line);
            }
            function.push(Instruction::Dctx, line);
            // replace temporary index from before
            proof {
                lemma_patch_ok(partial_of(*function, checks@), line);
            }
            let end = function.len();
            function.set(top, Instruction::Jmp(end));
            checks.pop();
        },
        Statement::Return(tokens) => {
            let ins = Instruction::Ret(clone_tokens(tokens));
            proof {
                lemma_emit_ok(p0, ins@, line);
            }
            function.push(ins, line);
        },
        Statement::Run(func, args) => {
            push_arguments(function, checks, args, line);
            let ins = Instruction::Call(func.clone());
            proof {
                lemma_emit_ok(partial_of(*function, checks@), ins@, line);
            }
            function.push(ins, line);
        },
        Statement::RunAssign(var, func, args) => {
            push_arguments(function, checks, args, line);
            let ins = Instruction::Scall(func.clone(), var.clone());
            proof {
                lemma_emit_ok(partial_of(*function, checks@), ins@, line);
            }
            function.push(ins, line);
        },
        _ => {
            return Err(Error::new(ErrorType::SyntaxError, "Unblocked statement", Some(line)));
        },
    }
    Ok(())
}

// one Pushq for each argument of a call
fn push_arguments(function: &mut Function, checks: &Vec<usize>, args: &Vec<String>, line: usize)
    requires
        partial_ok(partial_of(*old(function), checks@)),
    ensures
        final(function)@ == emit_pushes(old(function)@, names_view(args@), 0, line),
        partial_ok(partial_of(*final(function), checks@)),
{
    let ghost nv = names_view(args@);
    let mut i: usize = 0;
    while i < args.len()
        invariant
            i <= args.len(),
            nv == names_view(args@),
            partial_ok(partial_of(*function, checks@)),
            emit_pushes(old(function)@, nv, 0, line) == emit_pushes(function@, nv, i as int, line),
        decreases args.len() - i,
    {
        assert(nv[i as int] == args[i as int]@);
        let ins = Instruction::Pushq(args[i].clone());
        proof {
            lemma_emit_ok(partial_of(*function, checks@), ins@, line);
        }
        function.push(ins, line);
        i += 1;
    }
}

proof fn lemma_seal(p: Partial)
    requires
        partial_ok(p),
        p.checks.len() == 0,
    ensures
        jumps_in_range(emit(p.f, InstructionView::Dctx, 0)),
{
    let f = emit(p.f, InstructionView::Dctx, 0);
    assert forall|i: int| 0 <= i < f.code.len() implies match (#[trigger] f.code[i]).1 {
        InstructionView::Jmp(t) => t < f.code.len(),
        InstructionView::Jmpif(_, t) => t < f.code.len(),
        _ => true,
    } by {
        if i < p.f.code.len() {
            assert(f.code[i] == p.f.code[i]);
        }
    }
}

proof fn lemma_with_function_ok(fs: Seq<FunctionView>, f: FunctionView)
    requires
        forall|k: int| 0 <= k < fs.len() ==> jumps_in_range(#[trigger] fs[k]),
        jumps_in_range(f),
    ensures
        forall|k: int|
            0 <= k < with_function(fs, f).len() ==> jumps_in_range(#[trigger] with_function(fs, f)[k]),
{
    lemma_find_function(fs, f.name, 0);
    let gs = with_function(fs, f);
    let at = find_function(fs, f.name, 0);
    assert forall|k: int| 0 <= k < gs.len() implies jumps_in_range(#[trigger] gs[k]) by {
        if k != at {
            assert(gs[k] == fs[k]);
        }
    }
}

/// What a result of bytecode is.
pub open spec fn bytecode_result(r: Result<Bytecode, Error>) -> Result<BytecodeView, ErrorView> {
    match r {
        Ok(bc) => Ok(bc@),
        Err(e) => Err(e@),
    }
}

#[derive(Debug)]
pub struct Compiler {
    raw: Intermediate,
}

impl Compiler {
    /// The statements to compile.
    pub closed spec fn statements(&self) -> Seq<(usize, StatementView)> {
        self.raw@
    }

    pub fn new(raw: Intermediate) -> (r: Compiler)
        ensures
            r.statements() == raw@,
    {
        Compiler { raw }
    }

    // the function that the block marker at `at` opens
    fn open_block(raw: &Intermediate, at: usize) -> (r: Function)
        requires
            at < raw@.len(),
        ensures
            partial_of(r, Seq::empty()) == start_block(raw@, at as int),
            partial_ok(partial_of(r, Seq::empty())),
    {
        match raw.get(at) {
            Statement::Chorus => {
                let args: Vec<String> = Vec::new();
                assert(names_view(args@) =~= Seq::<Seq<char>>::empty());
                let mut main = Function::new(String::from_str("[Main]"), args);
                proof {
                    lemma_emit_ok(partial_of(main, Seq::empty()), InstructionView::Pctx, 0);
                }
                main.push(Instruction::Pctx, 0);  // new context
                main
            },
            Statement::Intro => {
                let args: Vec<String> = Vec::new();
                assert(names_view(args@) =~= Seq::<Seq<char>>::empty());
                let mut global = Function::new(String::from_str("[Global]"), args);
                proof {
                    lemma_emit_ok(partial_of(global, Seq::empty()), InstructionView::Pctx, 0);
                }
                global.push(Instruction::Pctx, 0);  // new context
                global
            },
            Statement::Verse(func_name, func_args) => {
                let line = if at < raw.len() - 1 {
                    raw.debug_line(at + 1)
                } else {
                    raw.debug_line(at)
                };
                let mut func = Function::new(func_name.clone(), clone_names(func_args));
                proof {
                    lemma_emit_ok(partial_of(func, Seq::empty()), InstructionView::Pctx, 0);
                }
                func.push(Instruction::Pctx, 0);  // new context
                let ghost pv = names_view(func_args@);
                let ghost opened = func@;
                let mut i: usize = 0;
                while i < func_args.len()
                    invariant
                        i <= func_args.len(),
                        pv == names_view(func_args@),
                        partial_ok(partial_of(func, Seq::empty())),
                        emit_params(opened, pv, 0, line) == emit_params(func@, pv, i as int, line),
                    decreases func_args.len() - i,
                {
                    // expect arguments
                    assert(pv[i as int] == func_args[i as int]@);
                    let ins = Instruction::Exp(func_args[i].clone());
                    proof {
                        lemma_emit_ok(partial_of(func, Seq::empty()), ins@, line);
                    }
                    func.push(ins, line);
                    i += 1;
                }
                func
            },
            _ => {
                let args: Vec<String> = Vec::new();
                assert(names_view(args@) =~= Seq::<Seq<char>>::empty());
                let mut func = Function::new(String::new(), args);
                proof {
                    lemma_emit_ok(partial_of(func, Seq::empty()), InstructionView::Pctx, 0);
                }
                func.push(Instruction::Pctx, 0);
                func
            },
        }
    }

    // whether the statement at `ptr` belongs to the block being compiled
    fn continues(raw: &Intermediate, ptr: usize) -> (r: bool)
        ensures
            r == (ptr < raw@.len() && !is_block_marker(raw@[ptr as int].1)),
    {
        if ptr >= raw.len() {
            return false;
        }
        match raw.get(ptr) {
            Statement::Chorus | Statement::Intro | Statement::Verse(_, _) => false,
            _ => true,
        }
    }

    // parses one block: the main function, the global function ([Intro])
    // or a function ([Verse X])
    fn parse_block(raw: &Intermediate, at: usize) -> (r: Result<(Function, usize), Error>)
        requires
            at < raw@.len(),
        ensures
            match r {
                Ok((f, next)) => compile_body(
                    raw@,
                    at + 1,
                    start_block(raw@, at as int),
                    raw@[at as int].1 is Intro,
                ) == Ok::<(FunctionView, int), ErrorView>((f@, next as int)) && at < next
                    <= raw@.len() && jumps_in_range(f@),
                Err(e) => compile_body(
                    raw@,
                    at + 1,
                    start_block(raw@, at as int),
                    raw@[at as int].1 is Intro,
                ) == Err::<(FunctionView, int), ErrorView>(e@),
            },
    {
        let count = raw.len();
        let global = match raw.get(at) {
            Statement::Intro => true,
            _ => false,
        };
        let mut function = Self::open_block(raw, at);
        let mut checks: Vec<usize> = Vec::new();
        let mut ptr: usize = at + 1;
        let ghost target = compile_body(raw@, at + 1, start_block(raw@, at as int), global);
        assert(checks@ =~= Seq::<usize>::empty());
        let mut more = Self::continues(raw, ptr);
        while more
            invariant
                at < ptr <= raw@.len(),
                count == raw@.len(),
                global == (raw@[at as int].1 is Intro),
                more == (ptr < raw@.len() && !is_block_marker(raw@[ptr as int].1)),
                partial_ok(partial_of(function, checks@)),
                target == compile_body(
                    raw@,
                    at + 1,
                    start_block(raw@, at as int),
                    raw@[at as int].1 is Intro,
                ),
                target == compile_body(raw@, ptr as int, partial_of(function, checks@), global),
            decreases raw@.len() - ptr,
        {
            match parse_common(&mut function, &mut checks, raw.get(ptr), raw.debug_line(ptr), global) {
                Err(e) => {
                    return Err(e);
                },
                Ok(_) => {},
            }
            ptr += 1;
            more = Self::continues(raw, ptr);
        }
        if checks.len() > 0 {
            let line = function.debug_line(checks[checks.len() - 1]);
            return Err(Error::new(ErrorType::SyntaxError, "Mismatched while or if start", Some(line)));
        }
        proof {
            lemma_seal(partial_of(function, checks@));
        }
        function.push(Instruction::Dctx, 0);  // pop context
        Ok((function, ptr))
    }

    fn parse_program(raw: &Intermediate) -> (r: Result<Bytecode, Error>)
        ensures
            bytecode_result(r) == compile_spec(raw@),
            r is Ok ==> well_formed(r->Ok_0@),
    {
        let mut compiled = Bytecode::new();
        let mut ptr: usize = 0;
        while ptr < raw.len()
            invariant
                ptr <= raw@.len(),
                well_formed(compiled@),
                compile_spec(raw@) == compile_program(raw@, ptr as int, compiled@),
            decreases raw@.len() - ptr,
        {
            let kind = match raw.get(ptr) {
                Statement::Chorus => 0u8,
                Statement::Intro => 1u8,
                Statement::Verse(_, _) => 2u8,
                _ => {
                    return Err(
                        Error::new(
                            ErrorType::SyntaxError,
                            "Unblocked statement",
                            Some(raw.debug_line(ptr)),
                        ),
                    );
                },
            };
            let (function, next) = match Self::parse_block(raw, ptr) {
                Ok(done) => done,
                Err(e) => {
                    return Err(e);
                },
            };
            proof {
                lemma_with_function_ok(compiled@.functions, function@);
                lemma_with_function_ok(
                    compiled@.functions,
                    FunctionView { name: "[Main]"@, ..function@ },
                );
                lemma_with_function_ok(
                    compiled@.functions,
                    FunctionView { name: "[Global]"@, ..function@ },
                );
            }
            if kind == 0u8 {
                compiled.set_main(function);
            } else if kind == 1u8 {
                compiled.set_global(function);
            } else {
                compiled.push(function);
            }
            ptr = next;
        }
        Ok(compiled)
    }

    /// Compiles the statements to bytecode. Every jump of a compiled
    /// function goes to an instruction of that function: no target is
    /// left as the placeholder.
    pub fn compile(self) -> (r: Result<Bytecode, Error>)
        ensures
            bytecode_result(r) == compile_spec(self.statements()),
            r is Ok ==> well_formed(r->Ok_0@),
    {
        Self::parse_program(&self.raw)
    }
}

/// The bytecode of a source text: of its statements, where it has no
/// error of its own.
pub open spec fn compile_source_spec(text: Seq<char>, unit: FloatModel) -> Result<
    BytecodeView,
    ErrorView,
> {
    match lex_spec(text, unit) {
        Err(e) => Err(e),
        Ok(ir) => compile_spec(ir),
    }
}

/// Lexes and compiles a source text.
pub fn compile_source<F: Fn(FloatRequest) -> FloatReply>(source: String, unit: &F) -> (r: Result<
    Bytecode,
    Error,
>)
    requires
        float_unit(unit),
    ensures
        bytecode_result(r) == compile_source_spec(source@, model_of(unit)),
        r is Ok ==> well_formed(r->Ok_0@),
{
    match Lexer::new(source).parse(unit) {
        Err(e) => Err(e),
        Ok(ir) => Compiler::new(ir).compile(),
    }
}

/// Compiling is a function of the source and of the float unit alone:
/// two compilations of one source give the same functions in the same
/// order with the same instructions, or the same error.
pub proof fn lemma_compile_deterministic(
    first: Result<Bytecode, Error>,
    second: Result<Bytecode, Error>,
    text: Seq<char>,
    unit: FloatModel,
)
    requires
        bytecode_result(first) == compile_source_spec(text, unit),
        bytecode_result(second) == compile_source_spec(text, unit),
    ensures
        bytecode_result(first) == bytecode_result(second),
{
}

} // verus!
