//! The lexer: from source text to the statements of a program, each with
//! the line it came from.

use vstd::prelude::*;
use vstd::string::StringExecFns;
use crate::error::{leaf, wrapped, Error, ErrorType, ErrorView};
use crate::expr::no_such_variable;
use crate::float::{float_unit, model_of, FloatModel, FloatReply, FloatRequest};
use crate::stdlib::{arity_admits, builtin, builtin_arity, Arity};
use crate::text::{
    chars_of, is_alpha, is_alpha_spec, is_ascii_space, is_ascii_space_spec, join, push_char,
    string_of, trim_bounds, trim_spec,
};
use crate::tokenizer::{clone_tokens, tokenize_spec, tokens_view, Tokenizer};
use crate::util::{
    scope_declare, scope_has, Bindings, Context, ObjectView, Scope,
};

pub use crate::tokenizer::{Token, TokenView};

verus! {

/// What a statement is.
pub enum StatementView {
    Say(Seq<TokenView>),
    Let(Seq<char>),
    Assign(Seq<char>, Seq<TokenView>),
    Check(Seq<TokenView>),
    WhileEnd,
    IfEnd,
    Chorus,
    Intro,
    Verse(Seq<char>, Seq<Seq<char>>),
    Return(Seq<TokenView>),
    Run(Seq<char>, Seq<Seq<char>>),
    RunAssign(Seq<char>, Seq<char>, Seq<Seq<char>>),
}

/// One statement of a program.
#[derive(Debug)]
pub enum Statement {
    /// Prints the value of an expression.
    Say(Vec<Token>),
    /// Declares a variable.
    Let(String),
    /// Gives a variable the value of an expression.
    Assign(String, Vec<Token>),
    /// Opens an `if` or a `while` on a condition.
    Check(Vec<Token>),
    WhileEnd,
    IfEnd,
    /// Starts the main block.
    Chorus,
    /// Starts the block that declares the globals.
    Intro,
    /// Starts a function: its name and its parameters.
    Verse(String, Vec<String>),
    Return(Vec<Token>),
    /// Calls a function with the values of the named variables.
    Run(String, Vec<String>),
    /// Calls a function and binds its result: the variable, the function,
    /// the arguments.
    RunAssign(String, String, Vec<String>),
}

/// What a list of names is.
pub open spec fn names_view(names: Seq<String>) -> Seq<Seq<char>> {
    Seq::new(names.len(), |i: int| names[i]@)
}

impl View for Statement {
    type V = StatementView;

    open spec fn view(&self) -> StatementView {
        match self {
            Statement::Say(t) => StatementView::Say(tokens_view(t@)),
            Statement::Let(n) => StatementView::Let(n@),
            Statement::Assign(n, t) => StatementView::Assign(n@, tokens_view(t@)),
            Statement::Check(t) => StatementView::Check(tokens_view(t@)),
            Statement::WhileEnd => StatementView::WhileEnd,
            Statement::IfEnd => StatementView::IfEnd,
            Statement::Chorus => StatementView::Chorus,
            Statement::Intro => StatementView::Intro,
            Statement::Verse(n, p) => StatementView::Verse(n@, names_view(p@)),
            Statement::Return(t) => StatementView::Return(tokens_view(t@)),
            Statement::Run(f, a) => StatementView::Run(f@, names_view(a@)),
            Statement::RunAssign(v, f, a) => StatementView::RunAssign(v@, f@, names_view(a@)),
        }
    }
}

/// Copies a list of names.
pub fn clone_names(names: &Vec<String>) -> (r: Vec<String>)
    ensures
        names_view(r@) == names_view(names@),
{
    let mut out: Vec<String> = Vec::new();
    let mut i: usize = 0;
    while i < names.len()
        invariant
            i <= names.len(),
            out.len() == i,
            forall|j: int| 0 <= j < i ==> out[j]@ == names[j]@,
        decreases names.len() - i,
    {
        out.push(names[i].clone());
        i += 1;
    }
    assert(names_view(out@) =~= names_view(names@));
    out
}

impl Clone for Statement {
    fn clone(&self) -> (r: Self)
        ensures
            r@ == self@,
    {
        match self {
            Statement::Say(t) => Statement::Say(clone_tokens(t)),
            Statement::Let(n) => Statement::Let(n.clone()),
            Statement::Assign(n, t) => Statement::Assign(n.clone(), clone_tokens(t)),
            Statement::Check(t) => Statement::Check(clone_tokens(t)),
            Statement::WhileEnd => Statement::WhileEnd,
            Statement::IfEnd => Statement::IfEnd,
            Statement::Chorus => Statement::Chorus,
            Statement::Intro => Statement::Intro,
            Statement::Verse(n, p) => Statement::Verse(n.clone(), clone_names(p)),
            Statement::Return(t) => Statement::Return(clone_tokens(t)),
            Statement::Run(f, a) => Statement::Run(f.clone(), clone_names(a)),
            Statement::RunAssign(v, f, a) => Statement::RunAssign(
                v.clone(),
                f.clone(),
                clone_names(a),
            ),
        }
    }
}

/// The statements of a program in order, each with its 1-based line.
#[derive(Debug)]
pub struct Intermediate {
    items: Vec<(usize, Statement)>,
}

/// What a list of statements with their lines is.
pub open spec fn pairs_view(pairs: Seq<(usize, Statement)>) -> Seq<(usize, StatementView)> {
    Seq::new(pairs.len(), |i: int| (pairs[i].0, pairs[i].1@))
}

impl View for Intermediate {
    type V = Seq<(usize, StatementView)>;

    closed spec fn view(&self) -> Seq<(usize, StatementView)> {
        pairs_view(self.items@)
    }
}

impl Intermediate {
    pub fn new() -> (r: Intermediate)
        ensures
            r@ == Seq::<(usize, StatementView)>::empty(),
    {
        let r = Intermediate { items: Vec::new() };
        assert(r@ =~= Seq::<(usize, StatementView)>::empty());
        r
    }

    /// The statements of `pairs`, each with its line.
    pub fn from(pairs: Vec<(usize, Statement)>) -> (r: Intermediate)
        ensures
            r@ == pairs_view(pairs@),
    {
        Intermediate { items: pairs }
    }

    pub fn len(&self) -> (r: usize)
        ensures
            r == self@.len(),
    {
        self.items.len()
    }

    /// The line of statement `index`.
    pub fn debug_line(&self, index: usize) -> (r: usize)
        requires
            index < self@.len(),
        ensures
            r == self@[index as int].0,
    {
        self.items[index].0
    }

    /// Statement `index`.
    pub fn get(&self, index: usize) -> (r: &Statement)
        requires
            index < self@.len(),
        ensures
            r@ == self@[index as int].1,
    {
        &self.items[index].1
    }

    /// Adds a statement with its line at the end.
    pub fn push(&mut self, statement: Statement, line: usize)
        ensures
            final(self)@ == old(self)@.push((line, statement@)),
    {
        self.items.push((line, statement));
        assert(self@ =~= old(self)@.push((line, statement@)));
    }
}

/// Whether the pattern, a regular expression, matches somewhere in the
/// text; `None` where the pattern cannot be compiled.
pub uninterp spec fn regex_is_match(pattern: Seq<char>, text: Seq<char>) -> Option<bool>;

/// `regex::Regex::new` and then `Regex::is_match`: compiles the pattern
/// and searches the text for a match. Both depend on the pattern and the
/// text alone. An error of the compilation becomes `None`.
#[verifier::external_body]
fn is_match(pattern: &str, text: &str) -> (r: Option<bool>)
    ensures
        r == regex_is_match(pattern@, text@),
{
    match regex::Regex::new(pattern) {
        Ok(re) => Some(re.is_match(text)),
        Err(_) => None,
    }
}

/// The shapes of line that the lexer knows.
#[derive(Debug, Clone, Copy, PartialEq, Eq, Structural)]
pub enum Shape {
    Say,
    Let,
    Assign,
    Check,
    WhileEnd,
    IfEnd,
    Chorus,
    Intro,
    Verse,
    Run,
    RunAssign,
    Return,
    Unknown,
}

/// Whether the pattern is found in the line.
pub open spec fn matches(pattern: Seq<char>, line: Seq<char>) -> bool {
    regex_is_match(pattern, line) == Some(true)
}

/// The shape of a line: the first pattern that matches it, in this order.
pub open spec fn shape_of(line: Seq<char>) -> Shape {
    if matches("^Never gonna say .+$"@, line) {
        Shape::Say
    } else if matches("^Never gonna let \\w+ down$"@, line) {
        Shape::Let
    } else if matches("^Never gonna give \\w+ .+$"@, line) {
        Shape::Assign
    } else if matches("^Inside we both know .+$"@, line) {
        Shape::Check
    } else if matches("^We know the game and we\'re gonna play it$"@, line) {
        Shape::WhileEnd
    } else if matches("^Your heart\'s been aching but you\'re too shy to say it$"@, line) {
        Shape::IfEnd
    } else if matches("^\\[Chorus\\]$"@, line) {
        Shape::Chorus
    } else if matches("^\\[Intro\\]$"@, line) {
        Shape::Intro
    } else if matches("^\\[Verse \\w+\\]$"@, line) {
        Shape::Verse
    } else if matches("^Never gonna run \\w+ and desert .+$"@, line) {
        Shape::Run
    } else if matches("^\\(Ooh give you \\w+\\) Never gonna run \\w+ and desert .+$"@, line) {
        Shape::RunAssign
    } else if matches("^\\(Ooh\\) Never gonna give, never gonna give \\(give you .+\\)$"@, line) {
        Shape::Return
    } else {
        Shape::Unknown
    }
}

/// Whether a line gives the parameters of a function.
pub open spec fn is_parameter_line(line: Seq<char>) -> bool {
    matches("\\(Ooh give you .+\\)"@, line)
}

fn found(pattern: &str, line: &str) -> (r: bool)
    ensures
        r == matches(pattern@, line@),
{
    match is_match(pattern, line) {
        Some(b) => b,
        None => false,
    }
}

/// Tells which statement a trimmed line is.
pub fn classify(line: &str) -> (r: Shape)
    ensures
        r == shape_of(line@),
{
    if found("^Never gonna say .+$", line) {
        // print
        Shape::Say
    } else if found("^Never gonna let \\w+ down$", line) {
        // let + assign to var
        Shape::Let
    } else if found("^Never gonna give \\w+ .+$", line) {
        Shape::Assign
    } else if found("^Inside we both know .+$", line) {
        // check, if, and while
        Shape::Check
    } else if found("^We know the game and we\'re gonna play it$", line) {
        Shape::WhileEnd
    } else if found("^Your heart\'s been aching but you\'re too shy to say it$", line) {
        Shape::IfEnd
    } else if found("^\\[Chorus\\]$", line) {
        // blocks (functions)
        Shape::Chorus
    } else if found("^\\[Intro\\]$", line) {
        Shape::Intro
    } else if found("^\\[Verse \\w+\\]$", line) {
        Shape::Verse
    } else if found("^Never gonna run \\w+ and desert .+$", line) {
        // function statements
        Shape::Run
    } else if found("^\\(Ooh give you \\w+\\) Never gonna run \\w+ and desert .+$", line) {
        Shape::RunAssign
    } else if found("^\\(Ooh\\) Never gonna give, never gonna give \\(give you .+\\)$", line) {
        Shape::Return
    } else {
        Shape::Unknown
    }
}

/// What reading a list of names has gathered: the names that are
/// complete, and the one being read.
pub struct Names {
    pub done: Seq<Seq<char>>,
    pub current: Seq<char>,
}

pub open spec fn blank_name(line: usize) -> ErrorView {
    leaf(ErrorType::NameError, "Blank variable name"@, Some(line))
}

pub open spec fn illegal_name_char(c: char, line: usize) -> ErrorView {
    leaf(
        ErrorType::IllegalArgumentError,
        "Illegal character \""@ + seq![c] + "\" in variable"@,
        Some(line),
    )
}

/// Reads the characters from `i` on into a list of names.
pub open spec fn gather_names(s: Seq<char>, i: int, acc: Names, line: usize) -> Result<Names, ErrorView>
    decreases s.len() - i,
{
    if i < 0 || i >= s.len() {
        Ok(acc)
    } else {
        let c = s[i];
        if is_alpha_spec(c) || c == '_' {
            gather_names(s, i + 1, Names { done: acc.done, current: acc.current.push(c) }, line)
        } else if c == ',' {
            if acc.current.len() == 0 {
                Err(blank_name(line))
            } else {
                gather_names(
                    s,
                    i + 1,
                    Names { done: acc.done.push(acc.current), current: Seq::empty() },
                    line,
                )
            }
        } else if is_ascii_space_spec(c) {
            gather_names(s, i + 1, acc, line)
        } else {
            Err(illegal_name_char(c, line))
        }
    }
}

/// The names in a list such as `A, BCD, EEE`. A list that ends in the word
/// `empty` stands for no names at all.
pub open spec fn split_vars_spec(raw: Seq<char>, empty: Seq<char>, line: usize) -> Result<
    Seq<Seq<char>>,
    ErrorView,
> {
    match gather_names(
        trim_spec(raw),
        0,
        Names { done: Seq::empty(), current: Seq::empty() },
        line,
    ) {
        Err(e) => Err(e),
        Ok(names) => if names.current == empty {
            Ok(Seq::empty())
        } else if names.current.len() > 0 {
            Ok(names.done.push(names.current))
        } else {
            Ok(names.done)
        },
    }
}

/// What a result of names is.
pub open spec fn names_result(r: Result<Vec<String>, Error>) -> Result<Seq<Seq<char>>, ErrorView> {
    match r {
        Ok(names) => Ok(names_view(names@)),
        Err(e) => Err(e@),
    }
}

// helper function splitting a string of the form "A, BCD, EEE" into ["A", "BCD", "EEE"]
pub fn split_vars(chars: &Vec<char>, from: usize, to: usize, empty: &str, line: usize) -> (r: Result<
    Vec<String>,
    Error,
>)
    requires
        from <= to <= chars.len(),
    ensures
        names_result(r) == split_vars_spec(chars@.subrange(from as int, to as int), empty@, line),
{
    let (a, b) = trim_bounds(chars, from, to);
    let ghost s = chars@.subrange(a as int, b as int);
    let ghost start = Names { done: Seq::empty(), current: Seq::empty() };
    let mut args: Vec<String> = Vec::new();
    let mut cur: String = String::new();
    let mut i: usize = a;
    assert(names_view(args@) =~= Seq::<Seq<char>>::empty());
    while i < b
        invariant
            a <= i <= b <= chars.len(),
            s == chars@.subrange(a as int, b as int),
            s == trim_spec(chars@.subrange(from as int, to as int)),
            start == (Names { done: Seq::empty(), current: Seq::empty() }),
            gather_names(s, 0, start, line) == gather_names(
                s,
                i - a,
                Names { done: names_view(args@), current: cur@ },
                line,
            ),
        decreases b - i,
    {
        let chr = chars[i];
        assert(s[i - a] == chr);
        let ghost done = names_view(args@);
        if is_alpha(chr) || chr == '_' {
            // valid character
            push_char(&mut cur, chr);
        } else if chr == ',' {
            // variable break
            if cur.as_str().unicode_len() == 0 {
                return Err(Error::new(ErrorType::NameError, "Blank variable name", Some(line)));
            }
            let ghost name = cur@;
            args.push(cur);
            cur = String::new();
            assert(names_view(args@) =~= done.push(name));
        } else if !is_ascii_space(chr) {
            // illegal character
            let mut msg = String::from_str("Illegal character \"");
            push_char(&mut msg, chr);
            msg.append("\" in variable");
            let e = Error::new(ErrorType::IllegalArgumentError, msg.as_str(), Some(line));
            assert(e@.desc =~= "Illegal character \""@ + seq![chr] + "\" in variable"@);
            return Err(e);
        }
        i += 1;
    }
    // empty returns no arguments
    if crate::util::same_text(cur.as_str(), empty) {
        let none: Vec<String> = Vec::new();
        assert(names_view(none@) =~= Seq::<Seq<char>>::empty());
        return Ok(none);
    }
    if cur.as_str().unicode_len() > 0 {
        let ghost done = names_view(args@);
        args.push(cur);
        assert(names_view(args@) =~= done.push(cur@));
    }
    Ok(args)
}

/// The lines of a text: what stands between its line feeds.
pub open spec fn split_lines(s: Seq<char>) -> Seq<Seq<char>>
    decreases s.len(),
{
    if s.len() == 0 {
        seq![Seq::empty()]
    } else {
        let before = split_lines(s.drop_last());
        if s.last() == '\n' {
            before.push(Seq::empty())
        } else {
            before.drop_last().push(before.last().push(s.last()))
        }
    }
}

/// The index of the first `c` at or behind `from`, or the length.
pub open spec fn find_char(s: Seq<char>, c: char, from: int) -> int
    decreases s.len() - from,
{
    if from < 0 || from >= s.len() {
        s.len() as int
    } else if s[from] == c {
        from
    } else {
        find_char(s, c, from + 1)
    }
}

/// What the lexer knows while it reads: the statements so far, the names
/// declared in each open block (the globals first), the lines of the
/// conditions that are still open, the blocks and functions declared so
/// far with the number of their parameters, and whether it is inside the
/// block of globals.
pub struct LexState {
    pub statements: Seq<(usize, StatementView)>,
    pub scope: Seq<Bindings>,
    pub open: Seq<usize>,
    pub functions: Seq<(Seq<char>, usize)>,
    pub in_intro: bool,
}

/// The state before the first line.
pub open spec fn initial_state() -> LexState {
    LexState {
        statements: Seq::empty(),
        scope: seq![Map::empty(), Map::empty()],
        open: Seq::empty(),
        functions: Seq::empty(),
        in_intro: false,
    }
}

/// The number of parameters that `name` was declared with, from entry `i` on.
pub open spec fn declared_from(functions: Seq<(Seq<char>, usize)>, i: int, name: Seq<char>) -> Option<
    usize,
>
    decreases functions.len() - i,
{
    if i < 0 || i >= functions.len() {
        None
    } else if functions[i].0 == name {
        Some(functions[i].1)
    } else {
        declared_from(functions, i + 1, name)
    }
}

/// The first of the names from `i` on that no block declares.
pub open spec fn first_missing(names: Seq<Seq<char>>, scope: Seq<Bindings>, i: int) -> Option<
    Seq<char>,
>
    decreases names.len() - i,
{
    if i < 0 || i >= names.len() {
        None
    } else if !scope_has(scope, names[i]) {
        Some(names[i])
    } else {
        first_missing(names, scope, i + 1)
    }
}

/// The first name among the tokens from `i` on that no block declares.
pub open spec fn first_unbound(tokens: Seq<TokenView>, scope: Seq<Bindings>, i: int) -> Option<
    Seq<char>,
>
    decreases tokens.len() - i,
{
    if i < 0 || i >= tokens.len() {
        None
    } else {
        match tokens[i] {
            TokenView::Variable(name) => if !scope_has(scope, name) {
                Some(name)
            } else {
                first_unbound(tokens, scope, i + 1)
            },
            _ => first_unbound(tokens, scope, i + 1),
        }
    }
}

/// The tokens of an expression inside a statement. An error of the
/// tokenizer, or a name that is not declared, comes wrapped in a traceback
/// with the line of the statement.
pub open spec fn lex_expr(text: Seq<char>, scope: Seq<Bindings>, line: usize, unit: FloatModel) -> Result<
    Seq<TokenView>,
    ErrorView,
> {
    match tokenize_spec(trim_spec(text), unit) {
        Err(e) => Err(wrapped(e, Some(line))),
        Ok(tokens) => match first_unbound(tokens, scope, 0) {
            Some(name) => Err(wrapped(no_such_variable(name), Some(line))),
            None => Ok(tokens),
        },
    }
}

pub open spec fn illegal_statement(line: usize) -> ErrorView {
    leaf(ErrorType::SyntaxError, "Illegal statement"@, Some(line))
}

pub open spec fn variable_exists(name: Seq<char>, line: usize) -> ErrorView {
    leaf(ErrorType::NameError, "Variable name "@ + name + " already exists"@, Some(line))
}

pub open spec fn variable_missing(name: Seq<char>, line: usize) -> ErrorView {
    leaf(ErrorType::NameError, "Variable name "@ + name + " doesn't exist"@, Some(line))
}

pub open spec fn function_missing(name: Seq<char>, line: usize) -> ErrorView {
    leaf(ErrorType::NameError, "Function name "@ + name + " doesn't exist"@, Some(line))
}

pub open spec fn function_exists(name: Seq<char>, line: usize) -> ErrorView {
    leaf(ErrorType::NameError, "Function named "@ + name + " already exists"@, Some(line))
}

pub open spec fn wrong_argument_count(name: Seq<char>, line: usize) -> ErrorView {
    leaf(
        ErrorType::IllegalArgumentError,
        "Wrong number of arguments for function "@ + name,
        Some(line),
    )
}

pub open spec fn mismatched_start(line: usize) -> ErrorView {
    leaf(ErrorType::SyntaxError, "Mismatched while or if start"@, Some(line))
}

pub open spec fn mismatched_end(line: usize) -> ErrorView {
    leaf(ErrorType::SyntaxError, "Mismatched while or if end"@, Some(line))
}

pub open spec fn no_parameters(name: Seq<char>, line: usize) -> ErrorView {
    leaf(
        ErrorType::SyntaxError,
        "No argument specification for function "@ + name,
        Some(line),
    )
}

/// The state with one more statement.
pub open spec fn with_statement(st: LexState, line: usize, statement: StatementView) -> LexState {
    LexState { statements: st.statements.push((line, statement)), ..st }
}

/// What is wrong with a call of `func` on the variables `args`, if
/// anything: the function is neither declared nor a host function, it is
/// called with another number of arguments than it takes, or an argument
/// is not declared.
pub open spec fn call_fault(st: LexState, func: Seq<char>, args: Seq<Seq<char>>, line: usize) -> Option<
    ErrorView,
> {
    let fits = match declared_from(st.functions, 0, func) {
        Some(n) => Some(n == args.len()),
        None => match builtin_arity(func) {
            Some(a) => Some(arity_admits(a, args.len())),
            None => None,
        },
    };
    match fits {
        None => Some(function_missing(func, line)),
        Some(false) => Some(wrong_argument_count(func, line)),
        Some(true) => match first_missing(args, st.scope, 0) {
            Some(name) => Some(variable_missing(name, line)),
            None => None,
        },
    }
}

/// The bindings after each of the names from `i` on is declared.
pub open spec fn declare_all(ctx: Bindings, names: Seq<Seq<char>>, i: int) -> Bindings
    decreases names.len() - i,
{
    if i < 0 || i >= names.len() {
        ctx
    } else {
        declare_all(ctx.insert(names[i], ObjectView::Undefined), names, i + 1)
    }
}

/// The line behind `line`.
pub open spec fn line_after(line: usize) -> usize {
    if line < usize::MAX {
        (line + 1) as usize
    } else {
        line
    }
}

/// `Never gonna say EXPR`.
pub open spec fn lex_say(st: LexState, l: Seq<char>, line: usize, unit: FloatModel) -> Result<
    LexState,
    ErrorView,
> {
    if l.len() < 16 {
        Err(illegal_statement(line))
    } else {
        match lex_expr(l.subrange(16, l.len() as int), st.scope, line, unit) {
            Err(e) => Err(e),
            Ok(tokens) => Ok(with_statement(st, line, StatementView::Say(tokens))),
        }
    }
}

/// `Never gonna let NAME down`: declares the name in the innermost block,
/// inside the block of globals in the global block. A name that is
/// declared there already is an error.
pub open spec fn lex_let(st: LexState, l: Seq<char>, line: usize) -> Result<LexState, ErrorView> {
    if l.len() < 21 {
        Err(illegal_statement(line))
    } else {
        let name = l.subrange(16, l.len() - 5);
        let d = if st.in_intro {
            0
        } else {
            st.scope.len() - 1
        };
        if st.scope[d].contains_key(name) {
            Err(variable_exists(name, line))
        } else {
            Ok(
                with_statement(
                    LexState { scope: scope_declare(st.scope, d, name), ..st },
                    line,
                    StatementView::Let(name),
                ),
            )
        }
    }
}

/// `Never gonna give NAME EXPR`: the name must be declared.
pub open spec fn lex_assign(st: LexState, l: Seq<char>, line: usize, unit: FloatModel) -> Result<
    LexState,
    ErrorView,
> {
    let space = find_char(l, ' ', 17);
    if l.len() < 17 || space >= l.len() {
        Err(illegal_statement(line))
    } else {
        let name = trim_spec(l.subrange(17, space));
        if !scope_has(st.scope, name) {
            Err(variable_missing(name, line))
        } else {
            match lex_expr(l.subrange(space + 1, l.len() as int), st.scope, line, unit) {
                Err(e) => Err(e),
                Ok(tokens) => Ok(with_statement(st, line, StatementView::Assign(name, tokens))),
            }
        }
    }
}

/// `Inside we both know EXPR`: opens a condition and a block.
pub open spec fn lex_check(st: LexState, l: Seq<char>, line: usize, unit: FloatModel) -> Result<
    LexState,
    ErrorView,
> {
    if l.len() < 20 {
        Err(illegal_statement(line))
    } else {
        match lex_expr(l.subrange(20, l.len() as int), st.scope, line, unit) {
            Err(e) => Err(e),
            Ok(tokens) => Ok(
                with_statement(
                    LexState {
                        scope: st.scope.push(Map::empty()),
                        open: st.open.push(line),
                        ..st
                    },
                    line,
                    StatementView::Check(tokens),
                ),
            ),
        }
    }
}

/// The end of a `while` or of an `if`: closes the innermost open condition.
pub open spec fn lex_end(st: LexState, statement: StatementView, line: usize) -> Result<
    LexState,
    ErrorView,
> {
    if st.open.len() == 0 || st.scope.len() <= 1 {
        Err(mismatched_end(line))
    } else {
        Ok(
            with_statement(
                LexState { scope: st.scope.drop_last(), open: st.open.drop_last(), ..st },
                line,
                statement,
            ),
        )
    }
}

/// The start of a block named `name` with the parameters `params`: no
/// condition may be open, and no block of that name declared. The block
/// sees the globals and its parameters and nothing else.
pub open spec fn lex_block(
    st: LexState,
    name: Seq<char>,
    params: Seq<Seq<char>>,
    statement: StatementView,
    line: usize,
) -> Result<LexState, ErrorView> {
    if st.open.len() > 0 {
        Err(mismatched_start(st.open.last()))
    } else if declared_from(st.functions, 0, name) is Some {
        Err(function_exists(name, line))
    } else if params.len() > usize::MAX {
        Err(illegal_statement(line))
    } else {
        Ok(
            with_statement(
                LexState {
                    scope: seq![st.scope[0], declare_all(Map::empty(), params, 0)],
                    functions: st.functions.push((name, params.len() as usize)),
                    in_intro: statement == StatementView::Intro,
                    ..st
                },
                line,
                statement,
            ),
        )
    }
}

/// `[Verse NAME]`, with the parameters on the line behind it.
pub open spec fn lex_verse(st: LexState, l: Seq<char>, next: Option<Seq<char>>, line: usize) -> Result<
    LexState,
    ErrorView,
> {
    if l.len() < 8 {
        Err(illegal_statement(line))
    } else {
        let name = l.subrange(7, l.len() - 1);
        match next {
            None => Err(no_parameters(name, line_after(line))),
            Some(n) => if !is_parameter_line(n) {
                Err(no_parameters(name, line_after(line)))
            } else if n.len() < 15 {
                Err(illegal_statement(line_after(line)))
            } else {
                match split_vars_spec(n.subrange(14, n.len() - 1), "up"@, line_after(line)) {
                    Err(e) => Err(e),
                    Ok(params) => lex_block(st, name, params, StatementView::Verse(name, params), line),
                }
            },
        }
    }
}

/// The function and the arguments of a call written from `from` on:
/// `NAME and desert ARGS`.
pub open spec fn call_parts(l: Seq<char>, from: int, line: usize) -> Result<
    (Seq<char>, Seq<Seq<char>>),
    ErrorView,
> {
    let space = find_char(l, ' ', from);
    if from > l.len() || space + 12 > l.len() {
        Err(illegal_statement(line))
    } else {
        match split_vars_spec(l.subrange(space + 12, l.len() as int), "you"@, line) {
            Err(e) => Err(e),
            Ok(args) => Ok((l.subrange(from, space), args)),
        }
    }
}

/// `Never gonna run NAME and desert ARGS`.
pub open spec fn lex_run(st: LexState, l: Seq<char>, line: usize) -> Result<LexState, ErrorView> {
    match call_parts(l, 16, line) {
        Err(e) => Err(e),
        Ok((func, args)) => match call_fault(st, func, args, line) {
            Some(e) => Err(e),
            None => Ok(with_statement(st, line, StatementView::Run(func, args))),
        },
    }
}

/// `(Ooh give you VAR) Never gonna run NAME and desert ARGS`: the variable
/// must be declared.
pub open spec fn lex_run_assign(st: LexState, l: Seq<char>, line: usize) -> Result<
    LexState,
    ErrorView,
> {
    let close = find_char(l, ')', 14);
    if l.len() < 14 || close + 18 > l.len() {
        Err(illegal_statement(line))
    } else {
        let var = l.subrange(14, close);
        match call_parts(l, close + 18, line) {
            Err(e) => Err(e),
            Ok((func, args)) => if !scope_has(st.scope, var) {
                Err(variable_missing(var, line))
            } else {
                match call_fault(st, func, args, line) {
                    Some(e) => Err(e),
                    None => Ok(with_statement(st, line, StatementView::RunAssign(var, func, args))),
                }
            },
        }
    }
}

/// `(Ooh) Never gonna give, never gonna give (give you EXPR)`.
pub open spec fn lex_return(st: LexState, l: Seq<char>, line: usize, unit: FloatModel) -> Result<
    LexState,
    ErrorView,
> {
    if l.len() < 52 {
        Err(illegal_statement(line))
    } else {
        match lex_expr(l.subrange(51, l.len() - 1), st.scope, line, unit) {
            Err(e) => Err(e),
            Ok(tokens) => Ok(with_statement(st, line, StatementView::Return(tokens))),
        }
    }
}

/// The state after the trimmed line `l` of the given shape, `next` being
/// the trimmed line behind it.
pub open spec fn lex_line(
    st: LexState,
    shape: Shape,
    l: Seq<char>,
    next: Option<Seq<char>>,
    line: usize,
    unit: FloatModel,
) -> Result<LexState, ErrorView> {
    match shape {
        Shape::Say => lex_say(st, l, line, unit),
        Shape::Let => lex_let(st, l, line),
        Shape::Assign => lex_assign(st, l, line, unit),
        Shape::Check => lex_check(st, l, line, unit),
        Shape::WhileEnd => lex_end(st, StatementView::WhileEnd, line),
        Shape::IfEnd => lex_end(st, StatementView::IfEnd, line),
        Shape::Chorus => lex_block(st, "[Chorus]"@, Seq::empty(), StatementView::Chorus, line),
        Shape::Intro => lex_block(st, "[Intro]"@, Seq::empty(), StatementView::Intro, line),
        Shape::Verse => lex_verse(st, l, next, line),
        Shape::Run => lex_run(st, l, line),
        Shape::RunAssign => lex_run_assign(st, l, line),
        Shape::Return => lex_return(st, l, line, unit),
        Shape::Unknown => Err(illegal_statement(line)),
    }
}

/// The statements of the lines from `i` on. A blank line is skipped; a
/// function takes two lines. A condition that is open at the end is an
/// error at its line.
pub open spec fn lex_from(lines: Seq<Seq<char>>, i: int, st: LexState, unit: FloatModel) -> Result<
    Seq<(usize, StatementView)>,
    ErrorView,
>
    decreases lines.len() - i,
{
    if i < 0 || i >= lines.len() || i >= usize::MAX {
        if st.open.len() > 0 {
            Err(mismatched_start(st.open.last()))
        } else {
            Ok(st.statements)
        }
    } else {
        let l = trim_spec(lines[i]);
        if l.len() == 0 {
            lex_from(lines, i + 1, st, unit)
        } else {
            let shape = shape_of(l);
            let next = if i + 1 < lines.len() {
                Some(trim_spec(lines[i + 1]))
            } else {
                None
            };
            match lex_line(st, shape, l, next, (i + 1) as usize, unit) {
                Err(e) => Err(e),
                Ok(after) => lex_from(
                    lines,
                    if shape == Shape::Verse {
                        i + 2
                    } else {
                        i + 1
                    },
                    after,
                    unit,
                ),
            }
        }
    }
}

/// The statements of a program, or the first error in it.
pub open spec fn lex_spec(text: Seq<char>, unit: FloatModel) -> Result<
    Seq<(usize, StatementView)>,
    ErrorView,
> {
    lex_from(split_lines(text), 0, initial_state(), unit)
}

/// What a list of declared functions is.
pub open spec fn functions_view(functions: Seq<(String, usize)>) -> Seq<(Seq<char>, usize)> {
    Seq::new(functions.len(), |i: int| (functions[i].0@, functions[i].1))
}

// what the lexer has gathered so far
struct Progress {
    lexed: Intermediate,
    scope: Scope,
    open: Vec<usize>,
    functions: Vec<(String, usize)>,  // <Name, Arg count>
    in_intro: bool,
}

impl View for Progress {
    type V = LexState;

    closed spec fn view(&self) -> LexState {
        LexState {
            statements: self.lexed@,
            scope: self.scope@,
            open: self.open@,
            functions: functions_view(self.functions@),
            in_intro: self.in_intro,
        }
    }
}

/// What a step of the lexer gives: the state after it, or an error.
pub open spec fn step_result(r: Result<(), Error>, after: LexState) -> Result<LexState, ErrorView> {
    match r {
        Ok(_) => Ok(after),
        Err(e) => Err(e@),
    }
}

fn find(chars: &Vec<char>, c: char, from: usize) -> (r: usize)
    ensures
        r == find_char(chars@, c, from as int),
        r <= chars.len(),
        from <= chars.len() ==> from <= r,
{
    if from >= chars.len() {
        return chars.len();
    }
    let mut i: usize = from;
    while i < chars.len()
        invariant
            from <= i <= chars.len(),
            find_char(chars@, c, from as int) == find_char(chars@, c, i as int),
        decreases chars.len() - i,
    {
        if chars[i] == c {
            return i;
        }
        i += 1;
    }
    i
}

fn lookup(functions: &Vec<(String, usize)>, name: &String) -> (r: Option<usize>)
    ensures
        r == declared_from(functions_view(functions@), 0, name@),
{
    let ghost fv = functions_view(functions@);
    let mut i: usize = 0;
    while i < functions.len()
        invariant
            i <= functions.len(),
            fv == functions_view(functions@),
            declared_from(fv, 0, name@) == declared_from(fv, i as int, name@),
        decreases functions.len() - i,
    {
        assert(fv[i as int] == (functions[i as int].0@, functions[i as int].1));
        if functions[i].0 == *name {
            return Some(functions[i].1);
        }
        i += 1;
    }
    None
}

fn named_error(kind: ErrorType, before: &str, name: &str, after: &str, line: usize) -> (r: Error)
    requires
        kind != ErrorType::Traceback,
    ensures
        r@ == leaf(kind, before@ + name@ + after@, Some(line)),
{
    let mut msg = join(before, name);
    msg.append(after);
    Error::new(kind, msg.as_str(), Some(line))
}

// tokenizes an expression and checks the names in it
#[verifier::loop_isolation(false)]
fn expression<F: Fn(FloatRequest) -> FloatReply>(
    chars: &Vec<char>,
    from: usize,
    to: usize,
    scope: &Scope,
    line: usize,
    unit: &F,
) -> (r: Result<Vec<Token>, Error>)
    requires
        from <= to <= chars.len(),
        float_unit(unit),
    ensures
        crate::tokenizer::tokens_result(r) == lex_expr(
            chars@.subrange(from as int, to as int),
            scope@,
            line,
            model_of(unit),
        ),
{
    let expr = string_of(chars, from, to);
    let tokens = match Tokenizer::new(expr, line).make_tokens(unit) {
        Ok(tokens) => tokens,
        Err(e) => {
            return Err(Error::traceback(e, Some(line)));
        },
    };
    let ghost tv = tokens_view(tokens@);
    let mut i: usize = 0;
    while i < tokens.len()
        invariant
            i <= tokens.len(),
            tv == tokens_view(tokens@),
            first_unbound(tv, scope@, 0) == first_unbound(tv, scope@, i as int),
        decreases tokens.len() - i,
    {
        assert(tv[i as int] == tokens[i as int]@);
        match &tokens[i] {
            Token::Variable(name) => {
                if !scope.has_var(name.clone()) {
                    let e = Error::new(
                        ErrorType::NameError,
                        join("No such variable ", name.as_str()).as_str(),
                        None,
                    );
                    return Err(Error::traceback(e, Some(line)));
                }
            },
            _ => {},
        }
        i += 1;
    }
    Ok(tokens)
}

// checks a call against the declared functions and the host functions
#[verifier::loop_isolation(false)]
fn check_call(state: &Progress, func: &String, args: &Vec<String>, line: usize) -> (r: Option<Error>)
    ensures
        match r {
            Some(e) => call_fault(state@, func@, names_view(args@), line) == Some(e@),
            None => call_fault(state@, func@, names_view(args@), line) is None,
        },
{
    let fits = match lookup(&state.functions, func) {
        Some(n) => Some(n == args.len()),
        None => match builtin(func.as_str()) {
            Some(Arity::Any) => Some(true),
            Some(Arity::Exactly(n)) => Some(n == args.len()),
            None => None,
        },
    };
    match fits {
        None => {
            return Some(
                named_error(
                    ErrorType::NameError,
                    "Function name ",
                    func.as_str(),
                    " doesn't exist",
                    line,
                ),
            );
        },
        Some(false) => {
            let e = Error::new(
                ErrorType::IllegalArgumentError,
                join("Wrong number of arguments for function ", func.as_str()).as_str(),
                Some(line),
            );
            return Some(e);
        },
        Some(true) => {},
    }
    let ghost nv = names_view(args@);
    let mut i: usize = 0;
    while i < args.len()
        invariant
            i <= args.len(),
            nv == names_view(args@),
            first_missing(nv, state.scope@, 0) == first_missing(nv, state.scope@, i as int),
        decreases args.len() - i,
    {
        assert(nv[i as int] == args[i as int]@);
        if !state.scope.has_var(args[i].clone()) {
            return Some(
                named_error(
                    ErrorType::NameError,
                    "Variable name ",
                    args[i].as_str(),
                    " doesn't exist",
                    line,
                ),
            );
        }
        i += 1;
    }
    None
}

fn illegal(line: usize) -> (r: Error)
    ensures
        r@ == illegal_statement(line),
{
    Error::new(ErrorType::SyntaxError, "Illegal statement", Some(line))
}

impl Progress {
    fn new() -> (r: Progress)
        ensures
            r@ == initial_state(),
    {
        let mut scope = Scope::new();
        scope.push(Context::new());
        let r = Progress {
            lexed: Intermediate::new(),
            scope,
            open: Vec::new(),
            functions: Vec::new(),
            in_intro: false,
        };
        assert(r@.scope =~= seq![Map::empty(), Map::empty()]);
        assert(r@.open =~= Seq::<usize>::empty());
        assert(r@.functions =~= Seq::<(Seq<char>, usize)>::empty());
        r
    }

    fn say<F: Fn(FloatRequest) -> FloatReply>(&mut self, l: &Vec<char>, line: usize, unit: &F) -> (r:
        Result<(), Error>)
        requires
            float_unit(unit),
        ensures
            step_result(r, final(self)@) == lex_say(old(self)@, l@, line, model_of(unit)),
    {
        if l.len() < 16 {
            return Err(illegal(line));
        }
        let tokens = match expression(l, 16, l.len(), &self.scope, line, unit) {
            Ok(tokens) => tokens,
            Err(e) => {
                return Err(e);
            },
        };
        self.lexed.push(Statement::Say(tokens), line);
        Ok(())
    }

    fn declare(&mut self, l: &Vec<char>, line: usize) -> (r: Result<(), Error>)
        ensures
            step_result(r, final(self)@) == lex_let(old(self)@, l@, line),
    {
        if l.len() < 21 {
            return Err(illegal(line));
        }
        let varname = string_of(l, 16, l.len() - 5);
        proof {
            use_type_invariant(&self.scope);
            self.scope.lemma_nonempty();
        }
        let taken = if self.in_intro {
            self.scope.get_global().has_var(varname.clone())
        } else {
            self.scope.declared_here(varname.clone())
        };
        if taken {
            return Err(
                named_error(
                    ErrorType::NameError,
                    "Variable name ",
                    varname.as_str(),
                    " already exists",
                    line,
                ),
            );
        }
        if self.in_intro {
            self.scope.add_global(varname.clone());
        } else {
            self.scope.add_var(varname.clone());
        }
        self.lexed.push(Statement::Let(varname), line);
        Ok(())
    }

    fn assign<F: Fn(FloatRequest) -> FloatReply>(&mut self, l: &Vec<char>, line: usize, unit: &F) -> (r:
        Result<(), Error>)
        requires
            float_unit(unit),
        ensures
            step_result(r, final(self)@) == lex_assign(old(self)@, l@, line, model_of(unit)),
    {
        let space = find(l, ' ', 17);
        if l.len() < 17 || space >= l.len() {
            return Err(illegal(line));
        }
        let (a, b) = trim_bounds(l, 17, space);
        let varname = string_of(l, a, b);
        if !self.scope.has_var(varname.clone()) {
            return Err(
                named_error(
                    ErrorType::NameError,
                    "Variable name ",
                    varname.as_str(),
                    " doesn't exist",
                    line,
                ),
            );
        }
        let tokens = match expression(l, space + 1, l.len(), &self.scope, line, unit) {
            Ok(tokens) => tokens,
            Err(e) => {
                return Err(e);
            },
        };
        self.lexed.push(Statement::Assign(varname, tokens), line);
        Ok(())
    }

    fn check<F: Fn(FloatRequest) -> FloatReply>(&mut self, l: &Vec<char>, line: usize, unit: &F) -> (r:
        Result<(), Error>)
        requires
            float_unit(unit),
        ensures
            step_result(r, final(self)@) == lex_check(old(self)@, l@, line, model_of(unit)),
    {
        if l.len() < 20 {
            return Err(illegal(line));
        }
        let tokens = match expression(l, 20, l.len(), &self.scope, line, unit) {
            Ok(tokens) => tokens,
            Err(e) => {
                return Err(e);
            },
        };
        self.scope.push(Context::new());
        self.open.push(line);
        self.lexed.push(Statement::Check(tokens), line);
        Ok(())
    }

    fn end(&mut self, statement: Statement, line: usize) -> (r: Result<(), Error>)
        ensures
            step_result(r, final(self)@) == lex_end(old(self)@, statement@, line),
    {
        if self.open.len() == 0 || self.scope.len() <= 1 {
            return Err(
                Error::new(ErrorType::SyntaxError, "Mismatched while or if end", Some(line)),
            );
        }
        self.scope.pop();
        self.open.pop();
        self.lexed.push(statement, line);
        Ok(())
    }

    fn block(&mut self, name: String, params: Vec<String>, statement: Statement, line: usize) -> (r:
        Result<(), Error>)
        ensures
            step_result(r, final(self)@) == lex_block(
                old(self)@,
                name@,
                names_view(params@),
                statement@,
                line,
            ),
    {
        if self.open.len() > 0 {
            return Err(
                Error::new(
                    ErrorType::SyntaxError,
                    "Mismatched while or if start",
                    Some(self.open[self.open.len() - 1]),
                ),
            );
        }
        if lookup(&self.functions, &name).is_some() {
            return Err(
                named_error(
                    ErrorType::NameError,
                    "Function named ",
                    name.as_str(),
                    " already exists",
                    line,
                ),
            );
        }
        let ghost pv = names_view(params@);
        let mut context = Context::new();
        let mut i: usize = 0;
        while i < params.len()
            invariant
                i <= params.len(),
                pv == names_view(params@),
                declare_all(Map::empty(), pv, 0) == declare_all(context@, pv, i as int),
            decreases params.len() - i,
        {
            assert(pv[i as int] == params[i as int]@);
            proof {
                crate::util::lemma_object_view(crate::util::RickrollObject::Undefined);
            }
            context.set_var(params[i].clone(), crate::util::RickrollObject::Undefined);
            i += 1;
        }
        proof {
            use_type_invariant(&self.scope);
            self.scope.lemma_nonempty();
        }
        self.scope.behead();
        self.scope.push(context);
        assert(self.scope@ =~= seq![old(self)@.scope[0], context@]);
        let ghost before = functions_view(self.functions@);
        let count = params.len();
        self.functions.push((name, count));
        assert(functions_view(self.functions@) =~= before.push((name@, count)));
        self.in_intro = match &statement {
            Statement::Intro => true,
            _ => false,
        };
        self.lexed.push(statement, line);
        Ok(())
    }
}

fn after(line: usize) -> (r: usize)
    ensures
        r == line_after(line),
{
    if line < usize::MAX {
        line + 1
    } else {
        line
    }
}

/// What the two parts of a call are.
pub open spec fn parts_result(r: Result<(String, Vec<String>), Error>) -> Result<
    (Seq<char>, Seq<Seq<char>>),
    ErrorView,
> {
    match r {
        Ok((func, args)) => Ok((func@, names_view(args@))),
        Err(e) => Err(e@),
    }
}

// reads "NAME and desert ARGS" from `from` on
fn parts(l: &Vec<char>, from: usize, line: usize) -> (r: Result<(String, Vec<String>), Error>)
    ensures
        parts_result(r) == call_parts(l@, from as int, line),
{
    let space = find(l, ' ', from);
    if from > l.len() || l.len() < 12 || space > l.len() - 12 {
        return Err(illegal(line));
    }
    // get function info
    let func_name = string_of(l, from, space);
    match split_vars(l, space + 12, l.len(), "you", line) {
        Ok(args) => Ok((func_name, args)),
        Err(e) => Err(e),
    }
}

impl Progress {
    fn verse(&mut self, l: &Vec<char>, next: Option<&Vec<char>>, line: usize) -> (r: Result<
        (),
        Error,
    >)
        ensures
            step_result(r, final(self)@) == lex_verse(
                old(self)@,
                l@,
                match next {
                    Some(n) => Some(n@),
                    None => None,
                },
                line,
            ),
    {
        if l.len() < 8 {
            return Err(illegal(line));
        }
        let func_name = string_of(l, 7, l.len() - 1);
        let n = match next {
            Some(n) => n,
            None => {
                return Err(
                    Error::new(
                        ErrorType::SyntaxError,
                        join("No argument specification for function ", func_name.as_str()).as_str(),
                        Some(after(line)),
                    ),
                );
            },
        };
        let text = string_of(n, 0, n.len());
        assert(n@.subrange(0, n.len() as int) =~= n@);
        if !found("\\(Ooh give you .+\\)", text.as_str()) {
            return Err(
                Error::new(
                    ErrorType::SyntaxError,
                    join("No argument specification for function ", func_name.as_str()).as_str(),
                    Some(after(line)),
                ),
            );
        }
        if n.len() < 15 {
            return Err(illegal(after(line)));
        }
        let func_args = match split_vars(n, 14, n.len() - 1, "up", after(line)) {
            Ok(args) => args,
            Err(e) => {
                return Err(e);
            },
        };
        let statement = Statement::Verse(func_name.clone(), clone_names(&func_args));
        self.block(func_name, func_args, statement, line)
    }

    fn run(&mut self, l: &Vec<char>, line: usize) -> (r: Result<(), Error>)
        ensures
            step_result(r, final(self)@) == lex_run(old(self)@, l@, line),
    {
        let (func_name, func_args) = match parts(l, 16, line) {
            Ok(p) => p,
            Err(e) => {
                return Err(e);
            },
        };
        match check_call(&*self, &func_name, &func_args, line) {
            Some(e) => {
                return Err(e);
            },
            None => {},
        }
        // push function call
        self.lexed.push(Statement::Run(func_name, func_args), line);
        Ok(())
    }

    fn run_assign(&mut self, l: &Vec<char>, line: usize) -> (r: Result<(), Error>)
        ensures
            step_result(r, final(self)@) == lex_run_assign(old(self)@, l@, line),
    {
        let close = find(l, ')', 14);
        if l.len() < 18 || close > l.len() - 18 {
            return Err(illegal(line));
        }
        // get variable info
        let varname = string_of(l, 14, close);
        let (func_name, func_args) = match parts(l, close + 18, line) {
            Ok(p) => p,
            Err(e) => {
                return Err(e);
            },
        };
        if !self.scope.has_var(varname.clone()) {
            return Err(
                named_error(
                    ErrorType::NameError,
                    "Variable name ",
                    varname.as_str(),
                    " doesn't exist",
                    line,
                ),
            );
        }
        match check_call(&*self, &func_name, &func_args, line) {
            Some(e) => {
                return Err(e);
            },
            None => {},
        }
        self.lexed.push(Statement::RunAssign(varname, func_name, func_args), line);
        Ok(())
    }

    fn ret<F: Fn(FloatRequest) -> FloatReply>(&mut self, l: &Vec<char>, line: usize, unit: &F) -> (r:
        Result<(), Error>)
        requires
            float_unit(unit),
        ensures
            step_result(r, final(self)@) == lex_return(old(self)@, l@, line, model_of(unit)),
    {
        if l.len() < 52 {
            return Err(illegal(line));
        }
        let tokens = match expression(l, 51, l.len() - 1, &self.scope, line, unit) {
            Ok(tokens) => tokens,
            Err(e) => {
                return Err(e);
            },
        };
        self.lexed.push(Statement::Return(tokens), line);
        Ok(())
    }

    // one trimmed line that is not blank
    fn statement<F: Fn(FloatRequest) -> FloatReply>(
        &mut self,
        shape: Shape,
        l: &Vec<char>,
        next: Option<&Vec<char>>,
        line: usize,
        unit: &F,
    ) -> (r: Result<(), Error>)
        requires
            float_unit(unit),
        ensures
            step_result(r, final(self)@) == lex_line(
                old(self)@,
                shape,
                l@,
                match next {
                    Some(n) => Some(n@),
                    None => None,
                },
                line,
                model_of(unit),
            ),
    {
        match shape {
            Shape::Say => self.say(l, line, unit),
            Shape::Let => self.declare(l, line),
            Shape::Assign => self.assign(l, line, unit),
            Shape::Check => self.check(l, line, unit),
            Shape::WhileEnd => self.end(Statement::WhileEnd, line),
            Shape::IfEnd => self.end(Statement::IfEnd, line),
            Shape::Chorus => {
                let none: Vec<String> = Vec::new();
                assert(names_view(none@) =~= Seq::<Seq<char>>::empty());
                self.block(String::from_str("[Chorus]"), none, Statement::Chorus, line)
            },
            Shape::Intro => {
                let none: Vec<String> = Vec::new();
                assert(names_view(none@) =~= Seq::<Seq<char>>::empty());
                self.block(String::from_str("[Intro]"), none, Statement::Intro, line)
            },
            Shape::Verse => self.verse(l, next, line),
            Shape::Run => self.run(l, line),
            Shape::RunAssign => self.run_assign(l, line),
            Shape::Return => self.ret(l, line, unit),
            Shape::Unknown => Err(illegal(line)),
        }
    }
}

/// What a list of lines is.
pub open spec fn lines_view(lines: Seq<Vec<char>>) -> Seq<Seq<char>> {
    Seq::new(lines.len(), |i: int| lines[i]@)
}

/// What a result of statements is.
pub open spec fn intermediate_result(r: Result<Intermediate, Error>) -> Result<
    Seq<(usize, StatementView)>,
    ErrorView,
> {
    match r {
        Ok(ir) => Ok(ir@),
        Err(e) => Err(e@),
    }
}

fn trimmed(line: &Vec<char>) -> (r: Vec<char>)
    ensures
        r@ == trim_spec(line@),
{
    let (a, b) = trim_bounds(line, 0, line.len());
    assert(line@.subrange(0, line.len() as int) =~= line@);
    let mut out: Vec<char> = Vec::new();
    let mut i: usize = a;
    while i < b
        invariant
            a <= i <= b <= line.len(),
            out@ == line@.subrange(a as int, i as int),
        decreases b - i,
    {
        out.push(line[i]);
        i += 1;
        assert(out@ == line@.subrange(a as int, i as int));
    }
    out
}

// lex source code into IR
#[derive(Debug)]
pub struct Lexer {
    raw: Vec<Vec<char>>,
}

impl Lexer {
    /// The lines of the source.
    pub closed spec fn lines(&self) -> Seq<Seq<char>> {
        lines_view(self.raw@)
    }

    pub fn new(raw_text: String) -> (r: Lexer)
        ensures
            r.lines() == split_lines(raw_text@),
    {
        let chars = chars_of(raw_text.as_str());
        let mut res: Vec<Vec<char>> = Vec::new();
        let mut cur: Vec<char> = Vec::new();
        let mut i: usize = 0;
        assert(lines_view(res@).push(cur@) =~= seq![Seq::<char>::empty()]);
        assert(chars@.subrange(0, 0) =~= Seq::<char>::empty());
        while i < chars.len()
            invariant
                i <= chars.len(),
                lines_view(res@).push(cur@) == split_lines(chars@.subrange(0, i as int)),
            decreases chars.len() - i,
        {
            let ghost done = lines_view(res@);
            let ghost line = cur@;
            let ghost prefix = chars@.subrange(0, i + 1);
            assert(prefix.drop_last() =~= chars@.subrange(0, i as int));
            assert(prefix.last() == chars[i as int]);
            if chars[i] == '\n' {
                res.push(cur);
                cur = Vec::new();
                assert(lines_view(res@) =~= done.push(line));
            } else {
                cur.push(chars[i]);
                assert(done.push(line).drop_last() =~= done);
            }
            i += 1;
        }
        let ghost done = lines_view(res@);
        let ghost line = cur@;
        res.push(cur);
        assert(lines_view(res@) =~= done.push(line));
        assert(chars@.subrange(0, chars.len() as int) =~= chars@);
        Lexer { raw: res }
    }

    /// Reads the source into statements. A float literal gets its value
    /// from `unit`.
    pub fn parse<F: Fn(FloatRequest) -> FloatReply>(self, unit: &F) -> (r: Result<
        Intermediate,
        Error,
    >)
        requires
            float_unit(unit),
        ensures
            intermediate_result(r) == lex_from(self.lines(), 0, initial_state(), model_of(unit)),
    {
        let raw = self.raw;
        let ghost lines = lines_view(raw@);
        let ghost m = model_of(unit);
        let mut state = Progress::new();
        let mut ptr: usize = 0;
        // iterate over raw
        while ptr < raw.len()
            invariant
                ptr <= raw.len(),
                lines == lines_view(raw@),
                lines == self.lines(),
                m == model_of(unit),
                float_unit(unit),
                lex_from(lines, 0, initial_state(), m) == lex_from(lines, ptr as int, state@, m),
            decreases raw.len() - ptr,
        {
            assert(lines[ptr as int] == raw[ptr as int]@);
            // try to match a statement
            let curln = trimmed(&raw[ptr]);
            if curln.len() == 0 {
                ptr += 1;
            } else {
                let text = string_of(&curln, 0, curln.len());
                assert(curln@.subrange(0, curln.len() as int) =~= curln@);
                let shape = classify(text.as_str());
                let step = if ptr + 1 < raw.len() {
                    assert(lines[ptr + 1] == raw[ptr + 1]@);
                    let next = trimmed(&raw[ptr + 1]);
                    state.statement(shape, &curln, Some(&next), ptr + 1, unit)
                } else {
                    state.statement(shape, &curln, None, ptr + 1, unit)
                };
                match step {
                    Err(e) => {
                        return Err(e);
                    },
                    Ok(_) => {},
                }
                if shape == Shape::Verse {
                    if ptr + 1 < raw.len() {
                        ptr += 2;
                    } else {
                        ptr += 1;
                    }
                } else {
                    ptr += 1;
                }
            }
        }
        if state.open.len() > 0 {
            return Err(
                Error::new(
                    ErrorType::SyntaxError,
                    "Mismatched while or if start",
                    Some(state.open[state.open.len() - 1]),
                ),
            );
        }
        Ok(state.lexed)
    }
}

/// The function and the arguments that a line of a call names.
pub open spec fn call_of(shape: Shape, l: Seq<char>, line: usize) -> Result<
    (Seq<char>, Seq<Seq<char>>),
    ErrorView,
> {
    if shape == Shape::RunAssign {
        call_parts(l, find_char(l, ')', 14) + 18, line)
    } else {
        call_parts(l, 16, line)
    }
}

/// A call is checked when it is read, before any bytecode is made: where
/// the lexer comes to a line that calls a function that is neither
/// declared nor a host function, or that calls a function with another
/// number of arguments than it takes, the whole program is refused with
/// an error at that line.
pub proof fn lemma_call_checked(
    lines: Seq<Seq<char>>,
    i: int,
    st: LexState,
    unit: FloatModel,
    func: Seq<char>,
    args: Seq<Seq<char>>,
)
    requires
        0 <= i < lines.len(),
        i < usize::MAX,
        trim_spec(lines[i]).len() > 0,
        shape_of(trim_spec(lines[i])) == Shape::Run || shape_of(trim_spec(lines[i]))
            == Shape::RunAssign,
        call_of(shape_of(trim_spec(lines[i])), trim_spec(lines[i]), (i + 1) as usize) == Ok::<
            (Seq<char>, Seq<Seq<char>>),
            ErrorView,
        >((func, args)),
        shape_of(trim_spec(lines[i])) == Shape::RunAssign ==> {
            let l = trim_spec(lines[i]);
            l.len() >= 14 && find_char(l, ')', 14) + 18 <= l.len() && scope_has(
                st.scope,
                l.subrange(14, find_char(l, ')', 14)),
            )
        },
        declared_from(st.functions, 0, func) is None,
    ensures
        builtin_arity(func) is None ==> lex_from(lines, i, st, unit) == Err::<
            Seq<(usize, StatementView)>,
            ErrorView,
        >(function_missing(func, (i + 1) as usize)),
        builtin_arity(func) is Some && !arity_admits(builtin_arity(func)->0, args.len())
            ==> lex_from(lines, i, st, unit) == Err::<Seq<(usize, StatementView)>, ErrorView>(
            wrong_argument_count(func, (i + 1) as usize),
        ),
{
}

/// The same for a declared function: a call with another number of
/// arguments than the function was declared with is refused at its line.
pub proof fn lemma_arity_checked(
    lines: Seq<Seq<char>>,
    i: int,
    st: LexState,
    unit: FloatModel,
    func: Seq<char>,
    args: Seq<Seq<char>>,
)
    requires
        0 <= i < lines.len(),
        i < usize::MAX,
        trim_spec(lines[i]).len() > 0,
        shape_of(trim_spec(lines[i])) == Shape::Run || shape_of(trim_spec(lines[i]))
            == Shape::RunAssign,
        call_of(shape_of(trim_spec(lines[i])), trim_spec(lines[i]), (i + 1) as usize) == Ok::<
            (Seq<char>, Seq<Seq<char>>),
            ErrorView,
        >((func, args)),
        shape_of(trim_spec(lines[i])) == Shape::RunAssign ==> {
            let l = trim_spec(lines[i]);
            l.len() >= 14 && find_char(l, ')', 14) + 18 <= l.len() && scope_has(
                st.scope,
                l.subrange(14, find_char(l, ')', 14)),
            )
        },
        declared_from(st.functions, 0, func) is Some,
        declared_from(st.functions, 0, func)->0 != args.len(),
    ensures
        lex_from(lines, i, st, unit) == Err::<Seq<(usize, StatementView)>, ErrorView>(
            wrong_argument_count(func, (i + 1) as usize),
        ),
{
}

} // verus!
