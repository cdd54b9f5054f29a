//! The expression tokenizer: from the text of an expression to its tokens.

use vstd::prelude::*;
use crate::error::{leaf, Error, ErrorType, ErrorView};
use crate::expr::{operator_not_found, operator_of, unknown_operator};
use crate::float::{ask, float_unit, model_of, FloatModel, FloatReply, FloatRequest, FloatRequestView};
use crate::text::{
    chars_of, digit_value, is_alpha, is_alpha_spec, is_digit, is_digit_spec, is_space,
    is_space_spec, string_of, trim_bounds, trim_spec,
};
use crate::util::{
    constant_spec, from_constant, same_text, ObjectView, Operator, RickrollObject,
};

verus! {

broadcast use crate::util::lemma_object_view;

/// What a token is.
pub enum TokenView {
    Value(ObjectView),
    Operator(Operator),
    Variable(Seq<char>),
}

/// A token of an expression: a literal value, an operator or a parenthesis,
/// or a name that is looked up when the expression is evaluated.
#[derive(Debug)]
pub enum Token {
    Value(RickrollObject),
    Operator(Operator),
    Variable(String),
}

impl View for Token {
    type V = TokenView;

    open spec fn view(&self) -> TokenView {
        match self {
            Token::Value(v) => TokenView::Value(v@),
            Token::Operator(op) => TokenView::Operator(*op),
            Token::Variable(name) => TokenView::Variable(name@),
        }
    }
}

impl Clone for Token {
    fn clone(&self) -> (r: Self)
        ensures
            r@ == self@,
    {
        match self {
            Token::Value(v) => Token::Value(v.clone()),
            Token::Operator(op) => Token::Operator(*op),
            Token::Variable(name) => Token::Variable(name.clone()),
        }
    }
}

/// What a list of tokens is.
pub open spec fn tokens_view(tokens: Seq<Token>) -> Seq<TokenView> {
    Seq::new(tokens.len(), |i: int| tokens[i]@)
}

/// Copies a list of tokens.
pub fn clone_tokens(tokens: &Vec<Token>) -> (r: Vec<Token>)
    ensures
        tokens_view(r@) == tokens_view(tokens@),
{
    let mut out: Vec<Token> = Vec::new();
    let mut i: usize = 0;
    while i < tokens.len()
        invariant
            i <= tokens.len(),
            out.len() == i,
            forall|j: int| 0 <= j < i ==> out[j]@ == tokens[j]@,
        decreases tokens.len() - i,
    {
        out.push(tokens[i].clone());
        i += 1;
    }
    assert(tokens_view(out@) =~= tokens_view(tokens@));
    out
}

/// The three kinds of run that the tokenizer reads greedily.
#[derive(Debug, Clone, Copy, PartialEq, Eq, Structural)]
pub enum RunKind {
    Number,
    Name,
    Operator,
}

/// One of the characters that compound operators are made of.
pub open spec fn is_op_char(c: char) -> bool {
    c == '!' || c == '&' || c == '|' || c == '<' || c == '>' || c == '=' || c == '~'
}

/// Whether `c` continues a run of the given kind.
pub open spec fn in_run(kind: RunKind, c: char) -> bool {
    match kind {
        RunKind::Number => is_digit_spec(c) || c == '.',
        RunKind::Name => is_alpha_spec(c) || c == '_',
        RunKind::Operator => is_op_char(c),
    }
}

/// The end of the run of the given kind that starts at `pos`.
pub open spec fn run_end(s: Seq<char>, pos: int, kind: RunKind) -> int
    decreases s.len() - pos,
{
    if 0 <= pos < s.len() && in_run(kind, s[pos]) {
        run_end(s, pos + 1, kind)
    } else {
        pos
    }
}

/// How many `.` the text holds.
pub open spec fn count_dots(s: Seq<char>) -> nat
    decreases s.len(),
{
    if s.len() == 0 {
        0
    } else {
        count_dots(s.drop_last()) + if s.last() == '.' {
            1nat
        } else {
            0nat
        }
    }
}

/// The number that a text of decimal digits writes.
pub open spec fn digits_value(s: Seq<char>) -> nat
    decreases s.len(),
{
    if s.len() == 0 {
        0
    } else {
        (digits_value(s.drop_last()) * 10 + (s.last() as u32 - '0' as u32)) as nat
    }
}

/// The token of a run of digits and dots: an integer where it has no dot
/// and fits in 32 bits, what the float unit makes of it where it has one.
pub open spec fn number_token(run: Seq<char>, unit: FloatModel) -> Result<TokenView, ErrorView> {
    if count_dots(run) >= 2 {
        Err(leaf(ErrorType::IllegalCharError, "Unknown character '.'"@, None))
    } else if count_dots(run) == 1 {
        Ok(TokenView::Value(unit(FloatRequestView::Literal(run)).value))
    } else if digits_value(run) > i32::MAX {
        Err(leaf(ErrorType::IllegalArgumentError, "Integer or float literal too large"@, None))
    } else {
        Ok(TokenView::Value(ObjectView::Int(digits_value(run) as i32)))
    }
}

/// The token of a word: a constant of the language, or a name.
pub open spec fn word_token(run: Seq<char>) -> TokenView {
    match constant_spec(run) {
        Some(v) => TokenView::Value(v),
        None => TokenView::Variable(run),
    }
}

/// The operators written with the reserved operator characters.
pub open spec fn is_compound(name: Seq<char>) -> bool {
    name == "&&"@ || name == "||"@ || name == ">"@ || name == "<"@ || name == ">="@ || name
        == "<="@ || name == "=="@ || name == "!="@ || name == "!"@ || name == "~"@
}

/// The token of a run of operator characters.
pub open spec fn operator_token(run: Seq<char>) -> Result<TokenView, ErrorView> {
    if is_compound(run) && operator_of(run) is Some {
        Ok(TokenView::Operator(operator_of(run)->0))
    } else {
        Err(unknown_operator(ErrorType::RuntimeError, run))
    }
}

/// The operator or parenthesis written with the one character `c`.
pub open spec fn single_operator(c: char) -> Option<Operator> {
    if c == '+' {
        Some(Operator::Add)
    } else if c == '-' {
        Some(Operator::Subtract)
    } else if c == '*' {
        Some(Operator::Multiply)
    } else if c == '/' {
        Some(Operator::Divide)
    } else if c == '%' {
        Some(Operator::Modulo)
    } else if c == ':' {
        Some(Operator::ArrayAccess)
    } else if c == '(' {
        Some(Operator::LParen)
    } else if c == ')' {
        Some(Operator::RParen)
    } else {
        None
    }
}

pub open spec fn trailing_literal() -> ErrorView {
    leaf(ErrorType::IllegalCharError, "Trailing character literal"@, None)
}

/// The character literal whose opening quote is at `pos`: the character
/// and the position behind the closing quote.
pub open spec fn char_literal(s: Seq<char>, pos: int) -> Result<(char, int), ErrorView> {
    if pos + 1 >= s.len() {
        Err(trailing_literal())
    } else if s[pos + 1] == '\'' {
        Err(leaf(ErrorType::IllegalCharError, "Empty literal"@, None))
    } else if s[pos + 1] == '\\' && pos + 2 >= s.len() {
        Err(trailing_literal())
    } else {
        let escaped = s[pos + 1] == '\\';
        let lit = if escaped {
            if s[pos + 2] == 'n' {
                '\n'
            } else {
                s[pos + 2]
            }
        } else {
            s[pos + 1]
        };
        let close = if escaped {
            pos + 3
        } else {
            pos + 2
        };
        if close >= s.len() {
            Err(trailing_literal())
        } else if s[close] != '\'' {
            Err(leaf(ErrorType::IllegalCharError, "More than one character in literal"@, None))
        } else {
            Ok((lit, close + 1))
        }
    }
}

/// The token that starts at `pos`, none for whitespace, and the position
/// behind it.
pub open spec fn next_token_spec(s: Seq<char>, pos: int, unit: FloatModel) -> Result<
    (Option<TokenView>, int),
    ErrorView,
> {
    let c = s[pos];
    if is_digit_spec(c) {
        let end = run_end(s, pos, RunKind::Number);
        match number_token(s.subrange(pos, end), unit) {
            Ok(t) => Ok((Some(t), end)),
            Err(e) => Err(e),
        }
    } else if is_alpha_spec(c) {
        let end = run_end(s, pos, RunKind::Name);
        Ok((Some(word_token(s.subrange(pos, end))), end))
    } else if is_op_char(c) {
        let end = run_end(s, pos, RunKind::Operator);
        match operator_token(s.subrange(pos, end)) {
            Ok(t) => Ok((Some(t), end)),
            Err(e) => Err(e),
        }
    } else if c == '\'' {
        match char_literal(s, pos) {
            Ok((lit, end)) => Ok((Some(TokenView::Value(ObjectView::Char(lit))), end)),
            Err(e) => Err(e),
        }
    } else if is_space_spec(c) {
        Ok((None, pos + 1))
    } else {
        match single_operator(c) {
            Some(op) => Ok((Some(TokenView::Operator(op)), pos + 1)),
            None => Err(leaf(ErrorType::IllegalCharError, "Illegal character in expression"@, None)),
        }
    }
}

pub open spec fn mismatched_parentheses() -> ErrorView {
    leaf(ErrorType::SyntaxError, "Mismatched parentheses"@, None)
}

/// How many parentheses stand open behind a token, `balance` before it.
pub open spec fn balance_after(balance: int, token: Option<TokenView>) -> int {
    if token == Some(TokenView::Operator(Operator::LParen)) {
        balance + 1
    } else if token == Some(TokenView::Operator(Operator::RParen)) {
        balance - 1
    } else {
        balance
    }
}

/// `tokens` before what `rest` gives.
pub open spec fn prepend(tokens: Seq<TokenView>, rest: Result<Seq<TokenView>, ErrorView>) -> Result<
    Seq<TokenView>,
    ErrorView,
> {
    match rest {
        Ok(more) => Ok(tokens + more),
        Err(e) => Err(e),
    }
}

/// The tokens from `pos` on, with `balance` parentheses open there.
pub open spec fn tokenize_from(s: Seq<char>, pos: int, balance: int, unit: FloatModel) -> Result<
    Seq<TokenView>,
    ErrorView,
>
    decreases s.len() - pos,
{
    if pos < 0 || pos >= s.len() {
        if balance == 0 {
            Ok(Seq::empty())
        } else {
            Err(mismatched_parentheses())
        }
    } else {
        match next_token_spec(s, pos, unit) {
            Err(e) => Err(e),
            Ok((token, next)) => {
                let open = balance_after(balance, token);
                if open < 0 || next <= pos || next > s.len() {
                    Err(mismatched_parentheses())
                } else {
                    let found = match token {
                        Some(t) => seq![t],
                        None => Seq::empty(),
                    };
                    prepend(found, tokenize_from(s, next, open, unit))
                }
            },
        }
    }
}

/// The tokens of an expression, or the first error in it. A closing
/// parenthesis with none open, or one left open at the end, is an error.
pub open spec fn tokenize_spec(s: Seq<char>, unit: FloatModel) -> Result<Seq<TokenView>, ErrorView> {
    if s.len() == 0 {
        Err(leaf(ErrorType::SyntaxError, "Unexpected end of statement"@, None))
    } else {
        tokenize_from(s, 0, 0, unit)
    }
}

/// What a result of tokens is.
pub open spec fn tokens_result(r: Result<Vec<Token>, Error>) -> Result<Seq<TokenView>, ErrorView> {
    match r {
        Ok(tokens) => Ok(tokens_view(tokens@)),
        Err(e) => Err(e@),
    }
}

pub open spec fn token_result(r: Result<Token, Error>) -> Result<TokenView, ErrorView> {
    match r {
        Ok(token) => Ok(token@),
        Err(e) => Err(e@),
    }
}

proof fn lemma_digits_monotone(s: Seq<char>, k: int)
    requires
        0 <= k <= s.len(),
        forall|i: int| 0 <= i < s.len() ==> is_digit_spec(#[trigger] s[i]),
    ensures
        digits_value(s.subrange(0, k)) <= digits_value(s),
    decreases s.len(),
{
    if k == s.len() {
        assert(s.subrange(0, k) =~= s);
    } else {
        let t = s.drop_last();
        assert(t.subrange(0, k) =~= s.subrange(0, k));
        lemma_digits_monotone(t, k);
    }
}

fn in_run_of(kind: RunKind, c: char) -> (r: bool)
    ensures
        r == in_run(kind, c),
{
    match kind {
        RunKind::Number => is_digit(c) || c == '.',
        RunKind::Name => is_alpha(c) || c == '_',
        RunKind::Operator => c == '!' || c == '&' || c == '|' || c == '<' || c == '>' || c == '='
            || c == '~',
    }
}

/// Reads the run that starts at `pos`.
fn scan(raw: &Vec<char>, pos: usize, kind: RunKind) -> (end: usize)
    requires
        pos < raw.len(),
        in_run(kind, raw[pos as int]),
    ensures
        end == run_end(raw@, pos as int, kind),
        pos < end <= raw.len(),
        forall|i: int| pos <= i < end ==> in_run(kind, #[trigger] raw[i]),
{
    let mut end: usize = pos + 1;
    while end < raw.len() && in_run_of(kind, raw[end])
        invariant
            pos < end <= raw.len(),
            run_end(raw@, pos as int, kind) == run_end(raw@, end as int, kind),
            forall|i: int| pos <= i < end ==> in_run(kind, #[trigger] raw[i]),
        decreases raw.len() - end,
    {
        end += 1;
    }
    end
}

fn fail(kind: ErrorType, desc: &str) -> (r: Error)
    requires
        kind != ErrorType::Traceback,
    ensures
        r@ == leaf(kind, desc@, None),
{
    Error::new(kind, desc, None)
}

#[derive(Debug)]
pub struct Tokenizer {
    raw: Vec<char>,  // raw expression string
    line: usize,
}

impl Tokenizer {
    /// The trimmed text that is tokenized.
    pub closed spec fn text(&self) -> Seq<char> {
        self.raw@
    }

    /// The line that the expression stands on.
    pub closed spec fn on_line(&self) -> usize {
        self.line
    }

    pub fn line(&self) -> (r: usize)
        ensures
            r == self.on_line(),
    {
        self.line
    }

    // makes a new tokenizer from the raw string
    pub fn new(string: String, line: usize) -> (r: Tokenizer)
        ensures
            r.text() == trim_spec(string@),
            r.on_line() == line,
    {
        let chars = chars_of(string.as_str());
        let (a, b) = trim_bounds(&chars, 0, chars.len());
        assert(chars@.subrange(0, chars.len() as int) =~= chars@);
        let mut raw: Vec<char> = Vec::new();
        let mut i: usize = a;
        while i < b
            invariant
                a <= i <= b <= chars.len(),
                raw@ == chars@.subrange(a as int, i as int),
            decreases b - i,
        {
            raw.push(chars[i]);
            i += 1;
            assert(raw@ == chars@.subrange(a as int, i as int));
        }
        Tokenizer { raw, line }
    }

    // parses a number starting at pos
    fn make_number<F: Fn(FloatRequest) -> FloatReply>(
        raw: &Vec<char>,
        pos: usize,
        end: usize,
        unit: &F,
    ) -> (r: Result<Token, Error>)
        requires
            pos < end <= raw.len(),
            forall|i: int| pos <= i < end ==> in_run(RunKind::Number, #[trigger] raw[i]),
            float_unit(unit),
        ensures
            token_result(r) == number_token(raw@.subrange(pos as int, end as int), model_of(unit)),
    {
        let ghost run = raw@.subrange(pos as int, end as int);
        // '.' means number is floating point
        let mut dots: usize = 0;
        let mut i: usize = pos;
        while i < end
            invariant
                pos <= i <= end <= raw.len(),
                run == raw@.subrange(pos as int, end as int),
                dots == count_dots(run.subrange(0, i - pos)),
                dots <= i - pos,
            decreases end - i,
        {
            assert(run.subrange(0, i + 1 - pos).drop_last() =~= run.subrange(0, i - pos));
            if raw[i] == '.' {
                dots += 1;
            }
            i += 1;
        }
        assert(run.subrange(0, end - pos) =~= run);
        if dots >= 2 {
            // only one '.' can exist in a number
            return Err(fail(ErrorType::IllegalCharError, "Unknown character '.'"));
        }
        if dots == 1 {
            let reply = ask(unit, FloatRequest::Literal(string_of(raw, pos, end)));
            return Ok(Token::Value(reply.value));
        }
        proof {
            lemma_no_dots(run);
        }
        let mut inum: i32 = 0;
        let mut i: usize = pos;
        while i < end
            invariant
                pos <= i <= end <= raw.len(),
                run == raw@.subrange(pos as int, end as int),
                forall|j: int| 0 <= j < run.len() ==> is_digit_spec(#[trigger] run[j]),
                count_dots(run) == 0,
                inum == digits_value(run.subrange(0, i - pos)),
            decreases end - i,
        {
            assert(run[i - pos] == raw[i as int]);
            let curdig = digit_value(raw[i]);
            proof {
                let prefix = run.subrange(0, i + 1 - pos);
                assert(prefix.drop_last() =~= run.subrange(0, i - pos));
                assert(prefix.last() == raw[i as int]);
                assert(run[i - pos] == raw[i as int]);
                assert(digits_value(prefix) == inum * 10 + curdig);
                lemma_digits_monotone(run, i + 1 - pos);
            }
            match inum.checked_mul(10) {
                None => {
                    return Err(
                        fail(ErrorType::IllegalArgumentError, "Integer or float literal too large"),
                    );
                },
                Some(x) => {
                    match x.checked_add(curdig) {
                        None => {
                            return Err(
                                fail(
                                    ErrorType::IllegalArgumentError,
                                    "Integer or float literal too large",
                                ),
                            );
                        },
                        Some(y) => {
                            inum = y;
                        },
                    }
                },
            }
            i += 1;
        }
        assert(run.subrange(0, end - pos) =~= run);
        Ok(Token::Value(RickrollObject::Int(inum)))
    }

    // makes a variable/constant starting at pos
    fn make_variable(raw: &Vec<char>, pos: usize, end: usize) -> (r: Token)
        requires
            pos <= end <= raw.len(),
        ensures
            r@ == word_token(raw@.subrange(pos as int, end as int)),
    {
        let varname = string_of(raw, pos, end);
        // check if var is a constant
        match from_constant(&varname) {
            Some(value) => Token::Value(value),
            None => Token::Variable(varname),
        }
    }

    // makes a complex operator starting at pos
    fn make_operator(raw: &Vec<char>, pos: usize, end: usize) -> (r: Result<Token, Error>)
        requires
            pos <= end <= raw.len(),
        ensures
            token_result(r) == operator_token(raw@.subrange(pos as int, end as int)),
    {
        let opname = string_of(raw, pos, end);
        let s = opname.as_str();
        // support only one "!" before an argument
        // multiple "!" can be formatted as "! !"
        let op = if same_text(s, "&&") {
            Operator::And
        } else if same_text(s, "||") {
            Operator::Or
        } else if same_text(s, ">") {
            Operator::Greater
        } else if same_text(s, "<") {
            Operator::Less
        } else if same_text(s, ">=") {
            Operator::GreaterEquals
        } else if same_text(s, "<=") {
            Operator::LessEquals
        } else if same_text(s, "==") {
            Operator::Equals
        } else if same_text(s, "!=") {
            Operator::NotEquals
        } else if same_text(s, "!") {
            Operator::Not
        } else if same_text(s, "~") {
            Operator::UnaryMinus
        } else {
            return Err(operator_not_found(ErrorType::RuntimeError, s));
        };
        match crate::expr::get_operator(&opname) {
            Ok(found) => Ok(Token::Operator(found)),
            Err(_) => Err(operator_not_found(ErrorType::RuntimeError, s)),
        }
    }

    // reads the character literal whose opening quote is at pos
    fn make_char(raw: &Vec<char>, pos: usize) -> (r: Result<(char, usize), Error>)
        requires
            pos < raw.len(),
        ensures
            match r {
                Ok((lit, end)) => char_literal(raw@, pos as int) == Ok::<(char, int), ErrorView>(
                    (lit, end as int),
                ) && pos < end <= raw.len(),
                Err(e) => char_literal(raw@, pos as int) == Err::<(char, int), ErrorView>(e@),
            },
    {
        let mut ptr: usize = pos + 1;
        // expected more characters in expression
        if ptr >= raw.len() {
            return Err(fail(ErrorType::IllegalCharError, "Trailing character literal"));
        }
        let mut chrlit = raw[ptr];  // value of char literal
        // empty char literal ('')
        if chrlit == '\'' {
            return Err(fail(ErrorType::IllegalCharError, "Empty literal"));
        }
        // possible escape sequence
        if chrlit == '\\' {
            ptr += 1;
            if ptr >= raw.len() {
                return Err(fail(ErrorType::IllegalCharError, "Trailing character literal"));
            }
            let chr = raw[ptr];
            chrlit = if chr == 'n' {
                '\n'  // new line
            } else {
                chr  // otherwise no escape sequence found, regular char
            };
        }
        ptr += 1;
        if ptr >= raw.len() {
            return Err(fail(ErrorType::IllegalCharError, "Trailing character literal"));
        }
        // make sure last character closes off the literal
        if raw[ptr] != '\'' {
            return Err(fail(ErrorType::IllegalCharError, "More than one character in literal"));
        }
        Ok((chrlit, ptr + 1))
    }

    // reads the token that starts at pos
    fn next_token<F: Fn(FloatRequest) -> FloatReply>(raw: &Vec<char>, pos: usize, unit: &F) -> (r:
        Result<(Option<Token>, usize), Error>)
        requires
            pos < raw.len(),
            float_unit(unit),
        ensures
            match r {
                Ok((token, next)) => pos < next <= raw.len() && next_token_spec(
                    raw@,
                    pos as int,
                    model_of(unit),
                ) == Ok::<(Option<TokenView>, int), ErrorView>(
                    (
                        match token {
                            Some(t) => Some(t@),
                            None => None,
                        },
                        next as int,
                    ),
                ),
                Err(e) => next_token_spec(raw@, pos as int, model_of(unit)) == Err::<
                    (Option<TokenView>, int),
                    ErrorView,
                >(e@),
            },
    {
        let chr = raw[pos];  // cur char
        // make number
        if is_digit(chr) {
            let end = scan(raw, pos, RunKind::Number);
            return match Self::make_number(raw, pos, end, unit) {
                Ok(t) => Ok((Some(t), end)),
                Err(e) => Err(e),
            };
        }
        // make variable/constant
        if is_alpha(chr) {
            let end = scan(raw, pos, RunKind::Name);
            return Ok((Some(Self::make_variable(raw, pos, end)), end));
        }
        // make operator
        if in_run_of(RunKind::Operator, chr) {
            let end = scan(raw, pos, RunKind::Operator);
            return match Self::make_operator(raw, pos, end) {
                Ok(t) => Ok((Some(t), end)),
                Err(e) => Err(e),
            };
        }
        // character literal
        if chr == '\'' {
            return match Self::make_char(raw, pos) {
                Ok((lit, end)) => {
                    proof {
                        crate::util::lemma_object_view(RickrollObject::Char(lit));
                    }
                    Ok((Some(Token::Value(RickrollObject::Char(lit))), end))
                },
                Err(e) => Err(e),
            };
        }
        // whitespace can be ignored
        if is_space(chr) {
            return Ok((None, pos + 1));
        }
        let op = if chr == '+' {
            Operator::Add
        } else if chr == '-' {
            Operator::Subtract
        } else if chr == '*' {
            Operator::Multiply
        } else if chr == '/' {
            Operator::Divide
        } else if chr == '%' {
            Operator::Modulo
        } else if chr == ':' {
            Operator::ArrayAccess
        } else if chr == '(' {
            Operator::LParen
        } else if chr == ')' {
            Operator::RParen
        } else {
            return Err(fail(ErrorType::IllegalCharError, "Illegal character in expression"));
        };
        Ok((Some(Token::Operator(op)), pos + 1))
    }

    // consume self after making tokens
    pub fn make_tokens<F: Fn(FloatRequest) -> FloatReply>(self, unit: &F) -> (r: Result<
        Vec<Token>,
        Error,
    >)
        requires
            float_unit(unit),
        ensures
            tokens_result(r) == tokenize_spec(self.text(), model_of(unit)),
    {
        let raw = self.raw;
        // empty expression cannot be parsed
        if raw.len() == 0 {
            return Err(fail(ErrorType::SyntaxError, "Unexpected end of statement"));
        }
        let ghost m = model_of(unit);
        let mut tokens: Vec<Token> = Vec::new();
        let mut pos: usize = 0;
        let mut balance: usize = 0;
        assert(tokens_view(tokens@) =~= Seq::<TokenView>::empty());
        assert(prepend(Seq::<TokenView>::empty(), tokenize_from(raw@, 0, 0, m)) =~= tokenize_from(
            raw@,
            0,
            0,
            m,
        )) by {
            match tokenize_from(raw@, 0, 0, m) {
                Ok(more) => {
                    assert(Seq::<TokenView>::empty() + more =~= more);
                },
                Err(_) => {},
            }
        }
        while pos < raw.len()
            invariant
                pos <= raw.len(),
                balance <= pos,
                float_unit(unit),
                m == model_of(unit),
                raw@ == self.text(),
                tokenize_from(raw@, 0, 0, m) == prepend(
                    tokens_view(tokens@),
                    tokenize_from(raw@, pos as int, balance as int, m),
                ),
            decreases raw.len() - pos,
        {
            let ghost before = tokens_view(tokens@);
            match Self::next_token(&raw, pos, unit) {
                Err(e) => {
                    return Err(e);
                },
                Ok((token, next)) => {
                    let ghost found: Seq<TokenView> = match &token {
                        Some(t) => seq![t@],
                        None => Seq::empty(),
                    };
                    match token {
                        Some(t) => {
                            match &t {
                                Token::Operator(Operator::LParen) => {
                                    balance += 1;
                                },
                                Token::Operator(Operator::RParen) => {
                                    if balance == 0 {
                                        return Err(
                                            fail(ErrorType::SyntaxError, "Mismatched parentheses"),
                                        );
                                    }
                                    balance -= 1;
                                },
                                _ => {},
                            }
                            tokens.push(t);
                        },
                        None => {},
                    }
                    assert(tokens_view(tokens@) =~= before + found);
                    proof {
                        match tokenize_from(raw@, next as int, balance as int, m) {
                            Ok(more) => {
                                assert((before + found) + more =~= before + (found + more));
                            },
                            Err(_) => {},
                        }
                    }
                    pos = next;
                },
            }
        }
        if balance != 0 {
            return Err(fail(ErrorType::SyntaxError, "Mismatched parentheses"));
        }
        proof {
            assert(tokens_view(tokens@) + Seq::<TokenView>::empty() =~= tokens_view(tokens@));
        }
        Ok(tokens)
    }
}

proof fn lemma_no_dots(run: Seq<char>)
    requires
        count_dots(run) == 0,
        forall|i: int| 0 <= i < run.len() ==> in_run(RunKind::Number, #[trigger] run[i]),
    ensures
        forall|i: int| 0 <= i < run.len() ==> is_digit_spec(#[trigger] run[i]),
    decreases run.len(),
{
    if run.len() > 0 {
        let t = run.drop_last();
        lemma_no_dots(t);
        assert forall|i: int| 0 <= i < run.len() implies is_digit_spec(#[trigger] run[i]) by {
            if i < t.len() {
                assert(t[i] == run[i]);
            }
        }
    }
}

} // verus!
