//! Operators by name and by precedence.

use vstd::prelude::*;
use vstd::string::StringExecFns;
use crate::error::{leaf, Error, ErrorType, ErrorView};
use crate::text::join;
use crate::tokenizer::{tokens_view, Token, TokenView, Tokenizer};
use crate::util::{same_text, scope_has, Bindings, ObjectView, Operator, RickrollObject, Scope};

verus! {

/// The operator that a symbol stands for.
pub open spec fn operator_of(name: Seq<char>) -> Option<Operator> {
    if name == "||"@ {
        Some(Operator::Or)
    } else if name == "&&"@ {
        Some(Operator::And)
    } else if name == ">"@ {
        Some(Operator::Greater)
    } else if name == "<"@ {
        Some(Operator::Less)
    } else if name == ">="@ {
        Some(Operator::GreaterEquals)
    } else if name == "<="@ {
        Some(Operator::LessEquals)
    } else if name == "=="@ {
        Some(Operator::Equals)
    } else if name == "!="@ {
        Some(Operator::NotEquals)
    } else if name == "+"@ {
        Some(Operator::Add)
    } else if name == "-"@ {
        Some(Operator::Subtract)
    } else if name == "*"@ {
        Some(Operator::Multiply)
    } else if name == "/"@ {
        Some(Operator::Divide)
    } else if name == "%"@ {
        Some(Operator::Modulo)
    } else if name == ":"@ {
        Some(Operator::ArrayAccess)
    } else if name == "!"@ {
        Some(Operator::Not)
    } else if name == "~"@ {
        Some(Operator::UnaryMinus)
    } else {
        None
    }
}

/// The error for a symbol that is no operator.
pub open spec fn unknown_operator(kind: ErrorType, name: Seq<char>) -> ErrorView {
    leaf(kind, "Operator "@ + name + " not found"@, None)
}

/// Builds the error for a symbol that is no operator.
pub fn operator_not_found(kind: ErrorType, name: &str) -> (r: Error)
    requires
        kind != ErrorType::Traceback,
    ensures
        r@ == unknown_operator(kind, name@),
{
    let mut msg = join("Operator ", name);
    msg.append(" not found");
    Error::new(kind, msg.as_str(), None)
}

// get operator from string
pub fn get_operator(str: &String) -> (r: Result<Operator, Error>)
    ensures
        match r {
            Ok(op) => operator_of(str@) == Some(op),
            Err(e) => operator_of(str@) is None && e@ == unknown_operator(
                ErrorType::SyntaxError,
                str@,
            ),
        },
{
    let s = str.as_str();
    if same_text(s, "||") {
        Ok(Operator::Or)
    } else if same_text(s, "&&") {
        Ok(Operator::And)
    } else if same_text(s, ">") {
        Ok(Operator::Greater)
    } else if same_text(s, "<") {
        Ok(Operator::Less)
    } else if same_text(s, ">=") {
        Ok(Operator::GreaterEquals)
    } else if same_text(s, "<=") {
        Ok(Operator::LessEquals)
    } else if same_text(s, "==") {
        Ok(Operator::Equals)
    } else if same_text(s, "!=") {
        Ok(Operator::NotEquals)
    } else if same_text(s, "+") {
        Ok(Operator::Add)
    } else if same_text(s, "-") {
        Ok(Operator::Subtract)
    } else if same_text(s, "*") {
        Ok(Operator::Multiply)
    } else if same_text(s, "/") {
        Ok(Operator::Divide)
    } else if same_text(s, "%") {
        Ok(Operator::Modulo)
    } else if same_text(s, ":") {
        Ok(Operator::ArrayAccess)
    } else if same_text(s, "!") {
        Ok(Operator::Not)
    } else if same_text(s, "~") {
        Ok(Operator::UnaryMinus)
    } else {
        Err(operator_not_found(ErrorType::SyntaxError, s))
    }
}

/// How tightly an operator binds; a parenthesis binds least of all.
pub open spec fn precedence(op: Operator) -> nat {
    match op {
        Operator::LParen | Operator::RParen => 0,
        Operator::Or => 1,
        Operator::And => 2,
        Operator::Greater
        | Operator::Less
        | Operator::GreaterEquals
        | Operator::LessEquals
        | Operator::Equals
        | Operator::NotEquals => 3,
        Operator::Add | Operator::Subtract => 4,
        Operator::Multiply | Operator::Divide | Operator::Modulo => 5,
        Operator::ArrayAccess => 6,
        Operator::Not => 7,
        Operator::UnaryMinus => 8,
    }
}

// get precedence of operator
pub fn precedence_of(op: &Operator) -> (r: usize)
    ensures
        r == precedence(*op),
{
    // higher precedence is evaluated before lower
    match op {
        Operator::LParen | Operator::RParen => 0,
        Operator::Or => 1,
        Operator::And => 2,
        Operator::Greater
        | Operator::Less
        | Operator::GreaterEquals
        | Operator::LessEquals
        | Operator::Equals
        | Operator::NotEquals => 3,
        Operator::Add | Operator::Subtract => 4,
        Operator::Multiply | Operator::Divide | Operator::Modulo => 5,
        Operator::ArrayAccess => 6,
        Operator::Not => 7,
        Operator::UnaryMinus => 8,
    }
}

/// The lexer of expressions is the tokenizer.
pub type ExprLexer = Tokenizer;

/// What an expression is.
pub enum ExprView {
    Value(ObjectView),
    Name(Seq<char>),
    /// An operator and its operands, the last operand first.
    Operation(Operator, Seq<ExprView>),
}

/// An expression as a tree. The operands of an operation are listed from
/// the top of the parser's value stack down: the right operand of a binary
/// operator comes first, the left one second.
#[derive(Debug)]
pub enum Expr {
    Value(RickrollObject),
    Name(String),
    Operation(Operator, Vec<Expr>),
}

pub open spec fn expr_view(e: Expr) -> ExprView
    decreases e, 0nat,
{
    match e {
        Expr::Value(v) => ExprView::Value(v@),
        Expr::Name(name) => ExprView::Name(name@),
        Expr::Operation(op, args) => ExprView::Operation(op, args_view(args, args.len() as nat)),
    }
}

pub open spec fn args_view(args: Vec<Expr>, n: nat) -> Seq<ExprView>
    decreases args, n,
{
    if n == 0 || n > args.len() {
        Seq::empty()
    } else {
        args_view(args, (n - 1) as nat).push(expr_view(args[n - 1]))
    }
}

impl View for Expr {
    type V = ExprView;

    open spec fn view(&self) -> ExprView {
        expr_view(*self)
    }
}

/// What a list of expressions is.
pub open spec fn exprs_view(items: Seq<Expr>) -> Seq<ExprView> {
    Seq::new(items.len(), |i: int| items[i]@)
}

proof fn lemma_args_view(args: Vec<Expr>, n: nat)
    requires
        n <= args.len(),
    ensures
        args_view(args, n) == exprs_view(args@.subrange(0, n as int)),
    decreases n,
{
    if n > 0 {
        lemma_args_view(args, (n - 1) as nat);
    }
    assert(args_view(args, n) =~= exprs_view(args@.subrange(0, n as int)));
}

/// What each form of expression is.
pub proof fn lemma_expr_view(e: Expr)
    ensures
        e@ == match e {
            Expr::Value(v) => ExprView::Value(v@),
            Expr::Name(name) => ExprView::Name(name@),
            Expr::Operation(op, args) => ExprView::Operation(op, exprs_view(args@)),
        },
{
    match e {
        Expr::Operation(op, args) => {
            lemma_args_view(args, args.len() as nat);
            assert(args@.subrange(0, args.len() as int) =~= args@);
        },
        _ => {},
    }
}

/// The two stacks of the parser: the expressions built so far, and the
/// operators and open parentheses that wait.
pub struct Stacks {
    pub values: Seq<ExprView>,
    pub ops: Seq<Operator>,
}

pub open spec fn not_enough_arguments() -> ErrorView {
    leaf(ErrorType::IllegalArgumentError, "Not enough arguments"@, None)
}

pub open spec fn illegal_syntax() -> ErrorView {
    leaf(ErrorType::SyntaxError, "Illegal expression syntax"@, None)
}

pub open spec fn no_such_variable(name: Seq<char>) -> ErrorView {
    leaf(ErrorType::NameError, "No such variable "@ + name, None)
}

/// Applies `op` to the expressions on top of the value stack: one for a
/// unary operator, two for a binary one.
pub open spec fn apply_spec(values: Seq<ExprView>, op: Operator) -> Result<Seq<ExprView>, ErrorView> {
    if op.unary() {
        if values.len() < 1 {
            Err(not_enough_arguments())
        } else {
            Ok(values.drop_last().push(ExprView::Operation(op, seq![values.last()])))
        }
    } else {
        if values.len() < 2 {
            Err(not_enough_arguments())
        } else {
            Ok(
                values.subrange(0, values.len() - 2).push(
                    ExprView::Operation(op, seq![values[values.len() - 1], values[values.len() - 2]]),
                ),
            )
        }
    }
}

/// Before a binary operator is pushed: applies every waiting operator that
/// binds at least as tightly, down to the nearest open parenthesis.
pub open spec fn reduce_while(st: Stacks, incoming: Operator) -> Result<Stacks, ErrorView>
    decreases st.ops.len(),
{
    if st.ops.len() == 0 {
        Ok(st)
    } else {
        let top = st.ops.last();
        if top.paren() || precedence(top) < precedence(incoming) {
            Ok(st)
        } else {
            match apply_spec(st.values, top) {
                Err(e) => Err(e),
                Ok(values) => reduce_while(Stacks { values, ops: st.ops.drop_last() }, incoming),
            }
        }
    }
}

/// At a closing parenthesis: applies the waiting operators down to the
/// nearest open parenthesis, which is removed.
pub open spec fn reduce_to_paren(st: Stacks) -> Result<Stacks, ErrorView>
    decreases st.ops.len(),
{
    if st.ops.len() == 0 {
        Ok(st)
    } else {
        let top = st.ops.last();
        let rest = st.ops.drop_last();
        if top.paren() {
            Ok(Stacks { values: st.values, ops: rest })
        } else {
            match apply_spec(st.values, top) {
                Err(e) => Err(e),
                Ok(values) => reduce_to_paren(Stacks { values, ops: rest }),
            }
        }
    }
}

/// At the end of the tokens: applies every waiting operator. One
/// expression must be left, and no parenthesis open.
pub open spec fn finish(st: Stacks) -> Result<ExprView, ErrorView>
    decreases st.ops.len(),
{
    if st.ops.len() == 0 {
        if st.values.len() == 1 {
            Ok(st.values[0])
        } else {
            Err(illegal_syntax())
        }
    } else {
        let top = st.ops.last();
        if top.paren() {
            Err(illegal_syntax())
        } else {
            match apply_spec(st.values, top) {
                Err(e) => Err(e),
                Ok(values) => finish(Stacks { values, ops: st.ops.drop_last() }),
            }
        }
    }
}

/// The stacks after one more token.
pub open spec fn feed(st: Stacks, token: TokenView, scope: Seq<Bindings>) -> Result<Stacks, ErrorView> {
    match token {
        TokenView::Value(v) => Ok(Stacks { values: st.values.push(ExprView::Value(v)), ops: st.ops }),
        TokenView::Variable(name) => if scope_has(scope, name) {
            Ok(Stacks { values: st.values.push(ExprView::Name(name)), ops: st.ops })
        } else {
            Err(no_such_variable(name))
        },
        TokenView::Operator(op) => if op == Operator::RParen {
            reduce_to_paren(st)
        } else if op == Operator::LParen || op.unary() {
            Ok(Stacks { values: st.values, ops: st.ops.push(op) })
        } else {
            match reduce_while(st, op) {
                Err(e) => Err(e),
                Ok(reduced) => Ok(Stacks { values: reduced.values, ops: reduced.ops.push(op) }),
            }
        },
    }
}

/// The expression that the tokens from `i` on complete.
pub open spec fn parse_from(tokens: Seq<TokenView>, i: int, st: Stacks, scope: Seq<Bindings>) -> Result<
    ExprView,
    ErrorView,
>
    decreases tokens.len() - i,
{
    if i < 0 || i >= tokens.len() {
        finish(st)
    } else {
        match feed(st, tokens[i], scope) {
            Err(e) => Err(e),
            Ok(next) => parse_from(tokens, i + 1, next, scope),
        }
    }
}

/// The tree of an expression, by operator precedence: every binary
/// operator is left-associative, a unary operator takes the one operand
/// that follows it. A name must be declared in `scope`.
pub open spec fn parse_spec(tokens: Seq<TokenView>, scope: Seq<Bindings>) -> Result<ExprView, ErrorView> {
    parse_from(tokens, 0, Stacks { values: Seq::empty(), ops: Seq::empty() }, scope)
}

/// What a result of an expression is.
pub open spec fn expr_result(r: Result<Expr, Error>) -> Result<ExprView, ErrorView> {
    match r {
        Ok(e) => Ok(e@),
        Err(e) => Err(e@),
    }
}

/*
 * This expression parser utilizes Dijkstra's Shunting-yard algorithm
 * for parsing infix expressions and converting them to ASTs.
 * https://en.wikipedia.org/wiki/Shunting-yard_algorithm
 */

pub struct ExprParser {
    tokens: Vec<Token>,
    scope: Scope,
}

// applies the operator to the top of the output stack
fn apply(values: &mut Vec<Expr>, op: Operator) -> (r: Result<(), Error>)
    ensures
        match r {
            Ok(_) => apply_spec(exprs_view(old(values)@), op) == Ok::<Seq<ExprView>, ErrorView>(
                exprs_view(final(values)@),
            ),
            Err(e) => apply_spec(exprs_view(old(values)@), op) == Err::<Seq<ExprView>, ErrorView>(
                e@,
            ),
        },
{
    let ghost before = exprs_view(values@);
    if op.is_unary() {
        if values.len() < 1 {
            return Err(Error::new(ErrorType::IllegalArgumentError, "Not enough arguments", None));
        }
        let operand = values.pop().unwrap();
        let mut args: Vec<Expr> = Vec::new();
        args.push(operand);
        let node = Expr::Operation(op, args);
        proof {
            lemma_expr_view(node);
            assert(exprs_view(args@) =~= seq![before.last()]);
        }
        values.push(node);
        assert(exprs_view(values@) =~= before.drop_last().push(node@));
        Ok(())
    } else {
        if values.len() < 2 {
            return Err(Error::new(ErrorType::IllegalArgumentError, "Not enough arguments", None));
        }
        let right = values.pop().unwrap();
        let left = values.pop().unwrap();
        let mut args: Vec<Expr> = Vec::new();
        args.push(right);
        args.push(left);
        let node = Expr::Operation(op, args);
        proof {
            lemma_expr_view(node);
            assert(exprs_view(args@) =~= seq![before[before.len() - 1], before[before.len() - 2]]);
        }
        values.push(node);
        assert(exprs_view(values@) =~= before.subrange(0, before.len() - 2).push(node@));
        Ok(())
    }
}

/// The stacks as the parser holds them.
pub open spec fn stacks_of(values: Seq<Expr>, ops: Seq<Operator>) -> Stacks {
    Stacks { values: exprs_view(values), ops }
}

// resolves as many operations as possible given the last operator
// all operators are left-associative
fn pop(values: &mut Vec<Expr>, ops: &mut Vec<Operator>, op: &Operator) -> (r: Result<(), Error>)
    ensures
        match r {
            Ok(_) => reduce_while(stacks_of(old(values)@, old(ops)@), *op) == Ok::<
                Stacks,
                ErrorView,
            >(stacks_of(final(values)@, final(ops)@)),
            Err(e) => reduce_while(stacks_of(old(values)@, old(ops)@), *op) == Err::<
                Stacks,
                ErrorView,
            >(e@),
        },
{
    while ops.len() > 0
        invariant
            reduce_while(stacks_of(old(values)@, old(ops)@), *op) == reduce_while(
                stacks_of(values@, ops@),
                *op,
            ),
        decreases ops.len(),
    {
        let top = ops[ops.len() - 1];
        // break if precedence is lower
        if top.is_paren() || precedence_of(&top) < precedence_of(op) {
            return Ok(());
        }
        ops.pop();
        match apply(values, top) {
            Err(e) => {
                return Err(e);
            },
            Ok(_) => {},
        }
    }
    Ok(())
}

// resolves all operations until there are no more operators
// or a left parenthesis is reached
fn pop_all(values: &mut Vec<Expr>, ops: &mut Vec<Operator>) -> (r: Result<(), Error>)
    ensures
        match r {
            Ok(_) => reduce_to_paren(stacks_of(old(values)@, old(ops)@)) == Ok::<Stacks, ErrorView>(
                stacks_of(final(values)@, final(ops)@),
            ),
            Err(e) => reduce_to_paren(stacks_of(old(values)@, old(ops)@)) == Err::<
                Stacks,
                ErrorView,
            >(e@),
        },
{
    while ops.len() > 0
        invariant
            reduce_to_paren(stacks_of(old(values)@, old(ops)@)) == reduce_to_paren(
                stacks_of(values@, ops@),
            ),
        decreases ops.len(),
    {
        let top = ops.pop().unwrap();  // pop top
        if top.is_paren() {
            return Ok(());
        }
        match apply(values, top) {
            Err(e) => {
                return Err(e);
            },
            Ok(_) => {},
        }
    }
    Ok(())
}

// applies what is left at the end of the tokens
fn pop_rest(values: &mut Vec<Expr>, ops: &mut Vec<Operator>) -> (r: Result<Expr, Error>)
    ensures
        expr_result(r) == finish(stacks_of(old(values)@, old(ops)@)),
{
    while ops.len() > 0
        invariant
            finish(stacks_of(old(values)@, old(ops)@)) == finish(stacks_of(values@, ops@)),
        decreases ops.len(),
    {
        let top = ops.pop().unwrap();
        if top.is_paren() {
            return Err(Error::new(ErrorType::SyntaxError, "Illegal expression syntax", None));
        }
        match apply(values, top) {
            Err(e) => {
                return Err(e);
            },
            Ok(_) => {},
        }
    }
    if values.len() != 1 {
        return Err(Error::new(ErrorType::SyntaxError, "Illegal expression syntax", None));
    }
    Ok(values.pop().unwrap())
}

/// Parses `tokens` against `scope`.
pub fn parse_tokens(tokens: &Vec<Token>, scope: &Scope) -> (r: Result<Expr, Error>)
    ensures
        expr_result(r) == parse_spec(tokens_view(tokens@), scope@),
{
    let mut values: Vec<Expr> = Vec::new();  // output stack
    let mut ops: Vec<Operator> = Vec::new();  // stack of operators and parenthesis
    let mut ptr: usize = 0;
    let ghost tv = tokens_view(tokens@);
    assert(stacks_of(values@, ops@) == Stacks { values: Seq::empty(), ops: Seq::empty() }) by {
        assert(exprs_view(values@) =~= Seq::<ExprView>::empty());
        assert(ops@ =~= Seq::<Operator>::empty());
    }
    while ptr < tokens.len()
        invariant
            ptr <= tokens.len(),
            tv == tokens_view(tokens@),
            parse_spec(tv, scope@) == parse_from(tv, ptr as int, stacks_of(values@, ops@), scope@),
        decreases tokens.len() - ptr,
    {
        let ghost old_values = exprs_view(values@);
        assert(tv[ptr as int] == tokens[ptr as int]@);
        match &tokens[ptr] {
            Token::Value(v) => {
                let node = Expr::Value(v.clone());
                proof {
                    lemma_expr_view(node);
                }
                values.push(node);
                assert(exprs_view(values@) =~= old_values.push(node@));
            },
            Token::Operator(op) => {
                let op = *op;
                if op == Operator::RParen {
                    match pop_all(&mut values, &mut ops) {
                        Err(e) => {
                            return Err(e);
                        },
                        Ok(_) => {},
                    }
                } else if op == Operator::LParen || op.is_unary() {
                    ops.push(op);
                } else {
                    match pop(&mut values, &mut ops, &op) {
                        Err(e) => {
                            return Err(e);
                        },
                        Ok(_) => {},
                    }
                    ops.push(op);
                }
            },
            Token::Variable(name) => {
                if scope.has_var(name.clone()) {
                    let node = Expr::Name(name.clone());
                    proof {
                        lemma_expr_view(node);
                    }
                    values.push(node);
                    assert(exprs_view(values@) =~= old_values.push(node@));
                } else {
                    return Err(
                        Error::new(
                            ErrorType::NameError,
                            join("No such variable ", name.as_str()).as_str(),
                            None,
                        ),
                    );
                }
            },
        }
        ptr += 1;
    }
    // try to pop all operations at the end
    pop_rest(&mut values, &mut ops)
}

impl ExprParser {
    /// The tokens to parse.
    pub closed spec fn tokens(&self) -> Seq<TokenView> {
        tokens_view(self.tokens@)
    }

    /// The scope in which names must be declared.
    pub closed spec fn scope(&self) -> Seq<Bindings> {
        self.scope@
    }

    pub fn new(tokens: Vec<Token>, scope: Scope) -> (r: ExprParser)
        ensures
            r.tokens() == tokens_view(tokens@),
            r.scope() == scope@,
    {
        ExprParser { tokens, scope }
    }

    pub fn parse(self) -> (r: Result<Expr, Error>)
        ensures
            expr_result(r) == parse_spec(self.tokens(), self.scope()),
    {
        parse_tokens(&self.tokens, &self.scope)
    }
}

} // verus!
