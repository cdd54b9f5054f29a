use rickroll::error::{Error, ErrorType};
use rickroll::eval::eval;
use rickroll::expr::{get_operator, precedence_of, ExprParser};
use rickroll::float::{FloatReply, FloatRequest, Number};
use rickroll::tokenizer::{Token, Tokenizer};
use rickroll::util::{from_constant, Context, Operator, RickrollObject, Scope};

fn number(n: Number) -> f32 {
    match n {
        Number::Int(i) => i as f32,
        Number::Float(bits) => f32::from_bits(bits),
    }
}

// the host's arithmetic on floats
fn unit(req: FloatRequest) -> FloatReply {
    let value = match &req {
        FloatRequest::Literal(text) => {
            RickrollObject::Float(text.parse::<f32>().unwrap_or(f32::NAN).to_bits())
        }
        FloatRequest::Render(_) => RickrollObject::Undefined,
        FloatRequest::Negate(bits) => RickrollObject::Float((-f32::from_bits(*bits)).to_bits()),
        FloatRequest::Binary(op, a, b) => {
            let (x, y) = (number(*a), number(*b));
            match op {
                Operator::Add => RickrollObject::Float((x + y).to_bits()),
                Operator::Subtract => RickrollObject::Float((x - y).to_bits()),
                Operator::Multiply => RickrollObject::Float((x * y).to_bits()),
                Operator::Divide => RickrollObject::Float((x / y).to_bits()),
                Operator::Modulo => RickrollObject::Float((x % y).to_bits()),
                Operator::Greater => RickrollObject::Bool(x > y),
                Operator::Less => RickrollObject::Bool(x < y),
                Operator::GreaterEquals => RickrollObject::Bool(x >= y),
                Operator::LessEquals => RickrollObject::Bool(x <= y),
                Operator::Equals => RickrollObject::Bool(x == y),
                Operator::NotEquals => RickrollObject::Bool(x != y),
                _ => RickrollObject::Undefined,
            }
        }
    };
    let text = match &req {
        FloatRequest::Render(bits) => f32::from_bits(*bits).to_string(),
        _ => String::new(),
    };
    FloatReply { value, text }
}

fn tokens(text: &str) -> Result<Vec<Token>, Error> {
    Tokenizer::new(String::from(text), 1).make_tokens(&unit)
}

fn tokens_text(text: &str) -> String {
    format!("{:?}", tokens(text))
}

// the printed value of an expression, or the error
fn value_in(text: &str, scope: Scope) -> String {
    let result = tokens(text).and_then(|t| {
        let tree = rickroll::expr::parse_tokens(&t, &scope)?;
        eval(&tree, &scope, &unit)
    });
    match result {
        Ok(v) => v.to_string(&unit),
        Err(e) => format!("{:?}", e),
    }
}

fn value(text: &str) -> String {
    value_in(text, Scope::new())
}

fn leaf_error(kind: &str, desc: &str) -> String {
    format!("Error {{ err: {}, desc: {:?}, line: None, child: None }}", kind, desc)
}

#[test]
fn tokenizer_reads_numbers_names_and_operators() {
    assert_eq!(
        tokens_text(" 1 + 2 "),
        "Ok([Value(Int(1)), Operator(Add), Value(Int(2))])"
    );
    assert_eq!(
        tokens_text("a_b>=3&& !c"),
        "Ok([Variable(\"a_b\"), Operator(GreaterEquals), Value(Int(3)), Operator(And), Operator(Not), Variable(\"c\")])"
    );
    assert_eq!(
        tokens_text("(x:0)%~2"),
        "Ok([Operator(LParen), Variable(\"x\"), Operator(ArrayAccess), Value(Int(0)), Operator(RParen), Operator(Modulo), Operator(UnaryMinus), Value(Int(2))])"
    );
    assert_eq!(
        tokens_text("TRUE FALSE UNDEFINED ARRAY"),
        "Ok([Value(Bool(true)), Value(Bool(false)), Value(Undefined), Value(Array([]))])"
    );
    assert_eq!(tokens_text("2147483647"), "Ok([Value(Int(2147483647))])");
    assert_eq!(
        tokens_text("1.5"),
        format!("Ok([Value(Float({}))])", 1.5f32.to_bits())
    );
}

#[test]
fn tokenizer_reads_character_literals() {
    assert_eq!(tokens_text("'x'"), "Ok([Value(Char('x'))])");
    assert_eq!(tokens_text("'\\n'"), "Ok([Value(Char('\\n'))])");
    assert_eq!(tokens_text("'\\q'"), "Ok([Value(Char('q'))])");
}

#[test]
fn tokenizer_errors() {
    assert_eq!(
        tokens_text("   "),
        format!("Err({})", leaf_error("SyntaxError", "Unexpected end of statement"))
    );
    assert_eq!(
        tokens_text("1.2.3"),
        format!("Err({})", leaf_error("IllegalCharError", "Unknown character '.'"))
    );
    assert_eq!(
        tokens_text("2147483648"),
        format!(
            "Err({})",
            leaf_error("IllegalArgumentError", "Integer or float literal too large")
        )
    );
    assert_eq!(
        tokens_text("99999999999999999999"),
        format!(
            "Err({})",
            leaf_error("IllegalArgumentError", "Integer or float literal too large")
        )
    );
    assert_eq!(
        tokens_text("1 => 2"),
        format!("Err({})", leaf_error("RuntimeError", "Operator => not found"))
    );
    // a run of operator characters is read as one operator
    assert_eq!(
        tokens_text("a &&! b"),
        format!("Err({})", leaf_error("RuntimeError", "Operator &&! not found"))
    );
    assert_eq!(
        tokens_text("(1 + 2"),
        format!("Err({})", leaf_error("SyntaxError", "Mismatched parentheses"))
    );
    assert_eq!(
        tokens_text("1)"),
        format!("Err({})", leaf_error("SyntaxError", "Mismatched parentheses"))
    );
    assert_eq!(
        tokens_text("'ab'"),
        format!(
            "Err({})",
            leaf_error("IllegalCharError", "More than one character in literal")
        )
    );
    assert_eq!(
        tokens_text("'a"),
        format!("Err({})", leaf_error("IllegalCharError", "Trailing character literal"))
    );
    assert_eq!(
        tokens_text("''"),
        format!("Err({})", leaf_error("IllegalCharError", "Empty literal"))
    );
    assert_eq!(
        tokens_text("1 # 2"),
        format!("Err({})", leaf_error("IllegalCharError", "Illegal character in expression"))
    );
}

#[test]
fn operators_by_name_and_precedence() {
    assert_eq!(get_operator(&String::from("&&")).unwrap(), Operator::And);
    assert_eq!(get_operator(&String::from(":")).unwrap(), Operator::ArrayAccess);
    assert_eq!(get_operator(&String::from("~")).unwrap(), Operator::UnaryMinus);
    assert_eq!(
        format!("{:?}", get_operator(&String::from("**"))),
        format!("Err({})", leaf_error("SyntaxError", "Operator ** not found"))
    );
    let order = [
        Operator::Or,
        Operator::And,
        Operator::Equals,
        Operator::Add,
        Operator::Multiply,
        Operator::ArrayAccess,
        Operator::Not,
        Operator::UnaryMinus,
    ];
    for i in 0..order.len() {
        assert_eq!(precedence_of(&order[i]), i + 1);
    }
    assert_eq!(precedence_of(&Operator::Less), precedence_of(&Operator::NotEquals));
    assert_eq!(precedence_of(&Operator::Subtract), 4);
    assert_eq!(precedence_of(&Operator::Modulo), 5);
    assert!(Operator::Not.is_unary());
    assert!(Operator::UnaryMinus.is_unary());
    assert!(!Operator::Subtract.is_unary());
}

#[test]
fn constants() {
    assert!(matches!(
        from_constant(&String::from("TRUE")),
        Some(RickrollObject::Bool(true))
    ));
    assert!(matches!(
        from_constant(&String::from("UNDEFINED")),
        Some(RickrollObject::Undefined)
    ));
    assert!(from_constant(&String::from("true")).is_none());
}

#[test]
fn parser_builds_trees_by_precedence() {
    let t = tokens("1 + 2 * 3").unwrap();
    let tree = ExprParser::new(t, Scope::new()).parse().unwrap();
    assert_eq!(
        format!("{:?}", tree),
        "Operation(Add, [Operation(Multiply, [Value(Int(3)), Value(Int(2))]), Value(Int(1))])"
    );
    let t = tokens("8 - 4 - 2").unwrap();
    let tree = ExprParser::new(t, Scope::new()).parse().unwrap();
    assert_eq!(
        format!("{:?}", tree),
        "Operation(Subtract, [Value(Int(2)), Operation(Subtract, [Value(Int(4)), Value(Int(8))])])"
    );
}

#[test]
fn evaluation_follows_precedence_and_parentheses() {
    assert_eq!(value("1 + 2"), "3");
    assert_eq!(value("1 * 2 / 3 + 4"), "4");
    assert_eq!(value("1 + 2 >= 3 || FALSE"), "TRUE");
    assert_eq!(value("3 + 2 * 5"), "13");
    assert_eq!(value("((7)) * (4 + 2)"), "42");
    assert_eq!(value("(3 + 2) * 5 > 4 || TRUE && FALSE"), "TRUE");
    assert_eq!(value("8 - 4 - 2"), "2");
}

#[test]
fn unary_operators_take_one_operand() {
    assert_eq!(value("! ! TRUE && ! FALSE"), "TRUE");
    assert_eq!(value("3 - ~(~4)"), "-1");
    assert_eq!(value("~3 + 5"), "2");
}

#[test]
fn integer_arithmetic_wraps() {
    assert_eq!(value("2147483647 + 1"), "-2147483648");
    assert_eq!(value("~2147483647 - 2"), "2147483647");
    assert_eq!(value("65536 * 65536"), "0");
    assert_eq!(value("(~2147483647 - 1) / ~1"), "-2147483648");
    assert_eq!(value("(~2147483647 - 1) % ~1"), "0");
    assert_eq!(value("~7 / 2"), "-3");
    assert_eq!(value("~7 % 2"), "-1");
    assert_eq!(value("7 / ~2"), "-3");
    assert_eq!(value("7 % ~2"), "1");
    assert_eq!(value("~(~2147483647 - 1)"), "-2147483648");
}

#[test]
fn division_by_zero_is_an_error() {
    assert_eq!(value("1 / 0"), leaf_error("RuntimeError", "Division by zero"));
    assert_eq!(value("1 % 0"), leaf_error("RuntimeError", "Division by zero"));
}

#[test]
fn equality_is_total() {
    assert_eq!(value("1 == 1"), "TRUE");
    assert_eq!(value("1 == TRUE"), "FALSE");
    assert_eq!(value("1 != TRUE"), "TRUE");
    assert_eq!(value("'a' == 'a'"), "TRUE");
    assert_eq!(value("'a' != 'b'"), "TRUE");
    assert_eq!(value("ARRAY == ARRAY"), "FALSE");
    assert_eq!(value("UNDEFINED != UNDEFINED"), "TRUE");
    assert_eq!(value("1.5 == 1.5"), "TRUE");
    assert_eq!(value("1 == 1.0"), "FALSE");
}

#[test]
fn floats_go_through_the_unit() {
    assert_eq!(value("1.5 + 2.25"), "3.75");
    assert_eq!(value("1 + 0.5"), "1.5");
    assert_eq!(value("3.0 * 2"), "6");
    assert_eq!(value("1.5 > 1"), "TRUE");
    assert_eq!(value("~1.5"), "-1.5");
    assert_eq!(value("7.5 % 2"), "1.5");
    let mut s = Scope::new();
    s.add_var(String::from("a"));
    s.add_var(String::from("rate"));
    s.set_var(String::from("a"), RickrollObject::Int(3));
    s.set_var(String::from("rate"), RickrollObject::Float(4.0f32.to_bits()));
    assert_eq!(value_in("a + 3 * rate", s), "15");
}

#[test]
fn evaluation_errors() {
    assert_eq!(
        value("1 + !(TRUE || FALSE)"),
        leaf_error("IllegalArgumentError", "Add is not defined for Int and Bool")
    );
    assert_eq!(
        value("~TRUE"),
        leaf_error("IllegalArgumentError", "UnaryMinus is not defined for Bool")
    );
    assert_eq!(
        value("!1"),
        leaf_error("IllegalArgumentError", "Not is not defined for Int")
    );
    assert_eq!(
        value("3 && TRUE"),
        leaf_error("IllegalArgumentError", "And is not defined for Int and Bool")
    );
    assert_eq!(
        value("+ 1 * 2"),
        leaf_error("IllegalArgumentError", "Not enough arguments")
    );
    assert_eq!(value("1 2"), leaf_error("SyntaxError", "Illegal expression syntax"));
    assert_eq!(value("missing + 1"), leaf_error("NameError", "No such variable missing"));
    assert_eq!(
        value("ARRAY : 0"),
        leaf_error("IndexOutOfBoundsError", "Array index out of bounds")
    );
    assert_eq!(
        value("1 : 0"),
        leaf_error("IllegalArgumentError", "ArrayAccess is not defined for Int and Int")
    );
}

#[test]
fn values_render_as_text() {
    let array = RickrollObject::Array(vec![
        RickrollObject::Int(-12),
        RickrollObject::Bool(false),
        RickrollObject::Char('x'),
        RickrollObject::Undefined,
        RickrollObject::Array(vec![]),
        RickrollObject::Float(0.5f32.to_bits()),
    ]);
    assert_eq!(array.to_string(&unit), "[-12, FALSE, x, UNDEFINED, [], 0.5]");
    assert_eq!(RickrollObject::Int(0).to_string(&unit), "0");
    assert_eq!(RickrollObject::Int(i32::MIN).to_string(&unit), "-2147483648");
    assert_eq!(RickrollObject::Int(i32::MAX).to_string(&unit), "2147483647");
}

#[test]
fn scope_finds_the_innermost_declaration() {
    let mut scope = Scope::new();
    assert_eq!(scope.len(), 1);
    scope.add_var(String::from("a"));
    scope.set_var(String::from("a"), RickrollObject::Int(1));
    scope.push(Context::new());
    scope.add_var(String::from("a"));
    scope.add_var(String::from("b"));
    scope.set_var(String::from("a"), RickrollObject::Int(2));
    scope.set_var(String::from("missing"), RickrollObject::Int(9));
    assert!(scope.has_var(String::from("a")));
    assert!(scope.has_var(String::from("b")));
    assert!(!scope.has_var(String::from("missing")));
    assert!(matches!(scope.get_var(String::from("a")), Some(RickrollObject::Int(2))));
    assert!(matches!(scope.get_var(String::from("b")), Some(RickrollObject::Undefined)));
    assert!(scope.get_var(String::from("missing")).is_none());
    let tail = scope.behead();
    assert_eq!(tail.len(), 1);
    assert_eq!(scope.len(), 1);
    assert!(matches!(scope.get_var(String::from("a")), Some(RickrollObject::Int(1))));
    assert!(!scope.has_var(String::from("b")));
    scope.push_all(tail);
    assert_eq!(scope.len(), 2);
    assert!(matches!(scope.get_var(String::from("a")), Some(RickrollObject::Int(2))));
    let top = scope.pop();
    assert!(top.has_var(String::from("b")));
    assert!(scope.get_global().has_var(String::from("a")));
    scope.add_global(String::from("g"));
    assert!(scope.get_global().has_var(String::from("g")));
}

#[test]
fn context_binds_names() {
    let mut context = Context::new();
    assert!(!context.has_var(String::from("a")));
    context.set_var(String::from("a"), RickrollObject::Int(1));
    context.set_var(String::from("b"), RickrollObject::Int(2));
    context.set_var(String::from("a"), RickrollObject::Int(3));
    assert!(matches!(context.get_var(String::from("a")), Some(RickrollObject::Int(3))));
    assert!(matches!(context.get_var(String::from("b")), Some(RickrollObject::Int(2))));
    assert!(context.get_var(String::from("c")).is_none());
}

#[test]
fn errors_render_from_the_outermost_traceback_down() {
    let leaf = Error::new(ErrorType::NameError, "No such variable x", None);
    assert_eq!(leaf.to_string(), "Name Error: No such variable x");
    let lined = Error::new(ErrorType::SyntaxError, "Illegal statement", Some(12));
    assert_eq!(lined.to_string(), "Syntax Error on line 12: Illegal statement");
    let wrapped = Error::traceback(Error::traceback(leaf, Some(3)), Some(40));
    assert_eq!(
        wrapped.to_string(),
        "Traceback on line 40\nTraceback on line 3\nName Error: No such variable x"
    );
    assert_eq!(wrapped.kind(), ErrorType::Traceback);
    assert_eq!(wrapped.line(), Some(40));
    assert_eq!(wrapped.description(), "");
    assert_eq!(wrapped.child().unwrap().line(), Some(3));
    let bare = Error::traceback(Error::new(ErrorType::FileError, "gone", Some(0)), None);
    assert_eq!(bare.to_string(), "Traceback\nFile Error on line 0: gone");
}

#[test]
fn error_kinds_have_names() {
    assert_eq!(ErrorType::IllegalCharError.as_string(), "Illegal Character");
    assert_eq!(ErrorType::RuntimeError.as_string(), "Runtime Error");
    assert_eq!(ErrorType::IllegalArgumentError.as_string(), "Illegal Argument");
    assert_eq!(ErrorType::SyntaxError.as_string(), "Syntax Error");
    assert_eq!(ErrorType::IllegalCastError.as_string(), "Illegal Cast");
    assert_eq!(ErrorType::IndexOutOfBoundsError.as_string(), "Index Out of Bounds");
    assert_eq!(ErrorType::FileError.as_string(), "File Error");
    assert_eq!(ErrorType::NameError.as_string(), "Name Error");
    assert_eq!(ErrorType::Traceback.as_string(), "Traceback");
    assert_eq!(ErrorType::StackOverflowError.as_string(), "Stack Overflow");
    let cast = Error::new(ErrorType::IllegalCastError, "no cast", Some(18446744073709551615));
    assert_eq!(
        cast.to_string(),
        "Illegal Cast on line 18446744073709551615: no cast"
    );
}

#[test]
fn expression_lexer_is_the_tokenizer() {
    let tokens = rickroll::expr::ExprLexer::new(String::from(" ~a "), 3)
        .make_tokens(&unit)
        .unwrap();
    assert_eq!(format!("{:?}", tokens), "[Operator(UnaryMinus), Variable(\"a\")]");
}
