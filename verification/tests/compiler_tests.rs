use rickroll::compiler::{Bytecode, Compiler};
use rickroll::error::Error;
use rickroll::float::{FloatReply, FloatRequest, Number};
use rickroll::lexer::Lexer;
use rickroll::util::{Operator, RickrollObject};

fn number(n: Number) -> f32 {
    match n {
        Number::Int(i) => i as f32,
        Number::Float(bits) => f32::from_bits(bits),
    }
}

// the host's arithmetic on floats
fn unit(req: FloatRequest) -> FloatReply {
    let value = match &req {
        FloatRequest::Literal(text) => {
            RickrollObject::Float(text.parse::<f32>().unwrap_or(f32::NAN).to_bits())
        }
        FloatRequest::Render(_) => RickrollObject::Undefined,
        FloatRequest::Negate(bits) => RickrollObject::Float((-f32::from_bits(*bits)).to_bits()),
        FloatRequest::Binary(op, a, b) => {
            let (x, y) = (number(*a), number(*b));
            match op {
                Operator::Add => RickrollObject::Float((x + y).to_bits()),
                Operator::Subtract => RickrollObject::Float((x - y).to_bits()),
                Operator::Multiply => RickrollObject::Float((x * y).to_bits()),
                Operator::Divide => RickrollObject::Float((x / y).to_bits()),
                Operator::Modulo => RickrollObject::Float((x % y).to_bits()),
                Operator::Greater => RickrollObject::Bool(x > y),
                Operator::Less => RickrollObject::Bool(x < y),
                Operator::GreaterEquals => RickrollObject::Bool(x >= y),
                Operator::LessEquals => RickrollObject::Bool(x <= y),
                Operator::Equals => RickrollObject::Bool(x == y),
                Operator::NotEquals => RickrollObject::Bool(x != y),
                _ => RickrollObject::Undefined,
            }
        }
    };
    let text = match &req {
        FloatRequest::Render(bits) => f32::from_bits(*bits).to_string(),
        _ => String::new(),
    };
    FloatReply { value, text }
}

fn compile(s: &str) -> Result<Bytecode, Error> {
    let ir = Lexer::new(String::from(s)).parse(&unit)?;
    Compiler::new(ir).compile()
}

// helper functions
fn get(s: &str) -> String {
    String::from(format!("{:?}", compile(s)))
}

fn assert_eqv(raw: &str, res: &str) {
    assert_eq!(&get(raw)[..], res);
}

#[test]
fn simple() {
    // statements outside of any block are refused
    assert_eqv(
        "\
        Never gonna say 1 + 2
        Never gonna say 3 > 4
        ",
        "Err(Error { err: SyntaxError, desc: \"Unblocked statement\", line: Some(1), child: None })",
    );
    assert_eqv(
        "\
        [Chorus]
        Never gonna say 1 + 2
        Never gonna say 3 > 4
        ",
        "Ok(Bytecode { functions: [Function { name: \"[Main]\", code: [(0, Pctx), (2, Put([Value(Int(1)), Operator(Add), Value(Int(2))])), (3, Put([Value(Int(3)), Operator(Greater), Value(Int(4))])), (0, Dctx)], args: [] }], has_main: true, has_global: false })",
    );
    assert_eqv(
        "\
        Never gonna let a down
        Never gonna give a 3
        Never gonna let b down
        Never gonna say a
        Never gonna say b
        Never gonna say a + 3
        ",
        "Err(Error { err: SyntaxError, desc: \"Unblocked statement\", line: Some(1), child: None })",
    );
    assert_eqv(
        "\
        [Chorus]
        Never gonna let a down
        Never gonna give a 3
        Never gonna let b down
        Never gonna say a
        Never gonna say b
        Never gonna say a + 3
        ",
        "Ok(Bytecode { functions: [Function { name: \"[Main]\", code: [(0, Pctx), (2, Let(\"a\")), (3, SetVar(\"a\", [Value(Int(3))])), (4, Let(\"b\")), (5, Put([Variable(\"a\")])), (6, Put([Variable(\"b\")])), (7, Put([Variable(\"a\"), Operator(Add), Value(Int(3))])), (0, Dctx)], args: [] }], has_main: true, has_global: false })",
    );
}

// while loops and if statements
#[test]
fn check() {
    // a block is needed around the statements
    assert_eqv(
        "\
        Never gonna let n down
        Never gonna give n 10
        Never gonna let first down
        Never gonna let second down
        Never gonna give first 0
        Never gonna give second 1
        Never gonna say second
        Inside we both know n != 0
            Never gonna let sum down
            Never gonna give sum first + second
            Never gonna say sum
            Never gonna give first second
            Never gonna give second sum
            Never gonna give n n - 1
        We know the game and we're gonna play it
        ",
        "Err(Error { err: SyntaxError, desc: \"Unblocked statement\", line: Some(1), child: None })",
    );
    assert_eqv(
        "\
        Never gonna let a down
        Never gonna give a 5
        Inside we both know a == 5
            Never gonna say TRUE
        Your heart's been aching but you're too shy to say it
        ",
        "Err(Error { err: SyntaxError, desc: \"Unblocked statement\", line: Some(1), child: None })",
    );
    assert_eqv(
        "\
        [Chorus]
        Never gonna let n down
        Never gonna give n 10
        Never gonna let first down
        Never gonna let second down
        Never gonna give first 0
        Never gonna give second 1
        Never gonna say second
        Inside we both know n != 0
            Never gonna let sum down
            Never gonna give sum first + second
            Never gonna say sum
            Never gonna give first second
            Never gonna give second sum
            Never gonna give n n - 1
        We know the game and we're gonna play it
        ",
        "Ok(Bytecode { functions: [Function { name: \"[Main]\", code: [(0, Pctx), (2, Let(\"n\")), (3, SetVar(\"n\", [Value(Int(10))])), (4, Let(\"first\")), (5, Let(\"second\")), (6, SetVar(\"first\", [Value(Int(0))])), (7, SetVar(\"second\", [Value(Int(1))])), (8, Put([Variable(\"second\")])), (9, Jmpif([Variable(\"n\"), Operator(NotEquals), Value(Int(0))], 10)), (9, Jmp(19)), (9, Pctx), (10, Let(\"sum\")), (11, SetVar(\"sum\", [Variable(\"first\"), Operator(Add), Variable(\"second\")])), (12, Put([Variable(\"sum\")])), (13, SetVar(\"first\", [Variable(\"second\")])), (14, SetVar(\"second\", [Variable(\"sum\")])), (15, SetVar(\"n\", [Variable(\"n\"), Operator(Subtract), Value(Int(1))])), (16, Dctx), (16, Jmp(8)), (0, Dctx)], args: [] }], has_main: true, has_global: false })",
    );
    assert_eqv(
        "\
        [Chorus]
        Never gonna let a down
        Never gonna give a 5
        Inside we both know a == 5
            Never gonna say TRUE
        Your heart's been aching but you're too shy to say it
        ",
        "Ok(Bytecode { functions: [Function { name: \"[Main]\", code: [(0, Pctx), (2, Let(\"a\")), (3, SetVar(\"a\", [Value(Int(5))])), (4, Jmpif([Variable(\"a\"), Operator(Equals), Value(Int(5))], 5)), (4, Jmp(8)), (4, Pctx), (5, Put([Value(Bool(true))])), (6, Dctx), (0, Dctx)], args: [] }], has_main: true, has_global: false })",
    );
}

// should output Result::Error
#[test]
fn error() {
    assert_eqv(
        "\
        asdasdasdasd
        Never gonna say a
        ",
        "Err(Error { err: SyntaxError, desc: \"Illegal statement\", line: Some(1), child: None })",
    );
    assert_eqv(
        "\
        Inside we both know TRUE
            Inside we both know TRUE
            Your heart's been aching but you're too shy to say it
        ",
        "Err(Error { err: SyntaxError, desc: \"Mismatched while or if start\", line: Some(1), child: None })",
    );
}
