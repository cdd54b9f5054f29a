use rickroll::compiler::{Bytecode, Compiler, Function, Instruction};
use rickroll::error::{Error, ErrorType};
use rickroll::float::{FloatReply, FloatRequest, Number};
use rickroll::interpreter::{Interpreter, Status, MAX_RECURSION_DEPTH};
use rickroll::lexer::Lexer;
use rickroll::tokenizer::Token;
use rickroll::util::{Operator, RickrollObject};

use rickroll::compiler::Instruction::{Dctx, Jmp, Jmpif, Let, Pctx, Put, SetVar};
use rickroll::tokenizer::Token::{Value, Variable};
use rickroll::util::Operator::{Add, And, Equals, Greater, NotEquals, Subtract};
use rickroll::util::RickrollObject::{Bool, Int};

fn number(n: Number) -> f32 {
    match n {
        Number::Int(i) => i as f32,
        Number::Float(bits) => f32::from_bits(bits),
    }
}

// the host's arithmetic on floats
fn unit(req: FloatRequest) -> FloatReply {
    let value = match &req {
        FloatRequest::Literal(text) => {
            RickrollObject::Float(text.parse::<f32>().unwrap_or(f32::NAN).to_bits())
        }
        FloatRequest::Render(_) => RickrollObject::Undefined,
        FloatRequest::Negate(bits) => RickrollObject::Float((-f32::from_bits(*bits)).to_bits()),
        FloatRequest::Binary(op, a, b) => {
            let (x, y) = (number(*a), number(*b));
            match op {
                Operator::Add => RickrollObject::Float((x + y).to_bits()),
                Operator::Subtract => RickrollObject::Float((x - y).to_bits()),
                Operator::Multiply => RickrollObject::Float((x * y).to_bits()),
                Operator::Divide => RickrollObject::Float((x / y).to_bits()),
                Operator::Modulo => RickrollObject::Float((x % y).to_bits()),
                Operator::Greater => RickrollObject::Bool(x > y),
                Operator::Less => RickrollObject::Bool(x < y),
                Operator::GreaterEquals => RickrollObject::Bool(x >= y),
                Operator::LessEquals => RickrollObject::Bool(x <= y),
                Operator::Equals => RickrollObject::Bool(x == y),
                Operator::NotEquals => RickrollObject::Bool(x != y),
                _ => RickrollObject::Undefined,
            }
        }
    };
    let text = match &req {
        FloatRequest::Render(bits) => f32::from_bits(*bits).to_string(),
        _ => String::new(),
    };
    FloatReply { value, text }
}

// runs the machine to its end, handing it the lines of `stdin` as it asks
fn drive(vm: &mut Interpreter, stdin: &str) -> Result<RickrollObject, Error> {
    let mut lines = stdin.lines();
    let mut status = vm.run(&unit, 1_000_000)?;
    loop {
        status = match status {
            Status::Finished(value) => return Ok(value),
            Status::Running => vm.run(&unit, 1_000_000)?,
            Status::NeedsInput => {
                let line = lines.next().unwrap_or("");
                vm.execute(&unit, Some(String::from(line)))?
            }
        };
    }
}

fn main_of(code: Vec<(usize, Instruction)>) -> Bytecode {
    let mut bytecode = Bytecode::new();
    bytecode.set_main(Function::from(String::from("[Main]"), Vec::new(), code));
    bytecode
}

// helper functions
fn get(s: Vec<(usize, Instruction)>, stdin: String) -> String {
    let mut vm = Interpreter::new(main_of(s));
    let res = drive(&mut vm, &stdin[..]);
    return match res {
        Ok(_) => vm.output().clone(),
        Err(err) => String::from(format!("{:?}", err)),
    };
}

fn assert_eqv(raw: Vec<(usize, Instruction)>, stdin: &str, res: &str) {
    assert_eq!(&get(raw, String::from(stdin))[..], res);
}

fn run_source(source: &str, stdin: &str) -> Result<String, Error> {
    let ir = Lexer::new(String::from(source)).parse(&unit)?;
    let bytecode = Compiler::new(ir).compile()?;
    let mut vm = Interpreter::new(bytecode);
    drive(&mut vm, stdin)?;
    Ok(vm.output().clone())
}

fn op(o: Operator) -> Token {
    Token::Operator(o)
}

#[test]
fn interpreter_tests_simple() {
    assert_eqv(
        vec![
            (1, Put(vec![Value(Int(1)), op(Add), Value(Int(2))])),
            (2, Put(vec![Value(Int(3)), op(Greater), Value(Int(4))])),
        ],
        "",
        "3\nFALSE\n",
    );
    assert_eqv(
        vec![
            (1, Let("a".to_string())),
            (2, SetVar("a".to_string(), vec![Value(Int(3))])),
            (3, Let("b".to_string())),
            (4, Put(vec![Variable("a".to_string())])),
            (5, Put(vec![Variable("b".to_string())])),
            (6, Put(vec![Variable("a".to_string()), op(Add), Value(Int(3))])),
        ],
        "",
        "3\nUNDEFINED\n6\n",
    );
}

// if and while
#[test]
fn interpreter_tests_check() {
    assert_eqv(
        vec![
            (1, Let(String::from("n"))),
            (2, SetVar(String::from("n"), vec![Value(Int(10))])),
            (3, Let(String::from("first"))),
            (4, Let(String::from("second"))),
            (5, SetVar(String::from("first"), vec![Value(Int(0))])),
            (6, SetVar(String::from("second"), vec![Value(Int(1))])),
            (7, Put(vec![Variable(String::from("second"))])),
            (
                8,
                Jmpif(vec![Variable(String::from("n")), op(NotEquals), Value(Int(0))], 9),
            ),
            (8, Jmp(18)),
            (8, Pctx),
            (9, Let(String::from("sum"))),
            (
                10,
                SetVar(
                    String::from("sum"),
                    vec![Variable(String::from("first")), op(Add), Variable(String::from("second"))],
                ),
            ),
            (11, Put(vec![Variable(String::from("sum"))])),
            (12, SetVar(String::from("first"), vec![Variable(String::from("second"))])),
            (13, SetVar(String::from("second"), vec![Variable(String::from("sum"))])),
            (
                14,
                SetVar(
                    String::from("n"),
                    vec![Variable(String::from("n")), op(Subtract), Value(Int(1))],
                ),
            ),
            (15, Dctx),
            (15, Jmp(7)),
        ],
        "",
        "1\n1\n2\n3\n5\n8\n13\n21\n34\n55\n89\n",
    );
    assert_eqv(
        vec![
            (1, Let(String::from("a"))),
            (2, SetVar(String::from("a"), vec![Value(Int(5))])),
            (3, Jmpif(vec![Variable(String::from("a")), op(Equals), Value(Int(5))], 4)),
            (3, Jmp(7)),
            (3, Pctx),
            (4, Put(vec![Value(Bool(true))])),
            (5, Dctx),
        ],
        "",
        "TRUE\n",
    );
}

// should err
#[test]
fn interpreter_tests_error() {
    assert_eqv(
        vec![(1, Put(vec![Value(Int(3)), op(And)]))],
        "",
        "Error { err: Traceback, desc: \"\", line: Some(1), child: Some(Error { err: IllegalArgumentError, desc: \"Not enough arguments\", line: None, child: None }) }",
    );
    assert_eqv(
        vec![(1, Jmpif(vec![Value(Int(5))], 2))],
        "",
        "Error { err: IllegalArgumentError, desc: \"Unexpected non-boolean argument\", line: Some(1), child: None }",
    )
}

#[test]
fn while_loop_prints_fibonacci_numbers() {
    let out = run_source(
        "\
        [Chorus]
        Never gonna let n down
        Never gonna give n 10
        Never gonna let first down
        Never gonna let second down
        Never gonna give first 0
        Never gonna give second 1
        Never gonna say second
        Inside we both know n != 0
            Never gonna let sum down
            Never gonna give sum first + second
            Never gonna say sum
            Never gonna give first second
            Never gonna give second sum
            Never gonna give n n - 1
        We know the game and we're gonna play it
        ",
        "",
    )
    .unwrap();
    assert_eq!(out, "1\n1\n2\n3\n5\n8\n13\n21\n34\n55\n89\n");
}

#[test]
fn if_block_runs_when_condition_holds() {
    let out = run_source(
        "\
        [Chorus]
        Never gonna let a down
        Never gonna give a 5
        Inside we both know a == 5
            Never gonna say TRUE
        Your heart's been aching but you're too shy to say it
        ",
        "",
    )
    .unwrap();
    assert_eq!(out, "TRUE\n");
}

#[test]
fn say_prints_sum_and_comparison() {
    let out = run_source(
        "[Chorus]\nNever gonna say 1+2\nNever gonna say 3>4\n",
        "",
    )
    .unwrap();
    assert_eq!(out, "3\nFALSE\n");
}

const FIB: &str = "\
[Verse fib]
(Ooh give you a)
Inside we both know a < 2
    (Ooh) Never gonna give, never gonna give (give you a)
Your heart's been aching but you're too shy to say it
Never gonna let x down
Never gonna let y down
Never gonna give x a - 1
Never gonna give y a - 2
(Ooh give you x) Never gonna run fib and desert x
(Ooh give you y) Never gonna run fib and desert y
(Ooh) Never gonna give, never gonna give (give you x + y)
[Chorus]
Never gonna let a down
Never gonna give a 10
Never gonna let r down
(Ooh give you r) Never gonna run fib and desert a
Never gonna say r
Never gonna say a
";

#[test]
fn recursive_function_returns_fibonacci_number() {
    assert_eq!(run_source(FIB, "").unwrap(), "55\n10\n");
}

#[test]
fn type_mismatch_is_wrapped_with_the_line() {
    let err = run_source("[Chorus]\n\nNever gonna say 3 && TRUE\n", "").unwrap_err();
    assert_eq!(
        format!("{:?}", err),
        "Error { err: Traceback, desc: \"\", line: Some(3), child: Some(Error { err: IllegalArgumentError, desc: \"And is not defined for Int and Bool\", line: None, child: None }) }"
    );
    assert_eq!(
        err.to_string(),
        "Traceback on line 3\nIllegal Argument: And is not defined for Int and Bool"
    );
}

#[test]
fn recursion_ceiling() {
    let source = "\
[Verse down]
(Ooh give you up)
Never gonna run down and desert you
[Chorus]
Never gonna run down and desert you
";
    let ir = Lexer::new(String::from(source)).parse(&unit).unwrap();
    let bytecode = Compiler::new(ir).compile().unwrap();
    let mut vm = Interpreter::new(bytecode);
    let mut deepest = 0;
    let err = loop {
        match vm.execute(&unit, None) {
            Ok(_) => deepest = deepest.max(vm.depth()),
            Err(e) => break e,
        }
    };
    assert_eq!(deepest, MAX_RECURSION_DEPTH);
    // eight tracebacks for the callers, then the leaf
    let mut leaf = &err;
    let mut wrappers = 0;
    while let Some(child) = leaf.child() {
        assert_eq!(leaf.kind(), ErrorType::Traceback);
        assert_eq!(leaf.line(), Some(3));
        leaf = child;
        wrappers += 1;
    }
    assert_eq!(wrappers, 8);
    assert_eq!(leaf.kind(), ErrorType::StackOverflowError);
    assert_eq!(leaf.line(), Some(3));
    assert_eq!(
        leaf.description(),
        "Maximum recursion depth exceeded in function down"
    );
    assert_eq!(vm.depth(), 0);
}
