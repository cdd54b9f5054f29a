use rickroll::compiler::{compile_source, Bytecode, Compiler, Function, Instruction};
use rickroll::error::{Error, ErrorType};
use rickroll::float::{FloatReply, FloatRequest, Number};
use rickroll::interpreter::{Interpreter, Status};
use rickroll::lexer::{classify, split_vars, Intermediate, Lexer, Shape, Statement};
use rickroll::optimizer::{Optimizer, OptimizerOptions};
use rickroll::stdlib::{
    array_length, array_of, array_pop, array_push, array_replace, builtin, put_char, read_line,
    Arity,
};
use rickroll::tokenizer::Token;
use rickroll::util::{Operator, RickrollObject};

fn number(n: Number) -> f32 {
    match n {
        Number::Int(i) => i as f32,
        Number::Float(bits) => f32::from_bits(bits),
    }
}

// the host's arithmetic on floats
fn unit(req: FloatRequest) -> FloatReply {
    let value = match &req {
        FloatRequest::Literal(text) => {
            RickrollObject::Float(text.parse::<f32>().unwrap_or(f32::NAN).to_bits())
        }
        FloatRequest::Render(_) => RickrollObject::Undefined,
        FloatRequest::Negate(bits) => RickrollObject::Float((-f32::from_bits(*bits)).to_bits()),
        FloatRequest::Binary(op, a, b) => {
            let (x, y) = (number(*a), number(*b));
            match op {
                Operator::Add => RickrollObject::Float((x + y).to_bits()),
                Operator::Subtract => RickrollObject::Float((x - y).to_bits()),
                Operator::Multiply => RickrollObject::Float((x * y).to_bits()),
                Operator::Divide => RickrollObject::Float((x / y).to_bits()),
                Operator::Modulo => RickrollObject::Float((x % y).to_bits()),
                Operator::Greater => RickrollObject::Bool(x > y),
                Operator::Less => RickrollObject::Bool(x < y),
                Operator::GreaterEquals => RickrollObject::Bool(x >= y),
                Operator::LessEquals => RickrollObject::Bool(x <= y),
                Operator::Equals => RickrollObject::Bool(x == y),
                Operator::NotEquals => RickrollObject::Bool(x != y),
                _ => RickrollObject::Undefined,
            }
        }
    };
    let text = match &req {
        FloatRequest::Render(bits) => f32::from_bits(*bits).to_string(),
        _ => String::new(),
    };
    FloatReply { value, text }
}

fn lex(source: &str) -> Result<Intermediate, Error> {
    Lexer::new(String::from(source)).parse(&unit)
}

fn lex_error(source: &str) -> String {
    format!("{:?}", lex(source).unwrap_err())
}

fn at_line(kind: &str, desc: &str, line: usize) -> String {
    format!(
        "Error {{ err: {}, desc: {:?}, line: Some({}), child: None }}",
        kind, desc, line
    )
}

fn wrapped(kind: &str, desc: &str, line: usize) -> String {
    format!(
        "Error {{ err: Traceback, desc: \"\", line: Some({}), child: Some(Error {{ err: {}, desc: {:?}, line: None, child: None }}) }}",
        line, kind, desc
    )
}

// runs the machine to its end, handing it the lines of `stdin` as it asks
fn drive(vm: &mut Interpreter, stdin: &str) -> Result<RickrollObject, Error> {
    let mut lines = stdin.lines();
    let mut status = vm.run(&unit, 1_000_000)?;
    loop {
        status = match status {
            Status::Finished(value) => return Ok(value),
            Status::Running => vm.run(&unit, 1_000_000)?,
            Status::NeedsInput => {
                let line = lines.next().unwrap_or("");
                vm.execute(&unit, Some(format!("{}\r\n", line)))?
            }
        };
    }
}

fn run_source(source: &str, stdin: &str) -> Result<String, Error> {
    let bytecode = compile_source(String::from(source), &unit)?;
    let mut vm = Interpreter::new(bytecode);
    drive(&mut vm, stdin)?;
    Ok(vm.output().clone())
}

fn chars(v: &[char]) -> Vec<char> {
    v.to_vec()
}

#[test]
fn lines_are_classified_by_the_first_pattern_that_matches() {
    assert_eq!(classify("Never gonna say 1"), Shape::Say);
    assert_eq!(classify("Never gonna let x down"), Shape::Let);
    assert_eq!(classify("Never gonna give x 1"), Shape::Assign);
    assert_eq!(classify("Inside we both know TRUE"), Shape::Check);
    assert_eq!(classify("We know the game and we're gonna play it"), Shape::WhileEnd);
    assert_eq!(
        classify("Your heart's been aching but you're too shy to say it"),
        Shape::IfEnd
    );
    assert_eq!(classify("[Chorus]"), Shape::Chorus);
    assert_eq!(classify("[Intro]"), Shape::Intro);
    assert_eq!(classify("[Verse f]"), Shape::Verse);
    assert_eq!(classify("Never gonna run f and desert you"), Shape::Run);
    assert_eq!(
        classify("(Ooh give you r) Never gonna run f and desert a, b"),
        Shape::RunAssign
    );
    assert_eq!(
        classify("(Ooh) Never gonna give, never gonna give (give you 1)"),
        Shape::Return
    );
    assert_eq!(classify("Never gonna say"), Shape::Unknown);
    assert_eq!(classify("never gonna say 1"), Shape::Unknown);
    assert_eq!(classify("[Verse a b]"), Shape::Unknown);
    assert_eq!(classify("^Never gonna say .+$"), Shape::Unknown);
}

#[test]
fn names_are_split_at_commas() {
    let text: Vec<char> = "  A, BCD ,E_E ".chars().collect();
    assert_eq!(
        split_vars(&text, 0, text.len(), "up", 4).unwrap(),
        vec!["A", "BCD", "E_E"]
    );
    let text: Vec<char> = "up".chars().collect();
    assert!(split_vars(&text, 0, 2, "up", 4).unwrap().is_empty());
    assert_eq!(split_vars(&text, 0, 2, "you", 4).unwrap(), vec!["up"]);
    assert_eq!(split_vars(&text, 1, 2, "up", 4).unwrap(), vec!["p"]);
    let text: Vec<char> = "a b".chars().collect();
    assert_eq!(split_vars(&text, 0, 3, "up", 4).unwrap(), vec!["ab"]);
    let text = chars(&['a', ',', ',', 'b']);
    assert_eq!(
        format!("{:?}", split_vars(&text, 0, 4, "up", 4).unwrap_err()),
        at_line("NameError", "Blank variable name", 4)
    );
    let text = chars(&['a', '1']);
    assert_eq!(
        format!("{:?}", split_vars(&text, 0, 2, "up", 7).unwrap_err()),
        at_line("IllegalArgumentError", "Illegal character \"1\" in variable", 7)
    );
}

#[test]
fn lexer_gives_statements_with_their_lines() {
    let ir = lex("\n[Verse f]\n(Ooh give you a, b)\n  Never gonna say a + b\n\n[Chorus]\nNever gonna let x down\r\n(Ooh give you x) Never gonna run f and desert x, x\n").unwrap();
    assert_eq!(
        format!("{:?}", ir),
        "Intermediate { items: [(2, Verse(\"f\", [\"a\", \"b\"])), (4, Say([Variable(\"a\"), Operator(Add), Variable(\"b\")])), (6, Chorus), (7, Let(\"x\")), (8, RunAssign(\"x\", \"f\", [\"x\", \"x\"]))] }"
    );
    assert_eq!(ir.len(), 5);
    assert_eq!(ir.debug_line(1), 4);
    assert!(matches!(ir.get(2), Statement::Chorus));
}

#[test]
fn calls_are_checked_when_they_are_read() {
    // an undeclared function
    assert_eq!(
        lex_error("[Chorus]\n\nNever gonna run nowhere and desert you\n"),
        at_line("NameError", "Function name nowhere doesn't exist", 3)
    );
    // a function that is declared only later
    assert_eq!(
        lex_error("[Chorus]\nNever gonna run f and desert you\n[Verse f]\n(Ooh give you up)\n"),
        at_line("NameError", "Function name f doesn't exist", 2)
    );
    // the wrong number of arguments
    let verse = "[Verse f]\n(Ooh give you a, b)\n[Chorus]\nNever gonna let x down\n";
    assert_eq!(
        lex_error(&format!("{}Never gonna run f and desert x\n", verse)),
        at_line("IllegalArgumentError", "Wrong number of arguments for function f", 5)
    );
    assert_eq!(
        lex_error(&format!("{}(Ooh give you x) Never gonna run f and desert you\n", verse)),
        at_line("IllegalArgumentError", "Wrong number of arguments for function f", 5)
    );
    assert!(lex(&format!("{}Never gonna run f and desert x, x\n", verse)).is_ok());
    // host functions have their own counts
    assert_eq!(
        lex_error(&format!("{}Never gonna run ArrayLength and desert x, x\n", verse)),
        at_line("IllegalArgumentError", "Wrong number of arguments for function ArrayLength", 5)
    );
    assert!(lex(&format!("{}Never gonna run ArrayOf and desert x, x, x\n", verse)).is_ok());
    assert!(lex(&format!("{}Never gonna run ReadLine and desert you\n", verse)).is_ok());
    // an argument that is not declared
    assert_eq!(
        lex_error(&format!("{}Never gonna run f and desert x, y\n", verse)),
        at_line("NameError", "Variable name y doesn't exist", 5)
    );
    // the variable that takes the result must be declared
    assert_eq!(
        lex_error(&format!("{}(Ooh give you r) Never gonna run f and desert x, x\n", verse)),
        at_line("NameError", "Variable name r doesn't exist", 5)
    );
}

#[test]
fn names_are_checked_when_they_are_read() {
    assert_eq!(
        lex_error("[Chorus]\nNever gonna let a down\nNever gonna let a down\n"),
        at_line("NameError", "Variable name a already exists", 3)
    );
    // a block may declare a name of an outer block again
    assert!(lex("[Chorus]\nNever gonna let a down\nInside we both know TRUE\nNever gonna let a down\nYour heart's been aching but you're too shy to say it\n").is_ok());
    assert_eq!(
        lex_error("[Chorus]\nNever gonna give a 1\n"),
        at_line("NameError", "Variable name a doesn't exist", 2)
    );
    assert_eq!(
        lex_error("[Chorus]\nNever gonna say a\n"),
        wrapped("NameError", "No such variable a", 2)
    );
    assert_eq!(
        lex_error("[Chorus]\nNever gonna say 1 +* '\n"),
        wrapped("IllegalCharError", "Trailing character literal", 2)
    );
    // a name of a block is gone when the block is closed
    assert_eq!(
        lex_error("[Chorus]\nInside we both know TRUE\nNever gonna let a down\nYour heart's been aching but you're too shy to say it\nNever gonna say a\n"),
        wrapped("NameError", "No such variable a", 5)
    );
    // a function does not see the names of another block
    assert_eq!(
        lex_error("[Chorus]\nNever gonna let a down\n[Verse f]\n(Ooh give you up)\nNever gonna say a\n"),
        wrapped("NameError", "No such variable a", 5)
    );
    // but it sees the globals and its parameters
    assert!(lex("[Intro]\nNever gonna let g down\n[Verse f]\n(Ooh give you p)\nNever gonna say g + p\n").is_ok());
    assert_eq!(
        lex_error("[Intro]\nNever gonna let g down\nNever gonna let g down\n"),
        at_line("NameError", "Variable name g already exists", 3)
    );
}

#[test]
fn blocks_are_checked_when_they_are_read() {
    assert_eq!(
        lex_error("[Chorus]\n[Chorus]\n"),
        at_line("NameError", "Function named [Chorus] already exists", 2)
    );
    assert_eq!(
        lex_error("[Intro]\n[Chorus]\n[Intro]\n"),
        at_line("NameError", "Function named [Intro] already exists", 3)
    );
    assert_eq!(
        lex_error("[Verse f]\n(Ooh give you up)\n[Verse f]\n(Ooh give you up)\n"),
        at_line("NameError", "Function named f already exists", 3)
    );
    assert_eq!(
        lex_error("[Verse f]\nNever gonna say 1\n"),
        at_line("SyntaxError", "No argument specification for function f", 2)
    );
    assert_eq!(
        lex_error("[Verse f]"),
        at_line("SyntaxError", "No argument specification for function f", 2)
    );
    assert_eq!(
        lex_error("[Chorus]\nInside we both know TRUE\n[Verse f]\n(Ooh give you up)\n"),
        at_line("SyntaxError", "Mismatched while or if start", 2)
    );
    assert_eq!(
        lex_error("[Chorus]\nWe know the game and we're gonna play it\n"),
        at_line("SyntaxError", "Mismatched while or if end", 2)
    );
    assert_eq!(
        lex_error("[Chorus]\nInside we both know TRUE\nInside we both know TRUE\n"),
        at_line("SyntaxError", "Mismatched while or if start", 3)
    );
    assert_eq!(
        lex_error("[Verse f]\n(Ooh give you a,,b)\n"),
        at_line("NameError", "Blank variable name", 2)
    );
}

fn jumps(function: &Function) -> Vec<usize> {
    function
        .to_vec()
        .into_iter()
        .filter_map(|(_, instruction)| match instruction {
            Instruction::Jmp(t) => Some(t),
            Instruction::Jmpif(_, t) => Some(t),
            _ => None,
        })
        .collect()
}

const NESTED: &str = "\
[Verse f]
(Ooh give you n)
Inside we both know n > 0
    Inside we both know n > 1
        Never gonna give n n - 1
        Inside we both know n == 5
            Never gonna say n
        Your heart's been aching but you're too shy to say it
    We know the game and we're gonna play it
Your heart's been aching but you're too shy to say it
[Chorus]
Never gonna let a down
Never gonna give a 7
Never gonna run f and desert a
Never gonna say a
";

#[test]
fn every_jump_goes_to_an_instruction_of_its_function() {
    let bytecode = compile_source(String::from(NESTED), &unit).unwrap();
    let f = bytecode.get_func(String::from("f"));
    assert_eq!(jumps(&f), vec![4, 17, 7, 16, 11, 14, 5]);
    assert_eq!(f.len(), 18);
    for name in ["f", "[Main]"] {
        let function = bytecode.get_func(String::from(name));
        for target in jumps(&function) {
            assert!(target < function.len());
            assert_ne!(target, usize::MAX);
        }
    }
    assert_eq!(run_source(NESTED, "").unwrap(), "5\n7\n");
}

#[test]
fn compiling_twice_gives_the_same_bytecode() {
    let first = compile_source(String::from(NESTED), &unit).unwrap();
    let second = compile_source(String::from(NESTED), &unit).unwrap();
    assert_eq!(format!("{:?}", first), format!("{:?}", second));
    let ir = lex(NESTED).unwrap();
    let third = Compiler::new(ir).compile().unwrap();
    assert_eq!(format!("{:?}", first), format!("{:?}", third));
}

#[test]
fn functions_get_their_parameters_from_the_queue() {
    let bytecode = compile_source(
        String::from("[Verse f]\n(Ooh give you a, b)\n(Ooh) Never gonna give, never gonna give (give you a - b)\n[Chorus]\nNever gonna let x down\nNever gonna let y down\nNever gonna give x 10\nNever gonna give y 3\n(Ooh give you x) Never gonna run f and desert x, y\nNever gonna say x\n"),
        &unit,
    )
    .unwrap();
    assert!(bytecode.has_main());
    assert!(!bytecode.has_global());
    assert!(bytecode.has_func(&String::from("f")));
    assert!(!bytecode.has_func(&String::from("g")));
    let f = bytecode.get_func(String::from("f"));
    assert_eq!(f.get_name(), "f");
    assert_eq!(f.get_args(), &vec![String::from("a"), String::from("b")]);
    assert_eq!(
        format!("{:?}", f.to_vec()),
        "[(0, Pctx), (3, Exp(\"a\")), (3, Exp(\"b\")), (3, Ret([Variable(\"a\"), Operator(Subtract), Variable(\"b\")])), (0, Dctx)]"
    );
    let main = bytecode.get_func(String::from("[Main]"));
    assert_eq!(
        format!("{:?}", main.to_vec()),
        "[(0, Pctx), (5, Let(\"x\")), (6, Let(\"y\")), (7, SetVar(\"x\", [Value(Int(10))])), (8, SetVar(\"y\", [Value(Int(3))])), (9, Pushq(\"x\")), (9, Pushq(\"y\")), (9, Scall(\"f\", \"x\")), (10, Put([Variable(\"x\")])), (0, Dctx)]"
    );
    assert_eq!(bytecode.debug_line(String::from("[Main]"), 7), 9);
    let mut vm = Interpreter::new(bytecode);
    drive(&mut vm, "").unwrap();
    assert_eq!(vm.output(), "7\n");
}

#[test]
fn declarations_in_the_intro_are_global() {
    let source = "\
[Intro]
Never gonna let g down
Never gonna give g 5
Inside we both know TRUE
    Never gonna let h down
    Never gonna give h 6
Your heart's been aching but you're too shy to say it
[Verse bump]
(Ooh give you up)
Never gonna give g g + h
[Chorus]
Never gonna say g
Never gonna run bump and desert you
Never gonna say g
";
    let bytecode = compile_source(String::from(source), &unit).unwrap();
    assert!(bytecode.has_global());
    assert_eq!(
        format!("{:?}", bytecode.get_func(String::from("[Global]")).to_vec()),
        "[(0, Pctx), (2, Glb(\"g\")), (3, SetVar(\"g\", [Value(Int(5))])), (4, Jmpif([Value(Bool(true))], 5)), (4, Jmp(9)), (4, Pctx), (5, Glb(\"h\")), (6, SetVar(\"h\", [Value(Int(6))])), (7, Dctx), (0, Dctx)]"
    );
    assert_eq!(run_source(source, "").unwrap(), "5\n11\n");
}

#[test]
fn a_callee_cannot_read_or_change_the_locals_of_its_caller() {
    // bytecode made by hand, so that no name is checked beforehand
    let token = |name: &str| vec![Token::Variable(String::from(name))];
    let peek = Function::from(
        String::from("peek"),
        Vec::new(),
        vec![(10, Instruction::Pctx), (11, Instruction::Put(token("secret")))],
    );
    let main = |callee: &str| {
        Function::from(
            String::from("[Main]"),
            Vec::new(),
            vec![
                (0, Instruction::Pctx),
                (1, Instruction::Let(String::from("secret"))),
                (2, Instruction::SetVar(String::from("secret"), vec![Token::Value(RickrollObject::Int(42))])),
                (3, Instruction::Pctx),
                (4, Instruction::Let(String::from("r"))),
                (5, Instruction::Scall(String::from(callee), String::from("r"))),
                (6, Instruction::Put(token("secret"))),
                (7, Instruction::Put(token("r"))),
            ],
        )
    };
    let mut bytecode = Bytecode::new();
    bytecode.push(peek);
    bytecode.set_main(main("peek"));
    let mut vm = Interpreter::new(bytecode);
    let err = drive(&mut vm, "").unwrap_err();
    assert_eq!(
        format!("{:?}", err),
        "Error { err: Traceback, desc: \"\", line: Some(5), child: Some(Error { err: Traceback, desc: \"\", line: Some(11), child: Some(Error { err: NameError, desc: \"No such variable secret\", line: None, child: None }) }) }"
    );
    assert_eq!(
        err.to_string(),
        "Traceback on line 5\nTraceback on line 11\nName Error: No such variable secret"
    );

    // a callee that declares the same names leaves those of the caller alone
    let shadow = Function::from(
        String::from("shadow"),
        Vec::new(),
        vec![
            (10, Instruction::Pctx),
            (11, Instruction::Let(String::from("secret"))),
            (12, Instruction::SetVar(String::from("secret"), vec![Token::Value(RickrollObject::Int(1))])),
            (13, Instruction::Pctx),
            (14, Instruction::Let(String::from("r"))),
            (15, Instruction::Ret(token("secret"))),
        ],
    );
    let mut bytecode = Bytecode::new();
    bytecode.push(shadow);
    bytecode.set_main(main("shadow"));
    let mut vm = Interpreter::new(bytecode);
    // up to the call
    for _ in 0..6 {
        assert!(matches!(vm.execute(&unit, None), Ok(Status::Running)));
    }
    assert_eq!(vm.depth(), 1);
    assert_eq!(vm.scope().len(), 3);
    // the call: the callee starts with the global block alone
    assert!(matches!(vm.execute(&unit, None), Ok(Status::Running)));
    assert_eq!(vm.depth(), 2);
    assert_eq!(vm.scope().len(), 1);
    assert!(!vm.scope().has_var(String::from("secret")));
    // the callee, up to its return
    for _ in 0..5 {
        assert!(matches!(vm.execute(&unit, None), Ok(Status::Running)));
    }
    assert_eq!(vm.scope().len(), 3);
    assert!(matches!(vm.execute(&unit, None), Ok(Status::Running)));
    // back in the caller
    assert_eq!(vm.depth(), 1);
    assert_eq!(vm.scope().len(), 3);
    assert!(matches!(vm.scope().get_var(String::from("secret")), Some(RickrollObject::Int(42))));
    assert!(matches!(vm.scope().get_var(String::from("r")), Some(RickrollObject::Int(1))));
    assert!(matches!(drive(&mut vm, ""), Ok(RickrollObject::Undefined)));
    assert_eq!(vm.output(), "42\n1\n");
}

#[test]
fn host_functions_work_on_arrays() {
    let int = RickrollObject::Int;
    let array = || RickrollObject::Array(vec![int(1), int(2), int(3)]);
    let show = |r: Result<RickrollObject, Error>| match r {
        Ok(v) => v.to_string(&unit),
        Err(e) => format!("{:?}", e),
    };
    let failed = |kind: &str, desc: &str| {
        format!("Error {{ err: {}, desc: {:?}, line: None, child: None }}", kind, desc)
    };
    assert_eq!(show(array_of(vec![int(1), RickrollObject::Bool(true)])), "[1, TRUE]");
    assert_eq!(show(array_of(vec![])), "[]");
    assert_eq!(show(array_pop(vec![array(), int(0)])), "[2, 3]");
    assert_eq!(show(array_pop(vec![array(), int(2)])), "[1, 2]");
    assert_eq!(
        show(array_pop(vec![array(), int(3)])),
        failed("IndexOutOfBoundsError", "Array Index out of Bounds")
    );
    assert_eq!(
        show(array_pop(vec![array(), int(-1)])),
        failed("IndexOutOfBoundsError", "Array Index out of Bounds")
    );
    assert_eq!(
        show(array_pop(vec![array()])),
        failed("RuntimeError", "Wrong number of arguments for ArrayPop")
    );
    assert_eq!(
        show(array_pop(vec![int(1), int(1)])),
        failed("RuntimeError", "Wrong type of arguments for ArrayPop")
    );
    assert_eq!(show(array_push(vec![array(), int(3), int(9)])), "[1, 2, 3, 9]");
    assert_eq!(show(array_push(vec![array(), int(0), int(9)])), "[9, 1, 2, 3]");
    assert_eq!(
        show(array_push(vec![array(), int(4), int(9)])),
        failed("IndexOutOfBoundsError", "Array Index out of Bounds")
    );
    assert_eq!(
        show(array_push(vec![array(), RickrollObject::Char('0'), int(9)])),
        failed("RuntimeError", "Wrong type of arguments for ArrayPush")
    );
    assert_eq!(show(array_replace(vec![array(), int(1), int(9)])), "[1, 9, 3]");
    assert_eq!(
        show(array_replace(vec![array(), int(3), int(9)])),
        failed("IndexOutOfBoundsError", "Array Index out of Bounds")
    );
    assert_eq!(
        show(array_replace(vec![array(), int(3)])),
        failed("RuntimeError", "Wrong number of arguments for ArrayReplace")
    );
    assert_eq!(show(array_length(vec![array()])), "3");
    assert_eq!(
        show(array_length(vec![int(3)])),
        failed("RuntimeError", "Wrong type of arguments for ArrayLength")
    );
    assert_eq!(put_char(vec![RickrollObject::Char('x')]).unwrap(), 'x');
    assert_eq!(
        format!("{:?}", put_char(vec![int(120)]).unwrap_err()),
        failed("RuntimeError", "Wrong type of arguments for PutChar")
    );
    assert_eq!(show(read_line(vec![], "ab c\r\n")), "[a, b,  , c]");
    assert_eq!(
        show(read_line(vec![int(1)], "ab")),
        failed("RuntimeError", "Wrong number of arguments for ReadLine")
    );
    assert_eq!(builtin("ArrayOf"), Some(Arity::Any));
    assert_eq!(builtin("ArrayPush"), Some(Arity::Exactly(3)));
    assert_eq!(builtin("ReadLine"), Some(Arity::Exactly(0)));
    assert_eq!(builtin("arrayof"), None);
}

#[test]
fn programs_call_host_functions() {
    let source = "\
[Chorus]
Never gonna let a down
Never gonna let i down
Never gonna let n down
Never gonna let c down
(Ooh give you a) Never gonna run ReadLine and desert you
(Ooh give you n) Never gonna run ArrayLength and desert a
Never gonna say n
Never gonna give i 0
Inside we both know i < n
    Never gonna give c a : (n - 1 - i)
    Never gonna run PutChar and desert c
    Never gonna give i i + 1
We know the game and we're gonna play it
Never gonna give c 'z'
(Ooh give you a) Never gonna run ArrayPush and desert a, n, c
(Ooh give you a) Never gonna run ArrayPop and desert a, i
Never gonna say a
(Ooh give you a) Never gonna run ArrayOf and desert n, c, a
Never gonna give i 0
(Ooh give you a) Never gonna run ArrayReplace and desert a, i, c
Never gonna say a
";
    assert_eq!(
        run_source(source, "abc\nrest").unwrap(),
        "3\ncba[a, b, c]\n[z, z, [a, b, c]]\n"
    );
    let source = "\
[Chorus]
Never gonna let a down
Never gonna let i down
Never gonna give i 1
(Ooh give you a) Never gonna run ArrayOf and desert i
(Ooh give you a) Never gonna run ArrayPop and desert a, i
";
    assert_eq!(
        format!("{:?}", run_source(source, "").unwrap_err()),
        wrapped("IndexOutOfBoundsError", "Array Index out of Bounds", 6)
    );
}

#[test]
fn the_machine_needs_a_main_block() {
    let bytecode = compile_source(String::from("[Verse f]\n(Ooh give you up)\n"), &unit).unwrap();
    let mut vm = Interpreter::new(bytecode);
    assert_eq!(
        format!("{:?}", vm.run(&unit, 10).unwrap_err()),
        "Error { err: RuntimeError, desc: \"could not find an entry block\", line: None, child: None }"
    );
    // the intro runs first, and its failure ends the run
    let mut vm = Interpreter::new(
        compile_source(
            String::from("[Intro]\nNever gonna say 1\nNever gonna say 1 / 0\n[Chorus]\nNever gonna say 2\n"),
            &unit,
        )
        .unwrap(),
    );
    assert_eq!(
        format!("{:?}", drive(&mut vm, "").unwrap_err()),
        wrapped("RuntimeError", "Division by zero", 3)
    );
    assert_eq!(vm.output(), "1\n");
    assert_eq!(
        format!("{:?}", vm.execute(&unit, None).unwrap_err()),
        "Error { err: RuntimeError, desc: \"The program is not running\", line: None, child: None }"
    );
}

#[test]
fn the_machine_runs_within_its_budget() {
    let source = "[Chorus]\nInside we both know TRUE\nWe know the game and we're gonna play it\n";
    let mut vm = Interpreter::new(compile_source(String::from(source), &unit).unwrap());
    assert!(matches!(vm.run(&unit, 0), Ok(Status::Running)));
    assert_eq!(vm.depth(), 0);
    assert!(matches!(vm.run(&unit, 1), Ok(Status::Running)));
    assert_eq!(vm.depth(), 1);
    assert!(matches!(vm.run(&unit, 1000), Ok(Status::Running)));
    assert_eq!(vm.depth(), 1);
    // a return value
    let source = "[Chorus]\nNever gonna say 1\n(Ooh) Never gonna give, never gonna give (give you 2 + 3)\nNever gonna say 4\n";
    let mut vm = Interpreter::new(compile_source(String::from(source), &unit).unwrap());
    assert!(matches!(vm.run(&unit, 100), Ok(Status::Finished(RickrollObject::Int(5)))));
    assert_eq!(vm.take_output(), "1\n");
    assert_eq!(vm.output(), "");
}

#[test]
fn a_function_can_be_run_by_name() {
    let source = "[Verse twice]\n(Ooh give you a)\nNever gonna say a\n(Ooh) Never gonna give, never gonna give (give you a * 2)\n[Chorus]\n";
    let mut vm = Interpreter::new(compile_source(String::from(source), &unit).unwrap());
    let result = vm.run_function(String::from("twice"), vec![RickrollObject::Int(21)], &unit, 100);
    assert!(matches!(result, Ok(Status::Finished(RickrollObject::Int(42)))));
    assert_eq!(vm.output(), "21\n");
    let missing = vm.run_function(String::from("thrice"), vec![], &unit, 100);
    assert_eq!(
        format!("{:?}", missing.unwrap_err()),
        "Error { err: NameError, desc: \"Function name thrice doesn't exist\", line: None, child: None }"
    );
}

#[test]
fn broken_bytecode_fails_at_its_line() {
    let run = |code: Vec<(usize, Instruction)>| {
        let mut bytecode = Bytecode::new();
        bytecode.set_main(Function::from(String::from("[Main]"), Vec::new(), code));
        let mut vm = Interpreter::new(bytecode);
        format!("{:?}", drive(&mut vm, "").unwrap_err())
    };
    assert_eq!(
        run(vec![(3, Instruction::Jmp(2))]),
        at_line("RuntimeError", "Jump out of range", 3)
    );
    assert_eq!(
        run(vec![(4, Instruction::Dctx)]),
        at_line("RuntimeError", "No context to delete", 4)
    );
    assert_eq!(
        run(vec![(5, Instruction::Exp(String::from("a")))]),
        at_line("RuntimeError", "Missing argument a", 5)
    );
    assert_eq!(
        run(vec![(6, Instruction::Pushq(String::from("a")))]),
        wrapped("NameError", "Variable a doesn't exist", 6)
    );
    assert_eq!(
        run(vec![(7, Instruction::Call(String::from("nowhere")))]),
        at_line("NameError", "Function name nowhere doesn't exist", 7)
    );
    assert_eq!(
        run(vec![(8, Instruction::Call(String::from("ArrayLength")))]),
        wrapped("RuntimeError", "Wrong number of arguments for ArrayLength", 8)
    );
}

#[test]
fn the_optimizer_hands_the_statements_back() {
    let ir = lex("[Chorus]\nNever gonna say 1\n").unwrap();
    let before = format!("{:?}", ir);
    let optimized = Optimizer::new(ir, OptimizerOptions::new(false)).optimize().unwrap();
    assert_eq!(format!("{:?}", optimized), before);
}

#[test]
fn error_kinds_of_the_pipeline() {
    let kind = |e: Error| {
        let mut leaf = &e;
        while let Some(child) = leaf.child() {
            leaf = child;
        }
        leaf.kind()
    };
    assert_eq!(kind(lex("[Chorus]\nNever gonna say 'ab'\n").unwrap_err()), ErrorType::IllegalCharError);
    assert_eq!(kind(lex("[Chorus]\nNever gonna say 1 <> 2\n").unwrap_err()), ErrorType::RuntimeError);
    assert_eq!(kind(lex("[Chorus]\nNever gonna say 9999999999\n").unwrap_err()), ErrorType::IllegalArgumentError);
    assert_eq!(kind(lex("nothing\n").unwrap_err()), ErrorType::SyntaxError);
    assert_eq!(kind(lex("[Chorus]\nNever gonna say x\n").unwrap_err()), ErrorType::NameError);
    assert_eq!(
        kind(run_source("[Chorus]\nNever gonna say ARRAY : 1\n", "").unwrap_err()),
        ErrorType::IndexOutOfBoundsError
    );
}
