use syl::ast::{BinOpType, Expr, Stmt};
use syl::bytecode::{compile_to_bytecode, execute_bytecode, Bytecode};
use syl::codegen::generate;
use syl::executor::execute;
use syl::lexer::{tokenize, Token};
use syl::parser::parse;
use syl::semantic::analyze;
use syl::types::{IntegerValue, Value};

fn run_source(code: &str) -> Result<(u64, Vec<String>), String> {
    let tokens = tokenize(code)?;
    let ast = parse(tokens)?;
    let checked = analyze(ast)?;
    let ir = generate(checked)?;
    execute(ir)
}

fn lines(code: &str) -> Vec<String> {
    run_source(code).unwrap().1
}

#[test]
fn multiplication_binds_tighter_than_addition() {
    assert_eq!(lines("out 1 + 2 * 3"), vec!["7".to_string()]);
}

#[test]
fn a_variable_keeps_its_value() {
    assert_eq!(lines("x = 10\nout x + 5"), vec!["15".to_string()]);
}

#[test]
fn a_function_is_called_with_its_argument() {
    assert_eq!(lines("def f n return n + 1 end\nout f 4"), vec!["5".to_string()]);
}

#[test]
fn a_loop_runs_while_its_condition_holds() {
    assert_eq!(
        lines("i = 0\nwhile i < 3 out i i += 1 end"),
        vec!["0".to_string(), "1".to_string(), "2".to_string()]
    );
}

#[test]
fn addition_overflow_ends_the_run() {
    assert_eq!(
        run_source("out 127i8 + 1i8"),
        Err("Addition overflow for i8: 127 + 1".to_string())
    );
}

#[test]
fn a_product_too_large_for_its_width_is_exact() {
    assert_eq!(lines("out 1000000i32 * 1000000i32"), vec!["1000000000000".to_string()]);
}

#[test]
fn tokens_of_a_small_program() {
    let tokens = tokenize("def f x, y // two\n  x += 12i16 <= y").unwrap();
    assert_eq!(
        tokens,
        vec![
            Token::Def,
            Token::Ident("f".to_string()),
            Token::Ident("x".to_string()),
            Token::Comma,
            Token::Ident("y".to_string()),
            Token::Ident("x".to_string()),
            Token::PlusAssign,
            Token::TypedNumber16(IntegerValue::I16(12)),
            Token::Le,
            Token::Ident("y".to_string()),
        ]
    );
}

#[test]
fn plain_literals_take_the_smallest_width() {
    assert_eq!(tokenize("127").unwrap(), vec![Token::Number(IntegerValue::I8(127))]);
    assert_eq!(tokenize("128").unwrap(), vec![Token::Number(IntegerValue::I16(128))]);
    assert_eq!(tokenize("32768").unwrap(), vec![Token::Number(IntegerValue::I32(32768))]);
    assert_eq!(
        tokenize("2147483648").unwrap(),
        vec![Token::Number(IntegerValue::I64(2147483648))]
    );
    assert_eq!(
        tokenize("9223372036854775808").unwrap(),
        vec![Token::Number(IntegerValue::I128(9223372036854775808))]
    );
    let big = tokenize("170141183460469231731687303715884105728").unwrap();
    assert_eq!(
        big,
        vec![Token::Number(
            IntegerValue::from_string(
                "170141183460469231731687303715884105728",
                syl::types::IntegerType::BigInt
            )
            .unwrap()
        )]
    );
}

#[test]
fn suffixes_are_matched_longest_first() {
    assert_eq!(tokenize("5i128").unwrap(), vec![Token::TypedNumber128(IntegerValue::I128(5))]);
    assert_eq!(
        tokenize("5i1").unwrap(),
        vec![Token::Number(IntegerValue::I8(5)), Token::Ident("i1".to_string())]
    );
    assert_eq!(
        tokenize("5i8x").unwrap(),
        vec![Token::TypedNumber(IntegerValue::I8(5)), Token::Ident("x".to_string())]
    );
    assert_eq!(tokenize("7bigint").unwrap().len(), 1);
    assert_eq!(
        tokenize("defx if_ end").unwrap(),
        vec![Token::Ident("defx".to_string()), Token::Ident("if_".to_string()), Token::End]
    );
    assert_eq!(tokenize("a==b=c").unwrap()[1], Token::Eq);
    assert_eq!(tokenize("a==b=c").unwrap()[3], Token::Assign);
}

#[test]
fn lexer_errors() {
    assert_eq!(tokenize("x = @"), Err("Unexpected character: '@' at position 4".to_string()));
    assert_eq!(tokenize("é"), Err("Unexpected character: 'é' at position 0".to_string()));
    assert_eq!(tokenize("// é\n#"), Err("Unexpected character: '#' at position 6".to_string()));
    assert_eq!(tokenize("1 / 2"), Err("Unexpected character: '/' at position 2".to_string()));
    assert_eq!(tokenize("300i8"), Err("Value 300 out of range for i8".to_string()));
    assert_eq!(tokenize(""), Ok(vec![]));
    assert_eq!(tokenize(" \t\n// only a comment"), Ok(vec![]));
}

fn program(code: &str) -> Vec<Stmt> {
    parse(tokenize(code).unwrap()).unwrap().statements
}

fn num(v: i8) -> Expr {
    Expr::Number(IntegerValue::I8(v))
}

fn ident(name: &str) -> Expr {
    Expr::Ident(name.to_string())
}

fn bin(l: Expr, op: BinOpType, r: Expr) -> Expr {
    Expr::BinOp(Box::new(l), op, Box::new(r))
}

#[test]
fn operators_group_by_level_and_to_the_left() {
    assert_eq!(
        program("out 1 + 2 * 3"),
        vec![Stmt::Out(bin(num(1), BinOpType::Plus, bin(num(2), BinOpType::Mul, num(3))))]
    );
    assert_eq!(
        program("out 1 - 2 - 3"),
        vec![Stmt::Out(bin(bin(num(1), BinOpType::Minus, num(2)), BinOpType::Minus, num(3)))]
    );
    assert_eq!(
        program("out 1 < 2 == 3 % 4"),
        vec![Stmt::Out(bin(
            bin(num(1), BinOpType::Lt, num(2)),
            BinOpType::Eq,
            bin(num(3), BinOpType::Mod, num(4))
        ))]
    );
}

#[test]
fn juxtaposition_is_a_call_only_for_functions() {
    assert_eq!(
        program("def f a, b return a end\nx = f 1, 2"),
        vec![
            Stmt::FuncDef(
                "f".to_string(),
                vec!["a".to_string(), "b".to_string()],
                vec![Stmt::Return(ident("a"))]
            ),
            Stmt::Assign("x".to_string(), Expr::Call("f".to_string(), vec![num(1), num(2)])),
        ]
    );
    // `g` is no function: `g` and `1` are two statements.
    assert_eq!(program("g 1"), vec![Stmt::Out(ident("g")), Stmt::Out(num(1))]);
    // The definition may follow the use.
    assert_eq!(
        program("out f 1\ndef f a return a end")[0],
        Stmt::Out(Expr::Call("f".to_string(), vec![num(1)]))
    );
}

#[test]
fn an_identifier_before_an_assignment_is_no_argument() {
    assert_eq!(
        program("def mo return 1 end\nb = mo\nc = 5"),
        vec![
            Stmt::FuncDef("mo".to_string(), vec![], vec![Stmt::Return(num(1))]),
            Stmt::Assign("b".to_string(), ident("mo")),
            Stmt::Assign("c".to_string(), num(5)),
        ]
    );
}

#[test]
fn compound_assignment_and_leading_minus() {
    assert_eq!(
        program("x *= 2"),
        vec![Stmt::Assign("x".to_string(), bin(ident("x"), BinOpType::Mul, num(2)))]
    );
    assert_eq!(
        program("- x out 1"),
        vec![Stmt::Out(bin(num(0), BinOpType::Minus, ident("x"))), Stmt::Out(num(1))]
    );
    // A line break ends nothing: the minus continues the expression.
    assert_eq!(
        program("x *= 2\n- x"),
        vec![Stmt::Assign(
            "x".to_string(),
            bin(ident("x"), BinOpType::Mul, bin(num(2), BinOpType::Minus, ident("x")))
        )]
    );
}

#[test]
fn errors_in_a_body_are_skipped_and_at_the_top_level_abort() {
    assert_eq!(
        program("if 1 , out 2 end"),
        vec![Stmt::If(num(1), vec![Stmt::Out(num(2))])]
    );
    assert_eq!(
        parse(tokenize("out 1 ,").unwrap()),
        Err("Expected statement, got Some(Comma)".to_string())
    );
    assert_eq!(parse(tokenize("def 1").unwrap()), Err("Expected function name".to_string()));
    assert_eq!(
        parse(tokenize("out ,").unwrap()),
        Err("Expected primary expression, got Some(Comma)".to_string())
    );
    assert_eq!(
        parse(tokenize("x = ").unwrap()),
        Err("Expected primary expression, got None".to_string())
    );
    assert_eq!(
        parse(tokenize("5i8").unwrap()),
        Err("Expected statement, got Some(TypedNumber(I8(5)))".to_string())
    );
}

#[test]
fn name_resolution() {
    let check = |code: &str| analyze(parse(tokenize(code).unwrap()).unwrap()).map(|_| ());
    assert_eq!(check("x = 1 out x"), Ok(()));
    assert_eq!(check("out x"), Err("Undefined variable or function: x".to_string()));
    assert_eq!(check("x = x"), Err("Undefined variable or function: x".to_string()));
    assert_eq!(check("out f\ndef f return 1 end"), Ok(()));
    assert_eq!(check("def f a return a + b end"), Err("Undefined variable or function: b".to_string()));
    assert_eq!(check("x = 1\ndef f a return x end"), Err("Undefined variable or function: x".to_string()));
    assert_eq!(
        check("def f return 1 end def f return 2 end"),
        Err("Function already defined: f".to_string())
    );
    assert_eq!(check("if 1 y = 2 end out y"), Ok(()));
    assert_eq!(check("def f a return g a end def g b return b end"), Ok(()));
}

#[test]
fn a_call_of_what_is_no_function_is_rejected() {
    let call = syl::ast::Program {
        statements: vec![Stmt::Out(Expr::Call("h".to_string(), vec![num(1)]))],
    };
    assert_eq!(analyze(call), Err("Undefined function: h".to_string()));
}

fn code_of(code: &str) -> Vec<Bytecode> {
    compile_to_bytecode(&parse(tokenize(code).unwrap()).unwrap()).instructions
}

fn constant(v: i8) -> Bytecode {
    Bytecode::LoadConst(Value::Integer(IntegerValue::I8(v)))
}

#[test]
fn constants_are_folded() {
    assert_eq!(code_of("out 1 + 2 * 3"), vec![constant(7), Bytecode::Out]);
    assert_eq!(
        code_of("out 1 < 2"),
        vec![Bytecode::LoadConst(Value::Integer(IntegerValue::I64(1))), Bytecode::Out]
    );
    // What fails is left to the machine.
    assert_eq!(
        code_of("out 127 + 1"),
        vec![constant(127), constant(1), Bytecode::Add, Bytecode::Out]
    );
    assert_eq!(
        code_of("x = y + 2 * 3"),
        vec![
            Bytecode::LoadVar("y".to_string()),
            constant(6),
            Bytecode::Add,
            Bytecode::StoreVar("x".to_string())
        ]
    );
}

#[test]
fn while_jumps_out_past_the_jump_back() {
    assert_eq!(
        code_of("while i < 3 out i i += 1 end"),
        vec![
            Bytecode::LoadVar("i".to_string()),
            constant(3),
            Bytecode::Lt,
            Bytecode::JumpIfFalse(7),
            Bytecode::LoadVar("i".to_string()),
            Bytecode::Out,
            Bytecode::LoadVar("i".to_string()),
            constant(1),
            Bytecode::Add,
            Bytecode::StoreVar("i".to_string()),
            Bytecode::Jump(-11),
        ]
    );
}

#[test]
fn if_jumps_over_its_body() {
    assert_eq!(
        code_of("if x y = 1 end"),
        vec![
            Bytecode::LoadVar("x".to_string()),
            Bytecode::JumpIfFalse(2),
            constant(1),
            Bytecode::StoreVar("y".to_string()),
        ]
    );
    assert_eq!(lines("x = 0 if x out 1 end out 2"), vec!["2".to_string()]);
    assert_eq!(lines("x = 5 if x out 1 end out 2"), vec!["1".to_string(), "2".to_string()]);
    // The body may be of any length.
    assert_eq!(
        code_of("if 0 out x + x end"),
        vec![
            constant(0),
            Bytecode::JumpIfFalse(4),
            Bytecode::LoadVar("x".to_string()),
            Bytecode::LoadVar("x".to_string()),
            Bytecode::Add,
            Bytecode::Out,
        ]
    );
    assert_eq!(
        lines("x = 1 if 0 out x + x out 3 end out 4 if x out x + x if 0 out 5 end out 6 end"),
        vec!["4".to_string(), "2".to_string(), "6".to_string()]
    );
    assert_eq!(
        lines("i = 0 s = 0 while i < 10 if i % 2 == 0 s += i end i += 1 end out s"),
        vec!["20".to_string()]
    );
}

#[test]
fn return_of_a_call_is_a_tail_call() {
    let p = compile_to_bytecode(
        &parse(tokenize("def g a return a end def f a return g a + 1 end").unwrap()).unwrap(),
    );
    let f = p.compiled_functions.get("f").unwrap();
    assert_eq!(
        f.instructions,
        vec![
            Bytecode::LoadVar("a".to_string()),
            constant(1),
            Bytecode::Add,
            Bytecode::TailCall("g".to_string())
        ]
    );
    assert_eq!(f.param_str, "a");
    assert_eq!(f.param_count, 1);
    assert!(f.inline_hint);
}

#[test]
fn recursion_and_tail_calls_run() {
    assert_eq!(
        lines(
            "def fact n, acc\n if n < 1 return acc end\n return fact n - 1, acc * n\nend\nn = 20i64 one = 1i64 out fact n, one"
        ),
        vec!["2432902008176640000".to_string()]
    );
    assert_eq!(
        lines(
            "def fib n if n < 2 return n end a = fib n - 1 b = fib n - 2 return a + b end n = 15i64 out fib n"
        ),
        vec!["610".to_string()]
    );
}

#[test]
fn a_million_tail_calls() {
    let code =
        "def count n\n if n < 1 return 7 end\n return count n - 1\nend\nm = 1000000i64 out count m";
    assert_eq!(lines(code), vec!["7".to_string()]);
}

#[test]
fn a_countdown_by_tail_calls_returns_its_constant() {
    let wide = |v: i64| Bytecode::LoadConst(Value::Integer(IntegerValue::I64(v)));
    let body = vec![
        Bytecode::LoadVar("n".to_string()),
        wide(0),
        Bytecode::Eq,
        Bytecode::JumpIfFalse(2),
        wide(7),
        Bytecode::Return,
        Bytecode::LoadVar("n".to_string()),
        wide(1),
        Bytecode::Sub,
        Bytecode::TailCall("loop".to_string()),
    ];
    for n in [0i64, 1, 2, 1_000, 1_000_000] {
        let mut p = bare(vec![wide(n), Bytecode::TailCall("loop".to_string())]);
        p.functions.insert(
            "loop".to_string(),
            syl::bytecode::FunctionCode { param_str: "n".to_string(), code: body.clone() },
        );
        assert_eq!(execute_bytecode(p), Ok((7, vec![])));
        if n > 1_000 {
            continue;
        }
        let mut p = bare(vec![wide(n), Bytecode::Call("loop".to_string()), Bytecode::Out]);
        p.functions.insert(
            "loop".to_string(),
            syl::bytecode::FunctionCode { param_str: "n".to_string(), code: body.clone() },
        );
        assert_eq!(execute_bytecode(p), Ok((0, vec!["7".to_string()])));
    }
}

#[test]
fn missing_function_at_run_time() {
    let p = syl::bytecode::BytecodeProgram {
        instructions: vec![Bytecode::Call("nowhere".to_string())],
        functions: syl::names::NameMap::new(),
        compiled_functions: syl::names::NameMap::new(),
        incremental_compiler: syl::bytecode::IncrementalCompiler::new(),
    };
    assert_eq!(execute_bytecode(p), Err("Function not found: nowhere".to_string()));
}

#[test]
fn fallbacks_of_the_machine() {
    let run = |instructions: Vec<Bytecode>| {
        execute_bytecode(syl::bytecode::BytecodeProgram {
            instructions,
            functions: syl::names::NameMap::new(),
            compiled_functions: syl::names::NameMap::new(),
            incremental_compiler: syl::bytecode::IncrementalCompiler::new(),
        })
    };
    // An empty stack gives zero, and so does a variable that is not set.
    assert_eq!(run(vec![Bytecode::Out]), Ok((0, vec!["0".to_string()])));
    assert_eq!(
        run(vec![Bytecode::LoadVar("x".to_string()), Bytecode::Out]),
        Ok((0, vec!["0".to_string()]))
    );
    // The final value is what is on top of the stack.
    assert_eq!(run(vec![constant(5)]), Ok((5, vec![])));
    assert_eq!(run(vec![constant(-1), Bytecode::Return, constant(3)]), Ok((u64::MAX, vec![])));
    // A jump out of the code ends the run.
    assert_eq!(run(vec![constant(9), Bytecode::Jump(-100), Bytecode::Out]), Ok((9, vec![])));
    // Registers.
    assert_eq!(
        run(vec![
            constant(4),
            Bytecode::StoreVar("x".to_string()),
            Bytecode::LoadReg(0, "x".to_string()),
            Bytecode::LoadReg(1, "x".to_string()),
            Bytecode::MulReg(0, 1),
            Bytecode::StoreReg("y".to_string(), 0),
            Bytecode::LoadVar("y".to_string()),
            Bytecode::Out,
        ]),
        Ok((16, vec!["16".to_string()]))
    );
}

#[test]
fn texts_of_literals_put_out_their_value() {
    let cases = [
        ("out 42", "42"),
        ("out 2 * 3 + 4 * 5", "26"),
        ("out 10 - 3 - 2", "5"),
        ("out 7 % 4 * 2", "6"),
        ("out 1 + 2 < 4", "1"),
        ("out 4 <= 3", "0"),
        ("out 2 == 2", "1"),
        ("out 1 < 2 == 1i64", "1"),
        ("out 3 >= 3 == 2 > 1", "1"),
        ("out 100i16 * 1000i16", "100000"),
        ("out 5i8 - 10i64", "-5"),
        ("out 170141183460469231731687303715884105727i128 * 2bigint", "340282366920938463463374607431768211454"),
    ];
    for (text, line) in cases {
        assert_eq!(run_source(text), Ok((0, vec![line.to_string()])), "{}", text);
    }
    assert_eq!(
        run_source("out 1 + 127i8 + 1i8"),
        Err("Addition overflow for i8: 1 + 127".to_string())
    );
    assert_eq!(run_source("out 3 * 4 % 0 + 1"), Err("Modulo by zero".to_string()));
}

#[test]
fn the_machine_puts_out_what_the_tree_evaluates_to() {
    let sources = [
        "1 + 2 * 3",
        "x + 5",
        "100 * 100 - 3 % 2",
        "127 + 1",
        "1000000000000 * 1000000000000 * 1000000000000 * 1000000000000",
        "1 < 2 == 2 > 1",
        "7 % 0",
        "5 - 10 <= 0",
        "2147483647 + 1",
    ];
    for source in sources {
        let text = format!("out {}", source);
        let statements = program(&text);
        assert_eq!(statements.len(), 1);
        let expected = match &statements[0] {
            Stmt::Out(e) => syl::executor::evaluate_expr(e, &syl::names::NameMap::new()),
            _ => unreachable!(),
        };
        // Without name resolution, so that a variable may be unset.
        let ran = execute(generate(parse(tokenize(&text).unwrap()).unwrap()).unwrap());
        match expected {
            Ok(v) => assert_eq!(ran, Ok((0, vec![v.to_string()]))),
            Err(m) => assert_eq!(ran, Err(m)),
        }
    }
    assert_eq!(run_source("out 127 + 1"), Err("Addition overflow for i8: 127 + 1".to_string()));
    assert_eq!(lines("out 127i16 + 1"), vec!["128".to_string()]);
    assert_eq!(run_source("out 7 % 0"), Err("Modulo by zero".to_string()));
    assert_eq!(
        run_source("out 2147483647 + 1"),
        Err("Addition overflow for i32: 2147483647 + 1".to_string())
    );
}

#[test]
fn the_interpreter_keeps_its_output() {
    let p = compile_to_bytecode(&parse(tokenize("out 1 out 2 return 300").unwrap()).unwrap());
    let mut interpreter = syl::bytecode::BytecodeInterpreter::new(p);
    assert_eq!(interpreter.execute(), Ok(300));
    assert_eq!(interpreter.get_output(), &vec!["1".to_string(), "2".to_string()]);
    // The run is over: nothing more happens.
    assert_eq!(interpreter.execute(), Ok(300));
}

fn bare(instructions: Vec<Bytecode>) -> syl::bytecode::BytecodeProgram {
    syl::bytecode::BytecodeProgram {
        instructions,
        functions: syl::names::NameMap::new(),
        compiled_functions: syl::names::NameMap::new(),
        incremental_compiler: syl::bytecode::IncrementalCompiler::new(),
    }
}

#[test]
fn truthiness() {
    let text = Value::String(syl::types::StringValue::new("yes".to_string()));
    // Text counts as false, and so does zero of any width; an offset of
    // zero falls through.
    assert_eq!(
        execute_bytecode(bare(vec![
            Bytecode::LoadConst(text),
            Bytecode::JumpIfFalse(2),
            constant(1),
            Bytecode::Out,
            constant(0),
            Bytecode::JumpIfFalse(0),
            constant(2),
            Bytecode::Out,
            constant(3),
            Bytecode::JumpIfFalse(2),
            constant(4),
            Bytecode::Out,
        ])),
        Ok((0, vec!["2".to_string(), "4".to_string()]))
    );
}

#[test]
fn arguments_are_bound_in_order() {
    assert_eq!(
        lines("def sub a, b return a - b end x = 10 y = 3 out sub x, y"),
        vec!["7".to_string()]
    );
    // A function that is named without arguments is called without any.
    assert_eq!(lines("def seven return 7 end out seven + 1"), vec!["8".to_string()]);
}

#[test]
fn a_tail_call_at_the_top_level_ends_the_run_with_its_value() {
    let mut p = bare(vec![constant(1), Bytecode::TailCall("k".to_string()), Bytecode::Out]);
    p.functions.insert(
        "k".to_string(),
        syl::bytecode::FunctionCode {
            param_str: "n".to_string(),
            code: vec![constant(42), Bytecode::Return],
        },
    );
    assert_eq!(execute_bytecode(p), Ok((42, vec![])));
}

#[test]
fn a_function_that_names_more_parameters_than_it_takes_is_refused() {
    let mut p = bare(vec![Bytecode::Call("f".to_string())]);
    p.compiled_functions.insert(
        "f".to_string(),
        syl::bytecode::CompiledFunction {
            param_str: "a,b".to_string(),
            instructions: vec![Bytecode::Return],
            param_count: 1,
            inline_hint: true,
        },
    );
    assert_eq!(
        execute_bytecode(p),
        Err("Parameter count mismatch: expected 2 parameters, got 1".to_string())
    );
}

#[test]
fn parameters_are_split_at_commas() {
    assert_eq!(
        syl::interpreter::split_parameters("a,,bc,"),
        vec!["a".to_string(), "bc".to_string()]
    );
    assert_eq!(syl::interpreter::split_parameters(""), Vec::<String>::new());
}

#[test]
fn failures_inside_a_body_are_reported_as_warnings() {
    let (parsed, warnings) =
        syl::parser::parse_with_warnings(tokenize("def f , x = end if 1 , out 2 end").unwrap());
    // The token that is skipped after `x =` has failed is the `end` of
    // the function, so that the `if` still belongs to its body.
    assert_eq!(
        parsed.unwrap().statements,
        vec![Stmt::FuncDef(
            "f".to_string(),
            vec![],
            vec![Stmt::If(num(1), vec![Stmt::Out(num(2))])]
        )]
    );
    assert_eq!(
        warnings,
        vec![
            "Expected statement, got Some(Comma)".to_string(),
            "Expected primary expression, got Some(End)".to_string(),
            "Expected statement, got Some(Comma)".to_string(),
        ]
    );
    let (parsed, warnings) = syl::parser::parse_with_warnings(tokenize("if 1 , end ,").unwrap());
    assert_eq!(parsed, Err("Expected statement, got Some(Comma)".to_string()));
    assert_eq!(warnings, vec!["Expected statement, got Some(Comma)".to_string()]);
}

#[test]
fn a_definition_inside_a_body_is_known_to_the_parser_and_refused_by_the_analysis() {
    let statements = program("def f x def g y return y end end out g 1");
    assert_eq!(
        statements,
        vec![
            Stmt::FuncDef(
                "f".to_string(),
                vec!["x".to_string()],
                vec![Stmt::FuncDef(
                    "g".to_string(),
                    vec!["y".to_string()],
                    vec![Stmt::Return(ident("y"))]
                )]
            ),
            Stmt::Out(Expr::Call("g".to_string(), vec![num(1)])),
        ]
    );
    let check = |code: &str| analyze(parse(tokenize(code).unwrap()).unwrap()).map(|_| ());
    assert_eq!(
        check("def f x def g y return y end end out g 1"),
        Err("Nested function definition: g".to_string())
    );
    assert_eq!(
        check("def f def g out y end end"),
        Err("Nested function definition: g".to_string())
    );
    assert_eq!(
        check("if 1 def g return 1 end end"),
        Err("Nested function definition: g".to_string())
    );
    // What comes first in the body is reported first.
    assert_eq!(
        check("def f out y def g return 1 end end"),
        Err("Undefined variable or function: y".to_string())
    );
}
