use pallad::compiler::compile;
use pallad::error::PalladError;
use pallad::lexer::tokenize;
use pallad::parser::Parser;
use pallad::value::Value;
use pallad::vm::{FloatJob, FloatOp, FloatReply, Number, Printed, Status, VM};

fn to_float(n: Number) -> f64 {
    match n {
        Number::Int(i) => i as f64,
        Number::Float(bits) => f64::from_bits(bits),
    }
}

fn compute(job: &FloatJob) -> FloatReply {
    match job {
        FloatJob::Parse(text) => FloatReply::Bits(text.parse::<f64>().unwrap().to_bits()),
        FloatJob::Arith { op, left, right } => {
            let a = to_float(*left);
            let b = to_float(*right);
            let r = match op {
                FloatOp::Add => a + b,
                FloatOp::Sub => a - b,
                FloatOp::Mul => a * b,
                FloatOp::Div => a / b,
                FloatOp::Rem => a % b,
            };
            FloatReply::Bits(r.to_bits())
        }
        FloatJob::Render(bits) => FloatReply::Text(f64::from_bits(*bits).to_string()),
    }
}

fn interpret_on(vm: &mut VM, source: &str) -> Result<(), PalladError> {
    let tokens = tokenize(source)?;
    let stmts = Parser::new(tokens).parse()?;
    let program = compile(stmts)?;
    let mut status = vm.run(program)?;
    loop {
        match status {
            Status::Finished => return Ok(()),
            Status::Waiting(job) => status = vm.resume(compute(&job))?,
        }
    }
}

fn lines_of(vm: &mut VM) -> Vec<String> {
    vm.take_output()
        .into_iter()
        .map(|line| match line {
            Printed::Text(text) => text,
            Printed::Float(bits) => format!("{}", f64::from_bits(bits)),
        })
        .collect()
}

fn output_of(source: &str) -> Result<Vec<String>, PalladError> {
    let mut vm = VM::new();
    interpret_on(&mut vm, source)?;
    assert!(vm.stack().is_empty());
    Ok(lines_of(&mut vm))
}

fn texts(lines: &[&str]) -> Vec<String> {
    lines.iter().map(|l| l.to_string()).collect()
}

#[test]
fn a_small_program() {
    let source = "var x = 42\nprint(x)\n";
    assert_eq!(output_of(source), Ok(texts(&["42"])));
}

#[test]
fn arithmetic_with_precedence() {
    assert_eq!(output_of("print(1 + 2 * 3)"), Ok(texts(&["7"])));
    assert_eq!(output_of("print((1 + 2) * 3)"), Ok(texts(&["9"])));
    assert_eq!(output_of("print(10 - 4 - 3)"), Ok(texts(&["3"])));
    assert_eq!(output_of("print(2 * 3 % 4)"), Ok(texts(&["2"])));
}

#[test]
fn coercions_from_source() {
    assert_eq!(output_of("print(1 + 2.5)"), Ok(texts(&["3.5"])));
    assert_eq!(output_of("print(\"a\" + 1)"), Ok(texts(&["a1"])));
    assert_eq!(output_of("print(\"ab\" * 3)"), Ok(texts(&["ababab"])));
    assert_eq!(output_of("print(\"ab\" * -1)"), Err(PalladError::NegativeRepeat));
    assert_eq!(output_of("print(7 / 2)"), Ok(texts(&["3.5"])));
    assert_eq!(output_of("print(\"x\" + 1.5 + \"y\")"), Ok(texts(&["x1.5y"])));
    assert_eq!(output_of("print(2.0 + \"!\")"), Ok(texts(&["2!"])));
}

#[test]
fn floor_division_from_source() {
    assert_eq!(output_of("print(7 // 2)"), Ok(texts(&["3"])));
    assert_eq!(output_of("print(-7 // 2)"), Ok(texts(&["-4"])));
    assert_eq!(output_of("print(7.5 // 2)"), Ok(texts(&["3"])));
    assert_eq!(output_of("print(-7.5 // 2)"), Ok(texts(&["-4"])));
}

#[test]
fn division_by_zero_from_source() {
    assert_eq!(
        output_of("print(5 / 0)"),
        Err(PalladError::DivisionByZero { operation: "divide" })
    );
    assert_eq!(
        output_of("print(5 % 0)"),
        Err(PalladError::DivisionByZero { operation: "mod" })
    );
    assert_eq!(
        output_of("print(5 // 0.0)"),
        Err(PalladError::DivisionByZero { operation: "integer-divide" })
    );
}

#[test]
fn undefined_variable_from_source() {
    assert_eq!(
        output_of("print(y)\nvar y = 1"),
        Err(PalladError::UndefinedVariable { name: "y".to_string() })
    );
}

#[test]
fn each_argument_is_a_line() {
    assert_eq!(
        output_of("var a = 1\nvar b = \"two\"\nprint(a, b, a + b, 0.5)\nprint()"),
        Ok(texts(&["1", "two", "1two", "0.5"]))
    );
}

#[test]
fn the_stack_is_empty_after_a_program() {
    let sources = [
        "",
        "var x = 1",
        "print(1, 2, 3)",
        "var x = 1 + 2 * 3 - 4\nprint(x, x * 2.5)\nvar y = \"a\" + x\nprint(y + 1.5)",
        "var a = -(2 + 3) // 2\nprint(a % 2, -a)",
    ];
    for source in sources {
        let mut vm = VM::new();
        assert_eq!(interpret_on(&mut vm, source), Ok(()));
        assert!(vm.stack().is_empty());
        assert_eq!(vm.waiting_for(), None);
    }
}

#[test]
fn variables_live_in_one_table() {
    let mut vm = VM::new();
    assert_eq!(interpret_on(&mut vm, "var x = 1\nvar x = x + 1\nvar y = x * 10"), Ok(()));
    assert_eq!(vm.global("x"), Some(&Value::Int(2)));
    assert_eq!(vm.global("y"), Some(&Value::Int(20)));
    assert_eq!(vm.global("z"), None);
}

#[test]
fn a_second_program_does_not_see_the_first() {
    let mut vm = VM::new();
    assert_eq!(interpret_on(&mut vm, "var x = 1\nprint(x)"), Ok(()));
    assert_eq!(
        interpret_on(&mut vm, "print(x)"),
        Err(PalladError::UndefinedVariable { name: "x".to_string() })
    );
    assert_eq!(lines_of(&mut vm), texts(&["1"]));
}

#[test]
fn each_stage_fails_first() {
    assert_eq!(
        output_of("var x = 1 $\nvar = 2"),
        Err(PalladError::UnknownCharacter { got: "$".to_string(), line: 1 })
    );
    assert_eq!(
        output_of("print(1)\nvar = 2\nprint(y)"),
        Err(PalladError::UnexpectedToken {
            got: "Eq".to_string(),
            expected: "identifier".to_string(),
            line: 2,
        })
    );
}

#[test]
fn large_float_quotient_does_not_narrow() {
    assert_eq!(output_of("print(100000000000.0 * 100000000000.0 // 1)"), Err(PalladError::IntDivOverflow));
}
