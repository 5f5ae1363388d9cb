use pallad::arith::{
    add_wrapping, floor_div_i64, mul_wrapping, repeat_text, sub_wrapping, trunc_rem_i64,
};
use pallad::error::PalladError;
use pallad::float::{is_zero_bits, narrow};
use pallad::ir::Instr;
use pallad::value::Value;
use pallad::vm::{
    apply, resolve, Evaluation, FloatJob, FloatOp, FloatReply, Number, Op, Printed, Status, Then,
    VM,
};

fn as_float(n: Number) -> f64 {
    match n {
        Number::Int(i) => i as f64,
        Number::Float(bits) => f64::from_bits(bits),
    }
}

fn float_unit(job: &FloatJob) -> FloatReply {
    match job {
        FloatJob::Parse(text) => FloatReply::Bits(text.parse::<f64>().unwrap().to_bits()),
        FloatJob::Arith { op, left, right } => {
            let a = as_float(*left);
            let b = as_float(*right);
            let r = match op {
                FloatOp::Add => a + b,
                FloatOp::Sub => a - b,
                FloatOp::Mul => a * b,
                FloatOp::Div => a / b,
                FloatOp::Rem => a % b,
            };
            FloatReply::Bits(r.to_bits())
        }
        FloatJob::Render(bits) => FloatReply::Text(f64::from_bits(*bits).to_string()),
    }
}

fn run_to_end(vm: &mut VM, program: Vec<Instr>) -> Result<(), PalladError> {
    let mut status = vm.run(program)?;
    loop {
        match status {
            Status::Finished => return Ok(()),
            Status::Waiting(job) => status = vm.resume(float_unit(&job))?,
        }
    }
}

fn num(n: i64) -> Instr {
    Instr::LoadInt(n)
}

fn lit(text: &str) -> Instr {
    Instr::LoadFloat(text.to_string())
}

fn quoted(s: &str) -> Instr {
    Instr::LoadStr(s.to_string())
}

fn load(name: &str) -> Instr {
    Instr::LoadVar(name.to_string())
}

fn store(name: &str) -> Instr {
    Instr::StoreVar(name.to_string())
}

fn emit(argc: usize) -> Instr {
    Instr::CallBuiltin { name: "print".to_string(), argc }
}

fn bits(x: f64) -> u64 {
    x.to_bits()
}

fn eval(left: Instr, right: Instr, op: Instr) -> Result<Value, PalladError> {
    let mut vm = VM::new();
    run_to_end(&mut vm, vec![left, right, op])?;
    assert_eq!(vm.stack().len(), 1);
    Ok(vm.stack()[0].clone())
}

fn underflow(operation: &'static str) -> PalladError {
    PalladError::StackUnderflow { operation }
}

#[test]
fn a_new_machine_is_empty() {
    let mut vm = VM::new();
    assert!(vm.stack().is_empty());
    assert_eq!(vm.global("x"), None);
    assert_eq!(vm.waiting_for(), None);
    assert!(vm.take_output().is_empty());
    assert_eq!(vm.run(vec![]), Ok(Status::Finished));
}

#[test]
fn division_by_zero() {
    assert_eq!(
        eval(num(5), num(0), Instr::Div),
        Err(PalladError::DivisionByZero { operation: "divide" })
    );
    assert_eq!(
        eval(num(5), num(0), Instr::Mod),
        Err(PalladError::DivisionByZero { operation: "mod" })
    );
    assert_eq!(
        eval(num(5), num(0), Instr::IntDiv),
        Err(PalladError::DivisionByZero { operation: "integer-divide" })
    );
}

#[test]
fn division_by_a_float_zero() {
    assert_eq!(
        eval(num(5), lit("0.0"), Instr::Div),
        Err(PalladError::DivisionByZero { operation: "divide" })
    );
    assert_eq!(
        eval(lit("1.5"), lit("0."), Instr::Mod),
        Err(PalladError::DivisionByZero { operation: "mod" })
    );
    assert_eq!(
        apply(Op::Div, Value::Int(1), Value::Float(bits(-0.0))),
        Err(PalladError::DivisionByZero { operation: "divide" })
    );
    assert_eq!(
        apply(Op::IntDiv, Value::Float(bits(1.0)), Value::Float(bits(0.0))),
        Err(PalladError::DivisionByZero { operation: "integer-divide" })
    );
}

#[test]
fn the_zero_check_comes_before_the_types() {
    assert_eq!(
        eval(quoted("a"), num(0), Instr::Div),
        Err(PalladError::DivisionByZero { operation: "divide" })
    );
    assert_eq!(
        eval(Instr::LoadNone, num(0), Instr::Mod),
        Err(PalladError::DivisionByZero { operation: "mod" })
    );
    assert_eq!(eval(num(0), num(5), Instr::IntDiv), Ok(Value::Int(0)));
}

#[test]
fn type_coercion() {
    assert_eq!(eval(num(1), lit("2.5"), Instr::Add), Ok(Value::Float(bits(3.5))));
    assert_eq!(eval(quoted("a"), num(1), Instr::Add), Ok(Value::Str("a1".to_string())));
    assert_eq!(eval(quoted("ab"), num(3), Instr::Mul), Ok(Value::Str("ababab".to_string())));
    assert_eq!(eval(quoted("ab"), num(-1), Instr::Mul), Err(PalladError::NegativeRepeat));
}

#[test]
fn integer_floor_division() {
    assert_eq!(eval(num(7), num(2), Instr::IntDiv), Ok(Value::Int(3)));
    assert_eq!(eval(num(-7), num(2), Instr::IntDiv), Ok(Value::Int(-4)));
    assert_eq!(eval(num(7), num(-2), Instr::IntDiv), Ok(Value::Int(-4)));
    assert_eq!(eval(num(-7), num(-2), Instr::IntDiv), Ok(Value::Int(3)));
    assert_eq!(eval(num(-8), num(2), Instr::IntDiv), Ok(Value::Int(-4)));
    assert_eq!(eval(num(0), num(-3), Instr::IntDiv), Ok(Value::Int(0)));
}

#[test]
fn integer_division_overflow() {
    assert_eq!(eval(num(i64::MIN), num(-1), Instr::IntDiv), Err(PalladError::IntDivOverflow));
    assert_eq!(eval(num(i64::MIN), num(1), Instr::IntDiv), Ok(Value::Int(i64::MIN)));
    assert_eq!(floor_div_i64(i64::MIN, -1), None);
    assert_eq!(floor_div_i64(i64::MAX, -1), Some(-i64::MAX));
    assert_eq!(floor_div_i64(i64::MIN, 2), Some(i64::MIN / 2));
    assert_eq!(floor_div_i64(i64::MIN + 1, i64::MAX), Some(-1));
    assert_eq!(floor_div_i64(1, i64::MIN), Some(-1));
}

#[test]
fn undefined_variable() {
    let mut vm = VM::new();
    assert_eq!(
        run_to_end(&mut vm, vec![load("y")]),
        Err(PalladError::UndefinedVariable { name: "y".to_string() })
    );
    let mut other = VM::new();
    assert_eq!(
        run_to_end(&mut other, vec![num(1), store("x"), load("y"), store("y")]),
        Err(PalladError::UndefinedVariable { name: "y".to_string() })
    );
    assert_eq!(other.global("x"), Some(&Value::Int(1)));
}

#[test]
fn integer_arithmetic() {
    assert_eq!(eval(num(2), num(3), Instr::Add), Ok(Value::Int(5)));
    assert_eq!(eval(num(2), num(3), Instr::Sub), Ok(Value::Int(-1)));
    assert_eq!(eval(num(-4), num(3), Instr::Mul), Ok(Value::Int(-12)));
    assert_eq!(eval(num(7), num(3), Instr::Mod), Ok(Value::Int(1)));
    assert_eq!(eval(num(-7), num(3), Instr::Mod), Ok(Value::Int(-1)));
    assert_eq!(eval(num(7), num(-3), Instr::Mod), Ok(Value::Int(1)));
    assert_eq!(eval(num(-7), num(-3), Instr::Mod), Ok(Value::Int(-1)));
    assert_eq!(eval(num(i64::MIN), num(-1), Instr::Mod), Ok(Value::Int(0)));
    assert_eq!(trunc_rem_i64(i64::MIN, -1), 0);
    assert_eq!(trunc_rem_i64(-9, 4), -1);
}

#[test]
fn integer_arithmetic_wraps() {
    assert_eq!(eval(num(i64::MAX), num(1), Instr::Add), Ok(Value::Int(i64::MIN)));
    assert_eq!(eval(num(i64::MIN), num(1), Instr::Sub), Ok(Value::Int(i64::MAX)));
    assert_eq!(eval(num(i64::MAX), num(2), Instr::Mul), Ok(Value::Int(-2)));
    assert_eq!(add_wrapping(i64::MIN, -1), i64::MAX);
    assert_eq!(sub_wrapping(0, i64::MIN), i64::MIN);
    assert_eq!(mul_wrapping(i64::MIN, -1), i64::MIN);
}

#[test]
fn division_of_integers_gives_a_float() {
    assert_eq!(eval(num(7), num(2), Instr::Div), Ok(Value::Float(bits(3.5))));
    assert_eq!(eval(num(6), num(3), Instr::Div), Ok(Value::Float(bits(2.0))));
}

#[test]
fn float_arithmetic() {
    assert_eq!(eval(lit("1.5"), lit("2.25"), Instr::Add), Ok(Value::Float(bits(3.75))));
    assert_eq!(eval(lit("1.5"), num(2), Instr::Sub), Ok(Value::Float(bits(-0.5))));
    assert_eq!(eval(num(3), lit("0.5"), Instr::Mul), Ok(Value::Float(bits(1.5))));
    assert_eq!(eval(lit("7.5"), num(2), Instr::Mod), Ok(Value::Float(bits(1.5))));
    assert_eq!(eval(lit("1.0"), lit("4.0"), Instr::Div), Ok(Value::Float(bits(0.25))));
}

#[test]
fn float_floor_division_gives_an_integer() {
    assert_eq!(eval(lit("7.5"), num(2), Instr::IntDiv), Ok(Value::Int(3)));
    assert_eq!(eval(num(-7), lit("2.0"), Instr::IntDiv), Ok(Value::Int(-4)));
    assert_eq!(eval(lit("1.0"), lit("8.0"), Instr::IntDiv), Ok(Value::Int(0)));
    assert_eq!(
        eval(lit("1.0"), lit("0.00000000000000000001"), Instr::IntDiv),
        Err(PalladError::IntDivOverflow)
    );
}

#[test]
fn the_machine_asks_for_float_work() {
    let mut vm = VM::new();
    let status = vm.run(vec![num(1), lit("2.5"), Instr::Add, emit(1)]).unwrap();
    assert_eq!(status, Status::Waiting(FloatJob::Parse("2.5".to_string())));
    assert_eq!(vm.waiting_for(), Some(&FloatJob::Parse("2.5".to_string())));
    let status = vm.resume(FloatReply::Bits(bits(2.5))).unwrap();
    assert_eq!(
        status,
        Status::Waiting(FloatJob::Arith {
            op: FloatOp::Add,
            left: Number::Int(1),
            right: Number::Float(bits(2.5)),
        })
    );
    assert!(vm.stack().is_empty());
    let status = vm.resume(FloatReply::Bits(bits(3.5))).unwrap();
    assert_eq!(status, Status::Finished);
    assert!(vm.stack().is_empty());
    assert_eq!(vm.take_output(), vec![Printed::Float(bits(3.5))]);
}

#[test]
fn an_answer_of_the_wrong_kind_is_not_taken() {
    let mut vm = VM::new();
    let status = vm.run(vec![lit("2.5"), quoted("x"), Instr::Add]).unwrap();
    assert_eq!(status, Status::Waiting(FloatJob::Parse("2.5".to_string())));
    let status = vm.resume(FloatReply::Text("2.5".to_string())).unwrap();
    assert_eq!(status, Status::Waiting(FloatJob::Parse("2.5".to_string())));
    assert!(vm.stack().is_empty());
    let status = vm.resume(FloatReply::Bits(bits(2.5))).unwrap();
    assert_eq!(status, Status::Waiting(FloatJob::Render(bits(2.5))));
    let status = vm.resume(FloatReply::Bits(0)).unwrap();
    assert_eq!(status, Status::Waiting(FloatJob::Render(bits(2.5))));
    let status = vm.resume(FloatReply::Text("2.5".to_string())).unwrap();
    assert_eq!(status, Status::Finished);
    assert_eq!(vm.stack(), &vec![Value::Str("2.5x".to_string())]);
}

#[test]
fn resuming_a_machine_that_does_not_wait() {
    let mut vm = VM::new();
    assert_eq!(vm.resume(FloatReply::Bits(1)), Ok(Status::Finished));
    assert_eq!(vm.run(vec![num(1)]), Ok(Status::Finished));
    assert_eq!(vm.resume(FloatReply::Text("x".to_string())), Ok(Status::Finished));
    assert_eq!(vm.stack(), &vec![Value::Int(1)]);
}

#[test]
fn text_joins_with_numbers() {
    assert_eq!(eval(num(1), quoted("a"), Instr::Add), Ok(Value::Str("1a".to_string())));
    assert_eq!(eval(num(-12), quoted(""), Instr::Add), Ok(Value::Str("-12".to_string())));
    assert_eq!(eval(quoted("a"), quoted("b"), Instr::Add), Ok(Value::Str("ab".to_string())));
    assert_eq!(eval(quoted("a"), lit("2.5"), Instr::Add), Ok(Value::Str("a2.5".to_string())));
    assert_eq!(eval(lit("2.0"), quoted("a"), Instr::Add), Ok(Value::Str("2a".to_string())));
}

#[test]
fn text_repeats() {
    assert_eq!(eval(quoted("ab"), num(0), Instr::Mul), Ok(Value::Str(String::new())));
    assert_eq!(eval(quoted("ab"), num(1), Instr::Mul), Ok(Value::Str("ab".to_string())));
    assert_eq!(eval(quoted(""), num(i64::MAX), Instr::Mul), Ok(Value::Str(String::new())));
    assert_eq!(eval(quoted("\u{e9}"), num(2), Instr::Mul), Ok(Value::Str("\u{e9}\u{e9}".to_string())));
    assert_eq!(eval(quoted("ab"), num(i64::MAX), Instr::Mul), Err(PalladError::RepeatOverflow));
    assert_eq!(eval(quoted("a"), num(i64::MIN), Instr::Mul), Err(PalladError::NegativeRepeat));
}

#[test]
fn a_text_written_several_times() {
    assert_eq!(repeat_text("ab", 3), "ababab");
    assert_eq!(repeat_text("ab", 0), "");
    assert_eq!(repeat_text("", 4), "");
    assert_eq!(repeat_text("\u{e9}-", 2), "\u{e9}-\u{e9}-");
}

#[test]
fn type_mismatches() {
    let cases = vec![
        (quoted("a"), num(1), Instr::Sub, "subtract"),
        (num(1), quoted("a"), Instr::Sub, "subtract"),
        (num(2), quoted("a"), Instr::Mul, "multiply"),
        (quoted("a"), quoted("b"), Instr::Mul, "multiply"),
        (quoted("a"), num(2), Instr::Div, "divide"),
        (num(2), quoted("a"), Instr::IntDiv, "integer-divide"),
        (quoted("a"), quoted("b"), Instr::Mod, "mod"),
    ];
    for (left, right, op, name) in cases {
        let l = match &left {
            Instr::LoadInt(n) => Value::Int(*n),
            Instr::LoadStr(s) => Value::Str(s.clone()),
            _ => unreachable!(),
        };
        let r = match &right {
            Instr::LoadInt(n) => Value::Int(*n),
            Instr::LoadStr(s) => Value::Str(s.clone()),
            _ => unreachable!(),
        };
        assert_eq!(
            eval(left, right, op),
            Err(PalladError::TypeMismatch { left: l, right: r, operation: name })
        );
    }
}

#[test]
fn mismatches_with_floats_and_none() {
    assert_eq!(
        apply(Op::Mul, Value::Float(bits(2.0)), Value::Str("a".to_string())),
        Err(PalladError::TypeMismatch {
            left: Value::Float(bits(2.0)),
            right: Value::Str("a".to_string()),
            operation: "multiply",
        })
    );
    assert_eq!(
        apply(Op::Mul, Value::Str("a".to_string()), Value::Float(bits(2.0))),
        Err(PalladError::TypeMismatch {
            left: Value::Str("a".to_string()),
            right: Value::Float(bits(2.0)),
            operation: "multiply",
        })
    );
    for op in [Op::Add, Op::Sub, Op::Mul, Op::Div, Op::IntDiv, Op::Mod] {
        assert_eq!(
            apply(op, Value::Unit, Value::Int(1)),
            Err(PalladError::TypeMismatch {
                left: Value::Unit,
                right: Value::Int(1),
                operation: op.name(),
            })
        );
        assert_eq!(
            apply(op, Value::Int(1), Value::Unit),
            Err(PalladError::TypeMismatch {
                left: Value::Int(1),
                right: Value::Unit,
                operation: op.name(),
            })
        );
    }
}

#[test]
fn the_matrix_says_what_to_ask() {
    assert_eq!(
        apply(Op::Div, Value::Int(1), Value::Int(2)),
        Ok(Evaluation::Ask(
            FloatJob::Arith { op: FloatOp::Div, left: Number::Int(1), right: Number::Int(2) },
            Then::PushFloat
        ))
    );
    assert_eq!(
        apply(Op::IntDiv, Value::Float(7), Value::Int(2)),
        Ok(Evaluation::Ask(
            FloatJob::Arith { op: FloatOp::Div, left: Number::Float(7), right: Number::Int(2) },
            Then::Narrow
        ))
    );
    assert_eq!(
        apply(Op::Add, Value::Float(7), Value::Str("s".to_string())),
        Ok(Evaluation::Ask(FloatJob::Render(7), Then::Before("s".to_string())))
    );
    assert_eq!(
        apply(Op::Add, Value::Str("s".to_string()), Value::Float(7)),
        Ok(Evaluation::Ask(FloatJob::Render(7), Then::After("s".to_string())))
    );
    assert_eq!(
        apply(Op::Add, Value::Int(1), Value::Int(2)),
        Ok(Evaluation::Value(Value::Int(3)))
    );
}

#[test]
fn answers_are_resolved() {
    assert_eq!(
        resolve(&Then::PushFloat, FloatReply::Bits(9)),
        Some(Ok(Value::Float(9)))
    );
    assert_eq!(
        resolve(&Then::Narrow, FloatReply::Bits(bits(-3.5))),
        Some(Ok(Value::Int(-4)))
    );
    assert_eq!(
        resolve(&Then::Narrow, FloatReply::Bits(bits(3.5))),
        Some(Ok(Value::Int(3)))
    );
    assert_eq!(
        resolve(&Then::Narrow, FloatReply::Bits(bits(f64::INFINITY))),
        Some(Err(PalladError::IntDivOverflow))
    );
    assert_eq!(
        resolve(&Then::Before("b".to_string()), FloatReply::Text("a".to_string())),
        Some(Ok(Value::Str("ab".to_string())))
    );
    assert_eq!(
        resolve(&Then::After("b".to_string()), FloatReply::Text("a".to_string())),
        Some(Ok(Value::Str("ba".to_string())))
    );
    assert_eq!(resolve(&Then::PushFloat, FloatReply::Text("a".to_string())), None);
    assert_eq!(resolve(&Then::Narrow, FloatReply::Text("a".to_string())), None);
    assert_eq!(resolve(&Then::Before("b".to_string()), FloatReply::Bits(1)), None);
    assert_eq!(resolve(&Then::After("b".to_string()), FloatReply::Bits(1)), None);
}

#[test]
fn narrowing_a_float_rounds_down() {
    assert_eq!(narrow(bits(0.0)), Some(0));
    assert_eq!(narrow(bits(-0.0)), Some(0));
    assert_eq!(narrow(bits(0.999)), Some(0));
    assert_eq!(narrow(bits(-0.5)), Some(-1));
    assert_eq!(narrow(bits(-f64::MIN_POSITIVE / 2.0)), Some(-1));
    assert_eq!(narrow(bits(f64::MIN_POSITIVE / 2.0)), Some(0));
    assert_eq!(narrow(bits(1.0)), Some(1));
    assert_eq!(narrow(bits(-1.0)), Some(-1));
    assert_eq!(narrow(bits(3.75)), Some(3));
    assert_eq!(narrow(bits(-3.75)), Some(-4));
    assert_eq!(narrow(bits(-3.0)), Some(-3));
    assert_eq!(narrow(bits(-1.0000000000000002)), Some(-2));
    assert_eq!(narrow(bits(4503599627370495.5)), Some(4503599627370495));
    assert_eq!(narrow(bits(-4503599627370495.5)), Some(-4503599627370496));
    assert_eq!(narrow(bits(4503599627370496.0)), Some(4503599627370496));
    assert_eq!(narrow(bits(9007199254740993.0)), Some(9007199254740992));
    assert_eq!(narrow(bits(1e18)), Some(1_000_000_000_000_000_000));
    assert_eq!(narrow(bits(-9223372036854775808.0)), Some(i64::MIN));
    assert_eq!(narrow(bits(9223372036854774784.0)), Some(9223372036854774784));
    assert_eq!(narrow(bits(9223372036854775808.0)), None);
    assert_eq!(narrow(bits(-9223372036854777856.0)), None);
    assert_eq!(narrow(bits(1e300)), None);
    assert_eq!(narrow(bits(f64::INFINITY)), None);
    assert_eq!(narrow(bits(f64::NEG_INFINITY)), None);
    assert_eq!(narrow(bits(f64::NAN)), None);
}

#[test]
fn narrowing_agrees_with_the_floor_of_the_float() {
    let samples = [
        0.0, -0.0, 0.25, -0.25, 1.5, -1.5, 2.0, -2.0, 1023.999, -1023.999, 1e10, -1e10,
        123456789.125, -123456789.125, 4503599627370495.5, -4503599627370495.5, 1e15, -1e15,
        9.007199254740991e15, -9.223372036854775e18, 9.223372036854775e18,
    ];
    for x in samples {
        assert_eq!(narrow(bits(x)), Some(x.floor() as i64));
    }
}

#[test]
fn float_zeros() {
    assert!(is_zero_bits(bits(0.0)));
    assert!(is_zero_bits(bits(-0.0)));
    assert!(!is_zero_bits(bits(f64::MIN_POSITIVE / 4.0)));
    assert!(!is_zero_bits(bits(1.0)));
    assert!(!is_zero_bits(bits(f64::NAN)));
}

#[test]
fn operands_are_popped_right_first() {
    assert_eq!(eval(num(10), num(3), Instr::Sub), Ok(Value::Int(7)));
    assert_eq!(eval(quoted("a"), quoted("b"), Instr::Add), Ok(Value::Str("ab".to_string())));
    assert_eq!(
        eval(quoted("a"), Instr::LoadNone, Instr::Sub),
        Err(PalladError::TypeMismatch {
            left: Value::Str("a".to_string()),
            right: Value::Unit,
            operation: "subtract",
        })
    );
}

#[test]
fn stack_underflow() {
    let mut vm = VM::new();
    assert_eq!(run_to_end(&mut vm, vec![Instr::Pop]), Err(underflow("Pop")));
    let mut vm = VM::new();
    assert_eq!(run_to_end(&mut vm, vec![store("x")]), Err(underflow("store variable")));
    let mut vm = VM::new();
    assert_eq!(run_to_end(&mut vm, vec![Instr::Add]), Err(underflow("add")));
    let mut vm = VM::new();
    assert_eq!(run_to_end(&mut vm, vec![num(1), Instr::IntDiv]), Err(underflow("integer-divide")));
    assert!(vm.stack().is_empty());
    let mut vm = VM::new();
    assert_eq!(run_to_end(&mut vm, vec![num(1), emit(2)]), Err(underflow("print")));
    assert!(vm.stack().is_empty());
    assert!(vm.take_output().is_empty());
}

#[test]
fn unknown_builtin() {
    let mut vm = VM::new();
    let call = Instr::CallBuiltin { name: "shout".to_string(), argc: 1 };
    assert_eq!(
        run_to_end(&mut vm, vec![num(1), call]),
        Err(PalladError::UnknownBuiltin { name: "shout".to_string() })
    );
    assert_eq!(vm.stack(), &vec![Value::Int(1)]);
}

#[test]
fn print_writes_its_arguments_in_order() {
    let mut vm = VM::new();
    let program = vec![
        num(1),
        quoted("two"),
        Instr::LoadNone,
        lit("4.5"),
        num(-5),
        emit(5),
        emit(0),
    ];
    assert_eq!(run_to_end(&mut vm, program), Ok(()));
    assert_eq!(
        vm.take_output(),
        vec![
            Printed::Text("1".to_string()),
            Printed::Text("two".to_string()),
            Printed::Text("<none>".to_string()),
            Printed::Float(bits(4.5)),
            Printed::Text("-5".to_string()),
        ]
    );
    assert!(vm.take_output().is_empty());
    assert!(vm.stack().is_empty());
}

#[test]
fn print_takes_only_its_arguments() {
    let mut vm = VM::new();
    assert_eq!(run_to_end(&mut vm, vec![num(1), num(2), num(3), emit(2)]), Ok(()));
    assert_eq!(vm.stack(), &vec![Value::Int(1)]);
    assert_eq!(
        vm.take_output(),
        vec![Printed::Text("2".to_string()), Printed::Text("3".to_string())]
    );
}

#[test]
fn output_before_a_failure_is_kept() {
    let mut vm = VM::new();
    let program = vec![num(1), emit(1), load("missing"), emit(1)];
    assert_eq!(
        run_to_end(&mut vm, program),
        Err(PalladError::UndefinedVariable { name: "missing".to_string() })
    );
    assert_eq!(vm.take_output(), vec![Printed::Text("1".to_string())]);
}

#[test]
fn variables_are_overwritten() {
    let mut vm = VM::new();
    let program = vec![
        num(1),
        store("x"),
        quoted("s"),
        store("x"),
        load("x"),
        load("x"),
        Instr::Add,
        store("y"),
    ];
    assert_eq!(run_to_end(&mut vm, program), Ok(()));
    assert_eq!(vm.global("x"), Some(&Value::Str("s".to_string())));
    assert_eq!(vm.global("y"), Some(&Value::Str("ss".to_string())));
    assert!(vm.stack().is_empty());
}

#[test]
fn every_run_starts_with_no_variables() {
    let mut vm = VM::new();
    assert_eq!(vm.run(vec![num(1), store("x")]), Ok(Status::Finished));
    assert_eq!(vm.global("x"), Some(&Value::Int(1)));
    assert_eq!(
        vm.run(vec![load("x"), Instr::Pop]),
        Err(PalladError::UndefinedVariable { name: "x".to_string() })
    );
    assert_eq!(vm.global("x"), None);
}

#[test]
fn every_run_starts_with_an_empty_stack() {
    let mut vm = VM::new();
    assert_eq!(vm.run(vec![num(1), num(2)]), Ok(Status::Finished));
    assert_eq!(vm.stack().len(), 2);
    assert_eq!(vm.run(vec![Instr::Pop]), Err(underflow("Pop")));
    assert_eq!(vm.run(vec![]), Ok(Status::Finished));
    assert!(vm.stack().is_empty());
    assert_eq!(vm.run(vec![num(3), Instr::Add]), Err(underflow("add")));
}

#[test]
fn output_that_was_not_taken_stays_over_a_run() {
    let mut vm = VM::new();
    assert_eq!(run_to_end(&mut vm, vec![num(7), emit(1)]), Ok(()));
    assert_eq!(run_to_end(&mut vm, vec![num(8), emit(1)]), Ok(()));
    assert_eq!(
        vm.take_output(),
        vec![Printed::Text("7".to_string()), Printed::Text("8".to_string())]
    );
}

#[test]
fn a_run_replaces_a_program_that_waits() {
    let mut vm = VM::new();
    let status = vm.run(vec![lit("1.5"), emit(1)]).unwrap();
    assert_eq!(status, Status::Waiting(FloatJob::Parse("1.5".to_string())));
    assert_eq!(vm.run(vec![num(2), emit(1)]), Ok(Status::Finished));
    assert_eq!(vm.waiting_for(), None);
    assert_eq!(vm.take_output(), vec![Printed::Text("2".to_string())]);
}

#[test]
fn a_failed_run_is_over() {
    let mut vm = VM::new();
    assert_eq!(run_to_end(&mut vm, vec![num(1), Instr::Pop, Instr::Pop, num(2)]), Err(underflow("Pop")));
    assert_eq!(vm.resume(FloatReply::Bits(0)), Ok(Status::Finished));
    assert!(vm.stack().is_empty());
}

#[test]
fn op_names() {
    assert_eq!(Op::Add.name(), "add");
    assert_eq!(Op::Sub.name(), "subtract");
    assert_eq!(Op::Mul.name(), "multiply");
    assert_eq!(Op::Div.name(), "divide");
    assert_eq!(Op::IntDiv.name(), "integer-divide");
    assert_eq!(Op::Mod.name(), "mod");
}
