//! The virtual machine: executes instructions against an operand stack and
//! a table of global variables.
//!
//! The machine does no floating-point arithmetic itself. Where an
//! instruction needs some, the machine stops with a [`FloatJob`] for the
//! caller, who answers with [`VM::resume`]; the machine then goes on. What
//! `print` writes is collected as [`Printed`] lines for the caller to emit.

use vstd::prelude::*;
use vstd::hash_map::StringHashMap;
use crate::arith::{
    add_wrapping, byte_len, floor_div, floor_div_i64, lemma_repeated_nothing, mul_wrapping,
    repeat_text, repeated, sub_wrapping, trunc_rem, trunc_rem_i64, wrap,
};
use crate::decimal::{render_i64, render_int};
use crate::error::{ErrorView, PalladError};
use crate::float::{is_zero, is_zero_bits, narrow, narrowed};
use crate::ir::{Instr, InstrView};
use crate::value::{Value, ValueView};

verus! {

// ---------------------------------------------------------------------
// Operations and the work handed to the caller
// ---------------------------------------------------------------------

/// A binary operation of the machine.
#[derive(Debug, Clone, Copy, PartialEq, Eq, Structural)]
pub enum Op {
    Add,
    Sub,
    Mul,
    Div,
    IntDiv,
    Mod,
}

/// The name of an operation in diagnostics.
pub open spec fn op_name(op: Op) -> Seq<char> {
    match op {
        Op::Add => "add"@,
        Op::Sub => "subtract"@,
        Op::Mul => "multiply"@,
        Op::Div => "divide"@,
        Op::IntDiv => "integer-divide"@,
        Op::Mod => "mod"@,
    }
}

impl Op {
    /// The name of this operation in diagnostics.
    pub fn name(&self) -> (r: &'static str)
        ensures
            r@ == op_name(*self),
    {
        match self {
            Op::Add => "add",
            Op::Sub => "subtract",
            Op::Mul => "multiply",
            Op::Div => "divide",
            Op::IntDiv => "integer-divide",
            Op::Mod => "mod",
        }
    }
}

/// A numeric operand: an integer, or a float by its bit pattern.
#[derive(Debug, Clone, Copy, PartialEq, Eq, Structural)]
pub enum Number {
    Int(i64),
    Float(u64),
}

/// An operation on two floats.
#[derive(Debug, Clone, Copy, PartialEq, Eq, Structural)]
pub enum FloatOp {
    Add,
    Sub,
    Mul,
    Div,
    /// The remainder of the division that rounds toward zero.
    Rem,
}

/// The operation on floats by which an operation of the machine is
/// computed: the integer division divides, and its quotient is rounded down
/// by the machine.
pub open spec fn float_op(op: Op) -> FloatOp {
    match op {
        Op::Add => FloatOp::Add,
        Op::Sub => FloatOp::Sub,
        Op::Mul => FloatOp::Mul,
        Op::Div => FloatOp::Div,
        Op::IntDiv => FloatOp::Div,
        Op::Mod => FloatOp::Rem,
    }
}

/// Floating-point work that the machine asks of its caller.
#[derive(Debug, PartialEq)]
pub enum FloatJob {
    /// The float that a literal denotes: answered with its bit pattern.
    Parse(String),
    /// The operation applied to the two operands as floats, an integer being
    /// converted first: answered with the bit pattern of the result.
    Arith { op: FloatOp, left: Number, right: Number },
    /// The text that shows the float: answered with that text.
    Render(u64),
}

/// The mathematical model of a [`FloatJob`].
pub enum FloatJobView {
    Parse(Seq<char>),
    Arith { op: FloatOp, left: Number, right: Number },
    Render(u64),
}

impl View for FloatJob {
    type V = FloatJobView;

    open spec fn view(&self) -> FloatJobView {
        match self {
            FloatJob::Parse(text) => FloatJobView::Parse(text@),
            FloatJob::Arith { op, left, right } => FloatJobView::Arith {
                op: *op,
                left: *left,
                right: *right,
            },
            FloatJob::Render(bits) => FloatJobView::Render(*bits),
        }
    }
}

impl Clone for FloatJob {
    fn clone(&self) -> (r: Self)
        ensures
            r@ == self@,
    {
        match self {
            FloatJob::Parse(text) => FloatJob::Parse(text.clone()),
            FloatJob::Arith { op, left, right } => FloatJob::Arith {
                op: *op,
                left: *left,
                right: *right,
            },
            FloatJob::Render(bits) => FloatJob::Render(*bits),
        }
    }
}

/// The caller's answer to a [`FloatJob`].
#[derive(Debug, PartialEq)]
pub enum FloatReply {
    Bits(u64),
    Text(String),
}

/// The mathematical model of a [`FloatReply`].
pub enum FloatReplyView {
    Bits(u64),
    Text(Seq<char>),
}

impl View for FloatReply {
    type V = FloatReplyView;

    open spec fn view(&self) -> FloatReplyView {
        match self {
            FloatReply::Bits(bits) => FloatReplyView::Bits(*bits),
            FloatReply::Text(text) => FloatReplyView::Text(text@),
        }
    }
}

/// What the machine does with the answer to a [`FloatJob`].
#[derive(Debug, PartialEq)]
pub enum Then {
    /// The answer is a bit pattern: the float is pushed.
    PushFloat,
    /// The answer is a bit pattern: the float is rounded down, and the
    /// integer that it comes to is pushed.
    Narrow,
    /// The answer is a text: it is pushed with the held text behind it.
    Before(String),
    /// The answer is a text: it is pushed with the held text before it.
    After(String),
}

/// The mathematical model of a [`Then`].
pub enum ThenView {
    PushFloat,
    Narrow,
    Before(Seq<char>),
    After(Seq<char>),
}

impl View for Then {
    type V = ThenView;

    open spec fn view(&self) -> ThenView {
        match self {
            Then::PushFloat => ThenView::PushFloat,
            Then::Narrow => ThenView::Narrow,
            Then::Before(text) => ThenView::Before(text@),
            Then::After(text) => ThenView::After(text@),
        }
    }
}

/// One line of output: a finished text, or a float that the caller shows.
#[derive(Debug, PartialEq)]
pub enum Printed {
    Text(String),
    Float(u64),
}

/// The mathematical model of a [`Printed`] line.
pub enum PrintedView {
    Text(Seq<char>),
    Float(u64),
}

impl View for Printed {
    type V = PrintedView;

    open spec fn view(&self) -> PrintedView {
        match self {
            Printed::Text(text) => PrintedView::Text(text@),
            Printed::Float(bits) => PrintedView::Float(*bits),
        }
    }
}

impl DeepView for Printed {
    type V = PrintedView;

    open spec fn deep_view(&self) -> PrintedView {
        self@
    }
}

/// How a run stands when the machine hands control back.
#[derive(Debug, PartialEq)]
pub enum Status {
    /// The program has run to its end.
    Finished,
    /// The machine waits for the answer to this job.
    Waiting(FloatJob),
}

/// The mathematical model of a [`Status`].
pub enum StatusView {
    Finished,
    Waiting(FloatJobView),
}

impl View for Status {
    type V = StatusView;

    open spec fn view(&self) -> StatusView {
        match self {
            Status::Finished => StatusView::Finished,
            Status::Waiting(job) => StatusView::Waiting(job@),
        }
    }
}

// ---------------------------------------------------------------------
// The coercion matrix
// ---------------------------------------------------------------------

/// What applying an operation to two operands comes to.
pub enum Evaluated {
    /// The result is known.
    Value(ValueView),
    /// The result takes floating-point work: the job, and what is done with
    /// its answer.
    Ask(FloatJobView, ThenView),
    /// The operation fails.
    Fail(ErrorView),
}

/// A numeric zero: the integer zero, or a float that is zero.
pub open spec fn is_numeric_zero(v: ValueView) -> bool {
    match v {
        ValueView::Int(n) => n == 0,
        ValueView::Float(bits) => is_zero(bits),
        _ => false,
    }
}

/// An operation that divides.
pub open spec fn divides(op: Op) -> bool {
    op == Op::Div || op == Op::IntDiv || op == Op::Mod
}

/// The failure of an operation on operands that it does not accept.
pub open spec fn mismatch(op: Op, left: ValueView, right: ValueView) -> Evaluated {
    Evaluated::Fail(ErrorView::TypeMismatch { left, right, operation: op_name(op) })
}

/// An operation on two integers.
pub open spec fn on_ints(op: Op, a: i64, b: i64) -> Evaluated {
    match op {
        Op::Add => Evaluated::Value(ValueView::Int(wrap(a + b))),
        Op::Sub => Evaluated::Value(ValueView::Int(wrap(a - b))),
        Op::Mul => Evaluated::Value(ValueView::Int(wrap(a * b))),
        Op::Div => on_floats(op, Number::Int(a), Number::Int(b)),
        Op::IntDiv => if a == i64::MIN && b == -1 {
            Evaluated::Fail(ErrorView::IntDivOverflow)
        } else {
            Evaluated::Value(ValueView::Int(floor_div(a as int, b as int) as i64))
        },
        Op::Mod => Evaluated::Value(ValueView::Int(trunc_rem(a as int, b as int) as i64)),
    }
}

/// An operation that is computed in floats: the caller computes it, and the
/// result is pushed as a float or, for the integer division, rounded down to
/// an integer.
pub open spec fn on_floats(op: Op, left: Number, right: Number) -> Evaluated {
    Evaluated::Ask(
        FloatJobView::Arith { op: float_op(op), left, right },
        if op == Op::IntDiv {
            ThenView::Narrow
        } else {
            ThenView::PushFloat
        },
    )
}

/// A text repeated `count` times. The count must not be negative, and the
/// result must not take more bytes than a text can hold, which is the
/// largest signed size.
pub open spec fn on_repeat(s: Seq<char>, count: i64) -> Evaluated {
    if count < 0 {
        Evaluated::Fail(ErrorView::NegativeRepeat)
    } else if byte_len(s) * count > isize::MAX {
        Evaluated::Fail(ErrorView::RepeatOverflow)
    } else {
        Evaluated::Value(ValueView::Str(repeated(s, count as nat)))
    }
}

/// What applying `op` to the operands `a` (left) and `b` (right) comes to.
///
/// A division by a numeric zero fails before the types are looked at. Two
/// integers give an integer, but for `/`, which always gives a float. A
/// float on either side makes the operation one of floats. `+` joins texts,
/// and a text with the notation of a number; `*` repeats a text an integer
/// number of times. Every other pairing is a type mismatch.
pub open spec fn evaluate(op: Op, a: ValueView, b: ValueView) -> Evaluated {
    if divides(op) && is_numeric_zero(b) {
        Evaluated::Fail(ErrorView::DivisionByZero { operation: op_name(op) })
    } else {
        match (a, b) {
            (ValueView::Int(x), ValueView::Int(y)) => on_ints(op, x, y),
            (ValueView::Int(x), ValueView::Float(y)) => on_floats(
                op,
                Number::Int(x),
                Number::Float(y),
            ),
            (ValueView::Float(x), ValueView::Int(y)) => on_floats(
                op,
                Number::Float(x),
                Number::Int(y),
            ),
            (ValueView::Float(x), ValueView::Float(y)) => on_floats(
                op,
                Number::Float(x),
                Number::Float(y),
            ),
            (ValueView::Int(x), ValueView::Str(s)) => if op == Op::Add {
                Evaluated::Value(ValueView::Str(render_int(x as int) + s))
            } else {
                mismatch(op, a, b)
            },
            (ValueView::Float(x), ValueView::Str(s)) => if op == Op::Add {
                Evaluated::Ask(FloatJobView::Render(x), ThenView::Before(s))
            } else {
                mismatch(op, a, b)
            },
            (ValueView::Str(s), ValueView::Int(y)) => if op == Op::Add {
                Evaluated::Value(ValueView::Str(s + render_int(y as int)))
            } else if op == Op::Mul {
                on_repeat(s, y)
            } else {
                mismatch(op, a, b)
            },
            (ValueView::Str(s), ValueView::Float(y)) => if op == Op::Add {
                Evaluated::Ask(FloatJobView::Render(y), ThenView::After(s))
            } else {
                mismatch(op, a, b)
            },
            (ValueView::Str(s), ValueView::Str(t)) => if op == Op::Add {
                Evaluated::Value(ValueView::Str(s + t))
            } else {
                mismatch(op, a, b)
            },
            _ => mismatch(op, a, b),
        }
    }
}

/// What an answer comes to: the value to push, or a failure. `None` where
/// the answer is not of the kind that was asked for.
pub open spec fn complete(then: ThenView, reply: FloatReplyView) -> Option<
    Result<ValueView, ErrorView>,
> {
    match (then, reply) {
        (ThenView::PushFloat, FloatReplyView::Bits(bits)) => Some(Ok(ValueView::Float(bits))),
        (ThenView::Narrow, FloatReplyView::Bits(bits)) => match narrowed(bits) {
            Some(n) => Some(Ok(ValueView::Int(n))),
            None => Some(Err(ErrorView::IntDivOverflow)),
        },
        (ThenView::Before(held), FloatReplyView::Text(text)) => Some(
            Ok(ValueView::Str(text + held)),
        ),
        (ThenView::After(held), FloatReplyView::Text(text)) => Some(
            Ok(ValueView::Str(held + text)),
        ),
        _ => None,
    }
}

/// What applying an operation came to, where it did not fail.
#[derive(Debug, PartialEq)]
pub enum Evaluation {
    /// The result.
    Value(Value),
    /// The floating-point work that gives the result, and what is done with
    /// its answer.
    Ask(FloatJob, Then),
}

/// The model of the result of [`apply`].
pub open spec fn evaluated_view(r: Result<Evaluation, PalladError>) -> Evaluated {
    match r {
        Ok(Evaluation::Value(v)) => Evaluated::Value(v@),
        Ok(Evaluation::Ask(job, then)) => Evaluated::Ask(job@, then@),
        Err(e) => Evaluated::Fail(e@),
    }
}

/// The model of the result of [`resolve`].
pub open spec fn completed_view(r: Option<Result<Value, PalladError>>) -> Option<
    Result<ValueView, ErrorView>,
> {
    match r {
        Some(Ok(v)) => Some(Ok(v@)),
        Some(Err(e)) => Some(Err(e@)),
        None => None,
    }
}

fn type_mismatch(op: Op, left: Value, right: Value) -> (r: Result<Evaluation, PalladError>)
    ensures
        evaluated_view(r) == mismatch(op, left@, right@),
{
    Err(PalladError::TypeMismatch { left, right, operation: op.name() })
}

fn apply_to_floats(op: Op, left: Number, right: Number) -> (r: Result<Evaluation, PalladError>)
    ensures
        evaluated_view(r) == on_floats(op, left, right),
{
    let then = match op {
        Op::IntDiv => Then::Narrow,
        _ => Then::PushFloat,
    };
    let by = match op {
        Op::Add => FloatOp::Add,
        Op::Sub => FloatOp::Sub,
        Op::Mul => FloatOp::Mul,
        Op::Div => FloatOp::Div,
        Op::IntDiv => FloatOp::Div,
        Op::Mod => FloatOp::Rem,
    };
    Ok(Evaluation::Ask(FloatJob::Arith { op: by, left, right }, then))
}

fn apply_to_ints(op: Op, a: i64, b: i64) -> (r: Result<Evaluation, PalladError>)
    requires
        divides(op) ==> b != 0,
    ensures
        evaluated_view(r) == on_ints(op, a, b),
{
    match op {
        Op::Add => Ok(Evaluation::Value(Value::Int(add_wrapping(a, b)))),
        Op::Sub => Ok(Evaluation::Value(Value::Int(sub_wrapping(a, b)))),
        Op::Mul => Ok(Evaluation::Value(Value::Int(mul_wrapping(a, b)))),
        Op::Div => apply_to_floats(op, Number::Int(a), Number::Int(b)),
        Op::IntDiv => match floor_div_i64(a, b) {
            Some(q) => Ok(Evaluation::Value(Value::Int(q))),
            None => Err(PalladError::IntDivOverflow),
        },
        Op::Mod => Ok(Evaluation::Value(Value::Int(trunc_rem_i64(a, b)))),
    }
}

/// Repeats a text. A text of no bytes is handed back as it is, however
/// large the count.
fn apply_repeat(s: String, count: i64) -> (r: Result<Evaluation, PalladError>)
    ensures
        evaluated_view(r) == on_repeat(s@, count),
{
    if count < 0 {
        return Err(PalladError::NegativeRepeat);
    }
    let bytes = s.as_str().as_bytes().len();
    assert(bytes * count <= 0xffff_ffff_ffff_ffff * 0x7fff_ffff_ffff_ffff) by (nonlinear_arith)
        requires
            0 <= bytes <= 0xffff_ffff_ffff_ffff,
            0 <= count <= 0x7fff_ffff_ffff_ffff,
    ;
    let total: u128 = (bytes as u128) * (count as u128);
    if total > isize::MAX as u128 {
        return Err(PalladError::RepeatOverflow);
    }
    if bytes == 0 {
        proof {
            lemma_repeated_nothing(s@, count as nat);
        }
        return Ok(Evaluation::Value(Value::Str(s)));
    }
    assert(count <= total) by (nonlinear_arith)
        requires
            total == bytes * count,
            bytes >= 1,
            count >= 0,
    ;
    Ok(Evaluation::Value(Value::Str(repeat_text(s.as_str(), count as usize))))
}

/// Applies an operation to two operands: the coercion matrix.
///
/// Where the result takes floating-point arithmetic, the function says
/// which, and what is to be done with the answer ([`resolve`]).
pub fn apply(op: Op, a: Value, b: Value) -> (r: Result<Evaluation, PalladError>)
    ensures
        evaluated_view(r) == evaluate(op, a@, b@),
{
    let by_zero = match &b {
        Value::Int(n) => *n == 0,
        Value::Float(bits) => is_zero_bits(*bits),
        _ => false,
    };
    let dividing = match op {
        Op::Div => true,
        Op::IntDiv => true,
        Op::Mod => true,
        _ => false,
    };
    if dividing && by_zero {
        return Err(PalladError::DivisionByZero { operation: op.name() });
    }
    let adding = match op {
        Op::Add => true,
        _ => false,
    };
    let multiplying = match op {
        Op::Mul => true,
        _ => false,
    };
    match (a, b) {
        (Value::Int(x), Value::Int(y)) => apply_to_ints(op, x, y),
        (Value::Int(x), Value::Float(y)) => apply_to_floats(
            op,
            Number::Int(x),
            Number::Float(y),
        ),
        (Value::Float(x), Value::Int(y)) => apply_to_floats(
            op,
            Number::Float(x),
            Number::Int(y),
        ),
        (Value::Float(x), Value::Float(y)) => apply_to_floats(
            op,
            Number::Float(x),
            Number::Float(y),
        ),
        (Value::Int(x), Value::Str(s)) => {
            if adding {
                let mut text = render_i64(x);
                text.append(s.as_str());
                Ok(Evaluation::Value(Value::Str(text)))
            } else {
                type_mismatch(op, Value::Int(x), Value::Str(s))
            }
        },
        (Value::Float(x), Value::Str(s)) => {
            if adding {
                Ok(Evaluation::Ask(FloatJob::Render(x), Then::Before(s)))
            } else {
                type_mismatch(op, Value::Float(x), Value::Str(s))
            }
        },
        (Value::Str(s), Value::Int(y)) => {
            if adding {
                let mut text = s;
                let number = render_i64(y);
                text.append(number.as_str());
                Ok(Evaluation::Value(Value::Str(text)))
            } else if multiplying {
                apply_repeat(s, y)
            } else {
                type_mismatch(op, Value::Str(s), Value::Int(y))
            }
        },
        (Value::Str(s), Value::Float(y)) => {
            if adding {
                Ok(Evaluation::Ask(FloatJob::Render(y), Then::After(s)))
            } else {
                type_mismatch(op, Value::Str(s), Value::Float(y))
            }
        },
        (Value::Str(s), Value::Str(t)) => {
            if adding {
                let mut text = s;
                text.append(t.as_str());
                Ok(Evaluation::Value(Value::Str(text)))
            } else {
                type_mismatch(op, Value::Str(s), Value::Str(t))
            }
        },
        (a, b) => type_mismatch(op, a, b),
    }
}

/// Takes the answer to a job: gives the value that the machine pushes, or
/// the failure that ends the run. `None` where the answer is not of the kind
/// that was asked for.
pub fn resolve(then: &Then, reply: FloatReply) -> (r: Option<Result<Value, PalladError>>)
    ensures
        completed_view(r) == complete(then@, reply@),
{
    match (then, reply) {
        (Then::PushFloat, FloatReply::Bits(bits)) => Some(Ok(Value::Float(bits))),
        (Then::Narrow, FloatReply::Bits(bits)) => match narrow(bits) {
            Some(n) => Some(Ok(Value::Int(n))),
            None => Some(Err(PalladError::IntDivOverflow)),
        },
        (Then::Before(held), FloatReply::Text(text)) => {
            let mut joined = text;
            joined.append(held.as_str());
            Some(Ok(Value::Str(joined)))
        },
        (Then::After(held), FloatReply::Text(text)) => {
            let mut joined = held.clone();
            joined.append(text.as_str());
            Some(Ok(Value::Str(joined)))
        },
        _ => None,
    }
}

// ---------------------------------------------------------------------
// The machine, as the contracts speak of it
// ---------------------------------------------------------------------

/// The mathematical model of a [`VM`].
pub struct Machine {
    /// The operand stack; its last element is the top.
    pub stack: Seq<ValueView>,
    /// The global variables.
    pub globals: Map<Seq<char>, ValueView>,
    /// The lines that were printed and not yet taken.
    pub output: Seq<PrintedView>,
    /// The program that is run.
    pub program: Seq<InstrView>,
    /// The index of the instruction that is executed next.
    pub pc: int,
    /// The job whose answer the machine waits for, and what it does with
    /// the answer.
    pub waiting: Option<(FloatJobView, ThenView)>,
}

/// What a run comes to when the machine hands control back: the machine,
/// and how it stands or why it failed.
pub type Ran = (Machine, Result<StatusView, ErrorView>);

/// What executing one instruction comes to.
pub enum Outcome {
    /// The instruction was executed.
    Done(Machine),
    /// The instruction failed; the machine is as the failure left it.
    Failed(Machine, ErrorView),
}

/// A machine with nothing on its stack, no variable, no output and no
/// program.
pub open spec fn fresh() -> Machine {
    Machine {
        stack: Seq::empty(),
        globals: Map::empty(),
        output: Seq::empty(),
        program: Seq::empty(),
        pc: 0,
        waiting: None,
    }
}

/// The line that `print` writes for a value.
pub open spec fn shown(v: ValueView) -> PrintedView {
    match v {
        ValueView::Unit => PrintedView::Text("<none>"@),
        ValueView::Int(n) => PrintedView::Text(render_int(n as int)),
        ValueView::Float(bits) => PrintedView::Float(bits),
        ValueView::Str(s) => PrintedView::Text(s),
    }
}

/// The operation of an arithmetic instruction.
pub open spec fn arithmetic(i: InstrView) -> Option<Op> {
    match i {
        InstrView::Add => Some(Op::Add),
        InstrView::Sub => Some(Op::Sub),
        InstrView::Mul => Some(Op::Mul),
        InstrView::Div => Some(Op::Div),
        InstrView::IntDiv => Some(Op::IntDiv),
        InstrView::Mod => Some(Op::Mod),
        _ => None,
    }
}

/// A stack underflow in the named operation.
pub open spec fn underflow(operation: Seq<char>) -> ErrorView {
    ErrorView::StackUnderflow { operation }
}

/// The machine with `v` pushed.
pub open spec fn pushed(m: Machine, v: ValueView) -> Machine {
    Machine { stack: m.stack.push(v), ..m }
}

/// An arithmetic instruction: the right operand is popped, then the left
/// one, and the operation is applied. Its value is pushed; where it takes
/// floating-point work the machine waits for it.
pub open spec fn execute_arithmetic(m: Machine, op: Op) -> Outcome {
    let n = m.stack.len() as int;
    if n == 0 {
        Outcome::Failed(m, underflow(op_name(op)))
    } else if n == 1 {
        Outcome::Failed(Machine { stack: Seq::empty(), ..m }, underflow(op_name(op)))
    } else {
        let rest = Machine { stack: m.stack.take(n - 2), ..m };
        match evaluate(op, m.stack[n - 2], m.stack[n - 1]) {
            Evaluated::Value(v) => Outcome::Done(pushed(rest, v)),
            Evaluated::Ask(job, then) => Outcome::Done(
                Machine { waiting: Some((job, then)), ..rest },
            ),
            Evaluated::Fail(e) => Outcome::Failed(rest, e),
        }
    }
}

/// A call of a builtin: `print` takes its arguments off the stack and
/// writes a line for each, in the order in which they were pushed.
pub open spec fn execute_call(m: Machine, name: Seq<char>, argc: usize) -> Outcome {
    let n = m.stack.len() as int;
    if name != "print"@ {
        Outcome::Failed(m, ErrorView::UnknownBuiltin { name })
    } else if argc > n {
        Outcome::Failed(Machine { stack: Seq::empty(), ..m }, underflow("print"@))
    } else {
        Outcome::Done(
            Machine {
                stack: m.stack.take(n - argc),
                output: m.output + m.stack.skip(n - argc).map_values(|v: ValueView| shown(v)),
                ..m
            },
        )
    }
}

/// What executing the instruction comes to. Neither the program nor the
/// index of the next instruction is touched here.
pub open spec fn execute(m: Machine, i: InstrView) -> Outcome {
    match i {
        InstrView::LoadNone => Outcome::Done(pushed(m, ValueView::Unit)),
        InstrView::LoadInt(n) => Outcome::Done(pushed(m, ValueView::Int(n))),
        InstrView::LoadFloat(text) => Outcome::Done(
            Machine { waiting: Some((FloatJobView::Parse(text), ThenView::PushFloat)), ..m },
        ),
        InstrView::LoadStr(s) => Outcome::Done(pushed(m, ValueView::Str(s))),
        InstrView::LoadVar(name) => if m.globals.contains_key(name) {
            Outcome::Done(pushed(m, m.globals[name]))
        } else {
            Outcome::Failed(m, ErrorView::UndefinedVariable { name })
        },
        InstrView::StoreVar(name) => if m.stack.len() == 0 {
            Outcome::Failed(m, underflow("store variable"@))
        } else {
            Outcome::Done(
                Machine {
                    stack: m.stack.drop_last(),
                    globals: m.globals.insert(name, m.stack.last()),
                    ..m
                },
            )
        },
        InstrView::CallBuiltin { name, argc } => execute_call(m, name, argc),
        InstrView::Pop => if m.stack.len() == 0 {
            Outcome::Failed(m, underflow("Pop"@))
        } else {
            Outcome::Done(Machine { stack: m.stack.drop_last(), ..m })
        },
        _ => execute_arithmetic(m, arithmetic(i)->Some_0),
    }
}

/// The machine after a failure: the run is over.
pub open spec fn halted(m: Machine) -> Machine {
    Machine { pc: m.program.len() as int, waiting: None, ..m }
}

/// Runs the machine on from where it stands, until the program ends, an
/// instruction fails, or floating-point work is needed.
pub open spec fn proceed(m: Machine) -> Ran
    decreases m.program.len() - m.pc,
{
    if m.waiting is Some {
        (m, Ok(StatusView::Waiting(m.waiting->Some_0.0)))
    } else if m.pc < 0 || m.pc >= m.program.len() {
        (m, Ok(StatusView::Finished))
    } else {
        match execute(m, m.program[m.pc]) {
            Outcome::Done(after) => proceed(
                Machine { program: m.program, pc: m.pc + 1, ..after },
            ),
            Outcome::Failed(after, e) => (halted(Machine { program: m.program, ..after }), Err(e)),
        }
    }
}

/// Runs the program on the machine from its first instruction, against an
/// empty stack and an empty table of variables. Output that was not taken
/// stays.
pub open spec fn launch(m: Machine, program: Seq<InstrView>) -> Ran {
    proceed(
        Machine {
            stack: Seq::empty(),
            globals: Map::empty(),
            program,
            pc: 0,
            waiting: None,
            ..m
        },
    )
}

/// Hands the machine an answer. Where it waits for one of this kind, it
/// takes it and runs on; where the answer is of the other kind, it goes on
/// waiting; where it does not wait, it runs on as it stands.
pub open spec fn answer(m: Machine, reply: FloatReplyView) -> Ran {
    match m.waiting {
        None => proceed(m),
        Some((job, then)) => match complete(then, reply) {
            None => (m, Ok(StatusView::Waiting(job))),
            Some(Ok(v)) => proceed(Machine { waiting: None, ..pushed(m, v) }),
            Some(Err(e)) => (halted(m), Err(e)),
        },
    }
}

// ---------------------------------------------------------------------
// The executable machine
// ---------------------------------------------------------------------

/// A virtual machine: an operand stack, the global variables, the output
/// that was not yet taken, and the program with the place where it stands.
pub struct VM {
    stack: Vec<Value>,
    globals: StringHashMap<Value>,
    output: Vec<Printed>,
    program: Vec<Instr>,
    pc: usize,
    waiting: Option<(FloatJob, Then)>,
}

/// The model of what a run handed back.
pub open spec fn ran_view(r: Result<Status, PalladError>) -> Result<StatusView, ErrorView> {
    match r {
        Ok(status) => Ok(status@),
        Err(e) => Err(e@),
    }
}

impl View for VM {
    type V = Machine;

    closed spec fn view(&self) -> Machine {
        Machine {
            stack: self.stack.deep_view(),
            globals: self.globals@.map_values(|v: Value| v@),
            output: self.output.deep_view(),
            program: self.program.deep_view(),
            pc: self.pc as int,
            waiting: match self.waiting {
                Some((job, then)) => Some((job@, then@)),
                None => None,
            },
        }
    }
}

/// The line that `print` writes for a value.
fn line_of(v: &Value) -> (line: Printed)
    ensures
        line@ == shown(v@),
{
    match v {
        Value::Unit => Printed::Text(String::from_str("<none>")),
        Value::Int(n) => Printed::Text(render_i64(*n)),
        Value::Float(bits) => Printed::Float(*bits),
        Value::Str(s) => Printed::Text(s.clone()),
    }
}

impl VM {
    /// A machine with an empty stack, no variable, no output and no
    /// program.
    pub fn new() -> (vm: Self)
        ensures
            vm@ == fresh(),
    {
        let vm = Self {
            stack: Vec::new(),
            globals: StringHashMap::new(),
            output: Vec::new(),
            program: Vec::new(),
            pc: 0,
            waiting: None,
        };
        assert(vm@.stack =~= Seq::<ValueView>::empty());
        assert(vm@.output =~= Seq::<PrintedView>::empty());
        assert(vm@.program =~= Seq::<InstrView>::empty());
        assert(vm@.globals =~= Map::<Seq<char>, ValueView>::empty());
        vm
    }

    /// Pushes a value.
    fn push(&mut self, v: Value)
        ensures
            final(self)@ == pushed(old(self)@, v@),
    {
        self.stack.push(v);
        assert(self@.stack =~= old(self)@.stack.push(v@));
    }

    /// Pops the top of the stack, if there is one.
    fn pop(&mut self) -> (r: Option<Value>)
        ensures
            match r {
                Some(v) => old(self)@.stack.len() > 0 && v@ == old(self)@.stack.last()
                    && final(self)@ == (Machine {
                    stack: old(self)@.stack.drop_last(),
                    ..old(self)@
                }),
                None => old(self)@.stack.len() == 0 && final(self)@ == old(self)@,
            },
    {
        let r = self.stack.pop();
        assert(r is Some ==> self@.stack =~= old(self)@.stack.drop_last());
        r
    }

    /// Pops the two operands of an operation, the right one first, and
    /// applies the operation to them.
    fn pop_two_operands(&mut self, op: Op) -> (r: Result<Evaluation, PalladError>)
        ensures
            old(self)@.stack.len() < 2 ==> r is Err && r->Err_0@ == underflow(op_name(op))
                && final(self)@ == (Machine { stack: Seq::empty(), ..old(self)@ }),
            old(self)@.stack.len() >= 2 ==> evaluated_view(r) == evaluate(
                op,
                old(self)@.stack[old(self)@.stack.len() - 2],
                old(self)@.stack[old(self)@.stack.len() - 1],
            ) && final(self)@ == (Machine {
                stack: old(self)@.stack.take(old(self)@.stack.len() - 2),
                ..old(self)@
            }),
    {
        let b = match self.pop() {
            Some(v) => v,
            None => {
                assert(self@.stack =~= Seq::<ValueView>::empty());
                return Err(PalladError::StackUnderflow { operation: op.name() });
            },
        };
        let a = match self.pop() {
            Some(v) => v,
            None => {
                assert(self@.stack =~= Seq::<ValueView>::empty());
                return Err(PalladError::StackUnderflow { operation: op.name() });
            },
        };
        assert(self@.stack =~= old(self)@.stack.take(old(self)@.stack.len() - 2));
        apply(op, a, b)
    }

    /// Executes an arithmetic instruction.
    fn execute_arithmetic(&mut self, op: Op) -> (r: Result<(), PalladError>)
        requires
            old(self)@.waiting is None,
        ensures
            match execute_arithmetic(old(self)@, op) {
                Outcome::Done(after) => r is Ok && final(self)@ == after,
                Outcome::Failed(after, e) => r is Err && r->Err_0@ == e && final(self)@ == after,
            },
    {
        match self.pop_two_operands(op) {
            Ok(Evaluation::Value(v)) => {
                self.push(v);
                Ok(())
            },
            Ok(Evaluation::Ask(job, then)) => {
                self.waiting = Some((job, then));
                Ok(())
            },
            Err(e) => {
                assert(old(self)@.stack.len() == 0 ==> old(self)@.stack =~= Seq::<
                    ValueView,
                >::empty());
                Err(e)
            },
        }
    }

    /// Executes a call of `print` with `argc` arguments.
    fn print(&mut self, argc: usize) -> (r: Result<(), PalladError>)
        ensures
            match execute_call(old(self)@, "print"@, argc) {
                Outcome::Done(after) => r is Ok && final(self)@ == after,
                Outcome::Failed(after, e) => r is Err && r->Err_0@ == e && final(self)@ == after,
            },
    {
        let n = self.stack.len();
        if argc > n {
            self.stack.clear();
            assert(self@.stack =~= Seq::<ValueView>::empty());
            return Err(PalladError::StackUnderflow { operation: "print" });
        }
        let args = self.stack.split_off(n - argc);
        let ghost lines = old(self)@.stack.skip(n - argc).map_values(|v: ValueView| shown(v));
        assert(self@.stack =~= old(self)@.stack.take(n - argc));
        assert(args.deep_view() =~= old(self)@.stack.skip(n - argc));
        let mut i: usize = 0;
        assert(self@.output =~= old(self)@.output + lines.take(0));
        while i < args.len()
            invariant
                i <= args.len(),
                args.len() == lines.len(),
                forall|k: int| 0 <= k < args.len() ==> shown(#[trigger] args[k]@) == lines[k],
                self@ == (Machine {
                    stack: old(self)@.stack.take(n - argc),
                    output: old(self)@.output + lines.take(i as int),
                    ..old(self)@
                }),
            decreases args.len() - i,
        {
            let ghost before = self@.output;
            self.output.push(line_of(&args[i]));
            assert(self@.output =~= before.push(lines[i as int]));
            assert(before.push(lines[i as int]) =~= old(self)@.output + lines.take(i + 1));
            i += 1;
        }
        assert(lines.take(i as int) =~= lines);
        Ok(())
    }

    /// Executes the instruction at which the machine stands, without moving
    /// on to the next.
    fn execute(&mut self) -> (r: Result<(), PalladError>)
        requires
            old(self)@.waiting is None,
            0 <= old(self)@.pc < old(self)@.program.len(),
        ensures
            match execute(old(self)@, old(self)@.program[old(self)@.pc]) {
                Outcome::Done(after) => r is Ok && final(self)@ == after,
                Outcome::Failed(after, e) => r is Err && r->Err_0@ == e && final(self)@ == after,
            },
    {
        match &self.program[self.pc] {
            Instr::LoadNone => {
                self.stack.push(Value::Unit);
                assert(self@.stack =~= old(self)@.stack.push(ValueView::Unit));
                Ok(())
            },
            Instr::LoadInt(n) => {
                self.stack.push(Value::Int(*n));
                assert(self@.stack =~= old(self)@.stack.push(ValueView::Int(*n)));
                Ok(())
            },
            Instr::LoadFloat(text) => {
                self.waiting = Some((FloatJob::Parse(text.clone()), Then::PushFloat));
                Ok(())
            },
            Instr::LoadStr(s) => {
                self.stack.push(Value::Str(s.clone()));
                assert(self@.stack =~= old(self)@.stack.push(ValueView::Str(s@)));
                Ok(())
            },
            Instr::LoadVar(name) => {
                match self.globals.get(name.as_str()) {
                    Some(v) => {
                        let found = v.clone();
                        self.stack.push(found);
                        assert(self@.stack =~= old(self)@.stack.push(old(self)@.globals[name@]));
                        Ok(())
                    },
                    None => Err(PalladError::UndefinedVariable { name: name.clone() }),
                }
            },
            Instr::StoreVar(name) => {
                match self.stack.pop() {
                    Some(v) => {
                        self.globals.insert(name.clone(), v);
                        assert(self@.stack =~= old(self)@.stack.drop_last());
                        assert(self@.globals =~= old(self)@.globals.insert(
                            name@,
                            old(self)@.stack.last(),
                        ));
                        Ok(())
                    },
                    None => Err(PalladError::StackUnderflow { operation: "store variable" }),
                }
            },
            Instr::Add => self.execute_arithmetic(Op::Add),
            Instr::Sub => self.execute_arithmetic(Op::Sub),
            Instr::Mul => self.execute_arithmetic(Op::Mul),
            Instr::Div => self.execute_arithmetic(Op::Div),
            Instr::IntDiv => self.execute_arithmetic(Op::IntDiv),
            Instr::Mod => self.execute_arithmetic(Op::Mod),
            Instr::CallBuiltin { name, argc } => {
                let known = String::from_str("print");
                if *name == known {
                    let count = *argc;
                    self.print(count)
                } else {
                    Err(PalladError::UnknownBuiltin { name: name.clone() })
                }
            },
            Instr::Pop => {
                match self.stack.pop() {
                    Some(_) => {
                        assert(self@.stack =~= old(self)@.stack.drop_last());
                        Ok(())
                    },
                    None => Err(PalladError::StackUnderflow { operation: "Pop" }),
                }
            },
        }
    }

    /// Runs on from where the machine stands.
    fn proceed(&mut self) -> (r: Result<Status, PalladError>)
        ensures
            (final(self)@, ran_view(r)) == proceed(old(self)@),
    {
        loop
            invariant
                proceed(self@) == proceed(old(self)@),
            decreases self.program.len() - self.pc,
        {
            match &self.waiting {
                Some((job, _)) => {
                    return Ok(Status::Waiting(job.clone()));
                },
                None => {},
            }
            if self.pc >= self.program.len() {
                return Ok(Status::Finished);
            }
            match self.execute() {
                Ok(()) => {
                    self.pc += 1;
                },
                Err(e) => {
                    self.pc = self.program.len();
                    self.waiting = None;
                    return Err(e);
                },
            }
        }
    }

    /// Runs a program.
    ///
    /// Every run starts with an empty stack and an empty table of variables:
    /// nothing of an earlier run is left but the output that was not taken.
    /// The machine executes the program from its first instruction and hands
    /// control back when the program has ended, when an instruction has
    /// failed, or when it needs the answer to a [`FloatJob`], which
    /// [`VM::resume`] takes.
    pub fn run(&mut self, program: Vec<Instr>) -> (r: Result<Status, PalladError>)
        ensures
            (final(self)@, ran_view(r)) == launch(old(self)@, program.deep_view()),
    {
        self.stack.clear();
        self.globals.clear();
        self.pc = 0;
        self.program = program;
        self.waiting = None;
        assert(self@.stack =~= Seq::<ValueView>::empty());
        assert(self@.globals =~= Map::<Seq<char>, ValueView>::empty());
        self.proceed()
    }

    /// Hands the machine the answer to the job it waits for, and runs on.
    ///
    /// An answer of the wrong kind is not taken: the machine names its job
    /// again. A machine that waits for nothing runs on as it stands.
    pub fn resume(&mut self, reply: FloatReply) -> (r: Result<Status, PalladError>)
        ensures
            (final(self)@, ran_view(r)) == answer(old(self)@, reply@),
    {
        let resolved = match &self.waiting {
            None => {
                return self.proceed();
            },
            Some((job, then)) => match resolve(then, reply) {
                Some(result) => result,
                None => {
                    return Ok(Status::Waiting(job.clone()));
                },
            },
        };
        match resolved {
            Ok(v) => {
                self.waiting = None;
                self.push(v);
                self.proceed()
            },
            Err(e) => {
                self.pc = self.program.len();
                self.waiting = None;
                Err(e)
            },
        }
    }

    /// The operand stack; its last element is the top.
    pub fn stack(&self) -> (r: &Vec<Value>)
        ensures
            r.deep_view() == self@.stack,
    {
        &self.stack
    }

    /// The value of a global variable, if it was stored.
    pub fn global(&self, name: &str) -> (r: Option<&Value>)
        ensures
            match r {
                Some(v) => self@.globals.contains_key(name@) && v@ == self@.globals[name@],
                None => !self@.globals.contains_key(name@),
            },
    {
        self.globals.get(name)
    }

    /// The job whose answer the machine waits for, if it waits.
    pub fn waiting_for(&self) -> (r: Option<&FloatJob>)
        ensures
            match r {
                Some(job) => self@.waiting is Some && job@ == self@.waiting->Some_0.0,
                None => self@.waiting is None,
            },
    {
        match &self.waiting {
            Some((job, _)) => Some(job),
            None => None,
        }
    }

    /// Takes the lines that were printed since they were last taken.
    pub fn take_output(&mut self) -> (lines: Vec<Printed>)
        ensures
            lines.deep_view() == old(self)@.output,
            final(self)@ == (Machine { output: Seq::empty(), ..old(self)@ }),
    {
        let mut lines: Vec<Printed> = Vec::new();
        core::mem::swap(&mut lines, &mut self.output);
        assert(self@.output =~= Seq::<PrintedView>::empty());
        lines
    }
}

} // verus!
