//! The stack discipline of compiled programs.
//!
//! A program that the parser accepts lowers to code that never takes from
//! an empty stack and leaves the stack as high as it found it; a machine
//! that runs such code never fails with a stack underflow and ends with an
//! empty stack, whatever the answers to its floating-point jobs are.

use vstd::prelude::*;
use crate::ast::{ExprView, StmtView};
use crate::compiler::{call_instr, lower, lower_args, lower_expr, lower_stmt, op_instr};
use crate::error::ErrorView;
use crate::ir::InstrView;
use crate::lexer::TokenView;
use crate::parser::{
    arguments, binary, expression, factor, lemma_arguments_advance, lemma_expression_advances,
    lemma_statement_advances, let_statement, parse_program, print_statement, product,
    product_op, product_rest, statements, sum, sum_op, sum_rest,
};
use crate::value::ValueView;
use crate::vm::{
    answer, arithmetic, complete, evaluate, execute, execute_arithmetic, launch, proceed,
    FloatReplyView, Machine, Op, Outcome, Ran, StatusView,
};

verus! {

// ---------------------------------------------------------------------
// The height of the stack, read off the code
// ---------------------------------------------------------------------

/// How many values an instruction takes off the stack.
pub open spec fn takes(i: InstrView) -> int {
    match i {
        InstrView::LoadNone => 0,
        InstrView::LoadInt(_) => 0,
        InstrView::LoadFloat(_) => 0,
        InstrView::LoadStr(_) => 0,
        InstrView::LoadVar(_) => 0,
        InstrView::StoreVar(_) => 1,
        InstrView::CallBuiltin { name, argc } => argc as int,
        InstrView::Pop => 1,
        _ => 2,
    }
}

/// How many values an instruction leaves on the stack.
pub open spec fn leaves(i: InstrView) -> int {
    match i {
        InstrView::StoreVar(_) => 0,
        InstrView::CallBuiltin { name, argc } => 0,
        InstrView::Pop => 0,
        _ => 1,
    }
}

/// The height of the stack behind the code, started at height `h`; `None`
/// where an instruction would take more than there is.
pub open spec fn height_after(code: Seq<InstrView>, h: int) -> Option<int>
    decreases code.len(),
{
    if code.len() == 0 {
        Some(h)
    } else {
        match height_after(code.drop_last(), h) {
            Some(k) => if k >= takes(code.last()) {
                Some(k - takes(code.last()) + leaves(code.last()))
            } else {
                None
            },
            None => None,
        }
    }
}

/// Code that never takes from an empty stack and leaves the stack as high
/// as it found it.
pub open spec fn stack_neutral(code: Seq<InstrView>) -> bool {
    height_after(code, 0) == Some(0int)
}

/// The height behind two pieces of code is the height behind the second,
/// started where the first ended.
pub proof fn lemma_height_concat(a: Seq<InstrView>, b: Seq<InstrView>, h: int)
    ensures
        height_after(a + b, h) == match height_after(a, h) {
            Some(k) => height_after(b, k),
            None => None,
        },
    decreases b.len(),
{
    if b.len() == 0 {
        assert(a + b =~= a);
    } else {
        lemma_height_concat(a, b.drop_last(), h);
        assert((a + b).drop_last() =~= a + b.drop_last());
        assert((a + b).last() == b.last());
    }
}

/// The height behind a single instruction.
pub proof fn lemma_height_one(i: InstrView, h: int)
    ensures
        height_after(seq![i], h) == if h >= takes(i) {
            Some(h - takes(i) + leaves(i))
        } else {
            None
        },
{
    let code = seq![i];
    assert(code.drop_last() =~= Seq::<InstrView>::empty());
    assert(height_after(code.drop_last(), h) == Some(h));
}

/// Code that runs through runs through every prefix of itself.
pub proof fn lemma_height_prefix(code: Seq<InstrView>, h: int, n: int)
    requires
        0 <= n <= code.len(),
        height_after(code, h) is Some,
    ensures
        height_after(code.take(n), h) is Some,
    decreases code.len(),
{
    if n < code.len() {
        lemma_height_prefix(code.drop_last(), h, n);
        assert(code.drop_last().take(n) =~= code.take(n));
    } else {
        assert(code.take(n) =~= code);
    }
}

/// The height behind one more instruction of the code.
pub proof fn lemma_height_step(code: Seq<InstrView>, h: int, n: int)
    requires
        0 <= n < code.len(),
    ensures
        height_after(code.take(n + 1), h) == match height_after(code.take(n), h) {
            Some(k) => if k >= takes(code[n]) {
                Some(k - takes(code[n]) + leaves(code[n]))
            } else {
                None
            },
            None => None,
        },
{
    assert(code.take(n + 1).drop_last() =~= code.take(n));
    assert(code.take(n + 1).last() == code[n]);
}

// ---------------------------------------------------------------------
// What the parser builds
// ---------------------------------------------------------------------

/// An expression without a call in it.
pub open spec fn call_free(e: ExprView) -> bool
    decreases e,
{
    match e {
        ExprView::Binary { left, op, right } => call_free(*left) && call_free(*right),
        ExprView::Call { name, args } => false,
        _ => true,
    }
}

/// Expressions without a call in them.
pub open spec fn all_call_free(args: Seq<ExprView>) -> bool {
    forall|i: int| 0 <= i < args.len() ==> call_free(#[trigger] args[i])
}

/// A statement as the parser builds it: a call stands only at statement
/// position, and the number of its arguments fits its instruction.
pub open spec fn plain(s: StmtView) -> bool {
    match s {
        StmtView::Let { name, expr } => call_free(expr),
        StmtView::Expr(ExprView::Call { name, args }) => all_call_free(args) && args.len()
            <= usize::MAX,
        StmtView::Expr(expr) => call_free(expr),
    }
}

/// Statements as the parser builds them.
pub open spec fn all_plain(stmts: Seq<StmtView>) -> bool {
    forall|i: int| 0 <= i < stmts.len() ==> plain(#[trigger] stmts[i])
}

proof fn lemma_factor_call_free(ts: Seq<TokenView>, pos: int)
    requires
        0 <= pos,
    ensures
        factor(ts, pos) is Ok ==> call_free(factor(ts, pos)->Ok_0.0),
    decreases ts.len() - pos, 0nat,
{
    if pos < ts.len() {
        match ts[pos] {
            TokenView::Minus => {
                lemma_factor_call_free(ts, pos + 1);
                assert(call_free(ExprView::Int(0)));
            },
            TokenView::LParen => {
                lemma_sum_call_free(ts, pos + 1);
            },
            _ => {},
        }
    }
}

proof fn lemma_product_rest_call_free(ts: Seq<TokenView>, pos: int, left: ExprView)
    requires
        0 <= pos,
        call_free(left),
    ensures
        product_rest(ts, pos, left) is Ok ==> call_free(product_rest(ts, pos, left)->Ok_0.0),
    decreases ts.len() - pos, 1nat,
{
    if pos < ts.len() && product_op(ts[pos]) is Some {
        lemma_factor_call_free(ts, pos + 1);
        if let Ok((right, next)) = factor(ts, pos + 1) {
            if pos < next <= ts.len() {
                lemma_product_rest_call_free(
                    ts,
                    next,
                    binary(left, product_op(ts[pos])->Some_0, right),
                );
            }
        }
    }
}

proof fn lemma_product_call_free(ts: Seq<TokenView>, pos: int)
    requires
        0 <= pos,
    ensures
        product(ts, pos) is Ok ==> call_free(product(ts, pos)->Ok_0.0),
    decreases ts.len() - pos, 2nat,
{
    lemma_factor_call_free(ts, pos);
    if let Ok((left, next)) = factor(ts, pos) {
        if pos <= next <= ts.len() {
            lemma_product_rest_call_free(ts, next, left);
        }
    }
}

proof fn lemma_sum_rest_call_free(ts: Seq<TokenView>, pos: int, left: ExprView)
    requires
        0 <= pos,
        call_free(left),
    ensures
        sum_rest(ts, pos, left) is Ok ==> call_free(sum_rest(ts, pos, left)->Ok_0.0),
    decreases ts.len() - pos, 3nat,
{
    if pos < ts.len() && sum_op(ts[pos]) is Some {
        lemma_product_call_free(ts, pos + 1);
        if let Ok((right, next)) = product(ts, pos + 1) {
            if pos < next <= ts.len() {
                lemma_sum_rest_call_free(ts, next, binary(left, sum_op(ts[pos])->Some_0, right));
            }
        }
    }
}

proof fn lemma_sum_call_free(ts: Seq<TokenView>, pos: int)
    requires
        0 <= pos,
    ensures
        sum(ts, pos) is Ok ==> call_free(sum(ts, pos)->Ok_0.0),
    decreases ts.len() - pos, 4nat,
{
    lemma_product_call_free(ts, pos);
    if let Ok((left, next)) = product(ts, pos) {
        if pos <= next <= ts.len() {
            lemma_sum_rest_call_free(ts, next, left);
        }
    }
}

/// The parser builds no call inside an expression.
pub proof fn lemma_expression_call_free(ts: Seq<TokenView>, pos: int)
    requires
        0 <= pos,
    ensures
        expression(ts, pos) is Ok ==> call_free(expression(ts, pos)->Ok_0.0),
{
    lemma_sum_call_free(ts, pos);
}

proof fn lemma_arguments_call_free(ts: Seq<TokenView>, pos: int, args: Seq<ExprView>)
    requires
        0 <= pos,
        all_call_free(args),
    ensures
        arguments(ts, pos, args) is Ok ==> {
            &&& all_call_free(arguments(ts, pos, args)->Ok_0.0)
            &&& arguments(ts, pos, args)->Ok_0.0.len() + pos <= args.len() + arguments(
                ts,
                pos,
                args,
            )->Ok_0.1
        },
    decreases ts.len() - pos,
{
    if 0 <= pos < ts.len() && ts[pos] is RParen {
    } else {
        lemma_expression_advances(ts, pos);
        lemma_expression_call_free(ts, pos);
        if let Ok((arg, next)) = expression(ts, pos) {
            let more = args.push(arg);
            assert(all_call_free(more)) by {
                assert forall|i: int| 0 <= i < more.len() implies call_free(#[trigger] more[i]) by {
                    if i < args.len() {
                        assert(more[i] == args[i]);
                    }
                }
            }
            if next < ts.len() && ts[next] is Comma {
                lemma_arguments_call_free(ts, next + 1, more);
            }
        }
    }
}

/// The parser builds plain statements.
pub proof fn lemma_statements_plain(ts: Seq<TokenView>, pos: int)
    requires
        0 <= pos,
        ts.len() <= usize::MAX,
    ensures
        statements(ts, pos) is Ok ==> all_plain(statements(ts, pos)->Ok_0),
    decreases ts.len() - pos,
{
    if pos < ts.len() {
        lemma_statement_advances(ts, pos);
        match ts[pos] {
            TokenView::Var => {
                lemma_expression_call_free(ts, pos + 3);
                if let Ok((s, next)) = let_statement(ts, pos) {
                    lemma_statements_plain(ts, next);
                    if let Ok(rest) = statements(ts, next) {
                        let all = seq![s] + rest;
                        assert forall|i: int| 0 <= i < all.len() implies plain(
                            #[trigger] all[i],
                        ) by {
                            if i > 0 {
                                assert(all[i] == rest[i - 1]);
                            }
                        }
                    }
                }
            },
            TokenView::Print => {
                lemma_arguments_call_free(ts, pos + 2, Seq::empty());
                lemma_arguments_advance(ts, pos + 2, Seq::empty());
                if let Ok((s, next)) = print_statement(ts, pos) {
                    lemma_statements_plain(ts, next);
                    if let Ok(rest) = statements(ts, next) {
                        let all = seq![s] + rest;
                        assert forall|i: int| 0 <= i < all.len() implies plain(
                            #[trigger] all[i],
                        ) by {
                            if i > 0 {
                                assert(all[i] == rest[i - 1]);
                            }
                        }
                    }
                }
            },
            TokenView::Eol => {
                lemma_statements_plain(ts, pos + 1);
            },
            _ => {},
        }
    }
}

// ---------------------------------------------------------------------
// What lowering makes of it
// ---------------------------------------------------------------------

/// The code of an expression without calls leaves one value more.
pub proof fn lemma_expr_leaves_one(e: ExprView, h: int)
    requires
        call_free(e),
        h >= 0,
    ensures
        height_after(lower_expr(e), h) == Some(h + 1),
    decreases e,
{
    match e {
        ExprView::Binary { left, op, right } => {
            lemma_expr_leaves_one(*left, h);
            lemma_expr_leaves_one(*right, h + 1);
            lemma_height_concat(lower_expr(*left), lower_expr(*right), h);
            lemma_height_concat(
                lower_expr(*left) + lower_expr(*right),
                seq![op_instr(op)],
                h,
            );
            lemma_height_one(op_instr(op), h + 2);
        },
        ExprView::Unit => {
            lemma_height_one(InstrView::LoadNone, h);
        },
        ExprView::Int(n) => {
            lemma_height_one(InstrView::LoadInt(n), h);
        },
        ExprView::Float(text) => {
            lemma_height_one(InstrView::LoadFloat(text), h);
        },
        ExprView::Str(s) => {
            lemma_height_one(InstrView::LoadStr(s), h);
        },
        ExprView::Var(name) => {
            lemma_height_one(InstrView::LoadVar(name), h);
        },
        ExprView::Call { name, args } => {},
    }
}

/// The code of arguments without calls leaves one value for each.
pub proof fn lemma_args_leave_each(args: Seq<ExprView>, h: int)
    requires
        all_call_free(args),
        h >= 0,
    ensures
        height_after(lower_args(args), h) == Some(h + args.len()),
    decreases args.len(),
{
    if args.len() > 0 {
        let front = args.drop_last();
        assert(all_call_free(front)) by {
            assert forall|i: int| 0 <= i < front.len() implies call_free(#[trigger] front[i]) by {
                assert(front[i] == args[i]);
            }
        }
        lemma_args_leave_each(front, h);
        assert(call_free(args[args.len() - 1]));
        lemma_expr_leaves_one(args.last(), h + front.len());
        lemma_height_concat(lower_args(front), lower_expr(args.last()), h);
    }
}

/// The code of a plain statement leaves the stack as high as it found it.
pub proof fn lemma_stmt_neutral(s: StmtView, h: int)
    requires
        plain(s),
        h >= 0,
    ensures
        height_after(lower_stmt(s), h) == Some(h),
{
    match s {
        StmtView::Let { name, expr } => {
            lemma_expr_leaves_one(expr, h);
            lemma_height_concat(lower_expr(expr), seq![InstrView::StoreVar(name)], h);
            lemma_height_one(InstrView::StoreVar(name), h + 1);
        },
        StmtView::Expr(ExprView::Call { name, args }) => {
            lemma_args_leave_each(args, h);
            lemma_height_concat(lower_args(args), seq![call_instr(name, args)], h);
            lemma_height_one(call_instr(name, args), h + args.len());
        },
        StmtView::Expr(expr) => {
            lemma_expr_leaves_one(expr, h);
            lemma_height_concat(lower_expr(expr), seq![InstrView::Pop], h);
            lemma_height_one(InstrView::Pop, h + 1);
        },
    }
}

/// The code of plain statements leaves the stack as high as it found it.
pub proof fn lemma_program_neutral(stmts: Seq<StmtView>, h: int)
    requires
        all_plain(stmts),
        h >= 0,
    ensures
        height_after(lower(stmts), h) == Some(h),
    decreases stmts.len(),
{
    if stmts.len() > 0 {
        let front = stmts.drop_last();
        assert(all_plain(front)) by {
            assert forall|i: int| 0 <= i < front.len() implies plain(#[trigger] front[i]) by {
                assert(front[i] == stmts[i]);
            }
        }
        lemma_program_neutral(front, h);
        assert(plain(stmts[stmts.len() - 1]));
        lemma_stmt_neutral(stmts.last(), h);
        lemma_height_concat(lower(front), lower_stmt(stmts.last()), h);
    }
}

/// What parses lowers to stack-neutral code.
pub proof fn lemma_parsed_code_is_neutral(ts: Seq<TokenView>)
    requires
        ts.len() <= usize::MAX,
        parse_program(ts) is Ok,
    ensures
        stack_neutral(lower(parse_program(ts)->Ok_0)),
{
    lemma_statements_plain(ts, 0);
    lemma_program_neutral(parse_program(ts)->Ok_0, 0);
}

// ---------------------------------------------------------------------
// The machine keeps to the heights
// ---------------------------------------------------------------------

/// How many values the machine still owes its stack: one while it waits for
/// the answer to a job, whose value it has yet to push.
pub open spec fn owed(m: Machine) -> int {
    if m.waiting is Some {
        1
    } else {
        0
    }
}

/// The machine runs stack-neutral code and its stack is as high as the code
/// before its place says.
pub open spec fn in_step(m: Machine) -> bool {
    &&& stack_neutral(m.program)
    &&& 0 <= m.pc <= m.program.len()
    &&& height_after(m.program.take(m.pc), 0) == Some(m.stack.len() + owed(m))
}

/// What a run handed back is no stack underflow.
pub open spec fn no_underflow(r: Result<StatusView, ErrorView>) -> bool {
    !(r is Err && r->Err_0 is StackUnderflow)
}

/// Applying an operation to two operands never fails for want of operands.
pub proof fn lemma_evaluate_no_underflow(op: Op, a: ValueView, b: ValueView)
    ensures
        evaluate(op, a, b) is Fail ==> !(evaluate(op, a, b)->Fail_0 is StackUnderflow),
{
}

/// An instruction that finds enough on the stack changes its height as the
/// code says, counting the value that a job still owes; where it fails, it
/// is not for want of operands.
pub proof fn lemma_execute_height(m: Machine, i: InstrView)
    requires
        m.waiting is None,
        m.stack.len() >= takes(i),
    ensures
        match execute(m, i) {
            Outcome::Done(after) => after.stack.len() + owed(after) == m.stack.len() - takes(i)
                + leaves(i),
            Outcome::Failed(after, e) => !(e is StackUnderflow),
        },
{
    match i {
        InstrView::CallBuiltin { name, argc } => {},
        InstrView::LoadNone => {},
        InstrView::LoadInt(_) => {},
        InstrView::LoadFloat(_) => {},
        InstrView::LoadStr(_) => {},
        InstrView::LoadVar(_) => {},
        InstrView::StoreVar(_) => {},
        InstrView::Pop => {},
        _ => {
            let op = arithmetic(i)->Some_0;
            let n = m.stack.len() as int;
            lemma_evaluate_no_underflow(op, m.stack[n - 2], m.stack[n - 1]);
            assert(execute(m, i) == execute_arithmetic(m, op));
        },
    }
}

/// A machine in step stays in step while it runs on, never fails with a
/// stack underflow, and ends with an empty stack.
pub proof fn lemma_proceed_in_step(m: Machine)
    requires
        in_step(m),
    ensures
        proceed(m).1 is Ok ==> in_step(proceed(m).0),
        no_underflow(proceed(m).1),
        proceed(m).1 == Ok::<StatusView, ErrorView>(StatusView::Finished) ==> proceed(
            m,
        ).0.stack.len() == 0,
    decreases m.program.len() - m.pc,
{
    if m.waiting is Some {
    } else if m.pc >= m.program.len() {
        assert(m.program.take(m.pc) =~= m.program);
    } else {
        let i = m.program[m.pc];
        lemma_height_step(m.program, 0, m.pc);
        lemma_height_prefix(m.program, 0, m.pc + 1);
        lemma_execute_height(m, i);
        match execute(m, i) {
            Outcome::Done(after) => {
                let next = Machine { program: m.program, pc: m.pc + 1, ..after };
                lemma_proceed_in_step(next);
            },
            Outcome::Failed(after, e) => {},
        }
    }
}

/// A machine in step stays in step over an answer, and does not fail with a
/// stack underflow.
pub proof fn lemma_answer_in_step(m: Machine, reply: FloatReplyView)
    requires
        in_step(m),
    ensures
        answer(m, reply).1 is Ok ==> in_step(answer(m, reply).0),
        no_underflow(answer(m, reply).1),
        answer(m, reply).1 == Ok::<StatusView, ErrorView>(StatusView::Finished) ==> answer(
            m,
            reply,
        ).0.stack.len() == 0,
{
    match m.waiting {
        None => {
            lemma_proceed_in_step(m);
        },
        Some((job, then)) => match complete(then, reply) {
            None => {},
            Some(Ok(v)) => {
                let next = Machine { waiting: None, stack: m.stack.push(v), ..m };
                lemma_proceed_in_step(next);
            },
            Some(Err(e)) => {},
        },
    }
}

/// A machine that is started on stack-neutral code is in step when it first
/// hands control back, and has not failed with a stack underflow.
pub proof fn lemma_launch_in_step(m: Machine, code: Seq<InstrView>)
    requires
        stack_neutral(code),
    ensures
        launch(m, code).1 is Ok ==> in_step(launch(m, code).0),
        no_underflow(launch(m, code).1),
        launch(m, code).1 == Ok::<StatusView, ErrorView>(StatusView::Finished) ==> launch(
            m,
            code,
        ).0.stack.len() == 0,
{
    let start = Machine {
        stack: Seq::empty(),
        globals: Map::empty(),
        program: code,
        pc: 0,
        waiting: None,
        ..m
    };
    assert(code.take(0) =~= Seq::<InstrView>::empty());
    lemma_proceed_in_step(start);
}

/// A run that goes on with the given answers, one for each time the machine
/// hands control back; once it has failed, it is over.
pub open spec fn replay(start: Ran, replies: Seq<FloatReplyView>) -> Ran
    decreases replies.len(),
{
    if replies.len() == 0 {
        start
    } else {
        let before = replay(start, replies.drop_last());
        if before.1 is Ok {
            answer(before.0, replies.last())
        } else {
            before
        }
    }
}

/// A run of stack-neutral code never fails with a stack underflow, and once
/// it has come to its end it has left the stack empty, whatever was answered
/// on the way.
pub proof fn lemma_neutral_code_runs_balanced(
    m: Machine,
    code: Seq<InstrView>,
    replies: Seq<FloatReplyView>,
)
    requires
        stack_neutral(code),
    ensures
        replay(launch(m, code), replies).1 is Ok ==> in_step(
            replay(launch(m, code), replies).0,
        ),
        no_underflow(replay(launch(m, code), replies).1),
        replay(launch(m, code), replies).1 == Ok::<StatusView, ErrorView>(
            StatusView::Finished,
        ) ==> replay(launch(m, code), replies).0.stack.len() == 0,
    decreases replies.len(),
{
    if replies.len() == 0 {
        lemma_launch_in_step(m, code);
    } else {
        lemma_neutral_code_runs_balanced(m, code, replies.drop_last());
        let before = replay(launch(m, code), replies.drop_last());
        if before.1 is Ok {
            lemma_answer_in_step(before.0, replies.last());
        }
    }
}

/// The stack-balance law: where tokens parse, the code that their
/// statements lower to, run on any machine, never fails with a stack
/// underflow, and leaves the stack empty when the run has come to its end,
/// whatever is answered to its floating-point jobs.
pub proof fn lemma_stack_balance(ts: Seq<TokenView>, m: Machine, replies: Seq<FloatReplyView>)
    requires
        ts.len() <= usize::MAX,
        parse_program(ts) is Ok,
    ensures
        no_underflow(replay(launch(m, lower(parse_program(ts)->Ok_0)), replies).1),
        replay(launch(m, lower(parse_program(ts)->Ok_0)), replies).1 == Ok::<
            StatusView,
            ErrorView,
        >(StatusView::Finished) ==> replay(
            launch(m, lower(parse_program(ts)->Ok_0)),
            replies,
        ).0.stack.len() == 0,
{
    lemma_parsed_code_is_neutral(ts);
    lemma_neutral_code_runs_balanced(m, lower(parse_program(ts)->Ok_0), replies);
}

} // verus!
