//! Lowering: from statements to stack-machine instructions.
//!
//! An expression lowers to code that leaves its value on the stack: operands
//! before operators. Lowering cannot fail.

use vstd::prelude::*;
use crate::ast::{BinOp, Expr, ExprView, Stmt, StmtView};
use crate::error::PalladError;
use crate::ir::{Instr, InstrView};

verus! {

/// The instruction of a binary operator.
pub open spec fn op_instr(op: BinOp) -> InstrView {
    match op {
        BinOp::Add => InstrView::Add,
        BinOp::Sub => InstrView::Sub,
        BinOp::Mul => InstrView::Mul,
        BinOp::Div => InstrView::Div,
        BinOp::IntDiv => InstrView::IntDiv,
        BinOp::Mod => InstrView::Mod,
    }
}

/// The call of a builtin with as many arguments as were lowered before it.
pub open spec fn call_instr(name: Seq<char>, args: Seq<ExprView>) -> InstrView {
    InstrView::CallBuiltin { name, argc: args.len() as usize }
}

/// The code of an expression: a literal or a variable is one load; a binary
/// node is the code of its left operand, of its right operand, and its
/// operator; a call is the code of its arguments, left to right, and the
/// call.
pub open spec fn lower_expr(e: ExprView) -> Seq<InstrView>
    decreases e,
{
    match e {
        ExprView::Unit => seq![InstrView::LoadNone],
        ExprView::Int(n) => seq![InstrView::LoadInt(n)],
        ExprView::Float(text) => seq![InstrView::LoadFloat(text)],
        ExprView::Str(s) => seq![InstrView::LoadStr(s)],
        ExprView::Var(name) => seq![InstrView::LoadVar(name)],
        ExprView::Binary { left, op, right } => lower_expr(*left) + lower_expr(*right)
            + seq![op_instr(op)],
        ExprView::Call { name, args } => lower_args(args) + seq![call_instr(name, args)],
    }
}

/// The code of the arguments of a call, one after the other.
pub open spec fn lower_args(args: Seq<ExprView>) -> Seq<InstrView>
    decreases args,
{
    if args.len() == 0 {
        Seq::empty()
    } else {
        lower_args(args.drop_last()) + lower_expr(args.last())
    }
}

/// The code of a statement: a binding stores the value of its expression; a
/// call at statement position leaves nothing behind; the value of any other
/// expression is popped.
pub open spec fn lower_stmt(s: StmtView) -> Seq<InstrView> {
    match s {
        StmtView::Let { name, expr } => lower_expr(expr) + seq![InstrView::StoreVar(name)],
        StmtView::Expr(ExprView::Call { name, args }) => lower_args(args) + seq![
            call_instr(name, args),
        ],
        StmtView::Expr(expr) => lower_expr(expr) + seq![InstrView::Pop],
    }
}

/// The code of a program: the code of its statements, in order.
pub open spec fn lower(stmts: Seq<StmtView>) -> Seq<InstrView>
    decreases stmts.len(),
{
    if stmts.len() == 0 {
        Seq::empty()
    } else {
        lower(stmts.drop_last()) + lower_stmt(stmts.last())
    }
}

/// The instruction of a binary operator.
fn instr_of(op: BinOp) -> (i: Instr)
    ensures
        i@ == op_instr(op),
{
    match op {
        BinOp::Add => Instr::Add,
        BinOp::Sub => Instr::Sub,
        BinOp::Mul => Instr::Mul,
        BinOp::Div => Instr::Div,
        BinOp::IntDiv => Instr::IntDiv,
        BinOp::Mod => Instr::Mod,
    }
}

/// Appends `instr` to the program.
fn emit(program: &mut Vec<Instr>, instr: Instr)
    ensures
        final(program).deep_view() == old(program).deep_view() + seq![instr@],
{
    program.push(instr);
    assert(program.deep_view() =~= old(program).deep_view() + seq![instr@]);
}

/// Appends the code of the arguments of a call to the program.
fn compile_args(args: &Vec<Expr>, program: &mut Vec<Instr>)
    ensures
        final(program).deep_view() == old(program).deep_view() + lower_args(args.deep_view()),
    decreases args,
{
    let ghost before = program.deep_view();
    let ghost all = args.deep_view();
    let mut i: usize = 0;
    assert(all.take(0) =~= Seq::<ExprView>::empty());
    assert(before + lower_args(all.take(0)) =~= before);
    while i < args.len()
        invariant
            i <= args.len(),
            all == args.deep_view(),
            program.deep_view() == before + lower_args(all.take(i as int)),
        decreases args.len() - i,
    {
        let ghost seen = program.deep_view();
        compile_expr(&args[i], program);
        proof {
            let next = all.take(i + 1);
            assert(next.drop_last() =~= all.take(i as int));
            assert(next.last() == args[i as int]@);
            assert(seen + lower_expr(args[i as int]@) =~= before + lower_args(next));
        }
        i += 1;
    }
    assert(all.take(i as int) =~= all);
}

/// Appends the code of an expression to the program.
fn compile_expr(expr: &Expr, program: &mut Vec<Instr>)
    ensures
        final(program).deep_view() == old(program).deep_view() + lower_expr(expr@),
    decreases expr,
{
    let ghost before = program.deep_view();
    match expr {
        Expr::Unit => emit(program, Instr::LoadNone),
        Expr::Int(n) => emit(program, Instr::LoadInt(*n)),
        Expr::Float(text) => emit(program, Instr::LoadFloat(text.clone())),
        Expr::Str(s) => emit(program, Instr::LoadStr(s.clone())),
        Expr::Var(name) => emit(program, Instr::LoadVar(name.clone())),
        Expr::Binary { left, op, right } => {
            compile_expr(left, program);
            compile_expr(right, program);
            emit(program, instr_of(*op));
            assert(program.deep_view() =~= before + lower_expr(expr@));
        },
        Expr::Call { name, args } => {
            proof {
                crate::ast::lemma_call_args_view(*name, *args);
            }
            compile_args(args, program);
            emit(program, Instr::CallBuiltin { name: name.clone(), argc: args.len() });
            assert(program.deep_view() =~= before + lower_expr(expr@));
        },
    }
}

/// Appends the code of a statement to the program.
fn compile_stmt(stmt: &Stmt, program: &mut Vec<Instr>)
    ensures
        final(program).deep_view() == old(program).deep_view() + lower_stmt(stmt@),
{
    let ghost before = program.deep_view();
    match stmt {
        Stmt::Let { name, expr } => {
            compile_expr(expr, program);
            emit(program, Instr::StoreVar(name.clone()));
            assert(program.deep_view() =~= before + lower_stmt(stmt@));
        },
        Stmt::Expr(Expr::Call { name, args }) => {
            proof {
                crate::ast::lemma_call_args_view(*name, *args);
            }
            compile_args(args, program);
            emit(program, Instr::CallBuiltin { name: name.clone(), argc: args.len() });
            assert(program.deep_view() =~= before + lower_stmt(stmt@));
        },
        Stmt::Expr(expr) => {
            compile_expr(expr, program);
            emit(program, Instr::Pop);
            assert(program.deep_view() =~= before + lower_stmt(stmt@));
        },
    }
}

/// Lowers statements to instructions.
///
/// Always succeeds; the result type leaves room for failures of lowering.
pub fn compile(stmts: Vec<Stmt>) -> (r: Result<Vec<Instr>, PalladError>)
    ensures
        r is Ok,
        r->Ok_0.deep_view() == lower(stmts.deep_view()),
{
    let mut program: Vec<Instr> = Vec::new();
    let ghost all = stmts.deep_view();
    let mut i: usize = 0;
    assert(all.take(0) =~= Seq::<StmtView>::empty());
    assert(program.deep_view() =~= lower(all.take(0)));
    while i < stmts.len()
        invariant
            i <= stmts.len(),
            all == stmts.deep_view(),
            program.deep_view() == lower(all.take(i as int)),
        decreases stmts.len() - i,
    {
        compile_stmt(&stmts[i], &mut program);
        proof {
            let next = all.take(i + 1);
            assert(next.drop_last() =~= all.take(i as int));
            assert(next.last() == stmts[i as int]@);
        }
        i += 1;
    }
    assert(all.take(i as int) =~= all);
    Ok(program)
}

/// Lowering depends on nothing but the statements: programs with the same
/// model lower to the same instructions, however often it is done.
pub proof fn lemma_compile_is_a_function(
    first: Vec<Stmt>,
    second: Vec<Stmt>,
    first_code: Vec<Instr>,
    second_code: Vec<Instr>,
)
    requires
        first.deep_view() == second.deep_view(),
        first_code.deep_view() == lower(first.deep_view()),
        second_code.deep_view() == lower(second.deep_view()),
    ensures
        first_code.deep_view() == second_code.deep_view(),
{
}

} // verus!
