//! The syntax tree that the parser builds.

use vstd::prelude::*;

verus! {

/// The six binary operators of the language.
#[derive(Debug, Clone, Copy, PartialEq, Eq, Structural)]
pub enum BinOp {
    Add,
    Sub,
    Mul,
    Div,
    IntDiv,
    Mod,
}

/// An expression. A float literal holds the text that was written.
#[derive(Debug, PartialEq)]
pub enum Expr {
    Unit,
    Int(i64),
    Float(String),
    Str(String),
    Var(String),
    Binary { left: Box<Expr>, op: BinOp, right: Box<Expr> },
    Call { name: String, args: Vec<Expr> },
}

/// A statement.
#[derive(Debug, PartialEq)]
pub enum Stmt {
    Let { name: String, expr: Expr },
    Expr(Expr),
}

/// The mathematical model of an [`Expr`].
pub enum ExprView {
    Unit,
    Int(i64),
    Float(Seq<char>),
    Str(Seq<char>),
    Var(Seq<char>),
    Binary { left: Box<ExprView>, op: BinOp, right: Box<ExprView> },
    Call { name: Seq<char>, args: Seq<ExprView> },
}

/// The mathematical model of a [`Stmt`].
pub enum StmtView {
    Let { name: Seq<char>, expr: ExprView },
    Expr(ExprView),
}

/// The model of an expression, node by node.
pub open spec fn expr_view(e: Expr) -> ExprView
    decreases e,
{
    match e {
        Expr::Unit => ExprView::Unit,
        Expr::Int(n) => ExprView::Int(n),
        Expr::Float(text) => ExprView::Float(text@),
        Expr::Str(s) => ExprView::Str(s@),
        Expr::Var(name) => ExprView::Var(name@),
        Expr::Binary { left, op, right } => ExprView::Binary {
            left: Box::new(expr_view(*left)),
            op,
            right: Box::new(expr_view(*right)),
        },
        Expr::Call { name, args } => ExprView::Call {
            name: name@,
            args: Seq::new(
                args@.len(),
                |i: int|
                    if 0 <= i < args@.len() {
                        expr_view(args@[i])
                    } else {
                        ExprView::Unit
                    },
            ),
        },
    }
}

impl View for Expr {
    type V = ExprView;

    open spec fn view(&self) -> ExprView {
        expr_view(*self)
    }
}

impl DeepView for Expr {
    type V = ExprView;

    open spec fn deep_view(&self) -> ExprView {
        expr_view(*self)
    }
}

impl View for Stmt {
    type V = StmtView;

    open spec fn view(&self) -> StmtView {
        match self {
            Stmt::Let { name, expr } => StmtView::Let { name: name@, expr: expr@ },
            Stmt::Expr(expr) => StmtView::Expr(expr@),
        }
    }
}

impl DeepView for Stmt {
    type V = StmtView;

    open spec fn deep_view(&self) -> StmtView {
        self@
    }
}

impl Clone for Expr {
    #[verifier::loop_isolation(false)]
    fn clone(&self) -> (r: Self)
        ensures
            r@ == self@,
        decreases self,
    {
        match self {
            Expr::Unit => Expr::Unit,
            Expr::Int(n) => Expr::Int(*n),
            Expr::Float(text) => Expr::Float(text.clone()),
            Expr::Str(s) => Expr::Str(s.clone()),
            Expr::Var(name) => Expr::Var(name.clone()),
            Expr::Binary { left, op, right } => {
                let l = (**left).clone();
                let r = (**right).clone();
                Expr::Binary { left: Box::new(l), op: *op, right: Box::new(r) }
            },
            Expr::Call { name, args } => {
                let mut copies: Vec<Expr> = Vec::new();
                let mut i: usize = 0;
                while i < args.len()
                    invariant
                        i <= args.len(),
                        copies.len() == i,
                        forall|k: int| 0 <= k < i ==> (#[trigger] copies[k])@ == args[k]@,
                    decreases args.len() - i,
                {
                    let copy = args[i].clone();
                    copies.push(copy);
                    i += 1;
                }
                let name_copy = name.clone();
                proof {
                    lemma_call_args_view(*name, *args);
                    lemma_call_args_view(name_copy, copies);
                    assert(copies.deep_view() =~= args.deep_view());
                }
                Expr::Call { name: name_copy, args: copies }
            },
        }
    }
}

impl Clone for Stmt {
    fn clone(&self) -> (r: Self)
        ensures
            r@ == self@,
    {
        match self {
            Stmt::Let { name, expr } => Stmt::Let { name: name.clone(), expr: expr.clone() },
            Stmt::Expr(expr) => Stmt::Expr(expr.clone()),
        }
    }
}

/// The arguments of a call are modelled one by one.
pub proof fn lemma_call_args_view(name: String, args: Vec<Expr>)
    ensures
        expr_view(Expr::Call { name, args }) == (ExprView::Call {
            name: name@,
            args: args.deep_view(),
        }),
{
    let e = Expr::Call { name, args };
    assert(expr_view(e)->Call_args =~= args.deep_view());
}

} // verus!
