//! The flat instruction sequence that the machine executes.

use vstd::prelude::*;

verus! {

/// One stack-machine instruction. There are no jumps: a program runs from
/// its first instruction to its last.
#[derive(Debug, PartialEq)]
pub enum Instr {
    LoadNone,
    LoadInt(i64),
    LoadFloat(String),
    LoadStr(String),
    LoadVar(String),
    StoreVar(String),
    Add,
    Sub,
    Mul,
    Div,
    IntDiv,
    Mod,
    CallBuiltin { name: String, argc: usize },
    Pop,
}

/// The mathematical model of an [`Instr`].
pub enum InstrView {
    LoadNone,
    LoadInt(i64),
    LoadFloat(Seq<char>),
    LoadStr(Seq<char>),
    LoadVar(Seq<char>),
    StoreVar(Seq<char>),
    Add,
    Sub,
    Mul,
    Div,
    IntDiv,
    Mod,
    CallBuiltin { name: Seq<char>, argc: usize },
    Pop,
}

impl View for Instr {
    type V = InstrView;

    open spec fn view(&self) -> InstrView {
        match self {
            Instr::LoadNone => InstrView::LoadNone,
            Instr::LoadInt(n) => InstrView::LoadInt(*n),
            Instr::LoadFloat(text) => InstrView::LoadFloat(text@),
            Instr::LoadStr(s) => InstrView::LoadStr(s@),
            Instr::LoadVar(name) => InstrView::LoadVar(name@),
            Instr::StoreVar(name) => InstrView::StoreVar(name@),
            Instr::Add => InstrView::Add,
            Instr::Sub => InstrView::Sub,
            Instr::Mul => InstrView::Mul,
            Instr::Div => InstrView::Div,
            Instr::IntDiv => InstrView::IntDiv,
            Instr::Mod => InstrView::Mod,
            Instr::CallBuiltin { name, argc } => InstrView::CallBuiltin { name: name@, argc: *argc },
            Instr::Pop => InstrView::Pop,
        }
    }
}

impl DeepView for Instr {
    type V = InstrView;

    open spec fn deep_view(&self) -> InstrView {
        self@
    }
}

impl Clone for Instr {
    fn clone(&self) -> (r: Self)
        ensures
            r@ == self@,
    {
        match self {
            Instr::LoadNone => Instr::LoadNone,
            Instr::LoadInt(n) => Instr::LoadInt(*n),
            Instr::LoadFloat(text) => Instr::LoadFloat(text.clone()),
            Instr::LoadStr(s) => Instr::LoadStr(s.clone()),
            Instr::LoadVar(name) => Instr::LoadVar(name.clone()),
            Instr::StoreVar(name) => Instr::StoreVar(name.clone()),
            Instr::Add => Instr::Add,
            Instr::Sub => Instr::Sub,
            Instr::Mul => Instr::Mul,
            Instr::Div => Instr::Div,
            Instr::IntDiv => Instr::IntDiv,
            Instr::Mod => Instr::Mod,
            Instr::CallBuiltin { name, argc } => Instr::CallBuiltin {
                name: name.clone(),
                argc: *argc,
            },
            Instr::Pop => Instr::Pop,
        }
    }
}

} // verus!
