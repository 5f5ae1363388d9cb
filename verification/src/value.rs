//! Runtime values.

use vstd::prelude::*;

verus! {

/// A dynamically typed value of the language.
///
/// A float is held as the bit pattern of an IEEE-754 binary64 number.
#[derive(Debug, PartialEq)]
pub enum Value {
    Unit,
    Int(i64),
    Float(u64),
    Str(String),
}

/// The mathematical model of a [`Value`]: a string is its sequence of chars.
pub enum ValueView {
    Unit,
    Int(i64),
    Float(u64),
    Str(Seq<char>),
}

impl View for Value {
    type V = ValueView;

    open spec fn view(&self) -> ValueView {
        match self {
            Value::Unit => ValueView::Unit,
            Value::Int(n) => ValueView::Int(*n),
            Value::Float(bits) => ValueView::Float(*bits),
            Value::Str(s) => ValueView::Str(s@),
        }
    }
}

impl DeepView for Value {
    type V = ValueView;

    open spec fn deep_view(&self) -> ValueView {
        self@
    }
}

impl Clone for Value {
    fn clone(&self) -> (r: Self)
        ensures
            r@ == self@,
    {
        match self {
            Value::Unit => Value::Unit,
            Value::Int(n) => Value::Int(*n),
            Value::Float(bits) => Value::Float(*bits),
            Value::Str(s) => Value::Str(s.clone()),
        }
    }
}

/// The name under which a value's type appears in diagnostics.
pub open spec fn kind_name(v: ValueView) -> Seq<char> {
    match v {
        ValueView::Unit => "none"@,
        ValueView::Int(_) => "integer"@,
        ValueView::Float(_) => "float"@,
        ValueView::Str(_) => "string"@,
    }
}

impl Value {
    /// The name of this value's type.
    pub fn kind_name(&self) -> (r: &'static str)
        ensures
            r@ == kind_name(self@),
    {
        match self {
            Value::Unit => "none",
            Value::Int(_) => "integer",
            Value::Float(_) => "float",
            Value::Str(_) => "string",
        }
    }

    /// The text that stands for this value in a diagnostic: its type's name.
    pub fn to_string(&self) -> (r: String)
        ensures
            r@ == kind_name(self@),
    {
        String::from_str(self.kind_name())
    }
}

} // verus!
