//! The runtime value domain shared by the compiler's constant pool and the
//! virtual machine's global environment and register stack.

use vstd::prelude::*;
use vstd::string::StringExecFns;

use crate::text::{int_text, i64_to_string};

verus! {

/// A native function reachable through the global environment; the variant
/// set is the designed extension point for further built-ins.
#[derive(Clone, Copy, Debug, PartialEq, Eq, Structural)]
pub enum NativeFn {
    Print,
}

/// A runtime value. Float literals keep their source text: the current
/// instruction set never computes with them, it only stores and prints them.
#[derive(Debug)]
pub enum LValue {
    Nil,
    Boolean(bool),
    Integer(i64),
    Float(String),
    String(String),
    Function(NativeFn),
}

/// The mathematical image of an [`LValue`]: text as character sequences.
pub enum LValueView {
    Nil,
    Boolean(bool),
    Integer(int),
    Float(Seq<char>),
    Str(Seq<char>),
    Function(NativeFn),
}

impl View for LValue {
    type V = LValueView;

    open spec fn view(&self) -> LValueView {
        match self {
            LValue::Nil => LValueView::Nil,
            LValue::Boolean(b) => LValueView::Boolean(*b),
            LValue::Integer(i) => LValueView::Integer(*i as int),
            LValue::Float(t) => LValueView::Float(t@),
            LValue::String(s) => LValueView::Str(s@),
            LValue::Function(f) => LValueView::Function(*f),
        }
    }
}

impl PartialEq for LValue {
    /// Content equality, the relation under which the constant pool
    /// deduplicates.
    fn eq(&self, other: &LValue) -> (r: bool) {
        match (self, other) {
            (LValue::Nil, LValue::Nil) => true,
            (LValue::Boolean(a), LValue::Boolean(b)) => *a == *b,
            (LValue::Integer(a), LValue::Integer(b)) => *a == *b,
            (LValue::Float(a), LValue::Float(b)) => *a == *b,
            (LValue::String(a), LValue::String(b)) => *a == *b,
            (LValue::Function(a), LValue::Function(b)) => *a == *b,
            _ => false,
        }
    }
}

impl vstd::std_specs::cmp::PartialEqSpecImpl for LValue {
    open spec fn obeys_eq_spec() -> bool {
        true
    }

    open spec fn eq_spec(&self, other: &LValue) -> bool {
        self@ == other@
    }
}

impl LValue {
    /// A content-equal copy.
    pub fn duplicate(&self) -> (r: LValue)
        ensures
            r@ == self@,
    {
        match self {
            LValue::Nil => LValue::Nil,
            LValue::Boolean(b) => LValue::Boolean(*b),
            LValue::Integer(i) => LValue::Integer(*i),
            LValue::Float(t) => LValue::Float(t.clone()),
            LValue::String(s) => LValue::String(s.clone()),
            LValue::Function(f) => LValue::Function(*f),
        }
    }

    /// The debug text of a value, the form the `print` built-in emits.
    pub fn to_text(&self) -> (r: String)
        ensures
            r@ == sp_text(self@),
    {
        match self {
            LValue::Nil => String::from_str("nil"),
            LValue::Boolean(b) => {
                if *b {
                    String::from_str("true")
                } else {
                    String::from_str("false")
                }
            },
            LValue::Integer(i) => i64_to_string(*i),
            LValue::Float(t) => t.clone(),
            LValue::String(s) => s.clone(),
            LValue::Function(_) => String::from_str("function"),
        }
    }
}

/// The debug text of a value.
pub open spec fn sp_text(v: LValueView) -> Seq<char> {
    match v {
        LValueView::Nil => "nil"@,
        LValueView::Boolean(b) => if b {
            "true"@
        } else {
            "false"@
        },
        LValueView::Integer(i) => int_text(i),
        LValueView::Float(t) => t,
        LValueView::Str(s) => s,
        LValueView::Function(_) => "function"@,
    }
}

} // verus!
