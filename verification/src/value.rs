//! Scalar values and their datatypes.

use vstd::prelude::*;
use vstd::std_specs::cmp::PartialEqSpecImpl;
use vstd::string::StringExecFns;
use crate::text::{push_signed_decimal, signed_decimal};

verus! {

/// The tag of a value: what kind of scalar a property holds.
#[derive(Debug, Clone, Copy, PartialEq, Eq, Structural)]
pub enum Datatype {
    Bool,
    Int,
    Str,
}

impl Datatype {
    /// The name of the variant.
    pub open spec fn rendering(self) -> Seq<char> {
        match self {
            Datatype::Bool => "Bool"@,
            Datatype::Int => "Int"@,
            Datatype::Str => "Str"@,
        }
    }

    /// The name of the variant, as text.
    pub fn render(&self) -> (text: String)
        ensures
            text@ == self.rendering(),
    {
        match self {
            Datatype::Bool => String::from_str("Bool"),
            Datatype::Int => String::from_str("Int"),
            Datatype::Str => String::from_str("Str"),
        }
    }
}

/// The mathematical content of a [`Value`]: its variant and its payload.
pub enum ValueView {
    Bool(bool),
    Int(int),
    Str(Seq<char>),
}

impl ValueView {
    /// The one datatype that each variant belongs to.
    pub open spec fn datatype(self) -> Datatype {
        match self {
            ValueView::Bool(_) => Datatype::Bool,
            ValueView::Int(_) => Datatype::Int,
            ValueView::Str(_) => Datatype::Str,
        }
    }

    /// The text shown for a value: `true` or `false`, the decimal form of an
    /// integer, or the text itself.
    pub open spec fn rendering(self) -> Seq<char> {
        match self {
            ValueView::Bool(b) => if b {
                "true"@
            } else {
                "false"@
            },
            ValueView::Int(i) => signed_decimal(i),
            ValueView::Str(s) => s,
        }
    }
}

/// A scalar value: a boolean, a 64-bit signed integer or a text.
#[derive(Debug, Eq, Hash)]
pub enum Value {
    Bool(bool),
    Int(i64),
    Str(String),
}

impl View for Value {
    type V = ValueView;

    open spec fn view(&self) -> ValueView {
        match self {
            Value::Bool(b) => ValueView::Bool(*b),
            Value::Int(i) => ValueView::Int(*i as int),
            Value::Str(s) => ValueView::Str(s@),
        }
    }
}

impl DeepView for Value {
    type V = ValueView;

    open spec fn deep_view(&self) -> ValueView {
        self@
    }
}

impl Value {
    /// The datatype of the value.
    pub fn datatype(&self) -> (tag: Datatype)
        ensures
            tag == self@.datatype(),
    {
        match self {
            Value::Bool(_) => Datatype::Bool,
            Value::Int(_) => Datatype::Int,
            Value::Str(_) => Datatype::Str,
        }
    }

    /// The value as text.
    pub fn render(&self) -> (text: String)
        ensures
            text@ == self@.rendering(),
    {
        match self {
            Value::Bool(b) => if *b {
                String::from_str("true")
            } else {
                String::from_str("false")
            },
            Value::Int(i) => {
                let mut text = String::new();
                push_signed_decimal(&mut text, *i);
                assert(text@ =~= signed_decimal(*i as int));
                text
            },
            Value::Str(s) => s.clone(),
        }
    }
}

impl Clone for Value {
    fn clone(&self) -> (copy: Value)
        ensures
            copy == *self,
    {
        match self {
            Value::Bool(b) => Value::Bool(*b),
            Value::Int(i) => Value::Int(*i),
            Value::Str(s) => Value::Str(s.clone()),
        }
    }
}

impl PartialEq for Value {
    /// Two values are equal when they are of the same variant and hold the
    /// same payload.
    fn eq(&self, other: &Value) -> (same: bool) {
        match (self, other) {
            (Value::Bool(a), Value::Bool(b)) => *a == *b,
            (Value::Int(a), Value::Int(b)) => *a == *b,
            (Value::Str(a), Value::Str(b)) => *a == *b,
            _ => false,
        }
    }
}

impl PartialEqSpecImpl for Value {
    open spec fn obeys_eq_spec() -> bool {
        true
    }

    open spec fn eq_spec(&self, other: &Value) -> bool {
        self@ == other@
    }
}

} // verus!
