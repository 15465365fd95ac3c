//! Runtime values of the virtual machine and their mathematical view.
use vstd::prelude::*;

verus! {

/// A runtime value. Numbers are 64-bit signed integers; strings, block
/// names and atoms are owned text; pointers address the heap; an
/// exception wraps an arbitrary payload value.
#[derive(Debug, PartialEq)]
pub enum Value {
    Number(i64),
    String(String),
    Boolean(bool),
    Pointer(usize),
    Block(String),
    Exception(Box<Value>),
    Atom(String),
    Null,
}

/// The mathematical shape of a `Value`: text is a sequence of characters,
/// so two values are equal exactly when they print the same.
pub enum ValueView {
    Number(i64),
    Str(Seq<char>),
    Boolean(bool),
    Pointer(usize),
    Block(Seq<char>),
    Exception(Box<ValueView>),
    Atom(Seq<char>),
    Null,
}

pub open spec fn value_view(v: Value) -> ValueView
    decreases v,
{
    match v {
        Value::Number(n) => ValueView::Number(n),
        Value::String(s) => ValueView::Str(s@),
        Value::Boolean(b) => ValueView::Boolean(b),
        Value::Pointer(p) => ValueView::Pointer(p),
        Value::Block(n) => ValueView::Block(n@),
        Value::Exception(inner) => ValueView::Exception(Box::new(value_view(*inner))),
        Value::Atom(n) => ValueView::Atom(n@),
        Value::Null => ValueView::Null,
    }
}

impl View for Value {
    type V = ValueView;

    open spec fn view(&self) -> ValueView {
        value_view(*self)
    }
}

impl Value {
    /// True when the value is a heap pointer.
    pub open spec fn spec_is_ptr(self) -> bool {
        self@ is Pointer
    }
}

impl Clone for Value {
    fn clone(&self) -> (r: Self)
        ensures
            r == *self,
        decreases self,
    {
        match self {
            Value::Number(n) => Value::Number(*n),
            Value::String(s) => Value::String(s.clone()),
            Value::Boolean(b) => Value::Boolean(*b),
            Value::Pointer(p) => Value::Pointer(*p),
            Value::Block(n) => Value::Block(n.clone()),
            Value::Exception(inner) => Value::Exception(Box::new((**inner).clone())),
            Value::Atom(n) => Value::Atom(n.clone()),
            Value::Null => Value::Null,
        }
    }
}

impl crate::names::ViewClone for Value {
    fn view_clone(&self) -> (r: Self)
        ensures
            r@ == self@,
    {
        self.clone()
    }
}

/// Structural equality of two values, text compared by contents.
pub fn value_eq(a: &Value, b: &Value) -> (r: bool)
    ensures
        r == (a@ == b@),
    decreases a,
{
    match (a, b) {
        (Value::Number(x), Value::Number(y)) => x == y,
        (Value::String(x), Value::String(y)) => x.eq(y),
        (Value::Boolean(x), Value::Boolean(y)) => x == y,
        (Value::Pointer(x), Value::Pointer(y)) => x == y,
        (Value::Block(x), Value::Block(y)) => x.eq(y),
        (Value::Exception(x), Value::Exception(y)) => value_eq(x, y),
        (Value::Atom(x), Value::Atom(y)) => x.eq(y),
        (Value::Null, Value::Null) => true,
        _ => false,
    }
}

} // verus!
