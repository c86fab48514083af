use vstd::prelude::*;
use crate::text::{append, int_to_string, int_text};
use vstd::string::StringExecFns;

verus! {

/// A runtime value. A float is held as its IEEE-754 binary64 bit pattern.
#[derive(Debug, PartialEq)]
pub enum Object {
    String(String),
    Int(i32),
    Boolean(bool),
    Float(u64),
    Nil,
    Identifier(String),
}

/// A runtime value as mathematical data.
pub enum ObjectView {
    String(Seq<char>),
    Int(i32),
    Boolean(bool),
    Float(u64),
    Nil,
    Identifier(Seq<char>),
}

impl View for Object {
    type V = ObjectView;

    open spec fn view(&self) -> ObjectView {
        match self {
            Object::String(s) => ObjectView::String(s@),
            Object::Int(i) => ObjectView::Int(*i),
            Object::Boolean(b) => ObjectView::Boolean(*b),
            Object::Float(f) => ObjectView::Float(*f),
            Object::Nil => ObjectView::Nil,
            Object::Identifier(s) => ObjectView::Identifier(s@),
        }
    }
}

/// The sign bit of a binary64 bit pattern.
pub open spec fn sign_bit() -> u64 {
    0x8000_0000_0000_0000u64
}

/// Truthiness: `Nil`, `false`, integer zero, either float zero and the empty
/// string are falsy; everything else is truthy.
pub open spec fn truthy(v: ObjectView) -> bool {
    match v {
        ObjectView::Nil => false,
        ObjectView::Boolean(b) => b,
        ObjectView::Int(i) => i != 0,
        ObjectView::Float(bits) => bits != 0 && bits != sign_bit(),
        ObjectView::String(s) => s.len() != 0,
        ObjectView::Identifier(_) => true,
    }
}

/// The textual form of a value; a float's form is the host's, so it is left open here.
pub open spec fn value_text(v: ObjectView) -> Option<Seq<char>> {
    match v {
        ObjectView::String(s) => Some(s),
        ObjectView::Int(i) => Some(int_text(i as int)),
        ObjectView::Boolean(b) => Some(if b { "true"@ } else { "false"@ }),
        ObjectView::Float(_) => None,
        ObjectView::Nil => Some("nil"@),
        ObjectView::Identifier(s) => Some(s),
    }
}

/// Binary64 arithmetic, supplied by the host. Values are IEEE-754 bit patterns.
pub trait FloatArith {
    /// The binary64 value nearest to a decimal literal such as `12.5`.
    fn parse(&self, text: &String) -> u64;

    fn add(&self, a: u64, b: u64) -> u64;

    fn sub(&self, a: u64, b: u64) -> u64;

    fn mul(&self, a: u64, b: u64) -> u64;

    fn div(&self, a: u64, b: u64) -> u64;

    fn less(&self, a: u64, b: u64) -> bool;

    fn less_equal(&self, a: u64, b: u64) -> bool;

    /// The standard base-10 rendering of a value.
    fn render(&self, a: u64) -> String;
}

impl Object {
    pub fn is_truthy(&self) -> (r: bool)
        ensures
            r == truthy(self@),
    {
        match self {
            Object::Nil => false,
            Object::Boolean(b) => *b,
            Object::Int(i) => *i != 0,
            Object::Float(bits) => *bits != 0 && *bits != 0x8000_0000_0000_0000u64,
            Object::String(s) => !s.as_str().is_empty(),
            Object::Identifier(_) => true,
        }
    }

    /// A copy of the value.
    pub fn duplicate(&self) -> (r: Object)
        ensures
            r == *self,
    {
        match self {
            Object::String(s) => Object::String(s.clone()),
            Object::Int(i) => Object::Int(*i),
            Object::Boolean(b) => Object::Boolean(*b),
            Object::Float(f) => Object::Float(*f),
            Object::Nil => Object::Nil,
            Object::Identifier(s) => Object::Identifier(s.clone()),
        }
    }

    /// The textual form of the value, as `print` shows it.
    pub fn to_text<F: FloatArith>(&self, floats: &F) -> (r: String)
        ensures
            value_text(self@) matches Some(t) ==> r@ == t,
    {
        match self {
            Object::String(s) => s.clone(),
            Object::Int(i) => int_to_string(*i),
            Object::Boolean(b) => if *b { String::from_str("true") } else { String::from_str("false") },
            Object::Float(f) => floats.render(*f),
            Object::Nil => String::from_str("nil"),
            Object::Identifier(s) => s.clone(),
        }
    }
}

/// The concatenation of two strings, as `+` on strings gives it.
pub fn concat(l: &String, r: &String) -> (s: String)
    ensures
        s@ == l@ + r@,
{
    let mut s = l.clone();
    append(&mut s, r);
    s
}

} // verus!
