//! Runtime values, as the library sees them.

use vstd::prelude::*;
use crate::error::ValueTypes;

verus! {

/// A Lua value.
///
/// Reference values (tables, functions, closures, native functions, userdata) are
/// held by the id of the object they refer to; two references are equal when they
/// refer to the same object. A float is held by its IEEE-754 bit pattern, and two
/// floats are equal here when their bits are.
#[derive(Debug)]
pub enum Value {
    Nil,
    Bool(bool),
    Integer(i64),
    Number(u64),
    Infinity(bool),
    String(String),
    Table(usize),
    Function(usize),
    Closure(usize),
    NativeFunction(usize),
    UserData(usize),
}

/// The mathematical view of a [`Value`]: strings are seen as their characters.
pub enum ValueView {
    Nil,
    Bool(bool),
    Integer(i64),
    Number(u64),
    Infinity(bool),
    String(Seq<char>),
    Table(usize),
    Function(usize),
    Closure(usize),
    NativeFunction(usize),
    UserData(usize),
}

impl View for Value {
    type V = ValueView;

    open spec fn view(&self) -> ValueView {
        match self {
            Value::Nil => ValueView::Nil,
            Value::Bool(b) => ValueView::Bool(*b),
            Value::Integer(i) => ValueView::Integer(*i),
            Value::Number(n) => ValueView::Number(*n),
            Value::Infinity(b) => ValueView::Infinity(*b),
            Value::String(s) => ValueView::String(s@),
            Value::Table(i) => ValueView::Table(*i),
            Value::Function(i) => ValueView::Function(*i),
            Value::Closure(i) => ValueView::Closure(*i),
            Value::NativeFunction(i) => ValueView::NativeFunction(*i),
            Value::UserData(i) => ValueView::UserData(*i),
        }
    }
}

impl Clone for Value {
    fn clone(&self) -> (r: Self)
        ensures
            r == *self,
    {
        match self {
            Value::Nil => Value::Nil,
            Value::Bool(b) => Value::Bool(*b),
            Value::Integer(i) => Value::Integer(*i),
            Value::Number(n) => Value::Number(*n),
            Value::Infinity(b) => Value::Infinity(*b),
            Value::String(s) => Value::String(s.clone()),
            Value::Table(i) => Value::Table(*i),
            Value::Function(i) => Value::Function(*i),
            Value::Closure(i) => Value::Closure(*i),
            Value::NativeFunction(i) => Value::NativeFunction(*i),
            Value::UserData(i) => Value::UserData(*i),
        }
    }
}

impl Default for Value {
    fn default() -> (r: Self)
        ensures
            r == Value::Nil,
    {
        Value::Nil
    }
}

/// Raw equality of two values (no metamethods).
pub fn value_eq(a: &Value, b: &Value) -> (r: bool)
    ensures
        r == (a@ == b@),
{
    match a {
        Value::Nil => match b { Value::Nil => true, _ => false },
        Value::Bool(x) => match b { Value::Bool(y) => *x == *y, _ => false },
        Value::Integer(x) => match b { Value::Integer(y) => *x == *y, _ => false },
        Value::Number(x) => match b { Value::Number(y) => *x == *y, _ => false },
        Value::Infinity(x) => match b { Value::Infinity(y) => *x == *y, _ => false },
        Value::String(x) => match b { Value::String(y) => x.eq(y), _ => false },
        Value::Table(x) => match b { Value::Table(y) => *x == *y, _ => false },
        Value::Function(x) => match b { Value::Function(y) => *x == *y, _ => false },
        Value::Closure(x) => match b { Value::Closure(y) => *x == *y, _ => false },
        Value::NativeFunction(x) => match b { Value::NativeFunction(y) => *x == *y, _ => false },
        Value::UserData(x) => match b { Value::UserData(y) => *x == *y, _ => false },
    }
}

/// The type tag of a value, as error messages name it.
pub open spec fn spec_type_of(v: ValueView) -> ValueTypes {
    match v {
        ValueView::Nil => ValueTypes::Nil,
        ValueView::Bool(_) => ValueTypes::Bool,
        ValueView::Integer(_) => ValueTypes::Integer,
        ValueView::Number(_) => ValueTypes::Number,
        ValueView::Infinity(_) => ValueTypes::Infinity,
        ValueView::String(_) => ValueTypes::String,
        ValueView::Table(_) => ValueTypes::Table,
        ValueView::Function(_) => ValueTypes::Function,
        ValueView::Closure(_) => ValueTypes::Closure,
        ValueView::NativeFunction(_) => ValueTypes::NativeFunction,
        ValueView::UserData(_) => ValueTypes::UserData,
    }
}

impl Value {
    /// The type tag of this value.
    pub fn to_error(&self) -> (t: ValueTypes)
        ensures
            t == spec_type_of(self@),
    {
        match self {
            Value::Nil => ValueTypes::Nil,
            Value::Bool(_) => ValueTypes::Bool,
            Value::Integer(_) => ValueTypes::Integer,
            Value::Number(_) => ValueTypes::Number,
            Value::Infinity(_) => ValueTypes::Infinity,
            Value::String(_) => ValueTypes::String,
            Value::Table(_) => ValueTypes::Table,
            Value::Function(_) => ValueTypes::Function,
            Value::Closure(_) => ValueTypes::Closure,
            Value::NativeFunction(_) => ValueTypes::NativeFunction,
            Value::UserData(_) => ValueTypes::UserData,
        }
    }
}

} // verus!
