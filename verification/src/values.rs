//! Boxed, dynamically typed values and their type tags.

use vstd::prelude::*;

verus! {

/// The type tag of a boxed value: the scalar kinds, and object kinds
/// identified by the registered type they refer to.
#[derive(Clone, Copy, Debug, PartialEq, Eq, Structural)]
pub enum ValueType {
    Bool,
    Int,
    Str,
    Object(usize),
}

/// A boxed, dynamically typed value.
///
/// `Unset` is the uninitialized sentinel; it matches no type. `StrNone` is
/// the string-typed "no string" value. An `Object` value carries the static
/// type tag under which it was boxed and, optionally, the instance it refers
/// to; `obj: None` is the "no object" value, compatible with every object
/// type.
#[derive(Clone, Debug, PartialEq)]
pub enum Value {
    Unset,
    Bool(bool),
    Int(i64),
    StrNone,
    Str(String),
    Object { tag: usize, obj: Option<usize> },
}

/// The mathematical shape of a [`Value`].
pub ghost enum ValModel {
    Unset,
    Bool(bool),
    Int(i64),
    StrNone,
    Str(Seq<char>),
    Object { tag: usize, obj: Option<usize> },
}

impl View for Value {
    type V = ValModel;

    open spec fn view(&self) -> ValModel {
        match self {
            Value::Unset => ValModel::Unset,
            Value::Bool(b) => ValModel::Bool(*b),
            Value::Int(i) => ValModel::Int(*i),
            Value::StrNone => ValModel::StrNone,
            Value::Str(s) => ValModel::Str(s@),
            Value::Object { tag, obj } => ValModel::Object { tag: *tag, obj: *obj },
        }
    }
}

impl Value {
    /// An exact copy, written out so that verified callers know the copy
    /// holds the same value.
    pub fn duplicate(&self) -> (r: Value)
        ensures
            r@ == self@,
    {
        match self {
            Value::Unset => Value::Unset,
            Value::Bool(b) => Value::Bool(*b),
            Value::Int(i) => Value::Int(*i),
            Value::StrNone => Value::StrNone,
            Value::Str(s) => Value::Str(s.clone()),
            Value::Object { tag, obj } => Value::Object { tag: *tag, obj: *obj },
        }
    }
}

/// The zero value of a type: what a freshly initialized value box of that
/// type holds before anything is stored in it.
pub open spec fn spec_default_value(t: ValueType) -> ValModel {
    match t {
        ValueType::Bool => ValModel::Bool(false),
        ValueType::Int => ValModel::Int(0),
        ValueType::Str => ValModel::StrNone,
        ValueType::Object(tid) => ValModel::Object { tag: tid, obj: None },
    }
}

/// Initializes a value box to the zero value of `t`.
pub fn default_value(t: ValueType) -> (r: Value)
    ensures
        r@ == spec_default_value(t),
{
    match t {
        ValueType::Bool => Value::Bool(false),
        ValueType::Int => Value::Int(0),
        ValueType::Str => Value::StrNone,
        ValueType::Object(tid) => Value::Object { tag: tid, obj: None },
    }
}

/// Structural equality of two values, with a known meaning on the values'
/// models.
pub fn value_eq(a: &Value, b: &Value) -> (r: bool)
    ensures
        r == (a@ == b@),
{
    match (a, b) {
        (Value::Unset, Value::Unset) => true,
        (Value::Bool(x), Value::Bool(y)) => x == y,
        (Value::Int(x), Value::Int(y)) => x == y,
        (Value::StrNone, Value::StrNone) => true,
        (Value::Str(x), Value::Str(y)) => x.eq(y),
        (Value::Object { tag: t1, obj: o1 }, Value::Object { tag: t2, obj: o2 }) => t1 == t2
            && (match (o1, o2) {
            (None, None) => true,
            (Some(x), Some(y)) => x == y,
            _ => false,
        }),
        _ => false,
    }
}

/// The value views of an optional value.
pub open spec fn opt_value_view(v: Option<Value>) -> Option<ValModel> {
    match v {
        Some(x) => Some(x@),
        None => None,
    }
}

/// The value views of a sequence of values.
pub open spec fn vals_view(s: Seq<Value>) -> Seq<ValModel> {
    s.map_values(|x: Value| x@)
}

/// Copies a vector of values element by element.
pub fn duplicate_values(vs: &Vec<Value>) -> (r: Vec<Value>)
    ensures
        r@.len() == vs@.len(),
        forall|i: int| 0 <= i < vs@.len() ==> r@[i]@ == vs@[i]@,
{
    let mut out: Vec<Value> = Vec::new();
    let mut i: usize = 0;
    while i < vs.len()
        invariant
            i <= vs@.len(),
            out@.len() == i,
            forall|j: int| 0 <= j < i ==> out@[j]@ == vs@[j]@,
        decreases vs@.len() - i,
    {
        out.push(vs[i].duplicate());
        i = i + 1;
    }
    out
}

} // verus!
