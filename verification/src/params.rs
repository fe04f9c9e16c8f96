//! Values from plain Rust values, for parameter lists.

use vstd::prelude::*;
use vstd::string::StringExecFns;
use crate::bytes::copy_bytes;
use crate::value::{Float, Value, ValueModel};

verus! {

/// What can stand in a parameter list.
pub trait IntoValue: Sized {
    /// The value that it stands for.
    spec fn content(self) -> ValueModel;

    /// The value that it stands for.
    fn into_value(self) -> (v: Value)
        ensures
            v.model() == self.content(),
    ;
}

impl IntoValue for Value {
    open spec fn content(self) -> ValueModel {
        self.model()
    }

    fn into_value(self) -> (v: Value) {
        self
    }
}

impl IntoValue for i64 {
    open spec fn content(self) -> ValueModel {
        ValueModel::Int(self as int)
    }

    fn into_value(self) -> (v: Value) {
        Value::Int(self)
    }
}

impl IntoValue for i32 {
    open spec fn content(self) -> ValueModel {
        ValueModel::Int(self as int)
    }

    fn into_value(self) -> (v: Value) {
        Value::Int(self as i64)
    }
}

impl IntoValue for Float {
    open spec fn content(self) -> ValueModel {
        ValueModel::Float { bits: self.bits, shown: self.shown@ }
    }

    fn into_value(self) -> (v: Value) {
        Value::Float(self)
    }
}

impl IntoValue for bool {
    open spec fn content(self) -> ValueModel {
        ValueModel::Bool(self)
    }

    fn into_value(self) -> (v: Value) {
        Value::Bool(self)
    }
}

impl IntoValue for &str {
    open spec fn content(self) -> ValueModel {
        ValueModel::Text(self@)
    }

    fn into_value(self) -> (v: Value) {
        Value::Text(String::from_str(self))
    }
}

impl IntoValue for String {
    open spec fn content(self) -> ValueModel {
        ValueModel::Text(self@)
    }

    fn into_value(self) -> (v: Value) {
        Value::Text(self)
    }
}

impl IntoValue for Vec<u8> {
    open spec fn content(self) -> ValueModel {
        ValueModel::Blob(self@)
    }

    fn into_value(self) -> (v: Value) {
        Value::Blob(self)
    }
}

impl IntoValue for &[u8] {
    open spec fn content(self) -> ValueModel {
        ValueModel::Blob(self@)
    }

    fn into_value(self) -> (v: Value) {
        Value::Blob(copy_bytes(self))
    }
}

impl<T: IntoValue> IntoValue for Option<T> {
    open spec fn content(self) -> ValueModel {
        match self {
            None => ValueModel::Null,
            Some(v) => v.content(),
        }
    }

    fn into_value(self) -> (v: Value) {
        match self {
            None => Value::Null,
            Some(v) => v.into_value(),
        }
    }
}

} // verus!
