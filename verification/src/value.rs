//! Values and column types.

use vstd::prelude::*;
use vstd::string::StringExecFns;
use crate::bytes::{put_bytes, same_bytes};
use crate::text::{debug_str, dec, dec_int, push_dec, push_dec_int, str_debug};
use crate::utf8::same_text;

verus! {

/// The declared type of a column or parameter.
#[derive(Debug, Clone, Copy, PartialEq, Eq, Structural)]
pub enum ColumnType {
    Int64,
    Float64,
    Bool,
    Text,
    Blob,
    Timestamp,
    Any,
}

/// A floating-point number: its bits, and the text that it is shown by in
/// debug notation.
#[derive(Debug, Clone, PartialEq, Eq)]
pub struct Float {
    pub bits: u64,
    pub shown: String,
}

/// A value of a row, a parameter or a session variable.
#[derive(Debug, PartialEq, Eq)]
pub enum Value {
    Null,
    Bool(bool),
    Int(i64),
    Float(Float),
    Text(String),
    Blob(Vec<u8>),
    Timestamp(i64),
    List(Vec<Value>),
}

/// The mathematical content of a [`Value`].
pub enum ValueModel {
    Null,
    Bool(bool),
    Int(int),
    Float { bits: u64, shown: Seq<char> },
    Text(Seq<char>),
    Blob(Seq<u8>),
    Timestamp(int),
    List(Seq<ValueModel>),
}

/// The contents of a list of values.
pub open spec fn models(vs: Seq<Value>) -> Seq<ValueModel>
    decreases vs,
{
    Seq::new(vs.len(), |i: int| if 0 <= i < vs.len() { vs[i].model() } else { ValueModel::Null })
}

impl Value {
    /// What the value is.
    pub open spec fn model(self) -> ValueModel
        decreases self,
    {
        match self {
            Value::Null => ValueModel::Null,
            Value::Bool(b) => ValueModel::Bool(b),
            Value::Int(i) => ValueModel::Int(i as int),
            Value::Float(f) => ValueModel::Float { bits: f.bits, shown: f.shown@ },
            Value::Text(s) => ValueModel::Text(s@),
            Value::Blob(b) => ValueModel::Blob(b@),
            Value::Timestamp(t) => ValueModel::Timestamp(t as int),
            Value::List(vs) => ValueModel::List(models(vs@)),
        }
    }

    /// Whether the value is NULL.
    pub fn is_null(&self) -> (r: bool)
        ensures
            r == (self.model() == ValueModel::Null),
    {
        match self {
            Value::Null => true,
            _ => false,
        }
    }

    /// A copy with the same content.
    pub fn copied(&self) -> (r: Value)
        ensures
            r.model() == self.model(),
        decreases self,
    {
        match self {
            Value::Null => Value::Null,
            Value::Bool(b) => Value::Bool(*b),
            Value::Int(i) => Value::Int(*i),
            Value::Float(f) => Value::Float(Float { bits: f.bits, shown: f.shown.clone() }),
            Value::Text(s) => Value::Text(s.clone()),
            Value::Blob(b) => {
                let mut c: Vec<u8> = Vec::new();
                put_bytes(&mut c, b.as_slice());
                proof {
                    assert(c@ =~= b@);
                }
                Value::Blob(c)
            },
            Value::Timestamp(t) => Value::Timestamp(*t),
            Value::List(vs) => {
                let mut c: Vec<Value> = Vec::new();
                let mut i: usize = 0;
                while i < vs.len()
                    invariant
                        i <= vs@.len(),
                        c@.len() == i,
                        decreases_to!(self => vs@),
                        forall|j: int| 0 <= j < i ==> (#[trigger] c@[j]).model() == vs@[j].model(),
                    decreases vs@.len() - i,
                {
                    let e = vs[i].copied();
                    c.push(e);
                    i += 1;
                }
                proof {
                    assert(models(c@) =~= models(vs@));
                }
                Value::List(c)
            },
        }
    }
}

impl Value {
    /// Whether two values have the same content.
    pub fn same(&self, other: &Value) -> (r: bool)
        ensures
            r == (self.model() == other.model()),
        decreases self,
    {
        match (self, other) {
            (Value::Null, Value::Null) => true,
            (Value::Bool(a), Value::Bool(b)) => *a == *b,
            (Value::Int(a), Value::Int(b)) => *a == *b,
            (Value::Float(a), Value::Float(b)) => a.bits == b.bits && same_text(a.shown.as_str(), b.shown.as_str()),
            (Value::Text(a), Value::Text(b)) => same_text(a.as_str(), b.as_str()),
            (Value::Blob(a), Value::Blob(b)) => same_bytes(a.as_slice(), b.as_slice()),
            (Value::Timestamp(a), Value::Timestamp(b)) => *a == *b,
            (Value::List(a), Value::List(b)) => {
                let ghost (x, y) = (models(a@), models(b@));
                if a.len() != b.len() {
                    assert(x.len() != y.len());
                    return false;
                }
                let mut i: usize = 0;
                while i < a.len()
                    invariant
                        i <= a@.len(),
                        a@.len() == b@.len(),
                        x == models(a@),
                        y == models(b@),
                        self.model() == ValueModel::List(x),
                        other.model() == ValueModel::List(y),
                        decreases_to!(self => a@),
                        forall|j: int| 0 <= j < i ==> #[trigger] x[j] == y[j],
                    decreases a@.len() - i,
                {
                    assert(x[i as int] == a@[i as int].model());
                    assert(y[i as int] == b@[i as int].model());
                    if !a[i].same(&b[i]) {
                        return false;
                    }
                    i += 1;
                }
                proof {
                    assert(x =~= y);
                }
                true
            },
            _ => false,
        }
    }
}

impl Clone for Value {
    fn clone(&self) -> (r: Value)
        ensures
            r.model() == self.model(),
    {
        self.copied()
    }
}

/// The column type of a scalar's content; NULL and lists have none.
pub open spec fn type_of(v: ValueModel) -> Option<ColumnType> {
    match v {
        ValueModel::Null => None,
        ValueModel::Bool(_) => Some(ColumnType::Bool),
        ValueModel::Int(_) => Some(ColumnType::Int64),
        ValueModel::Float { bits: _, shown: _ } => Some(ColumnType::Float64),
        ValueModel::Text(_) => Some(ColumnType::Text),
        ValueModel::Blob(_) => Some(ColumnType::Blob),
        ValueModel::Timestamp(_) => Some(ColumnType::Timestamp),
        ValueModel::List(_) => None,
    }
}

impl Value {
    /// The column type of a scalar.
    pub fn column_type(&self) -> (r: Option<ColumnType>)
        ensures
            r == type_of(self.model()),
    {
        match self {
            Value::Null => None,
            Value::Bool(_) => Some(ColumnType::Bool),
            Value::Int(_) => Some(ColumnType::Int64),
            Value::Float(_) => Some(ColumnType::Float64),
            Value::Text(_) => Some(ColumnType::Text),
            Value::Blob(_) => Some(ColumnType::Blob),
            Value::Timestamp(_) => Some(ColumnType::Timestamp),
            Value::List(_) => None,
        }
    }
}

/// The name of a column type.
pub open spec fn type_text(t: ColumnType) -> Seq<char> {
    match t {
        ColumnType::Int64 => "int64"@,
        ColumnType::Float64 => "float64"@,
        ColumnType::Bool => "bool"@,
        ColumnType::Text => "text"@,
        ColumnType::Blob => "blob"@,
        ColumnType::Timestamp => "timestamp"@,
        ColumnType::Any => "any"@,
    }
}

/// The name of the type of a value.
pub open spec fn value_type_text(v: ValueModel) -> Seq<char> {
    match v {
        ValueModel::Null => "null"@,
        ValueModel::List(_) => "list"@,
        _ => type_text(type_of(v)->Some_0),
    }
}

/// A value may stand where type `t` is asked for: it is of that type, or a
/// list whose elements are of that type or NULL; `any` takes every value.
pub open spec fn value_fits(v: ValueModel, t: ColumnType) -> bool {
    ||| t == ColumnType::Any
    ||| type_of(v) == Some(t)
    ||| match v {
        ValueModel::List(items) => forall|i: int|
            0 <= i < items.len() ==> #[trigger] items[i] == ValueModel::Null || type_of(items[i]) == Some(t),
        _ => false,
    }
}

impl ColumnType {
    /// The type's name.
    pub fn name(self) -> (r: &'static str)
        ensures
            r@ == type_text(self),
    {
        match self {
            ColumnType::Int64 => "int64",
            ColumnType::Float64 => "float64",
            ColumnType::Bool => "bool",
            ColumnType::Text => "text",
            ColumnType::Blob => "blob",
            ColumnType::Timestamp => "timestamp",
            ColumnType::Any => "any",
        }
    }
}

impl Value {
    /// The name of the value's type.
    pub fn kind_name(&self) -> (r: &'static str)
        ensures
            r@ == value_type_text(self.model()),
    {
        match self {
            Value::Null => "null",
            Value::List(_) => "list",
            Value::Bool(_) => ColumnType::Bool.name(),
            Value::Int(_) => ColumnType::Int64.name(),
            Value::Float(_) => ColumnType::Float64.name(),
            Value::Text(_) => ColumnType::Text.name(),
            Value::Blob(_) => ColumnType::Blob.name(),
            Value::Timestamp(_) => ColumnType::Timestamp.name(),
        }
    }

    /// Whether the value may stand where `t` is asked for.
    pub fn fits(&self, t: ColumnType) -> (r: bool)
        ensures
            r == value_fits(self.model(), t),
    {
        if t == ColumnType::Any {
            return true;
        }
        match self {
            Value::List(vs) => {
                let mut i: usize = 0;
                while i < vs.len()
                    invariant
                        i <= vs@.len(),
                        self.model() == ValueModel::List(models(vs@)),
                        t != ColumnType::Any,
                        forall|j: int| 0 <= j < i ==> #[trigger] models(vs@)[j] == ValueModel::Null || type_of(models(vs@)[j]) == Some(t),
                    decreases vs@.len() - i,
                {
                    assert(models(vs@)[i as int] == vs@[i as int].model());
                    let ok = vs[i].is_null() || vs[i].column_type() == Some(t);
                    if !ok {
                        return false;
                    }
                    i += 1;
                }
                true
            },
            _ => self.column_type() == Some(t),
        }
    }
}

/// Copies of a list of values.
pub(crate) fn copy_values(vs: &[Value]) -> (r: Vec<Value>)
    ensures
        models(r@) == models(vs@),
        r@.len() == vs@.len(),
{
    let mut c: Vec<Value> = Vec::new();
    let mut i: usize = 0;
    while i < vs.len()
        invariant
            i <= vs@.len(),
            c@.len() == i,
            forall|j: int| 0 <= j < i ==> (#[trigger] c@[j]).model() == vs@[j].model(),
        decreases vs@.len() - i,
    {
        c.push(vs[i].copied());
        i += 1;
    }
    proof {
        assert(models(c@) =~= models(vs@));
    }
    c
}

/// The bytes of a blob in debug notation, between the brackets.
pub open spec fn bytes_debug(b: Seq<u8>) -> Seq<char>
    decreases b.len(),
{
    if b.len() == 0 {
        Seq::empty()
    } else if b.len() == 1 {
        dec(b[0] as nat)
    } else {
        bytes_debug(b.drop_last()) + ", "@ + dec(b.last() as nat)
    }
}

/// A value in debug notation: the variant's name and its content. A float is
/// shown by its text.
pub open spec fn value_debug(v: ValueModel) -> Seq<char>
    decreases v, 0nat,
{
    match v {
        ValueModel::Null => "Null"@,
        ValueModel::Bool(b) => if b { "Bool(true)"@ } else { "Bool(false)"@ },
        ValueModel::Int(i) => "Int("@ + dec_int(i) + ")"@,
        ValueModel::Float { bits: _, shown } => "Float("@ + shown + ")"@,
        ValueModel::Text(t) => "Text("@ + str_debug(t) + ")"@,
        ValueModel::Blob(b) => "Blob(["@ + bytes_debug(b) + "])"@,
        ValueModel::Timestamp(t) => "Timestamp("@ + dec_int(t) + ")"@,
        ValueModel::List(vs) => "List(["@ + values_debug(vs, vs.len()) + "])"@,
    }
}

/// The first `n` elements of a list in debug notation.
pub open spec fn values_debug(vs: Seq<ValueModel>, n: nat) -> Seq<char>
    decreases vs, n,
{
    if n == 0 || n > vs.len() {
        Seq::empty()
    } else if n == 1 {
        value_debug(vs[0])
    } else {
        values_debug(vs, (n - 1) as nat) + ", "@ + value_debug(vs[n - 1])
    }
}

/// Append a value in debug notation.
pub(crate) fn push_value_debug(s: &mut String, v: &Value)
    ensures
        final(s)@ == old(s)@ + value_debug(v.model()),
    decreases v,
{
    match v {
        Value::Null => s.append("Null"),
        Value::Bool(b) => if *b {
            s.append("Bool(true)")
        } else {
            s.append("Bool(false)")
        },
        Value::Int(i) => {
            s.append("Int(");
            push_dec_int(s, *i);
            s.append(")");
            proof {
                assert(s@ =~= old(s)@ + value_debug(v.model()));
            }
        },
        Value::Float(f) => {
            s.append("Float(");
            s.append(f.shown.as_str());
            s.append(")");
            proof {
                assert(s@ =~= old(s)@ + value_debug(v.model()));
            }
        },
        Value::Text(t) => {
            s.append("Text(");
            let d = debug_str(t.as_str());
            s.append(d.as_str());
            s.append(")");
            proof {
                assert(s@ =~= old(s)@ + value_debug(v.model()));
            }
        },
        Value::Blob(b) => {
            s.append("Blob([");
            let mut i: usize = 0;
            let ghost head = s@;
            proof {
                assert(b@.take(0) =~= Seq::<u8>::empty());
                assert(s@ =~= head + bytes_debug(b@.take(0)));
            }
            while i < b.len()
                invariant
                    i <= b@.len(),
                    s@ == head + bytes_debug(b@.take(i as int)),
                decreases b@.len() - i,
            {
                if i > 0 {
                    s.append(", ");
                }
                push_dec(s, b[i] as u128);
                proof {
                    assert(b@.take(i + 1).drop_last() =~= b@.take(i as int));
                    assert(s@ =~= head + bytes_debug(b@.take(i + 1)));
                }
                i += 1;
            }
            s.append("])");
            proof {
                assert(b@.take(i as int) =~= b@);
                assert(s@ =~= old(s)@ + value_debug(v.model()));
            }
        },
        Value::Timestamp(t) => {
            s.append("Timestamp(");
            push_dec_int(s, *t);
            s.append(")");
            proof {
                assert(s@ =~= old(s)@ + value_debug(v.model()));
            }
        },
        Value::List(vs) => {
            s.append("List([");
            let ghost head = s@;
            let ghost ms = models(vs@);
            let mut i: usize = 0;
            proof {
                assert(s@ =~= head + values_debug(ms, 0));
            }
            while i < vs.len()
                invariant
                    i <= vs@.len(),
                    ms == models(vs@),
                    decreases_to!(v => vs@),
                    s@ == head + values_debug(ms, i as nat),
                decreases vs@.len() - i,
            {
                if i > 0 {
                    s.append(", ");
                }
                push_value_debug(s, &vs[i]);
                proof {
                    assert(ms[i as int] == vs@[i as int].model());
                    assert(s@ =~= head + values_debug(ms, (i + 1) as nat));
                }
                i += 1;
            }
            s.append("])");
            proof {
                assert(s@ =~= old(s)@ + value_debug(v.model()));
            }
        },
    }
}

/// A value stands where its own type is asked for, and where anything may; NULL
/// and lists have no type of their own.
pub proof fn law_values_have_their_types(v: ValueModel, t: ColumnType)
    ensures
        type_of(v) == Some(t) <==> match t {
            ColumnType::Int64 => v is Int,
            ColumnType::Float64 => v is Float,
            ColumnType::Bool => v is Bool,
            ColumnType::Text => v is Text,
            ColumnType::Blob => v is Blob,
            ColumnType::Timestamp => v is Timestamp,
            ColumnType::Any => false,
        },
        value_fits(v, ColumnType::Any),
        !(v is List) && t != ColumnType::Any ==> (value_fits(v, t) <==> type_of(v) == Some(t)),
        t != ColumnType::Any ==> (v matches ValueModel::List(items) ==> (value_fits(v, t) <==> forall|i: int|
            0 <= i < items.len() ==> (#[trigger] items[i]) is Null || type_of(items[i]) == Some(t))),
{
}

/// Two types never share a name.
pub proof fn law_type_names_differ(a: ColumnType, b: ColumnType)
    requires
        type_text(a) == type_text(b),
    ensures
        a == b,
{
    reveal_strlit("int64");
    reveal_strlit("float64");
    reveal_strlit("bool");
    reveal_strlit("text");
    reveal_strlit("blob");
    reveal_strlit("timestamp");
    reveal_strlit("any");
    let (x, y) = (type_text(a), type_text(b));
    assert(x.len() == y.len() && x[0] == y[0] && x[1] == y[1]);
}

} // verus!
