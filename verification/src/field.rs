//! Fields as they are recorded on spans and events.

use vstd::prelude::*;
use vstd::string::*;

verus! {

/// Identifies a field: the callsite that declares it, its position there, and
/// its name. The callsite and the position alone tell two fields apart.
#[derive(Debug)]
pub struct Field {
    pub callsite: usize,
    pub index: usize,
    pub name: String,
}

impl Field {
    /// Whether two values identify the same field.
    pub open spec fn same(self, other: Field) -> bool {
        self.callsite == other.callsite && self.index == other.index
    }

    /// Whether two values identify the same field.
    pub fn is_same(&self, other: &Field) -> (r: bool)
        ensures
            r == self.same(*other),
    {
        self.callsite == other.callsite && self.index == other.index
    }
}

impl Clone for Field {
    fn clone(&self) -> (r: Field)
        ensures
            r == *self,
    {
        Field { callsite: self.callsite, index: self.index, name: self.name.clone() }
    }
}

/// What an event says of a field's value: a text, or a number with its type.
pub enum Value {
    Text(Seq<char>),
    Signed(i64),
    Unsigned(u64),
    Boolean(bool),
}

/// A value as it is recorded.
#[derive(Debug)]
pub enum FieldValue {
    /// The `Debug` rendering of a value.
    Debug(String),
    Signed(i64),
    Unsigned(u64),
    Boolean(bool),
    Str(String),
    /// The message of an error, and the messages of the errors that caused it,
    /// from the nearest to the farthest.
    Error { message: String, sources: Vec<String> },
}

/// The message of an error, followed by those of its causes, joined by `": "`.
pub open spec fn error_text(message: Seq<char>, sources: Seq<String>) -> Seq<char>
    decreases sources.len(),
{
    if sources.len() == 0 {
        message
    } else {
        error_text(message, sources.drop_last()) + ": "@ + sources.last()@
    }
}

impl View for FieldValue {
    type V = Value;

    open spec fn view(&self) -> Value {
        match self {
            FieldValue::Debug(text) => Value::Text(text@),
            FieldValue::Signed(v) => Value::Signed(*v),
            FieldValue::Unsigned(v) => Value::Unsigned(*v),
            FieldValue::Boolean(v) => Value::Boolean(*v),
            FieldValue::Str(text) => Value::Text(text@),
            FieldValue::Error { message, sources } => Value::Text(error_text(message@, sources@)),
        }
    }
}

/// A field together with the value recorded for it.
#[derive(Debug)]
pub struct Recorded {
    pub field: Field,
    pub value: FieldValue,
}

impl View for Recorded {
    type V = (Seq<char>, Value);

    open spec fn view(&self) -> (Seq<char>, Value) {
        (self.field.name@, self.value@)
    }
}

/// The names and values of recorded fields, in order.
pub open spec fn names_and_values(fields: Seq<Recorded>) -> Seq<(Seq<char>, Value)> {
    Seq::new(fields.len(), |i: int| fields[i]@)
}

} // verus!
