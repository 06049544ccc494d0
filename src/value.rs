use vstd::prelude::*;
use vstd::string::StringExecFns;

verus! {

/// What a cell holds: a scalar or a resizable text.
#[derive(Debug, PartialEq, Eq)]
pub enum Value {
    Int(i32),
    Text(String),
}

impl Value {
    /// A copy of this value, equal to it.
    pub fn duplicate(&self) -> (r: Value)
        ensures
            r == *self,
    {
        match self {
            Value::Int(n) => Value::Int(*n),
            Value::Text(s) => Value::Text(s.clone()),
        }
    }

    /// This text with `suffix` appended to it.
    pub fn appended(self, suffix: &str) -> (r: Value)
        requires
            self is Text,
        ensures
            r is Text,
            r->Text_0@ == self->Text_0@ + suffix@,
    {
        match self {
            Value::Text(mut s) => {
                s.append(suffix);
                Value::Text(s)
            },
            Value::Int(_) => vstd::pervasive::unreached(),
        }
    }
}

} // verus!
