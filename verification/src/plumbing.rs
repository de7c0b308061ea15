//! The runtime value model: a tagged value carrying nothing, a 64-bit
//! signed integer, or a boolean, with a companion kind tag used by later
//! phases for type checks.

use vstd::prelude::*;

verus! {

/// A runtime value: `Null`, a 64-bit signed number, or a boolean.
#[derive(Debug, Clone, Copy, PartialEq, Eq, Structural)]
pub enum Object {
    Null,
    Number(i64),
    Boolean(bool),
}

/// The kind tag corresponding to each `Object` variant.
#[derive(Debug, Clone, Copy, PartialEq, Eq, Hash, Structural)]
pub enum ObjectKind {
    Null,
    Number,
    Boolean,
}

impl Object {
    /// The kind tag of this value.
    pub open spec fn kind_spec(&self) -> ObjectKind {
        match self {
            Object::Null => ObjectKind::Null,
            Object::Number(_) => ObjectKind::Number,
            Object::Boolean(_) => ObjectKind::Boolean,
        }
    }

    /// Projects the value to its kind tag.
    pub fn kind(&self) -> (k: ObjectKind)
        ensures
            k == self.kind_spec(),
    {
        match self {
            Object::Null => ObjectKind::Null,
            Object::Number(_) => ObjectKind::Number,
            Object::Boolean(_) => ObjectKind::Boolean,
        }
    }

    /// Narrowing accessor: the caller must have established that this value
    /// is a number.
    pub fn as_number(&self) -> (n: i64)
        requires
            self.kind_spec() == ObjectKind::Number,
        ensures
            *self == Object::Number(n),
    {
        match self {
            Object::Number(n) => *n,
            _ => 0,
        }
    }

    /// Narrowing accessor: the caller must have established that this value
    /// is a boolean.
    pub fn as_boolean(&self) -> (b: bool)
        requires
            self.kind_spec() == ObjectKind::Boolean,
        ensures
            *self == Object::Boolean(b),
    {
        match self {
            Object::Boolean(b) => *b,
            _ => false,
        }
    }
}

} // verus!
