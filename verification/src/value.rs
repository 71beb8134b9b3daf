//! Application-level values, statement quads, and the four directions.

use vstd::prelude::*;

verus! {

/// One position of a statement: subject, predicate, object or label.
#[derive(Clone, Copy, PartialEq, Eq, Structural, Debug, Hash)]
pub enum Direction {
    Subject,
    Predicate,
    Object,
    Label,
}

impl Direction {
    /// The byte that orders directions inside a composite index key.
    pub open spec fn spec_to_byte(self) -> u64 {
        match self {
            Direction::Subject => 1,
            Direction::Predicate => 2,
            Direction::Object => 3,
            Direction::Label => 4,
        }
    }

    #[verifier::when_used_as_spec(spec_to_byte)]
    pub fn to_byte(self) -> (b: u64)
        ensures
            b == self.spec_to_byte(),
    {
        match self {
            Direction::Subject => 1,
            Direction::Predicate => 2,
            Direction::Object => 3,
            Direction::Label => 4,
        }
    }
}

/// An application-level value held at one position of a statement.
/// `Absent` is the sentinel meaning "no value in this position".
#[derive(PartialEq, Eq, Debug, Hash)]
pub enum Value {
    Absent,
    Null,
    Bool(bool),
    Int(i64),
    Str(String),
    Iri(String),
}

/// The mathematical content of a `Value`.
pub enum ValueModel {
    Absent,
    Null,
    Bool(bool),
    Int(i64),
    Str(Seq<char>),
    Iri(Seq<char>),
}

impl View for Value {
    type V = ValueModel;

    open spec fn view(&self) -> ValueModel {
        match self {
            Value::Absent => ValueModel::Absent,
            Value::Null => ValueModel::Null,
            Value::Bool(b) => ValueModel::Bool(*b),
            Value::Int(i) => ValueModel::Int(*i),
            Value::Str(s) => ValueModel::Str(s@),
            Value::Iri(s) => ValueModel::Iri(s@),
        }
    }
}

impl Clone for Value {
    fn clone(&self) -> (r: Self)
        ensures
            r@ == self@,
    {
        match self {
            Value::Absent => Value::Absent,
            Value::Null => Value::Null,
            Value::Bool(b) => Value::Bool(*b),
            Value::Int(i) => Value::Int(*i),
            Value::Str(s) => Value::Str(s.as_str().to_owned()),
            Value::Iri(s) => Value::Iri(s.as_str().to_owned()),
        }
    }
}

impl Value {
    /// Whether this value is the "no value" sentinel.
    pub fn is_absent(&self) -> (b: bool)
        ensures
            b == (self@ is Absent),
    {
        matches!(self, Value::Absent)
    }
}

/// An application-level statement: one value per direction.
#[derive(PartialEq, Eq, Debug)]
pub struct Quad {
    pub subject: Value,
    pub predicate: Value,
    pub object: Value,
    pub label: Value,
}

/// The mathematical content of a `Quad`.
#[verifier::ext_equal]
pub struct QuadModel {
    pub subject: ValueModel,
    pub predicate: ValueModel,
    pub object: ValueModel,
    pub label: ValueModel,
}

/// The value a quad holds in the given direction.
pub open spec fn quad_dir(q: QuadModel, d: Direction) -> ValueModel {
    match d {
        Direction::Subject => q.subject,
        Direction::Predicate => q.predicate,
        Direction::Object => q.object,
        Direction::Label => q.label,
    }
}

impl View for Quad {
    type V = QuadModel;

    open spec fn view(&self) -> QuadModel {
        QuadModel {
            subject: self.subject@,
            predicate: self.predicate@,
            object: self.object@,
            label: self.label@,
        }
    }
}

impl Clone for Quad {
    fn clone(&self) -> (r: Self)
        ensures
            r@ == self@,
    {
        Quad {
            subject: self.subject.clone(),
            predicate: self.predicate.clone(),
            object: self.object.clone(),
            label: self.label.clone(),
        }
    }
}

impl Quad {
    pub fn new(subject: Value, predicate: Value, object: Value, label: Value) -> (q: Quad)
        ensures
            q@ == (QuadModel {
                subject: subject@,
                predicate: predicate@,
                object: object@,
                label: label@,
            }),
    {
        Quad { subject, predicate, object, label }
    }

    /// A quad with every position absent.
    pub fn new_undefined_vals() -> (q: Quad)
        ensures
            q@ == (QuadModel {
                subject: ValueModel::Absent,
                predicate: ValueModel::Absent,
                object: ValueModel::Absent,
                label: ValueModel::Absent,
            }),
    {
        Quad {
            subject: Value::Absent,
            predicate: Value::Absent,
            object: Value::Absent,
            label: Value::Absent,
        }
    }

    /// The value in the given direction.
    pub fn get(&self, d: Direction) -> (v: &Value)
        ensures
            v@ == quad_dir(self@, d),
    {
        match d {
            Direction::Subject => &self.subject,
            Direction::Predicate => &self.predicate,
            Direction::Object => &self.object,
            Direction::Label => &self.label,
        }
    }

    /// Replace the value in the given direction.
    pub fn set_val(&mut self, d: Direction, v: Value)
        ensures
            quad_dir(final(self)@, d) == v@,
            forall|e: Direction| e != d ==> quad_dir(final(self)@, e) == quad_dir(old(self)@, e),
    {
        match d {
            Direction::Subject => { self.subject = v; },
            Direction::Predicate => { self.predicate = v; },
            Direction::Object => { self.object = v; },
            Direction::Label => { self.label = v; },
        }
    }
}

} // verus!
