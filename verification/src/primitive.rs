//! Stored records: internal quads, primitives, external handles, counts,
//! deltas and the store's error kinds.

use vstd::prelude::*;
use crate::value::{Direction, Quad, QuadModel, Value, ValueModel};

verus! {

/// A statement resolved to primitive ids: each position is `0` ("no value in
/// this position") or the id of a node primitive.
#[derive(Clone, Copy, PartialEq, Eq, Structural, Debug, Hash)]
#[verifier::ext_equal]
pub struct InternalQuad {
    pub s: u64,
    pub p: u64,
    pub o: u64,
    pub l: u64,
}

impl InternalQuad {
    /// The id this quad holds in the given direction.
    pub open spec fn spec_dir(&self, d: Direction) -> u64 {
        match d {
            Direction::Subject => self.s,
            Direction::Predicate => self.p,
            Direction::Object => self.o,
            Direction::Label => self.l,
        }
    }

    #[verifier::when_used_as_spec(spec_dir)]
    pub fn dir(&self, d: Direction) -> (id: u64)
        ensures
            id == self.spec_dir(d),
    {
        match d {
            Direction::Subject => self.s,
            Direction::Predicate => self.p,
            Direction::Object => self.o,
            Direction::Label => self.l,
        }
    }

    /// The quad with the given direction replaced by `id`.
    pub open spec fn spec_set_dir(self, d: Direction, id: u64) -> InternalQuad {
        match d {
            Direction::Subject => InternalQuad { s: id, ..self },
            Direction::Predicate => InternalQuad { p: id, ..self },
            Direction::Object => InternalQuad { o: id, ..self },
            Direction::Label => InternalQuad { l: id, ..self },
        }
    }

    pub fn set_dir(&mut self, d: Direction, id: u64)
        ensures
            *final(self) == old(self).spec_set_dir(d, id),
    {
        match d {
            Direction::Subject => { self.s = id; },
            Direction::Predicate => { self.p = id; },
            Direction::Object => { self.o = id; },
            Direction::Label => { self.l = id; },
        }
    }

    /// The all-zero quad: every position absent.
    pub fn zero() -> (q: InternalQuad)
        ensures
            q == (InternalQuad { s: 0, p: 0, o: 0, l: 0 }),
    {
        InternalQuad { s: 0, p: 0, o: 0, l: 0 }
    }
}

/// What a primitive stores: an application value (a node) or an internal quad.
#[derive(PartialEq, Eq, Debug)]
pub enum PrimitiveContent {
    Value(Value),
    InternalQuad(InternalQuad),
}

/// The mathematical content of a `PrimitiveContent`.
pub enum ContentModel {
    Node(ValueModel),
    Quad(InternalQuad),
}

impl View for PrimitiveContent {
    type V = ContentModel;

    open spec fn view(&self) -> ContentModel {
        match self {
            PrimitiveContent::Value(v) => ContentModel::Node(v@),
            PrimitiveContent::InternalQuad(q) => ContentModel::Quad(*q),
        }
    }
}

impl Clone for PrimitiveContent {
    fn clone(&self) -> (r: Self)
        ensures
            r@ == self@,
    {
        match self {
            PrimitiveContent::Value(v) => PrimitiveContent::Value(v.clone()),
            PrimitiveContent::InternalQuad(q) => PrimitiveContent::InternalQuad(*q),
        }
    }
}

/// One deduplicated, reference-counted stored record.
#[derive(PartialEq, Eq, Debug)]
pub struct Primitive {
    pub id: u64,
    pub hash: u64,
    pub refs: u64,
    pub content: PrimitiveContent,
}

/// The mathematical content of a `Primitive`.
pub struct PrimModel {
    pub id: u64,
    pub hash: u64,
    pub refs: u64,
    pub content: ContentModel,
}

impl View for Primitive {
    type V = PrimModel;

    open spec fn view(&self) -> PrimModel {
        PrimModel { id: self.id, hash: self.hash, refs: self.refs, content: self.content@ }
    }
}

impl Clone for Primitive {
    fn clone(&self) -> (r: Self)
        ensures
            r@ == self@,
    {
        Primitive {
            id: self.id,
            hash: self.hash,
            refs: self.refs,
            content: self.content.clone(),
        }
    }
}

impl Primitive {
    /// Whether this primitive stores an internal quad.
    pub fn is_quad(&self) -> (b: bool)
        ensures
            b == (self@.content is Quad),
    {
        matches!(self.content, PrimitiveContent::InternalQuad(_))
    }

    /// Whether this primitive stores an application value.
    pub fn is_node(&self) -> (b: bool)
        ensures
            b == (self@.content is Node),
    {
        matches!(self.content, PrimitiveContent::Value(_))
    }
}

/// What an external handle may carry along with its id.
#[derive(PartialEq, Eq, Debug)]
pub enum Content {
    Empty,
    Value(Value),
    InternalQuad(InternalQuad),
    Quad(Quad),
}

/// The mathematical content of a `Content`.
pub enum RefContentModel {
    Empty,
    Value(ValueModel),
    InternalQuad(InternalQuad),
    Quad(QuadModel),
}

impl View for Content {
    type V = RefContentModel;

    open spec fn view(&self) -> RefContentModel {
        match self {
            Content::Empty => RefContentModel::Empty,
            Content::Value(v) => RefContentModel::Value(v@),
            Content::InternalQuad(q) => RefContentModel::InternalQuad(*q),
            Content::Quad(q) => RefContentModel::Quad(q@),
        }
    }
}

impl Clone for Content {
    fn clone(&self) -> (r: Self)
        ensures
            r@ == self@,
    {
        match self {
            Content::Empty => Content::Empty,
            Content::Value(v) => Content::Value(v.clone()),
            Content::InternalQuad(q) => Content::InternalQuad(*q),
            Content::Quad(q) => Content::Quad(q.clone()),
        }
    }
}

/// An external handle to a primitive: a weak lookup key, optionally carrying
/// content that is already known.  It never implies ownership of the record.
#[derive(PartialEq, Eq, Debug)]
pub struct Ref {
    pub k: Option<u64>,
    pub content: Content,
}

/// The mathematical content of a `Ref`.
pub struct RefModel {
    pub k: Option<u64>,
    pub content: RefContentModel,
}

impl View for Ref {
    type V = RefModel;

    open spec fn view(&self) -> RefModel {
        RefModel { k: self.k, content: self.content@ }
    }
}

impl Clone for Ref {
    fn clone(&self) -> (r: Self)
        ensures
            r@ == self@,
    {
        Ref { k: self.k, content: self.content.clone() }
    }
}

impl Ref {
    /// The id this handle refers to, if it carries one.
    pub fn key(&self) -> (k: Option<u64>)
        ensures
            k == self@.k,
    {
        self.k
    }

    /// A handle that refers to nothing.
    pub fn none() -> (r: Ref)
        ensures
            r@.k is None,
            r@.content is Empty,
    {
        Ref { k: Option::None, content: Content::Empty }
    }
}

/// Exact counts of node and quad primitives.
#[derive(Clone, Copy, PartialEq, Eq, Structural, Debug)]
pub struct PrimitiveCount {
    pub values: u64,
    pub quads: u64,
}

impl PrimitiveCount {
    pub fn zero() -> (c: PrimitiveCount)
        ensures
            c.values == 0 && c.quads == 0,
    {
        PrimitiveCount { values: 0, quads: 0 }
    }

    /// How many primitives exist in all; saturates at `u64::MAX`.
    pub fn total(&self) -> (t: u64)
        ensures
            self.values + self.quads <= u64::MAX ==> t == self.values + self.quads,
            self.values + self.quads > u64::MAX ==> t == u64::MAX,
    {
        if self.quads <= u64::MAX - self.values {
            self.values + self.quads
        } else {
            u64::MAX
        }
    }

    /// Add `n` to the quad count, stopping at the ends of the `u64` range.
    pub fn increment_quads(&mut self, n: i64)
        ensures
            n < 0 && -n as int > old(self).quads ==> final(self).quads == old(self).quads,
            n < 0 && -n as int <= old(self).quads ==> final(self).quads == old(self).quads + n,
            n >= 0 && old(self).quads + n > u64::MAX ==> final(self).quads == old(self).quads,
            n >= 0 && old(self).quads + n <= u64::MAX ==> final(self).quads == old(self).quads + n,
            final(self).values == old(self).values,
    {
        if n < 0 {
            let m: u64 = if n == i64::MIN {
                0x8000000000000000u64
            } else {
                (0 - n) as u64
            };
            if m <= self.quads {
                self.quads = self.quads - m;
            }
        } else {
            let m: u64 = n as u64;
            if m <= u64::MAX - self.quads {
                self.quads = self.quads + m;
            }
        }
    }

    /// Add `n` to the node count, stopping at the ends of the `u64` range.
    pub fn increment_values(&mut self, n: i64)
        ensures
            n < 0 && -n as int > old(self).values ==> final(self).values == old(self).values,
            n < 0 && -n as int <= old(self).values ==> final(self).values == old(self).values + n,
            n >= 0 && old(self).values + n > u64::MAX ==> final(self).values == old(self).values,
            n >= 0 && old(self).values + n <= u64::MAX ==> final(self).values == old(self).values + n,
            final(self).quads == old(self).quads,
    {
        if n < 0 {
            let m: u64 = if n == i64::MIN {
                0x8000000000000000u64
            } else {
                (0 - n) as u64
            };
            if m <= self.values {
                self.values = self.values - m;
            }
        } else {
            let m: u64 = n as u64;
            if m <= u64::MAX - self.values {
                self.values = self.values + m;
            }
        }
    }
}

/// An exact or estimated result size.
#[derive(Clone, Copy, PartialEq, Eq, Structural, Debug)]
pub struct Size {
    pub value: i64,
    pub exact: bool,
}

/// Aggregate store statistics.
#[derive(Clone, Copy, PartialEq, Eq, Structural, Debug)]
pub struct Stats {
    pub nodes: Size,
    pub quads: Size,
}

/// The two policies of a batch: whether to tolerate adding a statement that
/// already exists, and deleting one that does not.
#[derive(Clone, Copy, PartialEq, Eq, Structural, Debug)]
pub struct IgnoreOptions {
    pub ignore_dup: bool,
    pub ignore_missing: bool,
}

/// Whether one delta asks to add or to delete its statement.
#[derive(Clone, Copy, PartialEq, Eq, Structural, Debug)]
pub enum Procedure {
    Add,
    Delete,
}

/// One requested mutation of the store.
#[derive(PartialEq, Eq, Debug)]
pub struct Delta {
    pub action: Procedure,
    pub quad: Quad,
}

/// The mathematical content of a `Delta`.
pub struct DeltaModel {
    pub action: Procedure,
    pub quad: QuadModel,
}

impl View for Delta {
    type V = DeltaModel;

    open spec fn view(&self) -> DeltaModel {
        DeltaModel { action: self.action, quad: self.quad@ }
    }
}

impl Clone for Delta {
    fn clone(&self) -> (r: Self)
        ensures
            r@ == self@,
    {
        Delta { action: self.action, quad: self.quad.clone() }
    }
}

/// The ways an operation on the store can fail.
///
/// `BackendUnavailable` stands for a storage transaction the backend could
/// not commit; with this crate's in-memory tables it arises only when the id
/// space or a reference count is exhausted.  `RefCountUnderflow` reports a
/// decrement of a reference count that is already zero: a desynchronization
/// between the index and the primitive table, never produced from a
/// well-formed store.
#[derive(Clone, Copy, PartialEq, Eq, Structural, Debug)]
pub enum StoreError {
    BackendUnavailable,
    QuadExists,
    QuadNotExist,
    RefCountUnderflow,
}

} // verus!
