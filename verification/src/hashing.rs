//! The content hash of stored values and quads.
//!
//! Deduplication looks records up by a 64-bit content hash.  Any stable hash
//! serves; this store uses FNV-1a over a tagged byte encoding of the value.
//! Collisions between distinct contents are an accepted risk, exactly as with
//! an injected external hasher: nothing here assumes the hash is injective.

use vstd::prelude::*;
use vstd::utf8::encode_utf8;
use crate::value::{Value, ValueModel};
use crate::primitive::{ContentModel, InternalQuad, PrimModel, Primitive, PrimitiveContent};

verus! {

pub const FNV_OFFSET: u64 = 0xcbf29ce484222325;

pub const FNV_PRIME: u64 = 0x100000001b3;

/// One FNV-1a round: fold one byte into the running hash.
#[verifier::opaque]
pub open spec fn fnv_byte(h: u64, b: u8) -> u64 {
    vstd::wrapping::u64_specs::wrapping_mul(h ^ (b as u64), FNV_PRIME)
}

/// Fold a byte sequence into the running hash, first byte first.
#[verifier::opaque]
pub open spec fn fnv_bytes(h: u64, bs: Seq<u8>) -> u64
    decreases bs.len(),
{
    if bs.len() == 0 {
        h
    } else {
        fnv_byte(fnv_bytes(h, bs.drop_last()), bs.last())
    }
}

/// Fold the eight big-endian bytes of `x` into the running hash.
#[verifier::opaque]
pub open spec fn fnv_u64(h: u64, x: u64) -> u64 {
    let h0 = fnv_byte(h, ((x >> 56) & 0xff) as u8);
    let h1 = fnv_byte(h0, ((x >> 48) & 0xff) as u8);
    let h2 = fnv_byte(h1, ((x >> 40) & 0xff) as u8);
    let h3 = fnv_byte(h2, ((x >> 32) & 0xff) as u8);
    let h4 = fnv_byte(h3, ((x >> 24) & 0xff) as u8);
    let h5 = fnv_byte(h4, ((x >> 16) & 0xff) as u8);
    let h6 = fnv_byte(h5, ((x >> 8) & 0xff) as u8);
    fnv_byte(h6, (x & 0xff) as u8)
}

/// The content hash of a value.  Each variant hashes a distinct tag byte
/// first, then its payload bytes; strings hash their UTF-8 encoding.
pub open spec fn hash_of(v: ValueModel) -> u64 {
    match v {
        ValueModel::Absent => fnv_byte(FNV_OFFSET, 0),
        ValueModel::Null => fnv_byte(FNV_OFFSET, 1),
        ValueModel::Bool(b) => fnv_byte(fnv_byte(FNV_OFFSET, 2), if b { 1 } else { 0 }),
        ValueModel::Int(i) => fnv_u64(fnv_byte(FNV_OFFSET, 3), i as u64),
        ValueModel::Str(cs) => fnv_bytes(fnv_byte(FNV_OFFSET, 4), encode_utf8(cs)),
        ValueModel::Iri(cs) => fnv_bytes(fnv_byte(FNV_OFFSET, 5), encode_utf8(cs)),
    }
}

/// The content hash of an internal quad: computed over the 4-tuple of ids
/// alone, so it is stable for equal tuples.
pub open spec fn qhash_of(q: InternalQuad) -> u64 {
    fnv_u64(fnv_u64(fnv_u64(fnv_u64(fnv_byte(FNV_OFFSET, 6), q.s), q.p), q.o), q.l)
}

/// The content hash of either kind of primitive content.
pub open spec fn content_hash(c: ContentModel) -> u64 {
    match c {
        ContentModel::Node(v) => hash_of(v),
        ContentModel::Quad(q) => qhash_of(q),
    }
}

/// One executable FNV-1a round.
fn fnv_step(h: u64, b: u8) -> (r: u64)
    ensures
        r == fnv_byte(h, b),
{
    proof {
        reveal(fnv_byte);
    }
    (h ^ (b as u64)).wrapping_mul(FNV_PRIME)
}

/// Fold a byte slice into the running hash.
fn fnv_run(h0: u64, bs: &[u8]) -> (h: u64)
    ensures
        h == fnv_bytes(h0, bs@),
{
    proof {
        reveal(fnv_bytes);
    }
    let mut h: u64 = h0;
    let n: usize = bs.len();
    let mut i: usize = 0;
    while i < n
        invariant
            i <= n,
            n == bs@.len(),
            h == fnv_bytes(h0, bs@.take(i as int)),
        decreases n - i,
    {
        proof {
            reveal(fnv_bytes);
            assert(bs@.take(i + 1).drop_last() =~= bs@.take(i as int));
            assert(bs@.take(i + 1).last() == bs@[i as int]);
        }
        h = fnv_step(h, bs[i]);
        i = i + 1;
    }
    proof {
        assert(bs@.take(n as int) =~= bs@);
    }
    h
}

/// Fold the eight big-endian bytes of `x` into the running hash.
fn fnv_run_u64(h: u64, x: u64) -> (r: u64)
    ensures
        r == fnv_u64(h, x),
{
    proof {
        reveal(fnv_u64);
    }
    let h0 = fnv_step(h, #[verifier::truncate] (((x >> 56) & 0xff) as u8));
    let h1 = fnv_step(h0, #[verifier::truncate] (((x >> 48) & 0xff) as u8));
    let h2 = fnv_step(h1, #[verifier::truncate] (((x >> 40) & 0xff) as u8));
    let h3 = fnv_step(h2, #[verifier::truncate] (((x >> 32) & 0xff) as u8));
    let h4 = fnv_step(h3, #[verifier::truncate] (((x >> 24) & 0xff) as u8));
    let h5 = fnv_step(h4, #[verifier::truncate] (((x >> 16) & 0xff) as u8));
    let h6 = fnv_step(h5, #[verifier::truncate] (((x >> 8) & 0xff) as u8));
    fnv_step(h6, #[verifier::truncate] ((x & 0xff) as u8))
}

impl Value {
    /// The content hash used for deduplication.
    pub fn calc_hash(&self) -> (h: u64)
        ensures
            h == hash_of(self@),
    {
        match self {
            Value::Absent => fnv_step(FNV_OFFSET, 0),
            Value::Null => fnv_step(FNV_OFFSET, 1),
            Value::Bool(b) => fnv_step(fnv_step(FNV_OFFSET, 2), if *b { 1 } else { 0 }),
            Value::Int(i) => fnv_run_u64(fnv_step(FNV_OFFSET, 3), #[verifier::truncate] (*i as u64)),
            Value::Str(s) => fnv_run(fnv_step(FNV_OFFSET, 4), s.as_str().as_bytes()),
            Value::Iri(s) => fnv_run(fnv_step(FNV_OFFSET, 5), s.as_str().as_bytes()),
        }
    }
}

impl InternalQuad {
    /// The content hash used for deduplication, over the 4-tuple of ids.
    pub fn calc_hash(&self) -> (h: u64)
        ensures
            h == qhash_of(*self),
    {
        fnv_run_u64(
            fnv_run_u64(fnv_run_u64(fnv_run_u64(fnv_step(FNV_OFFSET, 6), self.s), self.p), self.o),
            self.l,
        )
    }
}

impl Primitive {
    /// A fresh node record for one value: no id yet, one reference.
    pub fn new_value(v: Value) -> (p: Primitive)
        ensures
            p@ == (PrimModel { id: 0, hash: hash_of(v@), refs: 1, content: ContentModel::Node(v@) }),
    {
        let hash = v.calc_hash();
        Primitive { id: 0, hash, refs: 1, content: PrimitiveContent::Value(v) }
    }

    /// A fresh quad record for one internal quad: no id yet, one reference.
    pub fn new_quad(q: InternalQuad) -> (p: Primitive)
        ensures
            p@ == (PrimModel { id: 0, hash: qhash_of(q), refs: 1, content: ContentModel::Quad(q) }),
    {
        let hash = q.calc_hash();
        Primitive { id: 0, hash, refs: 1, content: PrimitiveContent::InternalQuad(q) }
    }

    /// The content hash of whatever this primitive stores.
    pub fn calc_hash(&self) -> (h: u64)
        ensures
            h == content_hash(self@.content),
    {
        match &self.content {
            PrimitiveContent::Value(v) => v.calc_hash(),
            PrimitiveContent::InternalQuad(q) => q.calc_hash(),
        }
    }
}

} // verus!
