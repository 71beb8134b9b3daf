//! The quad resolver: translating application statements into internal
//! id-quads and back, with deduplication and reference counting.

use vstd::prelude::*;
use crate::value::{Direction, Quad, Value};
use crate::primitive::{InternalQuad, Primitive, PrimitiveContent, Ref, StoreError};
use crate::model::{
    find_quad_spec, internal_quad_spec, lookup_quad_dirs_spec, lookup_val_spec, name_of_spec,
    resolve_quad_spec, resolve_val_spec, rq_step, value_of_spec, wf,
};
use crate::lemmas::{lemma_idx_of_id_unique, lemma_resolve_val_wf, lemma_rq_step_wf};
use crate::store::QuadStore;

verus! {

impl QuadStore {
    /// Resolve one value to its node id.  The sentinel resolves to nothing.
    /// A pure lookup (`add` false) never mutates; an insertion (`add` true)
    /// increments the found record's reference count, or creates a fresh
    /// node primitive with one reference.
    pub fn resolve_val(&mut self, v: &Value, add: bool) -> (r: Result<Option<u64>, StoreError>)
        requires
            wf(old(self)@),
        ensures
            final(self)@ == resolve_val_spec(old(self)@, v@, add).0,
            r == resolve_val_spec(old(self)@, v@, add).1,
            wf(final(self)@),
    {
        proof {
            lemma_resolve_val_wf(old(self)@, v@, add);
        }
        if v.is_absent() {
            return Ok(None);
        }
        let hash = v.calc_hash();
        match self.get_primitive_from_hash(hash) {
            Some(p) => {
                if !add {
                    Ok(Some(p.id))
                } else if p.refs == u64::MAX {
                    Err(StoreError::BackendUnavailable)
                } else {
                    let ghost j = crate::model::idx_of_hash(self@.prims, hash);
                    proof {
                        crate::lemmas::lemma_idx_of_hash_props(self@.prims, hash);
                        lemma_idx_of_id_unique(self@.prims, j);
                    }
                    let mut p2 = p;
                    p2.refs = p2.refs + 1;
                    self.update_primitive(&p2);
                    Ok(Some(p2.id))
                }
            },
            None => {
                if !add {
                    Ok(None)
                } else {
                    let mut prim = Primitive::new_value(v.clone());
                    match self.add_primitive(&mut prim) {
                        Err(e) => Err(e),
                        Ok(_) => Ok(Some(prim.id)),
                    }
                }
            },
        }
    }

    /// Resolve one position of a statement into the internal quad being
    /// assembled.
    fn resolve_dir(&mut self, iq: InternalQuad, v: &Value, d: Direction, add: bool) -> (r: Result<
        Option<InternalQuad>,
        StoreError,
    >)
        requires
            wf(old(self)@),
        ensures
            final(self)@ == rq_step((old(self)@, Ok(Some(iq))), v@, d, add).0,
            r == rq_step((old(self)@, Ok(Some(iq))), v@, d, add).1,
            wf(final(self)@),
    {
        proof {
            lemma_rq_step_wf((old(self)@, Ok(Some(iq))), v@, d, add);
        }
        if v.is_absent() {
            return Ok(Some(iq));
        }
        match self.resolve_val(v, add) {
            Err(e) => Err(e),
            Ok(None) => Ok(None),
            Ok(Some(vid)) => {
                let mut iq2 = iq;
                iq2.set_dir(d, vid);
                Ok(Some(iq2))
            },
        }
    }

    /// Resolve a whole statement, position by position.  The result is
    /// `None` as soon as one non-sentinel value cannot be resolved: a quad
    /// cannot be partially resolved.
    pub fn resolve_quad(&mut self, q: &Quad, add: bool) -> (r: Result<
        Option<InternalQuad>,
        StoreError,
    >)
        requires
            wf(old(self)@),
        ensures
            final(self)@ == resolve_quad_spec(old(self)@, q@, add).0,
            r == resolve_quad_spec(old(self)@, q@, add).1,
            wf(final(self)@),
    {
        let iq0 = InternalQuad::zero();
        let r1 = self.resolve_dir(iq0, &q.subject, Direction::Subject, add);
        let ghost st1 = rq_step(
            (old(self)@, Ok(Some(InternalQuad { s: 0, p: 0, o: 0, l: 0 }))),
            q@.subject,
            Direction::Subject,
            add,
        );
        let iq1 = match r1 {
            Err(e) => {
                proof {
                    assert(resolve_quad_spec(old(self)@, q@, add) == (st1.0, st1.1));
                }
                return Err(e);
            },
            Ok(None) => {
                proof {
                    assert(resolve_quad_spec(old(self)@, q@, add) == (st1.0, st1.1));
                }
                return Ok(None);
            },
            Ok(Some(x)) => x,
        };
        let r2 = self.resolve_dir(iq1, &q.predicate, Direction::Predicate, add);
        let ghost st2 = rq_step(st1, q@.predicate, Direction::Predicate, add);
        let iq2 = match r2 {
            Err(e) => {
                proof {
                    assert(resolve_quad_spec(old(self)@, q@, add) == (st2.0, st2.1));
                }
                return Err(e);
            },
            Ok(None) => {
                proof {
                    assert(resolve_quad_spec(old(self)@, q@, add) == (st2.0, st2.1));
                }
                return Ok(None);
            },
            Ok(Some(x)) => x,
        };
        let r3 = self.resolve_dir(iq2, &q.object, Direction::Object, add);
        let ghost st3 = rq_step(st2, q@.object, Direction::Object, add);
        let iq3 = match r3 {
            Err(e) => {
                proof {
                    assert(resolve_quad_spec(old(self)@, q@, add) == (st3.0, st3.1));
                }
                return Err(e);
            },
            Ok(None) => {
                proof {
                    assert(resolve_quad_spec(old(self)@, q@, add) == (st3.0, st3.1));
                }
                return Ok(None);
            },
            Ok(Some(x)) => x,
        };
        let r4 = self.resolve_dir(iq3, &q.label, Direction::Label, add);
        r4
    }

    /// The node id one value resolves to, without inserting anything.
    pub fn lookup_val_id(&self, v: &Value) -> (r: Option<u64>)
        ensures
            Ok::<Option<u64>, StoreError>(r) == resolve_val_spec(self@, v@, false).1,
            r == value_of_spec(self@, v@),
    {
        if v.is_absent() {
            return None;
        }
        let hash = v.calc_hash();
        match self.get_primitive_from_hash(hash) {
            Some(p) => Some(p.id),
            None => None,
        }
    }

    /// Resolve a whole statement without inserting anything.
    pub(crate) fn resolve_quad_pure(&self, q: &Quad) -> (r: Option<InternalQuad>)
        ensures
            Ok::<Option<InternalQuad>, StoreError>(r) == resolve_quad_spec(self@, q@, false).1,
    {
        let mut iq = InternalQuad::zero();
        if !self.resolve_pos_pure(q, &mut iq, 0) {
            return None;
        }
        if !self.resolve_pos_pure(q, &mut iq, 1) {
            return None;
        }
        if !self.resolve_pos_pure(q, &mut iq, 2) {
            return None;
        }
        if !self.resolve_pos_pure(q, &mut iq, 3) {
            return None;
        }
        Some(iq)
    }

    /// One pure resolution step for `resolve_quad_pure`; `k` picks the
    /// direction in statement order: subject, predicate, object, label.
    pub(crate) fn resolve_pos_pure(&self, q: &Quad, iq: &mut InternalQuad, k: u8) -> (ok: bool)
        requires
            k < 4,
    ensures ({
        let d = if k == 0 {
            Direction::Subject
        } else if k == 1 {
            Direction::Predicate
        } else if k == 2 {
            Direction::Object
        } else {
            Direction::Label
        };
        let st = rq_step((self@, Ok(Some(*old(iq)))), crate::value::quad_dir(q@, d), d, false);
        &&& ok ==> st.1 == Ok::<Option<InternalQuad>, StoreError>(Some(*final(iq)))
        &&& !ok ==> st.1 == Ok::<Option<InternalQuad>, StoreError>(None) && *final(iq) == *old(iq)
    }),
    {
        let d = if k == 0 {
            Direction::Subject
        } else if k == 1 {
            Direction::Predicate
        } else if k == 2 {
            Direction::Object
        } else {
            Direction::Label
        };
        let v = q.get(d);
        if v.is_absent() {
            return true;
        }
        match self.lookup_val_id(v) {
            Some(vid) => {
                iq.set_dir(d, vid);
                true
            },
            None => false,
        }
    }

    /// Locate the stored primitive for a statement, without inserting: the
    /// values are resolved purely, then the internal quad is looked up by
    /// its content hash.
    pub fn find_quad(&self, q: &Quad) -> (r: Option<Primitive>)
        ensures
            match r {
                Some(p) => find_quad_spec(self@, q@) == Some(p@),
                None => find_quad_spec(self@, q@) is None,
            },
    {
        match self.resolve_quad_pure(q) {
            Some(iq) => {
                let h = iq.calc_hash();
                self.get_primitive_from_hash(h)
            },
            None => None,
        }
    }

    /// The value stored under the given node id.
    pub fn lookup_val(&self, id: u64) -> (r: Option<Value>)
        ensures
            match r {
                Some(v) => lookup_val_spec(self@, id) == Some(v@),
                None => lookup_val_spec(self@, id) is None,
            },
    {
        match self.get_primitive(id) {
            Some(p) => match p.content {
                PrimitiveContent::Value(v) => Some(v),
                PrimitiveContent::InternalQuad(_) => None,
            },
            None => None,
        }
    }

    /// The internal quad an external handle leads to, if its id names a
    /// stored quad primitive.
    pub fn internal_quad(&self, r: &Ref) -> (iq: Option<InternalQuad>)
        ensures
            iq == internal_quad_spec(self@, r@),
    {
        match r.key() {
            Some(k) => match self.get_primitive(k) {
                Some(p) => match p.content {
                    PrimitiveContent::InternalQuad(q) => Some(q),
                    PrimitiveContent::Value(_) => None,
                },
                None => None,
            },
            None => None,
        }
    }

    /// Reassemble the application statement an internal quad stands for:
    /// each non-sentinel position is looked up, and a position whose id is 0
    /// or cannot be found stays absent.
    pub fn lookup_quad_dirs(&self, p: InternalQuad) -> (q: Quad)
        ensures
            q@ == lookup_quad_dirs_spec(self@, p),
    {
        let subject = self.lookup_dir(p.s);
        let predicate = self.lookup_dir(p.p);
        let object = self.lookup_dir(p.o);
        let label = self.lookup_dir(p.l);
        let q = Quad::new(subject, predicate, object, label);
        proof {
            assert(q@ =~= lookup_quad_dirs_spec(self@, p));
        }
        q
    }

    /// The application value at one resolved position: the stored node's
    /// value, or the sentinel where the id is 0 or cannot be found.
    fn lookup_dir(&self, vid: u64) -> (v: Value)
        ensures
            v@ == crate::model::lookup_dir_spec(self@, vid),
    {
        if vid == 0 {
            return Value::Absent;
        }
        match self.lookup_val(vid) {
            Some(v) => v,
            None => Value::Absent,
        }
    }

    /// The handle for a value that already exists in the store: a pure hash
    /// lookup, carrying the value along.  The sentinel and a missing value
    /// yield nothing.
    pub fn value_of(&self, v: &Value) -> (r: Option<Ref>)
        ensures
            match r {
                Some(rf) => value_of_spec(self@, v@) is Some && rf@.k == value_of_spec(self@, v@)
                    && rf@.content == crate::primitive::RefContentModel::Value(v@),
                None => value_of_spec(self@, v@) is None,
            },
    {
        if v.is_absent() {
            return None;
        }
        let hash = v.calc_hash();
        match self.get_primitive_from_hash(hash) {
            Some(p) => Some(
                Ref { k: Some(p.id), content: crate::primitive::Content::Value(v.clone()) },
            ),
            None => None,
        }
    }

    /// The value an external handle names: its inlined content when it
    /// carries one, else the stored node value under its id.
    pub fn name_of(&self, key: &Ref) -> (r: Option<Value>)
        ensures
            match r {
                Some(v) => name_of_spec(self@, key@) == Some(v@),
                None => name_of_spec(self@, key@) is None,
            },
    {
        if let crate::primitive::Content::Value(v) = &key.content {
            return Some(v.clone());
        }
        match key.key() {
            Some(i) => self.lookup_val(i),
            None => None,
        }
    }
}

} // verus!
