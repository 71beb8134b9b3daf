//! Batch mutation: adding and deleting statements, and applying ordered
//! batches of deltas under the duplicate and missing policies.

use vstd::prelude::*;
use crate::value::{Direction, Quad};
use crate::primitive::{
    Delta, DeltaModel, IgnoreOptions, InternalQuad, Primitive, PrimitiveContent, Procedure,
    StoreError,
};
use crate::model::{
    add_quad_spec, apply_deltas_spec, check_phase, dec_step, delete_nodes_spec, delete_spec,
    mutate_phase, wf,
};
use crate::lemmas::{
    lemma_add_quad_wf, lemma_apply_deltas_wf, lemma_dec_step_wf, lemma_delete_nodes_wf,
    lemma_delete_wf, lemma_idx_insert_props, lemma_idx_of_id_props, lemma_mutate_phase_wf,
};
use crate::store::QuadStore;

verus! {

impl QuadStore {
    /// Add one statement.  When a primitive with the resolved quad's content
    /// hash already exists its id is returned and nothing changes, so a
    /// repeated add is benign even with duplicate checking disabled.
    /// Otherwise the values are resolved with insertion, a quad primitive
    /// with one reference is appended, and one direction index entry is
    /// inserted per non-sentinel position.
    pub fn add_quad(&mut self, q: &Quad) -> (r: Result<u64, StoreError>)
        requires
            wf(old(self)@),
        ensures
            final(self)@ == add_quad_spec(old(self)@, q@).0,
            r == add_quad_spec(old(self)@, q@).1,
            wf(final(self)@),
    {
        proof {
            lemma_add_quad_wf(old(self)@, q@);
        }
        // The existence check resolves without inserting, so a hit mutates
        // nothing and increments no reference count.
        if let Some(iq0) = self.resolve_quad_pure(q) {
            let h = iq0.calc_hash();
            if let Some(p) = self.get_primitive_from_hash(h) {
                return Ok(p.id);
            }
        }
        let riq = match self.resolve_quad(q, true) {
            Err(e) => {
                return Err(e);
            },
            Ok(None) => {
                return Err(StoreError::BackendUnavailable);
            },
            Ok(Some(iq)) => iq,
        };
        let ghost s1 = self@;
        let mut pr = Primitive::new_quad(riq);
        match self.add_primitive(&mut pr) {
            Err(e) => {
                return Err(e);
            },
            Ok(_) => {},
        }
        let ghost s2 = self@;
        if riq.s != 0 {
            self.add_quad_direction(riq.s, Direction::Subject, pr.id);
            proof {
                lemma_idx_insert_props(
                    s2.idx,
                    crate::model::entry(Direction::Subject, riq.s, pr.id),
                );
            }
        }
        let ghost s3 = self@;
        if riq.p != 0 {
            self.add_quad_direction(riq.p, Direction::Predicate, pr.id);
            proof {
                lemma_idx_insert_props(
                    s3.idx,
                    crate::model::entry(Direction::Predicate, riq.p, pr.id),
                );
            }
        }
        let ghost s4 = self@;
        if riq.o != 0 {
            self.add_quad_direction(riq.o, Direction::Object, pr.id);
            proof {
                lemma_idx_insert_props(
                    s4.idx,
                    crate::model::entry(Direction::Object, riq.o, pr.id),
                );
            }
        }
        let ghost s5 = self@;
        if riq.l != 0 {
            self.add_quad_direction(riq.l, Direction::Label, pr.id);
            proof {
                lemma_idx_insert_props(s5.idx, crate::model::entry(Direction::Label, riq.l, pr.id));
            }
        }
        Ok(pr.id)
    }

    /// Release one position's node reference: decrement the node's count,
    /// deleting the node when the count reaches zero.  A sentinel or missing
    /// id is skipped, and a quad primitive found under the id is left alone:
    /// reference counts belong to node primitives.  A count already at zero
    /// is the fatal desynchronization error, unreachable from a well-formed
    /// store.
    fn dec_ref(&mut self, vid: u64) -> (r: Result<(), StoreError>)
        requires
            wf(old(self)@),
        ensures
            final(self)@ == dec_step((old(self)@, Ok(true)), vid).0,
            dec_step((old(self)@, Ok(true)), vid).1 == Ok::<bool, StoreError>(true),
            r == Ok::<(), StoreError>(()),
            wf(final(self)@),
    {
        proof {
            lemma_dec_step_wf((old(self)@, Ok(true)), vid);
        }
        if vid == 0 {
            return Ok(());
        }
        match self.get_primitive(vid) {
            None => Ok(()),
            Some(p) => {
                match p.content {
                    PrimitiveContent::InternalQuad(_) => Ok(()),
                    PrimitiveContent::Value(_) => {
                        proof {
                            lemma_idx_of_id_props(self@.prims, vid);
                        }
                        if p.refs == 0 {
                            return Err(StoreError::RefCountUnderflow);
                        }
                        let mut p2 = p;
                        p2.refs = p2.refs - 1;
                        if p2.refs == 0 {
                            self.remove_primitive(p2.id);
                        } else {
                            self.update_primitive(&p2);
                        }
                        Ok(())
                    },
                }
            },
        }
    }

    /// Release the node references a deleted quad held, one position at a
    /// time.
    fn delete_quad_nodes(&mut self, q: &InternalQuad) -> (r: Result<(), StoreError>)
        requires
            wf(old(self)@),
        ensures
            final(self)@ == delete_nodes_spec(old(self)@, *q).0,
            delete_nodes_spec(old(self)@, *q).1 == Ok::<bool, StoreError>(true),
            r == Ok::<(), StoreError>(()),
            wf(final(self)@),
    {
        proof {
            lemma_delete_nodes_wf(old(self)@, *q);
        }
        let _rs = self.dec_ref(q.s);
        let _rp = self.dec_ref(q.p);
        let _ro = self.dec_ref(q.o);
        let _rl = self.dec_ref(q.l);
        Ok(())
    }

    /// Delete the primitive stored under the given id.  A missing id reports
    /// `false`.  A quad primitive is removed together with its index entries
    /// and the nodes it referenced are released; a node primitive is removed
    /// alone.  From a well-formed store this never errors.
    pub fn delete(&mut self, id: u64) -> (r: Result<bool, StoreError>)
        requires
            wf(old(self)@),
        ensures
            final(self)@ == delete_spec(old(self)@, id).0,
            r == delete_spec(old(self)@, id).1,
            r is Ok,
            wf(final(self)@),
    {
        proof {
            lemma_delete_wf(old(self)@, id);
        }
        let p = match self.get_primitive(id) {
            Some(p) => p,
            None => {
                return Ok(false);
            },
        };
        proof {
            lemma_idx_of_id_props(self@.prims, id);
        }
        self.remove_primitive(id);
        match p.content {
            PrimitiveContent::Value(_) => Ok(true),
            PrimitiveContent::InternalQuad(iq) => {
                let ghost s1 = self@;
                if iq.s != 0 {
                    self.remove_quad_direction(iq.s, Direction::Subject, id);
                    proof {
                        crate::lemmas::lemma_idx_remove_props(
                            s1.idx,
                            crate::model::entry(Direction::Subject, iq.s, id),
                        );
                    }
                }
                let ghost s2 = self@;
                if iq.p != 0 {
                    self.remove_quad_direction(iq.p, Direction::Predicate, id);
                    proof {
                        crate::lemmas::lemma_idx_remove_props(
                            s2.idx,
                            crate::model::entry(Direction::Predicate, iq.p, id),
                        );
                    }
                }
                let ghost s3 = self@;
                if iq.o != 0 {
                    self.remove_quad_direction(iq.o, Direction::Object, id);
                    proof {
                        crate::lemmas::lemma_idx_remove_props(
                            s3.idx,
                            crate::model::entry(Direction::Object, iq.o, id),
                        );
                    }
                }
                let ghost s4 = self@;
                if iq.l != 0 {
                    self.remove_quad_direction(iq.l, Direction::Label, id);
                    proof {
                        crate::lemmas::lemma_idx_remove_props(
                            s4.idx,
                            crate::model::entry(Direction::Label, iq.l, id),
                        );
                    }
                }
                proof {
                    crate::lemmas::lemma_delete_quad_mid_wf(old(self)@, id);
                }
                match self.delete_quad_nodes(&iq) {
                    Ok(_) => Ok(true),
                    Err(e) => Err(e),
                }
            },
        }
    }

    /// Apply an ordered batch of deltas.  When either policy asks for
    /// strictness, an advisory check runs first and a violation fails the
    /// whole batch with the store untouched: `QuadExists` for an add of an
    /// existing statement, `QuadNotExist` for a delete of a missing one.
    /// The mutation phase then applies each entry in order; a delete of a
    /// statement that cannot be found is a silent no-op there.
    pub fn apply_deltas(&mut self, deltas: Vec<Delta>, ignore_opts: &IgnoreOptions) -> (r: Result<
        (),
        StoreError,
    >)
        requires
            wf(old(self)@),
        ensures
            final(self)@ == apply_deltas_spec(
                old(self)@,
                deltas@.map_values(|d: Delta| d@),
                ignore_opts.ignore_dup,
                ignore_opts.ignore_missing,
            ).0,
            r == apply_deltas_spec(
                old(self)@,
                deltas@.map_values(|d: Delta| d@),
                ignore_opts.ignore_dup,
                ignore_opts.ignore_missing,
            ).1,
            wf(final(self)@),
    {
        let ghost dm = deltas@.map_values(|d: Delta| d@);
        let ghost du = ignore_opts.ignore_dup;
        let ghost dmi = ignore_opts.ignore_missing;
        proof {
            lemma_apply_deltas_wf(old(self)@, dm, du, dmi);
            lemma_mutate_phase_wf(old(self)@, dm);
        }
        let n: usize = deltas.len();
        if !ignore_opts.ignore_dup || !ignore_opts.ignore_missing {
            let mut i: usize = 0;
            proof {
                assert(dm.skip(0) =~= dm);
            }
            while i < n
                invariant
                    i <= n,
                    n == deltas.len(),
                    self@ == old(self)@,
                    wf(self@),
                    dm == deltas@.map_values(|d: Delta| d@),
                    du == ignore_opts.ignore_dup,
                    dmi == ignore_opts.ignore_missing,
                    check_phase(self@, dm, du, dmi) == check_phase(self@, dm.skip(i as int), du, dmi),
                decreases n - i,
            {
                proof {
                    assert(dm.skip(i as int).drop_first() =~= dm.skip(i + 1));
                    assert(dm.skip(i as int)[0] == dm[i as int]);
                    assert(dm[i as int] == deltas@[i as int]@);
                }
                let d = &deltas[i];
                match d.action {
                    Procedure::Add => {
                        if !ignore_opts.ignore_dup {
                            if let Some(_found) = self.find_quad(&d.quad) {
                                return Err(StoreError::QuadExists);
                            }
                        }
                    },
                    Procedure::Delete => {
                        if !ignore_opts.ignore_missing {
                            if self.find_quad(&d.quad).is_none() {
                                return Err(StoreError::QuadNotExist);
                            }
                        }
                    },
                }
                i = i + 1;
            }
            proof {
                assert(dm.skip(n as int) =~= Seq::<DeltaModel>::empty());
            }
        }
        let ghost target = mutate_phase(old(self)@, dm);
        let mut i: usize = 0;
        proof {
            assert(dm.skip(0) =~= dm);
        }
        while i < n
            invariant
                i <= n,
                n == deltas.len(),
                wf(self@),
                dm == deltas@.map_values(|d: Delta| d@),
                du == ignore_opts.ignore_dup,
                dmi == ignore_opts.ignore_missing,
                target == mutate_phase(self@, dm.skip(i as int)),
                apply_deltas_spec(old(self)@, dm, du, dmi) == target,
            decreases n - i,
        {
            proof {
                assert(dm.skip(i as int).drop_first() =~= dm.skip(i + 1));
                assert(dm.skip(i as int)[0] == dm[i as int]);
                assert(dm[i as int] == deltas@[i as int]@);
            }
            let d = &deltas[i];
            match d.action {
                Procedure::Add => {
                    match self.add_quad(&d.quad) {
                        Err(e) => {
                            return Err(e);
                        },
                        Ok(_) => {},
                    }
                },
                Procedure::Delete => {
                    if let Some(prim) = self.find_quad(&d.quad) {
                        match self.delete(prim.id) {
                            Err(e) => {
                                return Err(e);
                            },
                            Ok(_) => {},
                        }
                    }
                },
            }
            i = i + 1;
        }
        proof {
            assert(dm.skip(n as int) =~= Seq::<DeltaModel>::empty());
        }
        Ok(())
    }
}

} // verus!
