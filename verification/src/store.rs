//! The executable store: the primitive table, the direction index, and the
//! low-level operations that maintain them.

use vstd::prelude::*;
use crate::value::Direction;
use crate::primitive::{PrimModel, Primitive, PrimitiveCount, StoreError};
use crate::model::{
    entry, idx_insert, idx_of_hash, idx_of_id, idx_remove, idx_sorted, key_lt, lookup_hash,
    lookup_id, n_nodes, n_quads, scan_spec, IndexEntry, StoreModel,
};
use crate::lemmas::{
    lemma_idx_insert_at, lemma_idx_of_hash_props, lemma_idx_of_id_props, lemma_idx_remove_absent,
    lemma_idx_remove_at,
};

verus! {

/// A content-addressed quad store over in-memory tables.
///
/// The primitive table stands in ascending id order and the direction index
/// in ascending key order; both facts are part of [`crate::model::wf`],
/// which every public operation preserves.
pub struct QuadStore {
    prims: Vec<Primitive>,
    index: Vec<IndexEntry>,
    next_id: u64,
}

impl View for QuadStore {
    type V = StoreModel;

    closed spec fn view(&self) -> StoreModel {
        StoreModel {
            prims: self.prims@.map_values(|p: Primitive| p@),
            idx: self.index@,
            next_id: self.next_id,
        }
    }
}

/// Whether `a` orders strictly before `b` in the composite key order.
fn key_lt_exec(a: &IndexEntry, b: &IndexEntry) -> (r: bool)
    ensures
        r == key_lt(*a, *b),
{
    let ab = a.direction.to_byte();
    let bb = b.direction.to_byte();
    if ab != bb {
        ab < bb
    } else if a.value_id != b.value_id {
        a.value_id < b.value_id
    } else {
        a.quad_id < b.quad_id
    }
}

impl QuadStore {
    /// An empty store.  Ids start at 1; 0 is the sentinel for "no value".
    pub fn new() -> (s: QuadStore)
        ensures
            s@.prims =~= Seq::<PrimModel>::empty(),
            s@.idx =~= Seq::<IndexEntry>::empty(),
            s@.next_id == 1,
            crate::model::wf(s@),
    {
        let s = QuadStore { prims: Vec::new(), index: Vec::new(), next_id: 1 };
        proof {
            assert(s@.prims =~= Seq::<PrimModel>::empty());
        }
        s
    }

    /// How many primitives the table holds in all.
    pub fn prims_len(&self) -> (n: usize)
        ensures
            n == self@.prims.len(),
    {
        self.prims.len()
    }

    /// The record at one table position, in storage order.
    pub(crate) fn prim_at(&self, i: usize) -> (p: &Primitive)
        requires
            i < self@.prims.len(),
        ensures
            p@ == self@.prims[i as int],
    {
        &self.prims[i]
    }

    /// The primitive stored under the given id, if any.
    pub fn get_primitive(&self, id: u64) -> (r: Option<Primitive>)
        ensures
            match r {
                Some(p) => lookup_id(self@.prims, id) == Some(p@),
                None => lookup_id(self@.prims, id) is None,
            },
    {
        proof {
            lemma_idx_of_id_props(self@.prims, id);
        }
        let n: usize = self.prims.len();
        let mut i: usize = 0;
        while i < n
            invariant
                i <= n,
                n == self.prims.len(),
                forall|k: int| 0 <= k < i ==> (#[trigger] self@.prims[k]).id != id,
                idx_of_id(self@.prims, id) == -1 || (0 <= idx_of_id(self@.prims, id)
                    < self@.prims.len()),
                idx_of_id(self@.prims, id) == -1 ==> forall|k: int|
                    0 <= k < self@.prims.len() ==> (#[trigger] self@.prims[k]).id != id,
                idx_of_id(self@.prims, id) >= 0 ==> self@.prims[idx_of_id(self@.prims, id)].id
                    == id && forall|k: int|
                    0 <= k < idx_of_id(self@.prims, id) ==> (#[trigger] self@.prims[k]).id != id,
            decreases n - i,
        {
            proof {
                assert(self@.prims[i as int] == self.prims@[i as int]@);
            }
            if self.prims[i].id == id {
                let p = self.prims[i].clone();
                proof {
                    assert(idx_of_id(self@.prims, id) == i);
                }
                return Some(p);
            }
            i = i + 1;
        }
        None
    }

    /// The first primitive stored under the given content hash, if any.
    pub fn get_primitive_from_hash(&self, hash: u64) -> (r: Option<Primitive>)
        ensures
            match r {
                Some(p) => lookup_hash(self@.prims, hash) == Some(p@),
                None => lookup_hash(self@.prims, hash) is None,
            },
    {
        proof {
            lemma_idx_of_hash_props(self@.prims, hash);
        }
        let n: usize = self.prims.len();
        let mut i: usize = 0;
        while i < n
            invariant
                i <= n,
                n == self.prims.len(),
                forall|k: int| 0 <= k < i ==> (#[trigger] self@.prims[k]).hash != hash,
                idx_of_hash(self@.prims, hash) == -1 || (0 <= idx_of_hash(self@.prims, hash)
                    < self@.prims.len()),
                idx_of_hash(self@.prims, hash) == -1 ==> forall|k: int|
                    0 <= k < self@.prims.len() ==> (#[trigger] self@.prims[k]).hash != hash,
                idx_of_hash(self@.prims, hash) >= 0 ==> self@.prims[idx_of_hash(
                    self@.prims,
                    hash,
                )].hash == hash && forall|k: int|
                    0 <= k < idx_of_hash(self@.prims, hash) ==> (#[trigger] self@.prims[k]).hash
                        != hash,
            decreases n - i,
        {
            proof {
                assert(self@.prims[i as int] == self.prims@[i as int]@);
            }
            if self.prims[i].hash == hash {
                let p = self.prims[i].clone();
                proof {
                    assert(idx_of_hash(self@.prims, hash) == i);
                }
                return Some(p);
            }
            i = i + 1;
        }
        None
    }

    /// Append a record under a fresh id, which is written back into `p`.
    /// Only called after the caller has checked that no primitive with this
    /// content hash exists yet.
    pub(crate) fn add_primitive(&mut self, p: &mut Primitive) -> (r: Result<(), StoreError>)
        ensures
            old(self)@.next_id < u64::MAX ==> {
                &&& r is Ok
                &&& final(p)@ == (PrimModel { id: old(self)@.next_id, ..old(p)@ })
                &&& final(self)@.prims == old(self)@.prims.push(final(p)@)
                &&& final(self)@.idx == old(self)@.idx
                &&& final(self)@.next_id == old(self)@.next_id + 1
            },
            old(self)@.next_id == u64::MAX ==> {
                &&& r == Result::<(), StoreError>::Err(StoreError::BackendUnavailable)
                &&& final(self)@ == old(self)@
                &&& final(p)@ == old(p)@
            },
    {
        if self.next_id == u64::MAX {
            return Err(StoreError::BackendUnavailable);
        }
        p.id = self.next_id;
        let copy = p.clone();
        self.prims.push(copy);
        self.next_id = self.next_id + 1;
        proof {
            assert(self@.prims =~= old(self)@.prims.push(final(p)@));
        }
        Ok(())
    }

    /// Overwrite the record that stands under `p`'s id.  Only called to
    /// persist a changed reference count of a record the caller has fetched.
    pub(crate) fn update_primitive(&mut self, p: &Primitive)
        requires
            idx_of_id(old(self)@.prims, p@.id) >= 0,
        ensures
            final(self)@.prims == old(self)@.prims.update(idx_of_id(old(self)@.prims, p@.id), p@),
            final(self)@.idx == old(self)@.idx,
            final(self)@.next_id == old(self)@.next_id,
    {
        proof {
            lemma_idx_of_id_props(self@.prims, p@.id);
        }
        let ghost target = idx_of_id(self@.prims, p@.id);
        let n: usize = self.prims.len();
        let mut i: usize = 0;
        while i < n
            invariant
                i <= n,
                n == self.prims.len(),
                self@ == old(self)@,
                forall|k: int| 0 <= k < i ==> (#[trigger] self@.prims[k]).id != p@.id,
                0 <= target < self@.prims.len(),
                self@.prims[target].id == p@.id,
                forall|k: int| 0 <= k < target ==> (#[trigger] self@.prims[k]).id != p@.id,
                target == idx_of_id(self@.prims, p@.id),
            decreases n - i,
        {
            proof {
                assert(self@.prims[i as int] == self.prims@[i as int]@);
            }
            if self.prims[i].id == p.id {
                proof {
                    assert(target == i);
                }
                let copy = p.clone();
                self.prims[i] = copy;
                proof {
                    assert(self@.prims =~= old(self)@.prims.update(target, p@));
                }
                return ;
            }
            i = i + 1;
        }
        proof {
            assert(false);
        }
    }

    /// Delete the record that stands under the given id, if any.
    pub(crate) fn remove_primitive(&mut self, id: u64)
        ensures
            idx_of_id(old(self)@.prims, id) >= 0 ==> final(self)@.prims == old(
                self,
            )@.prims.remove(idx_of_id(old(self)@.prims, id)),
            idx_of_id(old(self)@.prims, id) < 0 ==> final(self)@.prims == old(self)@.prims,
            final(self)@.idx == old(self)@.idx,
            final(self)@.next_id == old(self)@.next_id,
    {
        proof {
            lemma_idx_of_id_props(self@.prims, id);
        }
        let ghost target = idx_of_id(self@.prims, id);
        let n: usize = self.prims.len();
        let mut i: usize = 0;
        while i < n
            invariant
                i <= n,
                n == self.prims.len(),
                self@ == old(self)@,
                forall|k: int| 0 <= k < i ==> (#[trigger] self@.prims[k]).id != id,
                target == idx_of_id(self@.prims, id),
                target == -1 || (0 <= target < self@.prims.len()),
                target == -1 ==> forall|k: int|
                    0 <= k < self@.prims.len() ==> (#[trigger] self@.prims[k]).id != id,
                target >= 0 ==> self@.prims[target].id == id && forall|k: int|
                    0 <= k < target ==> (#[trigger] self@.prims[k]).id != id,
            decreases n - i,
        {
            proof {
                assert(self@.prims[i as int] == self.prims@[i as int]@);
            }
            if self.prims[i].id == id {
                proof {
                    assert(target == i);
                }
                self.prims.remove(i);
                proof {
                    assert(self@.prims =~= old(self)@.prims.remove(target));
                }
                return ;
            }
            i = i + 1;
        }
    }

    /// Exact counts of node and quad primitives.
    pub fn get_count(&self) -> (c: PrimitiveCount)
        ensures
            c.values == n_nodes(self@.prims),
            c.quads == n_quads(self@.prims),
    {
        let n: usize = self.prims.len();
        let mut values: u64 = 0;
        let mut quads: u64 = 0;
        let mut i: usize = 0;
        while i < n
            invariant
                i <= n,
                n == self.prims.len(),
                values == n_nodes(self@.prims.take(i as int)),
                quads == n_quads(self@.prims.take(i as int)),
                values + quads == i,
            decreases n - i,
        {
            proof {
                assert(self@.prims.take(i + 1).drop_last() =~= self@.prims.take(i as int));
                assert(self@.prims.take(i + 1).last() == self@.prims[i as int]);
            }
            if self.prims[i].is_node() {
                values = values + 1;
            } else {
                quads = quads + 1;
            }
            i = i + 1;
        }
        proof {
            assert(self@.prims.take(n as int) =~= self@.prims);
        }
        PrimitiveCount { values, quads }
    }

    /// All quad ids holding `value_id` in direction `d`; on a sorted index
    /// they come out strictly ascending.
    pub fn get_quad_direction(&self, d: Direction, value_id: u64) -> (r: Vec<u64>)
        ensures
            r@ == scan_spec(self@.idx, d, value_id),
            idx_sorted(self@.idx) ==> (forall|i: int, j: int|
                0 <= i < j < r@.len() ==> r@[i] < r@[j]),
    {
        proof {
            if idx_sorted(self@.idx) {
                crate::lemmas::lemma_scan_sorted(self@.idx, d, value_id);
            }
        }
        let n: usize = self.index.len();
        let mut r: Vec<u64> = Vec::new();
        let mut i: usize = 0;
        proof {
            assert(self@.idx.skip(0) =~= self@.idx);
            assert(Seq::<u64>::empty() + scan_spec(self@.idx, d, value_id) =~= scan_spec(
                self@.idx,
                d,
                value_id,
            ));
        }
        while i < n
            invariant
                i <= n,
                n == self.index.len(),
                scan_spec(self@.idx, d, value_id) == r@ + scan_spec(
                    self@.idx.skip(i as int),
                    d,
                    value_id,
                ),
            decreases n - i,
        {
            proof {
                assert(self@.idx.skip(i as int).drop_first() =~= self@.idx.skip(i + 1));
                assert(self@.idx.skip(i as int)[0] == self@.idx[i as int]);
            }
            let e = self.index[i];
            if e.direction.to_byte() == d.to_byte() && e.value_id == value_id {
                proof {
                    assert(e.direction == d);
                    assert((r@ + seq![e.quad_id]) + scan_spec(self@.idx.skip(i + 1), d, value_id)
                        =~= r@ + (seq![e.quad_id] + scan_spec(self@.idx.skip(i + 1), d, value_id)));
                }
                r.push(e.quad_id);
            }
            i = i + 1;
        }
        proof {
            assert(self@.idx.skip(n as int) =~= Seq::<IndexEntry>::empty());
            assert(r@ + Seq::<u64>::empty() =~= r@);
        }
        r
    }

    /// Insert one index entry at its key position; inserting a present entry
    /// changes nothing.  Callers never insert the same entry twice.
    pub(crate) fn add_quad_direction(&mut self, value_id: u64, d: Direction, quad_id: u64)
        requires
            idx_sorted(old(self)@.idx),
        ensures
            final(self)@.idx == idx_insert(old(self)@.idx, entry(d, value_id, quad_id)),
            final(self)@.prims == old(self)@.prims,
            final(self)@.next_id == old(self)@.next_id,
    {
        let e = IndexEntry { direction: d, value_id, quad_id };
        let n: usize = self.index.len();
        let mut i: usize = 0;
        while i < n
            invariant
                i <= n,
                n == self.index.len(),
                self@ == old(self)@,
                idx_sorted(self@.idx),
                forall|k: int| 0 <= k < i ==> key_lt(#[trigger] self@.idx[k], e),
            ensures
                i <= n,
                n == self.index.len(),
                self@ == old(self)@,
                forall|k: int| 0 <= k < i ==> key_lt(#[trigger] self@.idx[k], e),
                i < n ==> !key_lt(self@.idx[i as int], e),
            decreases n - i,
        {
            if !key_lt_exec(&self.index[i], &e) {
                break ;
            }
            i = i + 1;
        }
        proof {
            lemma_idx_insert_at(self@.idx, e, i as int);
        }
        if i < n && self.index[i] == e {
            return ;
        }
        self.index.insert(i, e);
    }

    /// Delete one index entry; removing an absent entry changes nothing.
    pub(crate) fn remove_quad_direction(&mut self, value_id: u64, d: Direction, quad_id: u64)
        requires
            idx_sorted(old(self)@.idx),
        ensures
            final(self)@.idx == idx_remove(old(self)@.idx, entry(d, value_id, quad_id)),
            final(self)@.prims == old(self)@.prims,
            final(self)@.next_id == old(self)@.next_id,
    {
        let e = IndexEntry { direction: d, value_id, quad_id };
        let n: usize = self.index.len();
        let mut i: usize = 0;
        while i < n
            invariant
                i <= n,
                n == self.index.len(),
                self@ == old(self)@,
                idx_sorted(self@.idx),
                e == entry(d, value_id, quad_id),
                forall|k: int| 0 <= k < i ==> (#[trigger] self@.idx[k]) != e,
            decreases n - i,
        {
            if self.index[i] == e {
                proof {
                    assert(self@.idx[i as int] == e);
                    lemma_idx_remove_at(self@.idx, e, i as int);
                    assert(idx_remove(old(self)@.idx, e) == self@.idx.remove(i as int));
                }
                self.index.remove(i);
                proof {
                    assert(e == entry(d, value_id, quad_id));
                    assert(self@.idx == old(self)@.idx.remove(i as int));
                }
                return ;
            }
            i = i + 1;
        }
        proof {
            lemma_idx_remove_absent(self@.idx, e);
        }
    }
}

} // verus!
