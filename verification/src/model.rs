//! The mathematical model of the store.
//!
//! A [`StoreModel`] holds the primitive table in id order, the direction
//! index in key order, and the next id to assign.  Every executable
//! operation's contract states which model state and result it produces, by
//! naming one of the transition functions below; the laws in [`crate::laws`]
//! are proved over the same transitions.

use vstd::prelude::*;
use crate::value::{Direction, QuadModel, ValueModel};
use crate::primitive::{ContentModel, DeltaModel, InternalQuad, PrimModel, Procedure, StoreError};
use crate::hashing::{content_hash, hash_of, qhash_of};

verus! {

/// One entry of the direction index.  The existence of the key is the fact:
/// quad `quad_id` holds `value_id` in `direction`.
#[derive(Clone, Copy, PartialEq, Eq, Structural, Debug)]
pub struct IndexEntry {
    pub direction: Direction,
    pub value_id: u64,
    pub quad_id: u64,
}

/// The whole observable state of a store.
pub struct StoreModel {
    pub prims: Seq<PrimModel>,
    pub idx: Seq<IndexEntry>,
    pub next_id: u64,
}

pub open spec fn entry(d: Direction, value_id: u64, quad_id: u64) -> IndexEntry {
    IndexEntry { direction: d, value_id, quad_id }
}

// ---------------------------------------------------------------------------
// Lookups in the primitive table.

/// The position of the first primitive with the given id, or -1.
pub open spec fn idx_of_id(prims: Seq<PrimModel>, id: u64) -> int
    decreases prims.len(),
{
    if prims.len() == 0 {
        -1
    } else if prims[0].id == id {
        0
    } else if idx_of_id(prims.drop_first(), id) < 0 {
        -1
    } else {
        1 + idx_of_id(prims.drop_first(), id)
    }
}

/// The position of the first primitive with the given content hash, or -1.
pub open spec fn idx_of_hash(prims: Seq<PrimModel>, h: u64) -> int
    decreases prims.len(),
{
    if prims.len() == 0 {
        -1
    } else if prims[0].hash == h {
        0
    } else if idx_of_hash(prims.drop_first(), h) < 0 {
        -1
    } else {
        1 + idx_of_hash(prims.drop_first(), h)
    }
}

/// The primitive with the given id, if one exists.
pub open spec fn lookup_id(prims: Seq<PrimModel>, id: u64) -> Option<PrimModel> {
    if idx_of_id(prims, id) >= 0 {
        Some(prims[idx_of_id(prims, id)])
    } else {
        None
    }
}

/// The first primitive with the given content hash, if one exists.
pub open spec fn lookup_hash(prims: Seq<PrimModel>, h: u64) -> Option<PrimModel> {
    if idx_of_hash(prims, h) >= 0 {
        Some(prims[idx_of_hash(prims, h)])
    } else {
        None
    }
}

// ---------------------------------------------------------------------------
// Order and maintenance of the direction index.

/// The composite key order: by direction byte, then value id, then quad id.
/// Entries equal under this order are the same entry.
pub open spec fn key_lt(a: IndexEntry, b: IndexEntry) -> bool {
    ||| a.direction.spec_to_byte() < b.direction.spec_to_byte()
    ||| (a.direction == b.direction && a.value_id < b.value_id)
    ||| (a.direction == b.direction && a.value_id == b.value_id && a.quad_id < b.quad_id)
}

/// Insert an entry at its key position; inserting a present entry changes
/// nothing.
pub open spec fn idx_insert(idx: Seq<IndexEntry>, e: IndexEntry) -> Seq<IndexEntry>
    decreases idx.len(),
{
    if idx.len() == 0 {
        seq![e]
    } else if key_lt(e, idx[0]) {
        seq![e] + idx
    } else if idx[0] == e {
        idx
    } else {
        seq![idx[0]] + idx_insert(idx.drop_first(), e)
    }
}

/// Remove an entry; removing an absent entry changes nothing.
pub open spec fn idx_remove(idx: Seq<IndexEntry>, e: IndexEntry) -> Seq<IndexEntry>
    decreases idx.len(),
{
    if idx.len() == 0 {
        idx
    } else if idx[0] == e {
        idx_remove(idx.drop_first(), e)
    } else {
        seq![idx[0]] + idx_remove(idx.drop_first(), e)
    }
}

/// The quad ids of all entries with the given direction and value id, in
/// storage order.
pub open spec fn scan_spec(idx: Seq<IndexEntry>, d: Direction, vid: u64) -> Seq<u64>
    decreases idx.len(),
{
    if idx.len() == 0 {
        Seq::empty()
    } else {
        let rest = scan_spec(idx.drop_first(), d, vid);
        if idx[0].direction == d && idx[0].value_id == vid {
            seq![idx[0].quad_id] + rest
        } else {
            rest
        }
    }
}


/// Whether the index holds this entry.
pub open spec fn has_entry(idx: Seq<IndexEntry>, e: IndexEntry) -> bool
    decreases idx.len(),
{
    if idx.len() == 0 {
        false
    } else {
        idx[0] == e || has_entry(idx.drop_first(), e)
    }
}

/// Insert the index entries of a new quad, skipping absent positions.
pub open spec fn add_entries(idx: Seq<IndexEntry>, iq: InternalQuad, qid: u64) -> Seq<IndexEntry> {
    let i1 = if iq.s != 0 {
        idx_insert(idx, entry(Direction::Subject, iq.s, qid))
    } else {
        idx
    };
    let i2 = if iq.p != 0 {
        idx_insert(i1, entry(Direction::Predicate, iq.p, qid))
    } else {
        i1
    };
    let i3 = if iq.o != 0 {
        idx_insert(i2, entry(Direction::Object, iq.o, qid))
    } else {
        i2
    };
    if iq.l != 0 {
        idx_insert(i3, entry(Direction::Label, iq.l, qid))
    } else {
        i3
    }
}

/// Remove the index entries of a deleted quad, skipping absent positions.
pub open spec fn remove_entries(idx: Seq<IndexEntry>, iq: InternalQuad, qid: u64) -> Seq<
    IndexEntry,
> {
    let i1 = if iq.s != 0 {
        idx_remove(idx, entry(Direction::Subject, iq.s, qid))
    } else {
        idx
    };
    let i2 = if iq.p != 0 {
        idx_remove(i1, entry(Direction::Predicate, iq.p, qid))
    } else {
        i1
    };
    let i3 = if iq.o != 0 {
        idx_remove(i2, entry(Direction::Object, iq.o, qid))
    } else {
        i2
    };
    if iq.l != 0 {
        idx_remove(i3, entry(Direction::Label, iq.l, qid))
    } else {
        i3
    }
}

// ---------------------------------------------------------------------------
// Well-formedness.

/// The primitive table's own invariant: ids strictly increasing (so unique)
/// and below `next_id`, never the sentinel 0; every reference count at least
/// 1; every stored hash the content hash of the stored content.
pub open spec fn prims_wf(s: StoreModel) -> bool {
    &&& forall|i: int, j: int|
        0 <= i < j < s.prims.len() ==> s.prims[i].id < s.prims[j].id
    &&& forall|i: int|
        0 <= i < s.prims.len() ==> 1 <= (#[trigger] s.prims[i]).id < s.next_id
    &&& forall|i: int| 0 <= i < s.prims.len() ==> (#[trigger] s.prims[i]).refs >= 1
    &&& forall|i: int|
        0 <= i < s.prims.len() ==> (#[trigger] s.prims[i]).hash == content_hash(s.prims[i].content)
    &&& s.next_id >= 1
}

pub open spec fn idx_sorted(idx: Seq<IndexEntry>) -> bool {
    forall|i: int, j: int| 0 <= i < j < idx.len() ==> key_lt(idx[i], idx[j])
}

/// Whether this entry is derived from an existing quad primitive.
pub open spec fn entry_derived(s: StoreModel, e: IndexEntry) -> bool {
    &&& e.value_id != 0
    &&& match lookup_id(s.prims, e.quad_id) {
        Some(p) => match p.content {
            ContentModel::Quad(iq) => iq.spec_dir(e.direction) == e.value_id,
            ContentModel::Node(_) => false,
        },
        None => false,
    }
}

/// Every index entry is derived from an existing quad primitive.
pub open spec fn idx_sound(s: StoreModel) -> bool {
    forall|i: int| 0 <= i < s.idx.len() ==> entry_derived(s, #[trigger] s.idx[i])
}

/// The index entries the quad primitive at position `i` demands.
pub open spec fn quad_entries_present(s: StoreModel, i: int) -> bool {
    match s.prims[i].content {
        ContentModel::Quad(iq) => {
            &&& (iq.s != 0 ==> has_entry(s.idx, entry(Direction::Subject, iq.s, s.prims[i].id)))
            &&& (iq.p != 0 ==> has_entry(s.idx, entry(Direction::Predicate, iq.p, s.prims[i].id)))
            &&& (iq.o != 0 ==> has_entry(s.idx, entry(Direction::Object, iq.o, s.prims[i].id)))
            &&& (iq.l != 0 ==> has_entry(s.idx, entry(Direction::Label, iq.l, s.prims[i].id)))
        },
        ContentModel::Node(_) => true,
    }
}

/// Every existing quad primitive has an index entry for each of its
/// non-sentinel positions.
pub open spec fn idx_complete(s: StoreModel) -> bool {
    forall|i: int| 0 <= i < s.prims.len() ==> #[trigger] quad_entries_present(s, i)
}

/// The store's whole invariant: a valid primitive table, a sorted index, and
/// the index holding an entry exactly when a quad primitive derives it.
pub open spec fn wf(s: StoreModel) -> bool {
    &&& prims_wf(s)
    &&& idx_sorted(s.idx)
    &&& idx_sound(s)
    &&& idx_complete(s)
}

// ---------------------------------------------------------------------------
// Reference counting, as derived from the quads themselves.

/// How many positions of this internal quad hold the given id.
pub open spec fn occ_iq(iq: InternalQuad, id: u64) -> nat {
    (if iq.s == id {
        1nat
    } else {
        0nat
    }) + (if iq.p == id {
        1nat
    } else {
        0nat
    }) + (if iq.o == id {
        1nat
    } else {
        0nat
    }) + (if iq.l == id {
        1nat
    } else {
        0nat
    })
}

pub open spec fn occ_prim(p: PrimModel, id: u64) -> nat {
    match p.content {
        ContentModel::Quad(iq) => occ_iq(iq, id),
        ContentModel::Node(_) => 0,
    }
}

/// How many quad positions across the whole table reference the given id.
pub open spec fn rc(prims: Seq<PrimModel>, id: u64) -> nat
    decreases prims.len(),
{
    if prims.len() == 0 {
        0
    } else {
        rc(prims.drop_last(), id) + occ_prim(prims.last(), id)
    }
}

/// How many node primitives the table holds.
pub open spec fn n_nodes(prims: Seq<PrimModel>) -> nat
    decreases prims.len(),
{
    if prims.len() == 0 {
        0
    } else {
        n_nodes(prims.drop_last()) + if prims.last().content is Node {
            1nat
        } else {
            0nat
        }
    }
}

/// How many quad primitives the table holds.
pub open spec fn n_quads(prims: Seq<PrimModel>) -> nat
    decreases prims.len(),
{
    if prims.len() == 0 {
        0
    } else {
        n_quads(prims.drop_last()) + if prims.last().content is Quad {
            1nat
        } else {
            0nat
        }
    }
}

// ---------------------------------------------------------------------------
// Transitions.

/// The table with the reference count at position `j` incremented.
pub open spec fn bump_refs(prims: Seq<PrimModel>, j: int) -> Seq<PrimModel> {
    prims.update(j, PrimModel { refs: (prims[j].refs + 1) as u64, ..prims[j] })
}

/// Resolving one value.  The sentinel resolves to nothing and never touches
/// the store.  Otherwise the value is looked up by content hash: when found,
/// a pure lookup returns the existing id, and an insertion additionally
/// increments its reference count; when missed, a pure lookup returns
/// nothing, and an insertion appends a fresh node primitive with one
/// reference.  `BackendUnavailable` arises exactly when the reference count
/// or the id space is exhausted.
pub open spec fn resolve_val_spec(s: StoreModel, v: ValueModel, add: bool) -> (
    StoreModel,
    Result<Option<u64>, StoreError>,
) {
    if v is Absent {
        (s, Ok(None))
    } else {
        let h = hash_of(v);
        let j = idx_of_hash(s.prims, h);
        if j >= 0 {
            if !add {
                (s, Ok(Some(s.prims[j].id)))
            } else if s.prims[j].refs == u64::MAX {
                (s, Err(StoreError::BackendUnavailable))
            } else {
                (StoreModel { prims: bump_refs(s.prims, j), ..s }, Ok(Some(s.prims[j].id)))
            }
        } else if !add {
            (s, Ok(None))
        } else if s.next_id == u64::MAX {
            (s, Err(StoreError::BackendUnavailable))
        } else {
            (
                StoreModel {
                    prims: s.prims.push(
                        PrimModel {
                            id: s.next_id,
                            hash: h,
                            refs: 1,
                            content: ContentModel::Node(v),
                        },
                    ),
                    idx: s.idx,
                    next_id: (s.next_id + 1) as u64,
                },
                Ok(Some(s.next_id)),
            )
        }
    }
}

/// One direction of [`resolve_quad_spec`]: resolve this position's value and
/// write the id into the internal quad.  A failed or errored state passes
/// through unchanged, so the remaining directions are no-ops, and an absent
/// position keeps the sentinel 0.
pub open spec fn rq_step(
    st: (StoreModel, Result<Option<InternalQuad>, StoreError>),
    v: ValueModel,
    d: Direction,
    add: bool,
) -> (StoreModel, Result<Option<InternalQuad>, StoreError>) {
    match st.1 {
        Err(_) => st,
        Ok(None) => st,
        Ok(Some(iq)) => {
            if v is Absent {
                st
            } else {
                let step = resolve_val_spec(st.0, v, add);
                match step.1 {
                    Err(e) => (step.0, Err(e)),
                    Ok(None) => (step.0, Ok(None)),
                    Ok(Some(vid)) => (step.0, Ok(Some(iq.spec_set_dir(d, vid)))),
                }
            }
        },
    }
}

/// Resolving a statement: all four positions in direction order.  The result
/// is `None` as soon as one non-sentinel position fails to resolve — a quad
/// cannot be partially resolved.
pub open spec fn resolve_quad_spec(s: StoreModel, q: QuadModel, add: bool) -> (
    StoreModel,
    Result<Option<InternalQuad>, StoreError>,
) {
    let st0 = (s, Ok::<Option<InternalQuad>, StoreError>(Some(InternalQuad { s: 0, p: 0, o: 0, l: 0 })));
    let st1 = rq_step(st0, q.subject, Direction::Subject, add);
    let st2 = rq_step(st1, q.predicate, Direction::Predicate, add);
    let st3 = rq_step(st2, q.object, Direction::Object, add);
    rq_step(st3, q.label, Direction::Label, add)
}

/// Locating a statement without inserting anything: resolve its values
/// purely, then look the internal quad up by content hash.
pub open spec fn find_quad_spec(s: StoreModel, q: QuadModel) -> Option<PrimModel> {
    match resolve_quad_spec(s, q, false).1 {
        Ok(Some(iq)) => lookup_hash(s.prims, qhash_of(iq)),
        _ => None,
    }
}

/// Adding a statement.  When a primitive with the resolved quad's hash
/// already exists, its id is returned and nothing changes, so a repeated add
/// is benign even with duplicate checking disabled.  Otherwise all values are
/// resolved with insertion, a quad primitive with one reference is appended,
/// and one index entry per non-sentinel position is inserted.
pub open spec fn add_quad_spec(s: StoreModel, q: QuadModel) -> (StoreModel, Result<u64, StoreError>) {
    let found = match resolve_quad_spec(s, q, false).1 {
        Ok(Some(iq0)) => lookup_hash(s.prims, qhash_of(iq0)),
        _ => None,
    };
    match found {
        Some(p) => (s, Ok(p.id)),
        None => {
            let resolved = resolve_quad_spec(s, q, true);
            let s1 = resolved.0;
            match resolved.1 {
                Err(e) => (s1, Err(e)),
                Ok(None) => (s1, Err(StoreError::BackendUnavailable)),
                Ok(Some(iq)) => {
                    if s1.next_id == u64::MAX {
                        (s1, Err(StoreError::BackendUnavailable))
                    } else {
                        let qid = s1.next_id;
                        (
                            StoreModel {
                                prims: s1.prims.push(
                                    PrimModel {
                                        id: qid,
                                        hash: qhash_of(iq),
                                        refs: 1,
                                        content: ContentModel::Quad(iq),
                                    },
                                ),
                                idx: add_entries(s1.idx, iq, qid),
                                next_id: (s1.next_id + 1) as u64,
                            },
                            Ok(qid),
                        )
                    }
                },
            }
        },
    }
}

/// One position of [`delete_nodes_spec`]: decrement the referenced node's
/// reference count; a count reaching zero deletes the node.  A sentinel or
/// missing id is skipped; reference counts belong to node primitives alone,
/// so a quad primitive found under the id is left as it stands.  A decrement
/// of a count that is already zero is the fatal desynchronization error.
pub open spec fn dec_step(st: (StoreModel, Result<bool, StoreError>), vid: u64) -> (
    StoreModel,
    Result<bool, StoreError>,
) {
    match st.1 {
        Err(_) => st,
        Ok(_) => {
            if vid == 0 {
                st
            } else {
                let s = st.0;
                let j = idx_of_id(s.prims, vid);
                if j < 0 {
                    st
                } else {
                    match s.prims[j].content {
                        ContentModel::Quad(_) => st,
                        ContentModel::Node(_) => {
                            if s.prims[j].refs == 0 {
                                (s, Err(StoreError::RefCountUnderflow))
                            } else if s.prims[j].refs == 1 {
                                (StoreModel { prims: s.prims.remove(j), ..s }, st.1)
                            } else {
                                (
                                    StoreModel {
                                        prims: s.prims.update(
                                            j,
                                            PrimModel {
                                                refs: (s.prims[j].refs - 1) as u64,
                                                ..s.prims[j]
                                            },
                                        ),
                                        ..s
                                    },
                                    st.1,
                                )
                            }
                        },
                    }
                }
            }
        },
    }
}

/// Release the references a deleted quad held, one position at a time.
pub open spec fn delete_nodes_spec(s: StoreModel, iq: InternalQuad) -> (
    StoreModel,
    Result<bool, StoreError>,
) {
    let st1 = dec_step((s, Ok(true)), iq.s);
    let st2 = dec_step(st1, iq.p);
    let st3 = dec_step(st2, iq.o);
    dec_step(st3, iq.l)
}

/// Deleting a primitive by id.  A missing id reports `false`.  A quad
/// primitive is removed together with its index entries, and the nodes it
/// referenced are released.  A node primitive is removed alone.
pub open spec fn delete_spec(s: StoreModel, id: u64) -> (StoreModel, Result<bool, StoreError>) {
    let j = idx_of_id(s.prims, id);
    if j < 0 {
        (s, Ok(false))
    } else {
        match s.prims[j].content {
            ContentModel::Node(_) => (StoreModel { prims: s.prims.remove(j), ..s }, Ok(true)),
            ContentModel::Quad(iq) => {
                let s1 = StoreModel { prims: s.prims.remove(j), ..s };
                let s2 = StoreModel { idx: remove_entries(s1.idx, iq, id), ..s1 };
                delete_nodes_spec(s2, iq)
            },
        }
    }
}

/// The value of the node primitive with the given id, if one exists.
pub open spec fn lookup_val_spec(s: StoreModel, id: u64) -> Option<ValueModel> {
    match lookup_id(s.prims, id) {
        Some(p) => match p.content {
            ContentModel::Node(v) => Some(v),
            ContentModel::Quad(_) => None,
        },
        None => None,
    }
}

/// The application value standing at one position of an internal quad: the
/// stored node's value, or the sentinel where the position is 0 or the node
/// cannot be found.
pub open spec fn lookup_dir_spec(s: StoreModel, vid: u64) -> ValueModel {
    if vid == 0 {
        ValueModel::Absent
    } else {
        match lookup_val_spec(s, vid) {
            Some(v) => v,
            None => ValueModel::Absent,
        }
    }
}

/// The application statement an internal quad stands for.
pub open spec fn lookup_quad_dirs_spec(s: StoreModel, iq: InternalQuad) -> QuadModel {
    QuadModel {
        subject: lookup_dir_spec(s, iq.s),
        predicate: lookup_dir_spec(s, iq.p),
        object: lookup_dir_spec(s, iq.o),
        label: lookup_dir_spec(s, iq.l),
    }
}


/// The internal quad an external handle leads to, if its id names a stored
/// quad primitive.
pub open spec fn internal_quad_spec(s: StoreModel, r: crate::primitive::RefModel) -> Option<
    InternalQuad,
> {
    match r.k {
        Some(k) => match lookup_id(s.prims, k) {
            Some(p) => match p.content {
                ContentModel::Quad(iq) => Some(iq),
                ContentModel::Node(_) => None,
            },
            None => None,
        },
        None => None,
    }
}

/// The id a value resolves to without inserting: a pure hash lookup.
pub open spec fn value_of_spec(s: StoreModel, v: ValueModel) -> Option<u64> {
    if v is Absent {
        None
    } else {
        match lookup_hash(s.prims, hash_of(v)) {
            Some(p) => Some(p.id),
            None => None,
        }
    }
}

/// The value an external handle names: its inlined content when it carries
/// one, else the stored node value under its id.
pub open spec fn name_of_spec(s: StoreModel, r: crate::primitive::RefModel) -> Option<ValueModel> {
    match r.content {
        crate::primitive::RefContentModel::Value(v) => Some(v),
        _ => match r.k {
            Some(k) => lookup_val_spec(s, k),
            None => None,
        },
    }
}


/// An external handle for one stored primitive, produced only for the asked
/// kind: nodes when `nodes` is set, quads otherwise.
pub open spec fn to_ref_spec(p: PrimModel, nodes: bool) -> Option<crate::primitive::RefModel> {
    match p.content {
        ContentModel::Node(v) => if nodes {
            Some(
                crate::primitive::RefModel {
                    k: Some(p.id),
                    content: crate::primitive::RefContentModel::Value(v),
                },
            )
        } else {
            None
        },
        ContentModel::Quad(iq) => if !nodes {
            Some(
                crate::primitive::RefModel {
                    k: Some(p.id),
                    content: crate::primitive::RefContentModel::InternalQuad(iq),
                },
            )
        } else {
            None
        },
    }
}

/// The statement an external handle names: inlined content when the handle
/// carries it, else the stored quad under its id, reassembled.
pub open spec fn quad_at_spec(s: StoreModel, r: crate::primitive::RefModel) -> Option<QuadModel> {
    match r.content {
        crate::primitive::RefContentModel::Quad(q) => Some(q),
        crate::primitive::RefContentModel::InternalQuad(iq) => Some(lookup_quad_dirs_spec(s, iq)),
        _ => match internal_quad_spec(s, r) {
            Some(iq) => Some(lookup_quad_dirs_spec(s, iq)),
            None => None,
        },
    }
}

/// The handle for one position of the quad an external handle names: a
/// sentinel position yields the empty handle, the quad itself missing yields
/// nothing.
pub open spec fn quad_direction_spec(s: StoreModel, r: crate::primitive::RefModel, d: Direction)
    -> Option<crate::primitive::RefModel> {
    match internal_quad_spec(s, r) {
        Some(iq) => {
            if iq.spec_dir(d) == 0 {
                Some(
                    crate::primitive::RefModel {
                        k: None,
                        content: crate::primitive::RefContentModel::Empty,
                    },
                )
            } else {
                Some(
                    crate::primitive::RefModel {
                        k: Some(iq.spec_dir(d)),
                        content: crate::primitive::RefContentModel::Empty,
                    },
                )
            }
        },
        None => None,
    }
}

/// Whether a primitive is of the asked kind: a node when `nodes` is set, a
/// quad otherwise.
pub open spec fn kind_matches(p: PrimModel, nodes: bool) -> bool {
    if nodes {
        p.content is Node
    } else {
        p.content is Quad
    }
}

/// The first primitive of the asked kind whose id lies beyond `cur`, in
/// storage order: one step of a restartable full scan.
pub open spec fn all_next_spec(prims: Seq<PrimModel>, cur: Option<u64>, nodes: bool) -> Option<
    PrimModel,
>
    decreases prims.len(),
{
    if prims.len() == 0 {
        None
    } else if kind_matches(prims[0], nodes) && (cur is None || prims[0].id > cur->0) {
        Some(prims[0])
    } else {
        all_next_spec(prims.drop_first(), cur, nodes)
    }
}

/// The handles of every primitive of the asked kind, in storage order.
pub open spec fn all_refs_spec(prims: Seq<PrimModel>, nodes: bool) -> Seq<
    crate::primitive::RefModel,
>
    decreases prims.len(),
{
    if prims.len() == 0 {
        Seq::empty()
    } else {
        let rest = all_refs_spec(prims.drop_first(), nodes);
        if kind_matches(prims[0], nodes) {
            seq![to_ref_spec(prims[0], nodes)->0] + rest
        } else {
            rest
        }
    }
}

/// The advisory check phase: the first entry whose policy is violated fails
/// the whole batch, before anything is mutated.
pub open spec fn check_phase(
    s: StoreModel,
    deltas: Seq<DeltaModel>,
    ignore_dup: bool,
    ignore_missing: bool,
) -> Result<(), StoreError>
    decreases deltas.len(),
{
    if deltas.len() == 0 {
        Ok(())
    } else {
        let d = deltas[0];
        match d.action {
            Procedure::Add => {
                if !ignore_dup && find_quad_spec(s, d.quad) is Some {
                    Err(StoreError::QuadExists)
                } else {
                    check_phase(s, deltas.drop_first(), ignore_dup, ignore_missing)
                }
            },
            Procedure::Delete => {
                if !ignore_missing && find_quad_spec(s, d.quad) is None {
                    Err(StoreError::QuadNotExist)
                } else {
                    check_phase(s, deltas.drop_first(), ignore_dup, ignore_missing)
                }
            },
        }
    }
}

/// The mutation phase: apply each entry in order; an error stops the batch
/// and keeps what the earlier entries already did.  A delete of a statement
/// that cannot be found is a silent no-op here.
pub open spec fn mutate_phase(s: StoreModel, deltas: Seq<DeltaModel>) -> (
    StoreModel,
    Result<(), StoreError>,
)
    decreases deltas.len(),
{
    if deltas.len() == 0 {
        (s, Ok(()))
    } else {
        let d = deltas[0];
        match d.action {
            Procedure::Add => {
                let step = add_quad_spec(s, d.quad);
                match step.1 {
                    Err(e) => (step.0, Err(e)),
                    Ok(_) => mutate_phase(step.0, deltas.drop_first()),
                }
            },
            Procedure::Delete => {
                match find_quad_spec(s, d.quad) {
                    Some(p) => {
                        let step = delete_spec(s, p.id);
                        match step.1 {
                            Err(e) => (step.0, Err(e)),
                            Ok(_) => mutate_phase(step.0, deltas.drop_first()),
                        }
                    },
                    None => mutate_phase(s, deltas.drop_first()),
                }
            },
        }
    }
}

/// Applying a batch of deltas: the check phase runs only when one of the two
/// policies asks for strictness, and a check failure leaves the store
/// untouched; then the mutation phase runs.
pub open spec fn apply_deltas_spec(
    s: StoreModel,
    deltas: Seq<DeltaModel>,
    ignore_dup: bool,
    ignore_missing: bool,
) -> (StoreModel, Result<(), StoreError>) {
    let checked = if !ignore_dup || !ignore_missing {
        check_phase(s, deltas, ignore_dup, ignore_missing)
    } else {
        Ok(())
    };
    match checked {
        Err(e) => (s, Err(e)),
        Ok(_) => mutate_phase(s, deltas),
    }
}

} // verus!
