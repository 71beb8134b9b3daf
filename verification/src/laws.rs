//! The store's laws, proved over the model transitions that the executable
//! operations are specified by.

use vstd::prelude::*;
use crate::value::{quad_dir, Direction, QuadModel, ValueModel};
use crate::primitive::{ContentModel, InternalQuad, PrimModel, StoreError};
use crate::model::{
    add_quad_spec, delete_spec, entry, has_entry, idx_of_hash, idx_of_id, lookup_hash, lookup_id,
    lookup_quad_dirs_spec, occ_iq, occ_prim, quad_entries_present, rc, remove_entries,
    resolve_quad_spec, resolve_val_spec, rq_step, scan_spec, wf, StoreModel,
};
use crate::lemmas::{
    lemma_dec_step_wf, lemma_delete_quad_mid_wf, lemma_idx_of_hash_props, lemma_idx_of_id_props,
    lemma_idx_of_id_unique, lemma_lookup_push, lemma_lookup_remove, lemma_lookup_update,
    lemma_remove_entries_props, lemma_scan_membership,
};
use crate::hashing::{hash_of, qhash_of};

verus! {

/// Law: the direction index is consistent with the primitive table.  For
/// every stored quad primitive and every non-sentinel position it holds, a
/// scan over that position's value returns the quad's id — and after the
/// quad is deleted, it no longer does.
pub proof fn lemma_index_consistency(s: StoreModel, qid: u64, d: Direction)
    requires
        wf(s),
        lookup_id(s.prims, qid) is Some,
        lookup_id(s.prims, qid)->0.content is Quad,
        lookup_id(s.prims, qid)->0.content->Quad_0.spec_dir(d) != 0,
    ensures
        scan_spec(s.idx, d, lookup_id(s.prims, qid)->0.content->Quad_0.spec_dir(d)).contains(qid),
        !scan_spec(
            delete_spec(s, qid).0.idx,
            d,
            lookup_id(s.prims, qid)->0.content->Quad_0.spec_dir(d),
        ).contains(qid),
{
    let j = idx_of_id(s.prims, qid);
    lemma_idx_of_id_props(s.prims, qid);
    let p = s.prims[j];
    let iq = p.content->Quad_0;
    let vid = iq.spec_dir(d);
    assert(p.id == qid);
    // The entry is present: completeness of the index.
    assert(quad_entries_present(s, j));
    match d {
        Direction::Subject => {
            assert(has_entry(s.idx, entry(Direction::Subject, iq.s, qid)));
        },
        Direction::Predicate => {
            assert(has_entry(s.idx, entry(Direction::Predicate, iq.p, qid)));
        },
        Direction::Object => {
            assert(has_entry(s.idx, entry(Direction::Object, iq.o, qid)));
        },
        Direction::Label => {
            assert(has_entry(s.idx, entry(Direction::Label, iq.l, qid)));
        },
    }
    lemma_scan_membership(s.idx, d, vid, qid);
    // After the delete, the entry is gone and no other entry carries qid.
    let s1 = delete_spec(s, qid).0;
    lemma_remove_entries_props(s.idx, iq, qid);
    let ghost mid_idx = remove_entries(s.idx, iq, qid);
    assert(s1.idx == mid_idx) by {
        lemma_delete_quad_mid_wf(s, qid);
        let u = s.prims.remove(j);
        let sm = StoreModel { idx: mid_idx, ..(StoreModel { prims: u, ..s }) };
        crate::lemmas::lemma_delete_nodes_wf(sm, iq);
    }
    lemma_scan_membership(mid_idx, d, vid, qid);
    if has_entry(mid_idx, entry(d, vid, qid)) {
        // A surviving entry with qid would still be derived from the table,
        // but the only quad primitive with id qid was just removed.
        assert(has_entry(s.idx, entry(d, vid, qid)) && !(entry(d, vid, qid) == entry(
            d,
            iq.spec_dir(d),
            qid,
        )));
        assert(false);
    }
}

/// Law: deduplication.  Inserting the same value twice yields the same id
/// both times, and leaves exactly one primitive with that value's hash — a
/// node holding the value, with two references.
pub proof fn lemma_dedup(s0: StoreModel, v: ValueModel)
    requires
        wf(s0),
        !(v is Absent),
        lookup_hash(s0.prims, hash_of(v)) is None,
        s0.next_id < u64::MAX,
    ensures
        ({
            let first = resolve_val_spec(s0, v, true);
            let second = resolve_val_spec(first.0, v, true);
            &&& first.1 == Ok::<Option<u64>, StoreError>(Some(s0.next_id))
            &&& second.1 == first.1
            &&& exists|j: int|
                0 <= j < second.0.prims.len() && second.0.prims[j] == (PrimModel {
                    id: s0.next_id,
                    hash: hash_of(v),
                    refs: 2,
                    content: ContentModel::Node(v),
                })
            &&& forall|k: int|
                0 <= k < second.0.prims.len() && (#[trigger] second.0.prims[k]).hash == hash_of(v)
                    ==> second.0.prims[k].id == s0.next_id
        }),
{
    let h = hash_of(v);
    lemma_idx_of_hash_props(s0.prims, h);
    let p1 = PrimModel { id: s0.next_id, hash: h, refs: 1, content: ContentModel::Node(v) };
    let s1 = resolve_val_spec(s0, v, true).0;
    assert(s1.prims == s0.prims.push(p1));
    lemma_lookup_push(s0.prims, p1, h);
    assert(idx_of_hash(s1.prims, h) == s0.prims.len());
    lemma_idx_of_hash_props(s1.prims, h);
    let j1 = s0.prims.len() as int;
    assert(s1.prims[j1] == p1);
    let p2 = PrimModel { id: s0.next_id, hash: h, refs: 2, content: ContentModel::Node(v) };
    let second = resolve_val_spec(s1, v, true);
    assert(second.0.prims == s1.prims.update(j1, PrimModel { refs: 2, ..p1 }));
    assert(second.0.prims[j1] == p2);
    assert forall|k: int|
        0 <= k < second.0.prims.len() && (#[trigger] second.0.prims[k]).hash == hash_of(v)
            implies second.0.prims[k].id == s0.next_id by {
        if k != j1 {
            assert(second.0.prims[k] == s0.prims[k]);
        }
    }
}

// ---------------------------------------------------------------------------
// Tracking one insertion-resolution step, for the idempotence and round-trip
// laws.

/// The id of the first primitive with the given content hash, if any.
pub open spec fn first_id_of_hash(prims: Seq<PrimModel>, h: u64) -> Option<u64> {
    match lookup_hash(prims, h) {
        Some(p) => Some(p.id),
        None => None,
    }
}

/// What one insertion-resolution step does to hash lookups and id lookups:
/// present hashes keep their first match (id and content); absent hashes
/// other than the resolved value's stay absent; the resolved value's hash
/// afterwards leads to the returned id; and every existing record keeps its
/// id, hash and content.
proof fn lemma_resolve_add_tracking(s: StoreModel, v: ValueModel, h: u64, id: u64)
    requires
        !(v is Absent),
    ensures
        ({
            let s1 = resolve_val_spec(s, v, true).0;
            let r = resolve_val_spec(s, v, true).1;
            &&& (first_id_of_hash(s.prims, h) is Some ==> first_id_of_hash(s1.prims, h)
                == first_id_of_hash(s.prims, h))
            &&& (first_id_of_hash(s.prims, h) is None && h != hash_of(v)
                ==> first_id_of_hash(s1.prims, h) is None)
            &&& (h == hash_of(v) && r is Ok ==> first_id_of_hash(s1.prims, h) == Some(r->Ok_0->0))
            &&& match lookup_hash(s1.prims, h) {
                Some(p1) => match lookup_hash(s.prims, h) {
                    Some(p0) => p1.content == p0.content && p1.id == p0.id && p1.hash == p0.hash,
                    None => h == hash_of(v) && p1.content == ContentModel::Node(v),
                },
                None => lookup_hash(s.prims, h) is None,
            }
            &&& match lookup_id(s.prims, id) {
                Some(p0) => match lookup_id(s1.prims, id) {
                    Some(p1) => p1.content == p0.content && p1.id == p0.id && p1.hash == p0.hash,
                    None => false,
                },
                None => true,
            }
        }),
{
    let hv = hash_of(v);
    let j = idx_of_hash(s.prims, hv);
    lemma_idx_of_hash_props(s.prims, hv);
    lemma_idx_of_id_props(s.prims, id);
    lemma_idx_of_hash_props(s.prims, h);
    if j >= 0 {
        if s.prims[j].refs != u64::MAX {
            let p2 = PrimModel { refs: (s.prims[j].refs + 1) as u64, ..s.prims[j] };
            lemma_lookup_update(s.prims, j, p2, h);
            lemma_lookup_update(s.prims, j, p2, id);
            let u = s.prims.update(j, p2);
            assert(idx_of_hash(u, h) == idx_of_hash(s.prims, h));
            if idx_of_hash(s.prims, h) >= 0 {
                assert(u[idx_of_hash(s.prims, h)] == if idx_of_hash(s.prims, h) == j {
                    p2
                } else {
                    s.prims[idx_of_hash(s.prims, h)]
                });
            }
            if idx_of_id(s.prims, id) >= 0 {
                assert(u[idx_of_id(s.prims, id)] == if idx_of_id(s.prims, id) == j {
                    p2
                } else {
                    s.prims[idx_of_id(s.prims, id)]
                });
            }
        }
    } else if s.next_id != u64::MAX {
        let p2 = PrimModel { id: s.next_id, hash: hv, refs: 1, content: ContentModel::Node(v) };
        lemma_lookup_push(s.prims, p2, h);
        lemma_lookup_push(s.prims, p2, id);
        let u = s.prims.push(p2);
        if idx_of_hash(s.prims, h) >= 0 {
            assert(u[idx_of_hash(s.prims, h)] == s.prims[idx_of_hash(s.prims, h)]);
        } else if h == hv {
            assert(u[s.prims.len() as int] == p2);
        }
        if idx_of_id(s.prims, id) >= 0 {
            assert(u[idx_of_id(s.prims, id)] == s.prims[idx_of_id(s.prims, id)]);
        }
    }
}

/// `lemma_resolve_add_tracking`, lifted through one direction step.
proof fn lemma_rq_step_tracking(
    st: (StoreModel, Result<Option<InternalQuad>, StoreError>),
    v: ValueModel,
    d: Direction,
    h: u64,
    id: u64,
)
    ensures
        ({
            let s = st.0;
            let s1 = rq_step(st, v, d, true).0;
            &&& (first_id_of_hash(s.prims, h) is Some ==> first_id_of_hash(s1.prims, h)
                == first_id_of_hash(s.prims, h))
            &&& (first_id_of_hash(s.prims, h) is None && !(!(v is Absent) && h == hash_of(v))
                ==> first_id_of_hash(s1.prims, h) is None)
            &&& match lookup_hash(s1.prims, h) {
                Some(p1) => match lookup_hash(s.prims, h) {
                    Some(p0) => p1.content == p0.content && p1.id == p0.id && p1.hash == p0.hash,
                    None => !(v is Absent) && h == hash_of(v) && p1.content
                        == ContentModel::Node(v),
                },
                None => lookup_hash(s.prims, h) is None,
            }
            &&& match lookup_id(s.prims, id) {
                Some(p0) => match lookup_id(s1.prims, id) {
                    Some(p1) => p1.content == p0.content && p1.id == p0.id && p1.hash == p0.hash,
                    None => false,
                },
                None => true,
            }
        }),
{
    match st.1 {
        Ok(Some(_)) => {
            if !(v is Absent) {
                lemma_resolve_add_tracking(st.0, v, h, id);
            }
        },
        _ => {},
    }
}

/// What one direction step promises of its own value when it succeeds: the
/// written position carries the returned id, the other positions are kept,
/// and the value's hash afterwards leads to that id.
proof fn lemma_rq_step_own(
    st: (StoreModel, Result<Option<InternalQuad>, StoreError>),
    v: ValueModel,
    d: Direction,
)
    requires
        st.1 is Ok && st.1->Ok_0 is Some,
    ensures
        ({
            let iq0 = st.1->Ok_0->0;
            let s1 = rq_step(st, v, d, true).0;
            let r1 = rq_step(st, v, d, true).1;
            r1 is Ok && r1->Ok_0 is Some ==> {
                let iq1 = r1->Ok_0->0;
                &&& (v is Absent ==> iq1 == iq0 && s1 == st.0)
                &&& (!(v is Absent) ==> iq1 == iq0.spec_set_dir(d, iq1.spec_dir(d))
                    && first_id_of_hash(s1.prims, hash_of(v)) == Some(iq1.spec_dir(d)))
                &&& forall|e: Direction| e != d ==> iq1.spec_dir(e) == iq0.spec_dir(e)
            }
        }),
{
    let iq0 = st.1->Ok_0->0;
    if !(v is Absent) {
        let step = resolve_val_spec(st.0, v, true);
        lemma_resolve_add_tracking(st.0, v, hash_of(v), 0);
        match step.1 {
            Ok(Some(vid)) => {
                let iq1 = iq0.spec_set_dir(d, vid);
                assert(iq1.spec_dir(d) == vid);
                assert forall|e: Direction| e != d implies iq1.spec_dir(e) == iq0.spec_dir(e) by {}
            },
            _ => {},
        }
    }
}

// ---------------------------------------------------------------------------
// The forward pass of an insertion-resolution, with everything the
// idempotence and round-trip laws need.

/// Whatever the store already holds under this value's hash really holds
/// this value: the hypothesis that rules the accepted collision risk out for
/// one value.
pub open spec fn clean_for(s: StoreModel, v: ValueModel) -> bool {
    v is Absent || match lookup_hash(s.prims, hash_of(v)) {
        Some(p) => p.content == ContentModel::Node(v),
        None => true,
    }
}

/// The collision hypothesis for every position of one statement.
pub open spec fn clean_all(s: StoreModel, q: QuadModel) -> bool {
    &&& clean_for(s, q.subject)
    &&& clean_for(s, q.predicate)
    &&& clean_for(s, q.object)
    &&& clean_for(s, q.label)
}

/// The statement's own values do not collide among themselves: equal hashes
/// mean equal values.
pub open spec fn hashes_separate(q: QuadModel) -> bool {
    forall|d: Direction, e: Direction|
        #![trigger quad_dir(q, d), quad_dir(q, e)]
        !(quad_dir(q, d) is Absent) && !(quad_dir(q, e) is Absent) && hash_of(quad_dir(q, d))
            == hash_of(quad_dir(q, e)) ==> quad_dir(q, d) == quad_dir(q, e)
}

/// The store holds the node `id` with exactly this value.
pub open spec fn node_with(s: StoreModel, id: u64, v: ValueModel) -> bool {
    &&& id != 0
    &&& match lookup_id(s.prims, id) {
        Some(p) => p.content == ContentModel::Node(v),
        None => false,
    }
}

/// What a successful insertion-resolution establishes, direction by
/// direction: the resolved quad is fully formed, absent positions stay 0,
/// each present position's hash afterwards leads to the id written there —
/// and, under the collision hypotheses, the id names a node holding exactly
/// that position's value.
#[verifier::rlimit(100)]
proof fn lemma_resolve_quad_forward(s0: StoreModel, q: QuadModel)
    requires
        wf(s0),
    ensures
        ({
            let res = resolve_quad_spec(s0, q, true);
            res.1 is Ok ==> {
                &&& res.1->Ok_0 is Some
                &&& {
                    let iq = res.1->Ok_0->0;
                    &&& (q.subject is Absent ==> iq.s == 0)
                    &&& (q.predicate is Absent ==> iq.p == 0)
                    &&& (q.object is Absent ==> iq.o == 0)
                    &&& (q.label is Absent ==> iq.l == 0)
                    &&& (!(q.subject is Absent) ==> first_id_of_hash(res.0.prims, hash_of(q.subject))
                        == Some(iq.s))
                    &&& (!(q.predicate is Absent) ==> first_id_of_hash(
                        res.0.prims,
                        hash_of(q.predicate),
                    ) == Some(iq.p))
                    &&& (!(q.object is Absent) ==> first_id_of_hash(res.0.prims, hash_of(q.object))
                        == Some(iq.o))
                    &&& (!(q.label is Absent) ==> first_id_of_hash(res.0.prims, hash_of(q.label))
                        == Some(iq.l))
                    &&& (clean_all(s0, q) && hashes_separate(q) ==> {
                        &&& (!(q.subject is Absent) ==> node_with(res.0, iq.s, q.subject))
                        &&& (!(q.predicate is Absent) ==> node_with(res.0, iq.p, q.predicate))
                        &&& (!(q.object is Absent) ==> node_with(res.0, iq.o, q.object))
                        &&& (!(q.label is Absent) ==> node_with(res.0, iq.l, q.label))
                    })
                }
            }
        }),
{
    let zero = InternalQuad { s: 0, p: 0, o: 0, l: 0 };
    let st0 = (s0, Ok::<Option<InternalQuad>, StoreError>(Some(zero)));
    let stA = rq_step(st0, q.subject, Direction::Subject, true);
    let stB = rq_step(stA, q.predicate, Direction::Predicate, true);
    let stC = rq_step(stB, q.object, Direction::Object, true);
    let stD = rq_step(stC, q.label, Direction::Label, true);
    let res = resolve_quad_spec(s0, q, true);
    if res.1 is Ok {
        // No insertion-resolution step yields Ok(None): each either writes an
        // id or errors, so the final quad is fully formed.
        assert(stA.1 is Ok ==> stA.1->Ok_0 is Some);
        assert(stB.1 is Ok ==> stB.1->Ok_0 is Some);
        assert(stC.1 is Ok ==> stC.1->Ok_0 is Some);
        assert(stD.1 is Ok ==> stD.1->Ok_0 is Some);
        assert(stA.1 is Ok && stB.1 is Ok && stC.1 is Ok && stD.1 is Ok);
        crate::lemmas::lemma_rq_step_wf(st0, q.subject, Direction::Subject, true);
        crate::lemmas::lemma_rq_step_wf(stA, q.predicate, Direction::Predicate, true);
        crate::lemmas::lemma_rq_step_wf(stB, q.object, Direction::Object, true);
        crate::lemmas::lemma_rq_step_wf(stC, q.label, Direction::Label, true);
        let iqA = stA.1->Ok_0->0;
        let iqB = stB.1->Ok_0->0;
        let iqC = stC.1->Ok_0->0;
        let iq = stD.1->Ok_0->0;
        lemma_rq_step_own(st0, q.subject, Direction::Subject);
        lemma_rq_step_own(stA, q.predicate, Direction::Predicate);
        lemma_rq_step_own(stB, q.object, Direction::Object);
        lemma_rq_step_own(stC, q.label, Direction::Label);
        // positions keep their written ids through the later steps
        assert(iq.s == iqA.s && iq.p == iqB.p && iq.o == iqC.o);
        // hash facts survive the later steps
        lemma_rq_step_tracking(stA, q.predicate, Direction::Predicate, hash_of(q.subject), iqA.s);
        lemma_rq_step_tracking(stB, q.object, Direction::Object, hash_of(q.subject), iqA.s);
        lemma_rq_step_tracking(stC, q.label, Direction::Label, hash_of(q.subject), iqA.s);
        lemma_rq_step_tracking(stB, q.object, Direction::Object, hash_of(q.predicate), iqB.p);
        lemma_rq_step_tracking(stC, q.label, Direction::Label, hash_of(q.predicate), iqB.p);
        lemma_rq_step_tracking(stC, q.label, Direction::Label, hash_of(q.object), iqC.o);
        if clean_all(s0, q) && hashes_separate(q) {
            // cleanliness survives each step: a step either keeps a hash's
            // first match or fills it with a node holding a value of the
            // same hash, which by the separation hypothesis is the same
            // value.
            lemma_rq_step_tracking(st0, q.subject, Direction::Subject, hash_of(q.predicate), 0);
            lemma_rq_step_tracking(st0, q.subject, Direction::Subject, hash_of(q.object), 0);
            lemma_rq_step_tracking(st0, q.subject, Direction::Subject, hash_of(q.label), 0);
            lemma_rq_step_tracking(stA, q.predicate, Direction::Predicate, hash_of(q.object), 0);
            lemma_rq_step_tracking(stA, q.predicate, Direction::Predicate, hash_of(q.label), 0);
            lemma_rq_step_tracking(stB, q.object, Direction::Object, hash_of(q.label), 0);
            assert(quad_dir(q, Direction::Subject) == q.subject);
            assert(quad_dir(q, Direction::Predicate) == q.predicate);
            assert(quad_dir(q, Direction::Object) == q.object);
            assert(quad_dir(q, Direction::Label) == q.label);
            assert(clean_for(stA.0, q.predicate) && clean_for(stA.0, q.object) && clean_for(
                stA.0,
                q.label,
            ));
            assert(clean_for(stB.0, q.object) && clean_for(stB.0, q.label));
            assert(clean_for(stC.0, q.label));
            // each step's own value lands in a node holding exactly it
            if !(q.subject is Absent) {
                lemma_node_after_step(st0, q.subject, Direction::Subject);
                assert(node_with(stA.0, iqA.s, q.subject));
            }
            if !(q.predicate is Absent) {
                lemma_node_after_step(stA, q.predicate, Direction::Predicate);
                assert(node_with(stB.0, iqB.p, q.predicate));
            }
            if !(q.object is Absent) {
                lemma_node_after_step(stB, q.object, Direction::Object);
                assert(node_with(stC.0, iqC.o, q.object));
            }
            if !(q.label is Absent) {
                lemma_node_after_step(stC, q.label, Direction::Label);
                assert(node_with(stD.0, iq.l, q.label));
            }
        }
    }
}

/// After a successful insertion-resolution step whose state was clean for
/// the value, the id it wrote names a node holding exactly that value.
proof fn lemma_node_after_step(
    st: (StoreModel, Result<Option<InternalQuad>, StoreError>),
    v: ValueModel,
    d: Direction,
)
    requires
        wf(st.0),
        st.1 is Ok && st.1->Ok_0 is Some,
        !(v is Absent),
        clean_for(st.0, v),
        rq_step(st, v, d, true).1 is Ok,
    ensures
        ({
            let s1 = rq_step(st, v, d, true).0;
            let iq1 = rq_step(st, v, d, true).1->Ok_0->0;
            node_with(s1, iq1.spec_dir(d), v)
        }),
{
    let s = st.0;
    let h = hash_of(v);
    let j = idx_of_hash(s.prims, h);
    lemma_idx_of_hash_props(s.prims, h);
    if j >= 0 {
        let p2 = PrimModel { refs: (s.prims[j].refs + 1) as u64, ..s.prims[j] };
        lemma_lookup_update(s.prims, j, p2, s.prims[j].id);
        lemma_idx_of_id_unique(s.prims, j);
        assert(s.prims.update(j, p2)[j] == p2);
    } else {
        let p2 = PrimModel { id: s.next_id, hash: h, refs: 1, content: ContentModel::Node(v) };
        lemma_idx_of_id_props(s.prims, s.next_id);
        assert(idx_of_id(s.prims, s.next_id) == -1) by {
            if idx_of_id(s.prims, s.next_id) >= 0 {
                assert(s.prims[idx_of_id(s.prims, s.next_id)].id < s.next_id);
            }
        }
        lemma_lookup_push(s.prims, p2, s.next_id);
        assert(s.prims.push(p2)[s.prims.len() as int] == p2);
    }
}

/// Law: idempotent add.  After one successful add of a statement, adding the
/// identical statement again changes nothing at all — no second quad
/// primitive appears and no reference count moves — whatever the duplicate
/// policy, because the repeated add finds the quad by content hash and
/// returns its id without touching the store.
#[verifier::rlimit(100)]
pub proof fn lemma_idempotent_add(s0: StoreModel, q: QuadModel)
    requires
        wf(s0),
        add_quad_spec(s0, q).1 is Ok,
    ensures
        add_quad_spec(add_quad_spec(s0, q).0, q).0 == add_quad_spec(s0, q).0,
        add_quad_spec(add_quad_spec(s0, q).0, q).1 is Ok,
{
    let found0 = match resolve_quad_spec(s0, q, false).1 {
        Ok(Some(iq0)) => lookup_hash(s0.prims, qhash_of(iq0)),
        _ => None,
    };
    let s1 = add_quad_spec(s0, q).0;
    if found0 is Some {
        assert(s1 == s0);
    } else {
        let resolved = resolve_quad_spec(s0, q, true);
        assert(resolved.1 is Ok);
        lemma_resolve_quad_forward(s0, q);
        let iq = resolved.1->Ok_0->0;
        let s1r = resolved.0;
        assert(s1r.next_id != u64::MAX);
        let qid = s1r.next_id;
        let qprim = PrimModel {
            id: qid,
            hash: qhash_of(iq),
            refs: 1,
            content: ContentModel::Quad(iq),
        };
        assert(s1.prims == s1r.prims.push(qprim));
        // The pushed quad does not move any value's first hash match.
        lemma_lookup_push(s1r.prims, qprim, hash_of(q.subject));
        lemma_lookup_push(s1r.prims, qprim, hash_of(q.predicate));
        lemma_lookup_push(s1r.prims, qprim, hash_of(q.object));
        lemma_lookup_push(s1r.prims, qprim, hash_of(q.label));
        assert forall|h: u64| first_id_of_hash(s1r.prims, h) is Some implies first_id_of_hash(
            s1.prims,
            h,
        ) == first_id_of_hash(s1r.prims, h) by {
            lemma_lookup_push(s1r.prims, qprim, h);
            lemma_idx_of_hash_props(s1r.prims, h);
            assert(s1.prims[idx_of_hash(s1r.prims, h)] == s1r.prims[idx_of_hash(s1r.prims, h)]);
        }
        // The repeated add resolves purely and reproduces the same internal
        // quad.
        let zero = InternalQuad { s: 0, p: 0, o: 0, l: 0 };
        let st0 = (s1, Ok::<Option<InternalQuad>, StoreError>(Some(zero)));
        let stA = rq_step(st0, q.subject, Direction::Subject, false);
        let stB = rq_step(stA, q.predicate, Direction::Predicate, false);
        let stC = rq_step(stB, q.object, Direction::Object, false);
        let stD = rq_step(stC, q.label, Direction::Label, false);
        assert(stA.0 == s1 && stB.0 == s1 && stC.0 == s1 && stD.0 == s1);
        if !(q.subject is Absent) {
            lemma_idx_of_hash_props(s1.prims, hash_of(q.subject));
        }
        if !(q.predicate is Absent) {
            lemma_idx_of_hash_props(s1.prims, hash_of(q.predicate));
        }
        if !(q.object is Absent) {
            lemma_idx_of_hash_props(s1.prims, hash_of(q.object));
        }
        if !(q.label is Absent) {
            lemma_idx_of_hash_props(s1.prims, hash_of(q.label));
        }
        assert(stD.1 is Ok && stD.1->Ok_0 is Some);
        let iq2 = stD.1->Ok_0->0;
        assert(iq2.s == iq.s && iq2.p == iq.p && iq2.o == iq.o && iq2.l == iq.l);
        assert(iq2 =~= iq);
        // The pushed quad primitive is found under the quad's content hash.
        lemma_idx_of_hash_props(s1.prims, qhash_of(iq));
        assert(idx_of_hash(s1.prims, qhash_of(iq)) >= 0) by {
            assert(s1.prims[s1r.prims.len() as int] == qprim);
        }
        assert(lookup_hash(s1.prims, qhash_of(iq)) is Some);
        assert(add_quad_spec(s1, q).0 == s1 && add_quad_spec(s1, q).1 is Ok);
    }
}

/// Law: round trip.  Resolving a statement with insertion and reading the
/// resolved internal quad back reconstructs the statement, for any
/// combination of present and absent positions — provided nothing already in
/// the store masquerades under one of the statement's hashes, and the
/// statement's own values do not collide among themselves.
pub proof fn lemma_round_trip(s0: StoreModel, q: QuadModel)
    requires
        wf(s0),
        clean_all(s0, q),
        hashes_separate(q),
        resolve_quad_spec(s0, q, true).1 is Ok,
    ensures
        resolve_quad_spec(s0, q, true).1->Ok_0 is Some,
        lookup_quad_dirs_spec(
            resolve_quad_spec(s0, q, true).0,
            resolve_quad_spec(s0, q, true).1->Ok_0->0,
        ) == q,
{
    lemma_resolve_quad_forward(s0, q);
    let res = resolve_quad_spec(s0, q, true);
    let iq = res.1->Ok_0->0;
    let s1 = res.0;
    assert(lookup_quad_dirs_spec(s1, iq) =~= q);
}

// ---------------------------------------------------------------------------
// The reference-count lifecycle.

/// Removing one record lowers a derived reference count by exactly that
/// record's own contribution.
proof fn lemma_rc_remove(prims: Seq<PrimModel>, j: int, id: u64)
    requires
        0 <= j < prims.len(),
    ensures
        rc(prims.remove(j), id) + occ_prim(prims[j], id) == rc(prims, id),
    decreases prims.len(),
{
    if j == prims.len() - 1 {
        assert(prims.remove(j) =~= prims.drop_last());
    } else {
        assert(prims.remove(j).drop_last() =~= prims.drop_last().remove(j));
        assert(prims.remove(j).last() == prims.last());
        assert(prims.drop_last()[j] == prims[j]);
        lemma_rc_remove(prims.drop_last(), j, id);
    }
}

/// Replacing one record with one of equal contribution keeps a derived
/// reference count.
proof fn lemma_rc_update(prims: Seq<PrimModel>, j: int, p2: PrimModel, id: u64)
    requires
        0 <= j < prims.len(),
        occ_prim(p2, id) == occ_prim(prims[j], id),
    ensures
        rc(prims.update(j, p2), id) == rc(prims, id),
    decreases prims.len(),
{
    if j == prims.len() - 1 {
        assert(prims.update(j, p2).drop_last() =~= prims.drop_last());
        assert(prims.update(j, p2).last() == p2);
    } else {
        assert(prims.update(j, p2).drop_last() =~= prims.drop_last().update(j, p2));
        assert(prims.update(j, p2).last() == prims.last());
        assert(prims.drop_last()[j] == prims[j]);
        lemma_rc_update(prims.drop_last(), j, p2, id);
    }
}

/// What releasing one position does to a tracked node: derived counts never
/// move (only node records are touched), a different id leaves the node as
/// it stands, and the node's own id loses one reference — the record going
/// away exactly when that was the last one.
proof fn lemma_dec_step_node(st: (StoreModel, Result<bool, StoreError>), vid: u64, n: u64)
    requires
        wf(st.0),
        st.1 is Ok,
        n != 0,
    ensures
        ({
            let s = st.0;
            let s1 = crate::model::dec_step(st, vid).0;
            &&& rc(s1.prims, n) == rc(s.prims, n)
            &&& (vid != n ==> lookup_id(s1.prims, n) == lookup_id(s.prims, n))
            &&& (vid == n ==> match lookup_id(s.prims, n) {
                Some(p) => {
                    &&& (p.content is Node && p.refs > 1 ==> lookup_id(s1.prims, n) == Some(
                        PrimModel { refs: (p.refs - 1) as u64, ..p },
                    ))
                    &&& (p.content is Node && p.refs == 1 ==> lookup_id(s1.prims, n) is None)
                    &&& (p.content is Quad ==> lookup_id(s1.prims, n) == lookup_id(s.prims, n))
                },
                None => lookup_id(s1.prims, n) is None,
            })
        }),
{
    let s = st.0;
    if vid != 0 {
        let j = idx_of_id(s.prims, vid);
        lemma_idx_of_id_props(s.prims, vid);
        lemma_idx_of_id_props(s.prims, n);
        if j >= 0 {
            match s.prims[j].content {
                ContentModel::Quad(_) => {},
                ContentModel::Node(_) => {
                    if s.prims[j].refs == 1 {
                        lemma_rc_remove(s.prims, j, n);
                        lemma_lookup_remove(s.prims, j, n);
                    } else {
                        let p2 = PrimModel { refs: (s.prims[j].refs - 1) as u64, ..s.prims[j] };
                        lemma_rc_update(s.prims, j, p2, n);
                        lemma_lookup_update(s.prims, j, p2, n);
                        let qi = idx_of_id(s.prims, n);
                        if qi >= 0 {
                            assert(s.prims.update(j, p2)[qi] == if qi == j {
                                p2
                            } else {
                                s.prims[qi]
                            });
                        }
                    }
                },
            }
        }
    }
}

/// Law: the reference-count lifecycle.  For a node whose count equals its
/// derived reference count — as it stands when the node entered the store
/// only through the quads referencing it — deleting one quad that references
/// it lowers both by that quad's occurrences, keeps them equal, and removes
/// the node exactly when no reference remains.  Deleting all quads that
/// reference such a node therefore removes the node itself.
#[verifier::rlimit(100)]
pub proof fn lemma_refcount_lifecycle(s0: StoreModel, qid: u64, n: u64)
    requires
        wf(s0),
        n != 0,
        lookup_id(s0.prims, n) is Some,
        lookup_id(s0.prims, n)->0.content is Node,
        lookup_id(s0.prims, n)->0.refs == rc(s0.prims, n),
        lookup_id(s0.prims, qid) is Some,
        lookup_id(s0.prims, qid)->0.content is Quad,
        occ_iq(lookup_id(s0.prims, qid)->0.content->Quad_0, n) >= 1,
    ensures
        ({
            let s1 = delete_spec(s0, qid).0;
            let iq = lookup_id(s0.prims, qid)->0.content->Quad_0;
            &&& rc(s1.prims, n) == rc(s0.prims, n) - occ_iq(iq, n)
            &&& (rc(s0.prims, n) == occ_iq(iq, n) ==> lookup_id(s1.prims, n) is None)
            &&& (rc(s0.prims, n) > occ_iq(iq, n) ==> lookup_id(s1.prims, n) is Some && lookup_id(
                s1.prims,
                n,
            )->0.refs == rc(s1.prims, n) && lookup_id(s1.prims, n)->0.content is Node)
        }),
{
    let j = idx_of_id(s0.prims, qid);
    lemma_idx_of_id_props(s0.prims, qid);
    lemma_idx_of_id_props(s0.prims, n);
    let iq = s0.prims[j].content->Quad_0;
    assert(n != qid);
    lemma_delete_quad_mid_wf(s0, qid);
    let u = s0.prims.remove(j);
    let m1 = StoreModel { prims: u, ..s0 };
    let m2 = StoreModel { idx: remove_entries(m1.idx, iq, qid), ..m1 };
    lemma_rc_remove(s0.prims, j, n);
    lemma_lookup_remove(s0.prims, j, n);
    assert(rc(m2.prims, n) == rc(s0.prims, n) - occ_iq(iq, n));
    assert(lookup_id(m2.prims, n) == lookup_id(s0.prims, n));
    let t0 = (m2, Ok::<bool, StoreError>(true));
    let t1 = crate::model::dec_step(t0, iq.s);
    let t2 = crate::model::dec_step(t1, iq.p);
    let t3 = crate::model::dec_step(t2, iq.o);
    let t4 = crate::model::dec_step(t3, iq.l);
    lemma_dec_step_wf(t0, iq.s);
    lemma_dec_step_wf(t1, iq.p);
    lemma_dec_step_wf(t2, iq.o);
    lemma_dec_step_wf(t3, iq.l);
    lemma_dec_step_node(t0, iq.s, n);
    lemma_dec_step_node(t1, iq.p, n);
    lemma_dec_step_node(t2, iq.o, n);
    lemma_dec_step_node(t3, iq.l, n);
    assert(delete_spec(s0, qid).0 == t4.0);
}

// ---------------------------------------------------------------------------
// The add side of the reference-count lifecycle.

/// A node's stored count agrees with its derived reference count — the
/// state of any node that entered the store only through the quads
/// referencing it — and a missing id is referenced by nothing.
pub open spec fn node_balanced(s: StoreModel, n: u64) -> bool {
    match lookup_id(s.prims, n) {
        Some(p) => p.content is Node ==> p.refs == rc(s.prims, n),
        None => rc(s.prims, n) == 0,
    }
}

/// Appending a record adds its own contribution to a derived count.
proof fn lemma_rc_push(prims: Seq<PrimModel>, p2: PrimModel, id: u64)
    ensures
        rc(prims.push(p2), id) == rc(prims, id) + occ_prim(p2, id),
{
    assert(prims.push(p2).drop_last() =~= prims);
    assert(prims.push(p2).last() == p2);
}

/// What one insertion-resolution step does to a tracked id's record: derived
/// counts never move, and the record's count rises by one exactly when the
/// step resolved to that id — a record created by the step starting at one.
proof fn lemma_resolve_step_balance(s: StoreModel, v: ValueModel, n: u64)
    requires
        wf(s),
        !(v is Absent),
        n != 0,
    ensures
        ({
            let s1 = resolve_val_spec(s, v, true).0;
            let r = resolve_val_spec(s, v, true).1;
            &&& rc(s1.prims, n) == rc(s.prims, n)
            &&& match lookup_id(s.prims, n) {
                Some(p) => match lookup_id(s1.prims, n) {
                    Some(p1) => p1.content == p.content && p1.refs == p.refs + (
                    if r == Ok::<Option<u64>, StoreError>(Some(n)) {
                        1int
                    } else {
                        0int
                    }),
                    None => false,
                },
                None => match lookup_id(s1.prims, n) {
                    Some(p1) => r == Ok::<Option<u64>, StoreError>(Some(n)) && p1.refs == 1
                        && p1.content == ContentModel::Node(v),
                    None => !(r == Ok::<Option<u64>, StoreError>(Some(n))),
                },
            }
        }),
{
    let h = hash_of(v);
    let j = idx_of_hash(s.prims, h);
    lemma_idx_of_hash_props(s.prims, h);
    lemma_idx_of_id_props(s.prims, n);
    if j >= 0 {
        if s.prims[j].refs != u64::MAX {
            let p2 = PrimModel { refs: (s.prims[j].refs + 1) as u64, ..s.prims[j] };
            lemma_rc_update(s.prims, j, p2, n);
            lemma_lookup_update(s.prims, j, p2, n);
            let qi = idx_of_id(s.prims, n);
            if qi >= 0 {
                assert(s.prims.update(j, p2)[qi] == if qi == j {
                    p2
                } else {
                    s.prims[qi]
                });
                if s.prims[j].id == n {
                    lemma_idx_of_id_unique(s.prims, j);
                }
            }
        }
    } else if s.next_id != u64::MAX {
        let p2 = PrimModel { id: s.next_id, hash: h, refs: 1, content: ContentModel::Node(v) };
        lemma_rc_push(s.prims, p2, n);
        lemma_lookup_push(s.prims, p2, n);
        let qi = idx_of_id(s.prims, n);
        if qi >= 0 {
            assert(s.prims.push(p2)[qi] == s.prims[qi]);
        } else if n == s.next_id {
            assert(s.prims.push(p2)[s.prims.len() as int] == p2);
        }
    }
}

/// `lemma_resolve_step_balance`, lifted through one direction step of a
/// successful resolution.
proof fn lemma_rq_step_balance(
    st: (StoreModel, Result<Option<InternalQuad>, StoreError>),
    v: ValueModel,
    d: Direction,
    n: u64,
)
    requires
        wf(st.0),
        n != 0,
        st.1 is Ok && st.1->Ok_0 is Some,
        rq_step(st, v, d, true).1 is Ok,
    ensures
        ({
            let s = st.0;
            let s1 = rq_step(st, v, d, true).0;
            let iq0 = st.1->Ok_0->0;
            let iq1 = rq_step(st, v, d, true).1->Ok_0->0;
            &&& rq_step(st, v, d, true).1->Ok_0 is Some
            &&& rc(s1.prims, n) == rc(s.prims, n)
            &&& (v is Absent ==> iq1 == iq0 && s1 == s)
            &&& match lookup_id(s.prims, n) {
                Some(p) => match lookup_id(s1.prims, n) {
                    Some(p1) => p1.content == p.content && p1.refs == p.refs + (
                    if !(v is Absent) && iq1.spec_dir(d) == n {
                        1int
                    } else {
                        0int
                    }),
                    None => false,
                },
                None => match lookup_id(s1.prims, n) {
                    Some(p1) => !(v is Absent) && iq1.spec_dir(d) == n && p1.refs == 1
                        && p1.content == ContentModel::Node(v),
                    None => !(!(v is Absent) && iq1.spec_dir(d) == n),
                },
            }
            &&& forall|e: Direction| e != d ==> iq1.spec_dir(e) == iq0.spec_dir(e)
        }),
{
    let iq0 = st.1->Ok_0->0;
    if !(v is Absent) {
        lemma_resolve_step_balance(st.0, v, n);
        match resolve_val_spec(st.0, v, true).1 {
            Ok(Some(vid)) => {
                let iq1 = iq0.spec_set_dir(d, vid);
                assert(iq1.spec_dir(d) == vid);
                assert forall|e: Direction| e != d implies iq1.spec_dir(e) == iq0.spec_dir(e) by {}
            },
            _ => {},
        }
    }
}

/// Law: the add side of the reference-count lifecycle.  A successful add
/// keeps every node's stored count equal to its derived reference count:
/// each position resolved to a node contributes one bump and, once the quad
/// primitive stands, exactly one derived reference.  Together with the
/// delete side, a node that enters the store only through quads lives
/// exactly as long as a quad references it.
#[verifier::rlimit(100)]
pub proof fn lemma_add_preserves_balance(s0: StoreModel, q: QuadModel, n: u64)
    requires
        wf(s0),
        n != 0,
        node_balanced(s0, n),
        add_quad_spec(s0, q).1 is Ok,
    ensures
        node_balanced(add_quad_spec(s0, q).0, n),
{
    let found = match resolve_quad_spec(s0, q, false).1 {
        Ok(Some(iq0)) => lookup_hash(s0.prims, qhash_of(iq0)),
        _ => None,
    };
    if found is None {
        let resolved = resolve_quad_spec(s0, q, true);
        assert(resolved.1 is Ok);
        let zero = InternalQuad { s: 0, p: 0, o: 0, l: 0 };
        let st0 = (s0, Ok::<Option<InternalQuad>, StoreError>(Some(zero)));
        let stA = rq_step(st0, q.subject, Direction::Subject, true);
        let stB = rq_step(stA, q.predicate, Direction::Predicate, true);
        let stC = rq_step(stB, q.object, Direction::Object, true);
        let stD = rq_step(stC, q.label, Direction::Label, true);
        assert(stA.1 is Ok && stB.1 is Ok && stC.1 is Ok && stD.1 is Ok);
        crate::lemmas::lemma_rq_step_wf(st0, q.subject, Direction::Subject, true);
        crate::lemmas::lemma_rq_step_wf(stA, q.predicate, Direction::Predicate, true);
        crate::lemmas::lemma_rq_step_wf(stB, q.object, Direction::Object, true);
        crate::lemmas::lemma_rq_step_wf(stC, q.label, Direction::Label, true);
        let iq = stD.1->Ok_0->0;
        lemma_rq_step_balance(st0, q.subject, Direction::Subject, n);
        lemma_rq_step_balance(stA, q.predicate, Direction::Predicate, n);
        lemma_rq_step_balance(stB, q.object, Direction::Object, n);
        lemma_rq_step_balance(stC, q.label, Direction::Label, n);
        // positions keep their written ids through the later steps
        let iqA = stA.1->Ok_0->0;
        let iqB = stB.1->Ok_0->0;
        let iqC = stC.1->Ok_0->0;
        assert(iq.s == iqA.s && iq.p == iqB.p && iq.o == iqC.o);
        assert(q.subject is Absent ==> iq.s == 0);
        assert(q.predicate is Absent ==> iq.p == 0);
        assert(q.object is Absent ==> iq.o == 0);
        assert(q.label is Absent ==> iq.l == 0);
        let s1 = resolved.0;
        assert(s1.next_id != u64::MAX);
        let qid = s1.next_id;
        let qprim = PrimModel {
            id: qid,
            hash: qhash_of(iq),
            refs: 1,
            content: ContentModel::Quad(iq),
        };
        lemma_rc_push(s1.prims, qprim, n);
        assert(occ_prim(qprim, n) == occ_iq(iq, n));
        lemma_idx_of_id_props(s1.prims, n);
        lemma_lookup_push(s1.prims, qprim, n);
        let qi = idx_of_id(s1.prims, n);
        if qi >= 0 {
            assert(s1.prims.push(qprim)[qi] == s1.prims[qi]);
        } else if n == qid {
            assert(s1.prims.push(qprim)[s1.prims.len() as int] == qprim);
        }
    }
}

} // verus!
