//! Proof support for the model: characterizations of the lookup functions,
//! the order facts of the direction index, and preservation of
//! well-formedness by every transition.

use vstd::prelude::*;
use crate::value::{Direction, QuadModel, ValueModel};
use crate::primitive::{ContentModel, InternalQuad, PrimModel};
use crate::model::{
    add_entries, add_quad_spec, apply_deltas_spec, check_phase, dec_step,
    delete_nodes_spec, delete_spec, entry, entry_derived, find_quad_spec, has_entry, idx_insert,
    idx_of_hash, idx_of_id, idx_remove, idx_sorted, key_lt, lookup_hash, lookup_id, mutate_phase,
    quad_entries_present, remove_entries, resolve_quad_spec, resolve_val_spec, rq_step, scan_spec,
    wf, IndexEntry, StoreModel,
};
use crate::primitive::{DeltaModel, Procedure, StoreError};
use crate::hashing::{content_hash, hash_of};

verus! {

/// `has_entry` is membership at some position.
pub proof fn lemma_has_entry(idx: Seq<IndexEntry>, e: IndexEntry)
    ensures
        has_entry(idx, e) <==> (exists|i: int| 0 <= i < idx.len() && idx[i] == e),
    decreases idx.len(),
{
    if idx.len() > 0 {
        lemma_has_entry(idx.drop_first(), e);
        if idx[0] == e {
            assert(idx[0] == e);
        } else if has_entry(idx.drop_first(), e) {
            let i = choose|i: int| 0 <= i < idx.drop_first().len() && idx.drop_first()[i] == e;
            assert(idx[i + 1] == e);
        } else {
            assert forall|i: int| 0 <= i < idx.len() implies idx[i] != e by {
                if i > 0 {
                    assert(idx.drop_first()[i - 1] == idx[i]);
                }
            }
        }
    }
}

/// The key order is a strict total order on entries.
pub proof fn lemma_key_order(a: IndexEntry, b: IndexEntry)
    ensures
        a == b || key_lt(a, b) || key_lt(b, a),
        !(key_lt(a, b) && key_lt(b, a)),
        !key_lt(a, a),
{
    assert(a.direction.spec_to_byte() == b.direction.spec_to_byte() ==> a.direction
        == b.direction);
}

/// `idx_of_id` finds the first primitive with the id, or reports that none
/// exists.
pub proof fn lemma_idx_of_id_props(prims: Seq<PrimModel>, id: u64)
    ensures
        idx_of_id(prims, id) == -1 || (0 <= idx_of_id(prims, id) < prims.len()),
        idx_of_id(prims, id) == -1 ==> forall|k: int|
            0 <= k < prims.len() ==> (#[trigger] prims[k]).id != id,
        idx_of_id(prims, id) >= 0 ==> prims[idx_of_id(prims, id)].id == id && forall|k: int|
            0 <= k < idx_of_id(prims, id) ==> (#[trigger] prims[k]).id != id,
    decreases prims.len(),
{
    if prims.len() > 0 && prims[0].id != id {
        lemma_idx_of_id_props(prims.drop_first(), id);
        assert forall|k: int| 1 <= k < prims.len() implies prims.drop_first()[k - 1] == prims[k]
        by {}
    }
}

/// `idx_of_hash` finds the first primitive with the hash, or reports that
/// none exists.
pub proof fn lemma_idx_of_hash_props(prims: Seq<PrimModel>, h: u64)
    ensures
        idx_of_hash(prims, h) == -1 || (0 <= idx_of_hash(prims, h) < prims.len()),
        idx_of_hash(prims, h) == -1 ==> forall|k: int|
            0 <= k < prims.len() ==> (#[trigger] prims[k]).hash != h,
        idx_of_hash(prims, h) >= 0 ==> prims[idx_of_hash(prims, h)].hash == h && forall|k: int|
            0 <= k < idx_of_hash(prims, h) ==> (#[trigger] prims[k]).hash != h,
    decreases prims.len(),
{
    if prims.len() > 0 && prims[0].hash != h {
        lemma_idx_of_hash_props(prims.drop_first(), h);
        assert forall|k: int| 1 <= k < prims.len() implies prims.drop_first()[k - 1] == prims[k]
        by {}
    }
}

/// Insertion keeps the index sorted and adds exactly the new entry.
pub proof fn lemma_idx_insert_props(idx: Seq<IndexEntry>, e: IndexEntry)
    requires
        idx_sorted(idx),
    ensures
        idx_sorted(idx_insert(idx, e)),
        forall|x: IndexEntry| #![trigger has_entry(idx_insert(idx, e), x)]
            has_entry(idx_insert(idx, e), x) <==> (has_entry(idx, x) || x == e),
        idx.len() <= idx_insert(idx, e).len() <= idx.len() + 1,
    decreases idx.len(),
{
    let r = idx_insert(idx, e);
    if idx.len() == 0 {
        assert(r =~= seq![e]);
        assert(r.drop_first() =~= Seq::<IndexEntry>::empty());
        assert forall|x: IndexEntry| has_entry(r, x) <==> (has_entry(idx, x) || x == e) by {
            assert(has_entry(r, x) == (r[0] == x || has_entry(r.drop_first(), x)));
        }
    } else if key_lt(e, idx[0]) {
        assert(r =~= seq![e] + idx);
        assert(r.drop_first() =~= idx);
        assert forall|x: IndexEntry| has_entry(r, x) <==> (has_entry(idx, x) || x == e) by {
            assert(has_entry(r, x) == (r[0] == x || has_entry(r.drop_first(), x)));
        }
        assert forall|i: int, j: int| 0 <= i < j < r.len() implies key_lt(r[i], r[j]) by {
            if i == 0 {
                lemma_key_order(e, idx[j - 1]);
                if j > 1 {
                    assert(key_lt(idx[0], idx[j - 1]));
                }
            } else {
                assert(key_lt(idx[i - 1], idx[j - 1]));
            }
        }
    } else if idx[0] == e {
        assert forall|x: IndexEntry| has_entry(r, x) <==> (has_entry(idx, x) || x == e) by {
            assert(has_entry(idx, x) == (idx[0] == x || has_entry(idx.drop_first(), x)));
        }
    } else {
        assert(idx_sorted(idx.drop_first())) by {
            assert forall|i: int, j: int|
                0 <= i < j < idx.drop_first().len() implies key_lt(
                idx.drop_first()[i],
                idx.drop_first()[j],
            ) by {
                assert(idx.drop_first()[i] == idx[i + 1]);
                assert(idx.drop_first()[j] == idx[j + 1]);
            }
        }
        lemma_idx_insert_props(idx.drop_first(), e);
        let rr = idx_insert(idx.drop_first(), e);
        assert(r =~= seq![idx[0]] + rr);
        assert(r.drop_first() =~= rr);
        assert forall|x: IndexEntry| has_entry(r, x) <==> (has_entry(idx, x) || x == e) by {
            assert(has_entry(r, x) == (r[0] == x || has_entry(rr, x)));
            assert(has_entry(idx, x) == (idx[0] == x || has_entry(idx.drop_first(), x)));
        }
        lemma_key_order(e, idx[0]);
        // idx[0] precedes everything in rr: old entries by sortedness, e by totality.
        assert forall|i: int, j: int| 0 <= i < j < r.len() implies key_lt(r[i], r[j]) by {
            if i == 0 {
                let x = rr[j - 1];
                lemma_has_entry(rr, x);
                assert(has_entry(rr, x));
                if x == e {
                    assert(key_lt(idx[0], e));
                } else {
                    lemma_has_entry(idx.drop_first(), x);
                    let k = choose|k: int|
                        0 <= k < idx.drop_first().len() && idx.drop_first()[k] == x;
                    assert(idx[k + 1] == x);
                    assert(key_lt(idx[0], idx[k + 1]));
                }
            } else {
                assert(r[i] == rr[i - 1] && r[j] == rr[j - 1]);
            }
        }
    }
}

/// Removal keeps the index sorted and removes exactly the named entry.
pub proof fn lemma_idx_remove_props(idx: Seq<IndexEntry>, e: IndexEntry)
    requires
        idx_sorted(idx),
    ensures
        idx_sorted(idx_remove(idx, e)),
        forall|x: IndexEntry| #![trigger has_entry(idx_remove(idx, e), x)]
            has_entry(idx_remove(idx, e), x) <==> (has_entry(idx, x) && x != e),
        idx_remove(idx, e).len() <= idx.len(),
    decreases idx.len(),
{
    let r = idx_remove(idx, e);
    if idx.len() > 0 {
        assert(idx_sorted(idx.drop_first())) by {
            assert forall|i: int, j: int|
                0 <= i < j < idx.drop_first().len() implies key_lt(
                idx.drop_first()[i],
                idx.drop_first()[j],
            ) by {
                assert(idx.drop_first()[i] == idx[i + 1]);
                assert(idx.drop_first()[j] == idx[j + 1]);
            }
        }
        lemma_idx_remove_props(idx.drop_first(), e);
        let rr = idx_remove(idx.drop_first(), e);
        if idx[0] == e {
            assert(r == rr);
            assert forall|x: IndexEntry| has_entry(r, x) <==> (has_entry(idx, x) && x != e) by {
                assert(has_entry(rr, x) <==> (has_entry(idx.drop_first(), x) && x != e));
                assert(has_entry(idx, x) == (idx[0] == x || has_entry(idx.drop_first(), x)));
            }
        } else {
            assert(r =~= seq![idx[0]] + rr);
            assert(r.drop_first() =~= rr);
            assert forall|x: IndexEntry| has_entry(r, x) <==> (has_entry(idx, x) && x != e) by {
                assert(has_entry(r, x) == (r[0] == x || has_entry(rr, x)));
                assert(has_entry(idx, x) == (idx[0] == x || has_entry(idx.drop_first(), x)));
            }
            assert forall|i: int, j: int| 0 <= i < j < r.len() implies key_lt(r[i], r[j]) by {
                if i == 0 {
                    let x = rr[j - 1];
                    lemma_has_entry(rr, x);
                    assert(has_entry(rr, x));
                    lemma_has_entry(idx.drop_first(), x);
                    let k = choose|k: int|
                        0 <= k < idx.drop_first().len() && idx.drop_first()[k] == x;
                    assert(idx[k + 1] == x);
                    assert(key_lt(idx[0], idx[k + 1]));
                } else {
                    assert(r[i] == rr[i - 1] && r[j] == rr[j - 1]);
                }
            }
        }
    }
}

/// Removing an entry the index does not hold changes nothing.
pub proof fn lemma_idx_remove_absent(idx: Seq<IndexEntry>, e: IndexEntry)
    requires
        forall|k: int| 0 <= k < idx.len() ==> idx[k] != e,
    ensures
        idx_remove(idx, e) == idx,
    decreases idx.len(),
{
    if idx.len() > 0 {
        assert forall|k: int| 0 <= k < idx.drop_first().len() implies idx.drop_first()[k] != e by {
            assert(idx.drop_first()[k] == idx[k + 1]);
        }
        lemma_idx_remove_absent(idx.drop_first(), e);
        assert(idx_remove(idx, e) =~= seq![idx[0]] + idx.drop_first());
        assert(seq![idx[0]] + idx.drop_first() =~= idx);
    }
}

/// On a sorted index, inserting at the first position whose key is not below
/// the new entry is what `idx_insert` does.
pub proof fn lemma_idx_insert_at(idx: Seq<IndexEntry>, e: IndexEntry, pos: int)
    requires
        idx_sorted(idx),
        0 <= pos <= idx.len(),
        forall|k: int| 0 <= k < pos ==> key_lt(#[trigger] idx[k], e),
        pos < idx.len() ==> !key_lt(idx[pos], e),
    ensures
        pos < idx.len() && idx[pos] == e ==> idx_insert(idx, e) == idx,
        !(pos < idx.len() && idx[pos] == e) ==> idx_insert(idx, e) == idx.insert(pos, e),
    decreases idx.len(),
{
    if pos == 0 {
        if idx.len() == 0 {
            assert(idx_insert(idx, e) =~= idx.insert(0, e));
        } else if idx[0] == e {
        } else {
            lemma_key_order(e, idx[0]);
            assert(key_lt(e, idx[0]));
            assert(idx_insert(idx, e) =~= idx.insert(0, e));
        }
    } else {
        lemma_key_order(e, idx[0]);
        assert(idx_sorted(idx.drop_first())) by {
            assert forall|i: int, j: int|
                0 <= i < j < idx.drop_first().len() implies key_lt(
                idx.drop_first()[i],
                idx.drop_first()[j],
            ) by {
                assert(idx.drop_first()[i] == idx[i + 1]);
                assert(idx.drop_first()[j] == idx[j + 1]);
            }
        }
        assert forall|k: int| 0 <= k < pos - 1 implies key_lt(#[trigger] idx.drop_first()[k], e) by {
            assert(idx.drop_first()[k] == idx[k + 1]);
        }
        assert(pos - 1 < idx.drop_first().len() ==> !key_lt(idx.drop_first()[pos - 1], e));
        lemma_idx_insert_at(idx.drop_first(), e, pos - 1);
        if pos < idx.len() && idx[pos] == e {
            assert(idx.drop_first()[pos - 1] == e);
            assert(idx_insert(idx, e) =~= seq![idx[0]] + idx.drop_first());
            assert(seq![idx[0]] + idx.drop_first() =~= idx);
        } else {
            assert(idx_insert(idx, e) =~= seq![idx[0]] + idx.drop_first().insert(pos - 1, e));
            assert(seq![idx[0]] + idx.drop_first().insert(pos - 1, e) =~= idx.insert(pos, e));
        }
    }
}

/// On a sorted index, removing the position that holds the entry is what
/// `idx_remove` does.
pub proof fn lemma_idx_remove_at(idx: Seq<IndexEntry>, e: IndexEntry, pos: int)
    requires
        idx_sorted(idx),
        0 <= pos < idx.len(),
        forall|k: int| 0 <= k < pos ==> idx[k] != e,
        idx[pos] == e,
    ensures
        idx_remove(idx, e) == idx.remove(pos),
    decreases idx.len(),
{
    if pos == 0 {
        assert forall|k: int| 0 <= k < idx.drop_first().len() implies idx.drop_first()[k] != e by {
            assert(idx.drop_first()[k] == idx[k + 1]);
            assert(key_lt(idx[0], idx[k + 1]));
            lemma_key_order(idx[0], idx[k + 1]);
        }
        lemma_idx_remove_absent(idx.drop_first(), e);
        assert(idx_remove(idx, e) =~= idx.remove(0));
    } else {
        assert(idx_sorted(idx.drop_first())) by {
            assert forall|i: int, j: int|
                0 <= i < j < idx.drop_first().len() implies key_lt(
                idx.drop_first()[i],
                idx.drop_first()[j],
            ) by {
                assert(idx.drop_first()[i] == idx[i + 1]);
                assert(idx.drop_first()[j] == idx[j + 1]);
            }
        }
        assert forall|k: int| 0 <= k < pos - 1 implies idx.drop_first()[k] != e by {
            assert(idx.drop_first()[k] == idx[k + 1]);
        }
        assert(idx.drop_first()[pos - 1] == e);
        lemma_idx_remove_at(idx.drop_first(), e, pos - 1);
        assert(idx_remove(idx, e) =~= seq![idx[0]] + idx.drop_first().remove(pos - 1));
        assert(seq![idx[0]] + idx.drop_first().remove(pos - 1) =~= idx.remove(pos));
    }
}

/// Membership in a sequence extended on the left.
proof fn lemma_cons_contains(h: u64, rest: Seq<u64>, x: u64)
    ensures
        (seq![h] + rest).contains(x) <==> (x == h || rest.contains(x)),
{
    let s = seq![h] + rest;
    if rest.contains(x) {
        let i = choose|i: int| 0 <= i < rest.len() && rest[i] == x;
        assert(s[i + 1] == x);
        assert(s.contains(x));
    }
    if x == h {
        assert(s[0] == x);
        assert(s.contains(x));
    }
    if s.contains(x) {
        let i = choose|i: int| 0 <= i < s.len() && s[i] == x;
        if i > 0 {
            assert(rest[i - 1] == x);
            assert(rest.contains(x));
        }
    }
}

/// A scan returns a quad id exactly when the index holds the entry.
pub proof fn lemma_scan_membership(idx: Seq<IndexEntry>, d: Direction, vid: u64, q: u64)
    ensures
        scan_spec(idx, d, vid).contains(q) <==> has_entry(idx, entry(d, vid, q)),
    decreases idx.len(),
{
    if idx.len() > 0 {
        lemma_scan_membership(idx.drop_first(), d, vid, q);
        if idx[0].direction == d && idx[0].value_id == vid {
            lemma_cons_contains(idx[0].quad_id, scan_spec(idx.drop_first(), d, vid), q);
        }
    }
}

/// Every id a scan returns is the quad id of a held entry with that
/// direction and value.
pub proof fn lemma_scan_src(idx: Seq<IndexEntry>, d: Direction, vid: u64)
    ensures
        forall|k: int|
            0 <= k < scan_spec(idx, d, vid).len() ==> has_entry(
                idx,
                entry(d, vid, scan_spec(idx, d, vid)[k]),
            ),
    decreases idx.len(),
{
    if idx.len() > 0 {
        lemma_scan_src(idx.drop_first(), d, vid);
        let rest = scan_spec(idx.drop_first(), d, vid);
        let r = scan_spec(idx, d, vid);
        assert forall|k: int| 0 <= k < r.len() implies has_entry(idx, entry(d, vid, r[k])) by {
            if idx[0].direction == d && idx[0].value_id == vid {
                if k == 0 {
                    assert(r[0] == idx[0].quad_id);
                    assert(entry(d, vid, idx[0].quad_id) == idx[0]);
                } else {
                    assert(r[k] == rest[k - 1]);
                }
            } else {
                assert(r[k] == rest[k]);
            }
        }
    }
}

/// On a sorted index a scan's ids come out in strictly ascending order.
pub proof fn lemma_scan_sorted(idx: Seq<IndexEntry>, d: Direction, vid: u64)
    requires
        idx_sorted(idx),
    ensures
        forall|i: int, j: int|
            0 <= i < j < scan_spec(idx, d, vid).len() ==> scan_spec(idx, d, vid)[i] < scan_spec(
                idx,
                d,
                vid,
            )[j],
    decreases idx.len(),
{
    if idx.len() > 0 {
        assert(idx_sorted(idx.drop_first())) by {
            assert forall|i: int, j: int|
                0 <= i < j < idx.drop_first().len() implies key_lt(
                idx.drop_first()[i],
                idx.drop_first()[j],
            ) by {
                assert(idx.drop_first()[i] == idx[i + 1]);
                assert(idx.drop_first()[j] == idx[j + 1]);
            }
        }
        lemma_scan_sorted(idx.drop_first(), d, vid);
        lemma_scan_src(idx.drop_first(), d, vid);
        let rest = scan_spec(idx.drop_first(), d, vid);
        let r = scan_spec(idx, d, vid);
        if idx[0].direction == d && idx[0].value_id == vid {
            // The head's quad id is below every id scanned from the tail.
            assert forall|k: int| 0 <= k < rest.len() implies idx[0].quad_id < rest[k] by {
                lemma_has_entry(idx.drop_first(), entry(d, vid, rest[k]));
                let p = choose|p: int|
                    0 <= p < idx.drop_first().len() && idx.drop_first()[p] == entry(
                        d,
                        vid,
                        rest[k],
                    );
                assert(idx[p + 1] == entry(d, vid, rest[k]));
                assert(key_lt(idx[0], idx[p + 1]));
            }
            assert forall|i: int, j: int| 0 <= i < j < r.len() implies r[i] < r[j] by {
                if i == 0 {
                    assert(r[j] == rest[j - 1]);
                } else {
                    assert(r[i] == rest[i - 1] && r[j] == rest[j - 1]);
                }
            }
        }
    }
}

// ---------------------------------------------------------------------------
// Stability of the table lookups under single-record edits.

/// Replacing a record with one of the same id and hash moves no lookup.
pub proof fn lemma_lookup_update(prims: Seq<PrimModel>, j: int, p2: PrimModel, x: u64)
    requires
        0 <= j < prims.len(),
        p2.id == prims[j].id,
        p2.hash == prims[j].hash,
    ensures
        idx_of_id(prims.update(j, p2), x) == idx_of_id(prims, x),
        idx_of_hash(prims.update(j, p2), x) == idx_of_hash(prims, x),
    decreases prims.len(),
{
    let u = prims.update(j, p2);
    if j == 0 {
        assert(u.drop_first() =~= prims.drop_first());
    } else {
        assert(u[0] == prims[0]);
        assert(u.drop_first() =~= prims.drop_first().update(j - 1, p2));
        assert(prims.drop_first()[j - 1] == prims[j]);
        lemma_lookup_update(prims.drop_first(), j - 1, p2, x);
    }
}

/// Appending a record moves no existing lookup; a missed lookup finds the
/// new record exactly when it matches.
pub proof fn lemma_lookup_push(prims: Seq<PrimModel>, p2: PrimModel, x: u64)
    ensures
        idx_of_id(prims, x) >= 0 ==> idx_of_id(prims.push(p2), x) == idx_of_id(prims, x),
        idx_of_id(prims, x) < 0 && p2.id == x ==> idx_of_id(prims.push(p2), x) == prims.len(),
        idx_of_id(prims, x) < 0 && p2.id != x ==> idx_of_id(prims.push(p2), x) == -1,
        idx_of_hash(prims, x) >= 0 ==> idx_of_hash(prims.push(p2), x) == idx_of_hash(prims, x),
        idx_of_hash(prims, x) < 0 && p2.hash == x ==> idx_of_hash(prims.push(p2), x)
            == prims.len(),
        idx_of_hash(prims, x) < 0 && p2.hash != x ==> idx_of_hash(prims.push(p2), x) == -1,
    decreases prims.len(),
{
    let u = prims.push(p2);
    if prims.len() == 0 {
        assert(u.drop_first() =~= Seq::<PrimModel>::empty());
        assert(idx_of_id(u.drop_first(), x) == -1);
        assert(idx_of_hash(u.drop_first(), x) == -1);
    } else {
        assert(u[0] == prims[0]);
        assert(u.drop_first() =~= prims.drop_first().push(p2));
        lemma_lookup_push(prims.drop_first(), p2, x);
        assert(idx_of_id(prims, x) < 0 ==> idx_of_id(prims.drop_first(), x) < 0);
        assert(idx_of_hash(prims, x) < 0 ==> idx_of_hash(prims.drop_first(), x) < 0);
        assert(idx_of_id(prims, x) < 0 && p2.id != x ==> idx_of_id(u.drop_first(), x) == -1);
        assert(idx_of_hash(prims, x) < 0 && p2.hash != x ==> idx_of_hash(u.drop_first(), x)
            == -1);
    }
}

/// With strictly increasing ids, each stored record is what its own id
/// looks up.
pub proof fn lemma_idx_of_id_unique(prims: Seq<PrimModel>, j: int)
    requires
        forall|a: int, b: int| 0 <= a < b < prims.len() ==> prims[a].id < prims[b].id,
        0 <= j < prims.len(),
    ensures
        idx_of_id(prims, prims[j].id) == j,
{
    lemma_idx_of_id_props(prims, prims[j].id);
    let f = idx_of_id(prims, prims[j].id);
    assert(f >= 0);
    if f < j {
        assert(prims[f].id < prims[j].id);
    }
    if f > j {
        assert(prims[j].id != prims[j].id ==> false);
    }
}

/// A missed head lets the id lookup pass to the tail unchanged.
proof fn lemma_lookup_id_step(prims: Seq<PrimModel>, x: u64)
    requires
        prims.len() > 0,
        prims[0].id != x,
    ensures
        lookup_id(prims, x) == lookup_id(prims.drop_first(), x),
{
    let k = idx_of_id(prims.drop_first(), x);
    if k >= 0 {
        lemma_idx_of_id_props(prims.drop_first(), x);
        assert(prims[1 + k] == prims.drop_first()[k]);
    }
}

/// Removing a record that does not match the key keeps the lookup's result;
/// removing the record that matches it makes the lookup miss.
pub proof fn lemma_lookup_remove(prims: Seq<PrimModel>, j: int, x: u64)
    requires
        forall|a: int, b: int| 0 <= a < b < prims.len() ==> prims[a].id < prims[b].id,
        0 <= j < prims.len(),
    ensures
        prims[j].id != x ==> lookup_id(prims.remove(j), x) == lookup_id(prims, x),
        prims[j].id == x ==> idx_of_id(prims.remove(j), x) == -1,
    decreases prims.len(),
{
    let u = prims.remove(j);
    if j == 0 {
        assert(u =~= prims.drop_first());
        if prims[0].id == x {
            lemma_idx_of_id_props(prims.drop_first(), x);
            if idx_of_id(prims.drop_first(), x) >= 0 {
                let k = idx_of_id(prims.drop_first(), x);
                assert(prims.drop_first()[k] == prims[k + 1]);
                assert(prims[0].id < prims[k + 1].id);
            }
        } else {
            lemma_lookup_id_step(prims, x);
        }
    } else {
        assert(u[0] == prims[0]);
        assert(u.drop_first() =~= prims.drop_first().remove(j - 1));
        assert(prims.drop_first()[j - 1] == prims[j]);
        assert forall|a: int, b: int|
            0 <= a < b < prims.drop_first().len() implies prims.drop_first()[a].id
            < prims.drop_first()[b].id by {
            assert(prims.drop_first()[a] == prims[a + 1]);
            assert(prims.drop_first()[b] == prims[b + 1]);
        }
        lemma_lookup_remove(prims.drop_first(), j - 1, x);
        if prims[j].id != x {
            if prims[0].id == x {
                assert(idx_of_id(prims, x) == 0);
                assert(idx_of_id(u, x) == 0);
            } else {
                lemma_lookup_id_step(prims, x);
                lemma_lookup_id_step(u, x);
            }
        } else {
            if prims[0].id == x {
                assert(prims[0].id < prims[j].id);
            }
        }
    }
}

// ---------------------------------------------------------------------------
// Combined membership facts for a quad's whole entry set.

/// What inserting all of a quad's entries holds, in one statement.
pub proof fn lemma_add_entries_props(idx: Seq<IndexEntry>, iq: InternalQuad, qid: u64)
    requires
        idx_sorted(idx),
    ensures
        idx_sorted(add_entries(idx, iq, qid)),
        forall|x: IndexEntry| #![trigger has_entry(add_entries(idx, iq, qid), x)]
            has_entry(add_entries(idx, iq, qid), x) <==> (has_entry(idx, x) || (iq.s != 0 && x
                == entry(Direction::Subject, iq.s, qid)) || (iq.p != 0 && x == entry(
                Direction::Predicate,
                iq.p,
                qid,
            )) || (iq.o != 0 && x == entry(Direction::Object, iq.o, qid)) || (iq.l != 0 && x
                == entry(Direction::Label, iq.l, qid))),
        iq.s != 0 ==> has_entry(add_entries(idx, iq, qid), entry(Direction::Subject, iq.s, qid)),
        iq.p != 0 ==> has_entry(add_entries(idx, iq, qid), entry(Direction::Predicate, iq.p, qid)),
        iq.o != 0 ==> has_entry(add_entries(idx, iq, qid), entry(Direction::Object, iq.o, qid)),
        iq.l != 0 ==> has_entry(add_entries(idx, iq, qid), entry(Direction::Label, iq.l, qid)),
{
    let i1 = if iq.s != 0 {
        idx_insert(idx, entry(Direction::Subject, iq.s, qid))
    } else {
        idx
    };
    if iq.s != 0 {
        lemma_idx_insert_props(idx, entry(Direction::Subject, iq.s, qid));
    }
    let i2 = if iq.p != 0 {
        idx_insert(i1, entry(Direction::Predicate, iq.p, qid))
    } else {
        i1
    };
    if iq.p != 0 {
        lemma_idx_insert_props(i1, entry(Direction::Predicate, iq.p, qid));
    }
    let i3 = if iq.o != 0 {
        idx_insert(i2, entry(Direction::Object, iq.o, qid))
    } else {
        i2
    };
    if iq.o != 0 {
        lemma_idx_insert_props(i2, entry(Direction::Object, iq.o, qid));
    }
    if iq.l != 0 {
        lemma_idx_insert_props(i3, entry(Direction::Label, iq.l, qid));
    }
}

/// What removing all of a quad's entries holds, in one statement.
pub proof fn lemma_remove_entries_props(idx: Seq<IndexEntry>, iq: InternalQuad, qid: u64)
    requires
        idx_sorted(idx),
    ensures
        idx_sorted(remove_entries(idx, iq, qid)),
        forall|x: IndexEntry| #![trigger has_entry(remove_entries(idx, iq, qid), x)]
            has_entry(remove_entries(idx, iq, qid), x) <==> (has_entry(idx, x) && !(iq.s != 0 && x
                == entry(Direction::Subject, iq.s, qid)) && !(iq.p != 0 && x == entry(
                Direction::Predicate,
                iq.p,
                qid,
            )) && !(iq.o != 0 && x == entry(Direction::Object, iq.o, qid)) && !(iq.l != 0 && x
                == entry(Direction::Label, iq.l, qid))),
{
    let i1 = if iq.s != 0 {
        idx_remove(idx, entry(Direction::Subject, iq.s, qid))
    } else {
        idx
    };
    if iq.s != 0 {
        lemma_idx_remove_props(idx, entry(Direction::Subject, iq.s, qid));
    }
    let i2 = if iq.p != 0 {
        idx_remove(i1, entry(Direction::Predicate, iq.p, qid))
    } else {
        i1
    };
    if iq.p != 0 {
        lemma_idx_remove_props(i1, entry(Direction::Predicate, iq.p, qid));
    }
    let i3 = if iq.o != 0 {
        idx_remove(i2, entry(Direction::Object, iq.o, qid))
    } else {
        i2
    };
    if iq.o != 0 {
        lemma_idx_remove_props(i2, entry(Direction::Object, iq.o, qid));
    }
    if iq.l != 0 {
        lemma_idx_remove_props(i3, entry(Direction::Label, iq.l, qid));
    }
}

// ---------------------------------------------------------------------------
// Well-formedness through the resolver's transitions.

/// Resolving one value preserves well-formedness and never touches the
/// direction index.
#[verifier::rlimit(60)]
pub proof fn lemma_resolve_val_wf(s: StoreModel, v: ValueModel, add: bool)
    requires
        wf(s),
    ensures
        wf(resolve_val_spec(s, v, add).0),
        resolve_val_spec(s, v, add).0.idx == s.idx,
        resolve_val_spec(s, v, add).0.next_id >= s.next_id,
{
    let s1 = resolve_val_spec(s, v, add).0;
    if !(v is Absent) {
        let h = hash_of(v);
        let j = idx_of_hash(s.prims, h);
        lemma_idx_of_hash_props(s.prims, h);
        if j >= 0 {
            if add && s.prims[j].refs != u64::MAX {
                let p2 = PrimModel { refs: (s.prims[j].refs + 1) as u64, ..s.prims[j] };
                let u = s.prims.update(j, p2);
                assert(s1.prims == u);
                assert forall|i: int| 0 <= i < s1.idx.len() implies entry_derived(
                    s1,
                    #[trigger] s1.idx[i],
                ) by {
                    let e = s.idx[i];
                    assert(entry_derived(s, e));
                    lemma_idx_of_id_props(s.prims, e.quad_id);
                    lemma_lookup_update(s.prims, j, p2, e.quad_id);
                    let qi = idx_of_id(s.prims, e.quad_id);
                    assert(0 <= qi < s.prims.len());
                    assert(u[qi] == if qi == j {
                        p2
                    } else {
                        s.prims[qi]
                    });
                }
                assert forall|i: int| 0 <= i < s1.prims.len() implies #[trigger]
                    quad_entries_present(s1, i) by {
                    assert(quad_entries_present(s, i));
                    assert(u[i] == if i == j { p2 } else { s.prims[i] });
                }
            }
        } else if add && s.next_id != u64::MAX {
            let p2 = PrimModel { id: s.next_id, hash: h, refs: 1, content: ContentModel::Node(v) };
            let u = s.prims.push(p2);
            assert(s1.prims == u);
            assert forall|a: int, b: int| 0 <= a < b < u.len() implies u[a].id < u[b].id by {
                if b == s.prims.len() {
                    assert(u[a] == s.prims[a]);
                    assert(s.prims[a].id < s.next_id);
                }
            }
            assert forall|i: int| 0 <= i < s1.idx.len() implies entry_derived(
                s1,
                #[trigger] s1.idx[i],
            ) by {
                let e = s.idx[i];
                assert(entry_derived(s, e));
                lemma_idx_of_id_props(s.prims, e.quad_id);
                lemma_lookup_push(s.prims, p2, e.quad_id);
                let qi = idx_of_id(s.prims, e.quad_id);
                assert(0 <= qi < s.prims.len());
                assert(u[qi] == s.prims[qi]);
            }
            assert forall|i: int| 0 <= i < s1.prims.len() implies #[trigger] quad_entries_present(
                s1,
                i,
            ) by {
                if i < s.prims.len() {
                    assert(quad_entries_present(s, i));
                    assert(u[i] == s.prims[i]);
                } else {
                    assert(u[i] == p2);
                }
            }
        }
    }
}

/// One direction step of quad resolution preserves well-formedness.
pub proof fn lemma_rq_step_wf(
    st: (StoreModel, Result<Option<InternalQuad>, crate::primitive::StoreError>),
    v: ValueModel,
    d: Direction,
    add: bool,
)
    requires
        wf(st.0),
    ensures
        wf(rq_step(st, v, d, add).0),
        rq_step(st, v, d, add).0.idx == st.0.idx,
        rq_step(st, v, d, add).0.next_id >= st.0.next_id,
{
    match st.1 {
        Err(_) => {},
        Ok(None) => {},
        Ok(Some(_)) => {
            if !(v is Absent) {
                lemma_resolve_val_wf(st.0, v, add);
            }
        },
    }
}

/// Resolving a whole statement preserves well-formedness and never touches
/// the direction index.
pub proof fn lemma_resolve_quad_wf(s: StoreModel, q: QuadModel, add: bool)
    requires
        wf(s),
    ensures
        wf(resolve_quad_spec(s, q, add).0),
        resolve_quad_spec(s, q, add).0.idx == s.idx,
        resolve_quad_spec(s, q, add).0.next_id >= s.next_id,
{
    let st0 = (
        s,
        Ok::<Option<InternalQuad>, crate::primitive::StoreError>(
            Some(InternalQuad { s: 0, p: 0, o: 0, l: 0 }),
        ),
    );
    let st1 = rq_step(st0, q.subject, Direction::Subject, add);
    let st2 = rq_step(st1, q.predicate, Direction::Predicate, add);
    let st3 = rq_step(st2, q.object, Direction::Object, add);
    lemma_rq_step_wf(st0, q.subject, Direction::Subject, add);
    lemma_rq_step_wf(st1, q.predicate, Direction::Predicate, add);
    lemma_rq_step_wf(st2, q.object, Direction::Object, add);
    lemma_rq_step_wf(st3, q.label, Direction::Label, add);
}

// ---------------------------------------------------------------------------
// Well-formedness through deletion.

/// Replacing one record, with its id, hash and content kept and a count of
/// at least 1, keeps the whole invariant.
proof fn lemma_update_refs_wf(s: StoreModel, j: int, p2: PrimModel)
    requires
        wf(s),
        0 <= j < s.prims.len(),
        p2.id == s.prims[j].id,
        p2.hash == s.prims[j].hash,
        p2.content == s.prims[j].content,
        p2.refs >= 1,
    ensures
        wf(StoreModel { prims: s.prims.update(j, p2), ..s }),
{
    let u = s.prims.update(j, p2);
    let s1 = StoreModel { prims: u, ..s };
    assert forall|i: int| 0 <= i < s1.idx.len() implies entry_derived(s1, #[trigger] s1.idx[i]) by {
        let e = s.idx[i];
        assert(entry_derived(s, e));
        lemma_idx_of_id_props(s.prims, e.quad_id);
        lemma_lookup_update(s.prims, j, p2, e.quad_id);
        let qi = idx_of_id(s.prims, e.quad_id);
        assert(0 <= qi < s.prims.len());
        assert(u[qi] == if qi == j { p2 } else { s.prims[qi] });
    }
    assert forall|i: int| 0 <= i < s1.prims.len() implies #[trigger] quad_entries_present(s1, i) by {
        assert(quad_entries_present(s, i));
        assert(u[i] == if i == j { p2 } else { s.prims[i] });
    }
}

/// Removing a node primitive keeps the whole invariant: no index entry names
/// a node's id as its quad.
proof fn lemma_remove_node_wf(s: StoreModel, j: int)
    requires
        wf(s),
        0 <= j < s.prims.len(),
        s.prims[j].content is Node,
    ensures
        wf(StoreModel { prims: s.prims.remove(j), ..s }),
{
    let u = s.prims.remove(j);
    let s1 = StoreModel { prims: u, ..s };
    assert forall|a: int, b: int| 0 <= a < b < u.len() implies u[a].id < u[b].id by {
        assert(u[a] == if a < j { s.prims[a] } else { s.prims[a + 1] });
        assert(u[b] == if b < j { s.prims[b] } else { s.prims[b + 1] });
    }
    assert forall|a: int| 0 <= a < u.len() implies 1 <= (#[trigger] u[a]).id < s1.next_id && u[a].refs
        >= 1 && u[a].hash == content_hash(u[a].content) by {
        assert(u[a] == if a < j { s.prims[a] } else { s.prims[a + 1] });
    }
    assert forall|i: int| 0 <= i < s1.idx.len() implies entry_derived(s1, #[trigger] s1.idx[i]) by {
        let e = s.idx[i];
        assert(entry_derived(s, e));
        lemma_idx_of_id_props(s.prims, e.quad_id);
        let qi = idx_of_id(s.prims, e.quad_id);
        assert(0 <= qi < s.prims.len());
        if s.prims[j].id == e.quad_id {
            lemma_idx_of_id_unique(s.prims, j);
            assert(qi == j);
        } else {
            lemma_lookup_remove(s.prims, j, e.quad_id);
        }
    }
    assert forall|i: int| 0 <= i < s1.prims.len() implies #[trigger] quad_entries_present(s1, i) by {
        let oi: int = if i < j { i } else { i + 1 };
        assert(u[i] == s.prims[oi]);
        assert(quad_entries_present(s, oi));
    }
}

/// Releasing one position's reference keeps the invariant, and from a
/// well-formed store it never reports an underflow.
pub proof fn lemma_dec_step_wf(st: (StoreModel, Result<bool, StoreError>), vid: u64)
    requires
        wf(st.0),
    ensures
        wf(dec_step(st, vid).0),
        dec_step(st, vid).0.idx == st.0.idx,
        dec_step(st, vid).0.next_id == st.0.next_id,
        st.1 is Ok ==> dec_step(st, vid).1 == st.1,
{
    let s = st.0;
    if st.1 is Ok && vid != 0 {
        let j = idx_of_id(s.prims, vid);
        lemma_idx_of_id_props(s.prims, vid);
        if j >= 0 {
            match s.prims[j].content {
                ContentModel::Quad(_) => {},
                ContentModel::Node(_) => {
                    if s.prims[j].refs == 1 {
                        lemma_remove_node_wf(s, j);
                    } else {
                        lemma_update_refs_wf(
                            s,
                            j,
                            PrimModel { refs: (s.prims[j].refs - 1) as u64, ..s.prims[j] },
                        );
                    }
                },
            }
        }
    }
}

/// Releasing all four positions keeps the invariant and never errors.
pub proof fn lemma_delete_nodes_wf(s: StoreModel, iq: InternalQuad)
    requires
        wf(s),
    ensures
        wf(delete_nodes_spec(s, iq).0),
        delete_nodes_spec(s, iq).0.idx == s.idx,
        delete_nodes_spec(s, iq).0.next_id == s.next_id,
        delete_nodes_spec(s, iq).1 == Ok::<bool, StoreError>(true),
{
    let st1 = dec_step((s, Ok(true)), iq.s);
    let st2 = dec_step(st1, iq.p);
    let st3 = dec_step(st2, iq.o);
    lemma_dec_step_wf((s, Ok(true)), iq.s);
    lemma_dec_step_wf(st1, iq.p);
    lemma_dec_step_wf(st2, iq.o);
    lemma_dec_step_wf(st3, iq.l);
}

/// Deleting a primitive keeps the invariant, and from a well-formed store it
/// never errors.
#[verifier::rlimit(100)]
pub proof fn lemma_delete_wf(s: StoreModel, id: u64)
    requires
        wf(s),
    ensures
        wf(delete_spec(s, id).0),
        delete_spec(s, id).1 is Ok,
{
    let j = idx_of_id(s.prims, id);
    lemma_idx_of_id_props(s.prims, id);
    if j >= 0 {
        match s.prims[j].content {
            ContentModel::Node(_) => {
                lemma_remove_node_wf(s, j);
            },
            ContentModel::Quad(iq) => {
                lemma_delete_quad_mid_wf(s, id);
                let u = s.prims.remove(j);
                let s1 = StoreModel { prims: u, ..s };
                let s2 = StoreModel { idx: remove_entries(s1.idx, iq, id), ..s1 };
                lemma_delete_nodes_wf(s2, iq);
            },
        }
    }
}

/// The state in the middle of deleting a quad primitive — record and index
/// entries removed, nodes not yet released — is itself well-formed.
#[verifier::rlimit(100)]
pub proof fn lemma_delete_quad_mid_wf(s: StoreModel, id: u64)
    requires
        wf(s),
        idx_of_id(s.prims, id) >= 0,
        s.prims[idx_of_id(s.prims, id)].content is Quad,
    ensures
        ({
            let j = idx_of_id(s.prims, id);
            let iq = s.prims[j].content->Quad_0;
            let s1 = StoreModel { prims: s.prims.remove(j), ..s };
            wf(StoreModel { idx: remove_entries(s1.idx, iq, id), ..s1 })
        }),
{
    let j = idx_of_id(s.prims, id);
    lemma_idx_of_id_props(s.prims, id);
    match s.prims[j].content {
        ContentModel::Node(_) => {},
            ContentModel::Quad(iq) => {
                assert(s.prims[j].id == id);
                lemma_idx_of_id_unique(s.prims, j);
                let u = s.prims.remove(j);
                let s1 = StoreModel { prims: u, ..s };
                let s2 = StoreModel { idx: remove_entries(s1.idx, iq, id), ..s1 };
                lemma_remove_entries_props(s.idx, iq, id);
                assert forall|a: int, b: int| 0 <= a < b < u.len() implies u[a].id < u[b].id by {
                    assert(u[a] == if a < j { s.prims[a] } else { s.prims[a + 1] });
                    assert(u[b] == if b < j { s.prims[b] } else { s.prims[b + 1] });
                }
                assert forall|a: int| 0 <= a < u.len() implies 1 <= (#[trigger] u[a]).id
                    < s2.next_id && u[a].refs >= 1 && u[a].hash == content_hash(u[a].content) by {
                    assert(u[a] == if a < j { s.prims[a] } else { s.prims[a + 1] });
                }
                assert forall|i: int| 0 <= i < s2.idx.len() implies entry_derived(
                    s2,
                    #[trigger] s2.idx[i],
                ) by {
                    let x = s2.idx[i];
                    lemma_has_entry(s2.idx, x);
                    assert(has_entry(s2.idx, x));
                    lemma_has_entry(s.idx, x);
                    assert(has_entry(s.idx, x));
                    let pos = choose|p: int| 0 <= p < s.idx.len() && s.idx[p] == x;
                    assert(entry_derived(s, s.idx[pos]));
                    lemma_idx_of_id_props(s.prims, x.quad_id);
                    let qi = idx_of_id(s.prims, x.quad_id);
                    assert(0 <= qi < s.prims.len());
                    if x.quad_id == id {
                        assert(qi == j);
                        assert(x == entry(x.direction, x.value_id, x.quad_id));
                        assert(iq.spec_dir(x.direction) == x.value_id);
                        match x.direction {
                            Direction::Subject => {
                                assert(x == entry(Direction::Subject, iq.s, id));
                            },
                            Direction::Predicate => {
                                assert(x == entry(Direction::Predicate, iq.p, id));
                            },
                            Direction::Object => {
                                assert(x == entry(Direction::Object, iq.o, id));
                            },
                            Direction::Label => {
                                assert(x == entry(Direction::Label, iq.l, id));
                            },
                        }
                        assert(false);
                    } else {
                        lemma_lookup_remove(s.prims, j, x.quad_id);
                    }
                }
                assert forall|i: int| 0 <= i < s2.prims.len() implies #[trigger]
                    quad_entries_present(s2, i) by {
                    let oi: int = if i < j { i } else { i + 1 };
                    assert(u[i] == s.prims[oi]);
                    assert(quad_entries_present(s, oi));
                    assert(s.prims[oi].id != id) by {
                        if oi < j {
                            assert(s.prims[oi].id < s.prims[j].id);
                        } else {
                            assert(s.prims[j].id < s.prims[oi].id);
                        }
                    }
                }
            },
        }
    }

// ---------------------------------------------------------------------------
// Well-formedness through addition and whole batches.

/// Adding a statement keeps the invariant.
#[verifier::rlimit(100)]
pub proof fn lemma_add_quad_wf(s: StoreModel, q: QuadModel)
    requires
        wf(s),
    ensures
        wf(add_quad_spec(s, q).0),
{
    let found = match resolve_quad_spec(s, q, false).1 {
        Ok(Some(iq0)) => lookup_hash(s.prims, crate::hashing::qhash_of(iq0)),
        _ => None,
    };
    if found is None {
        lemma_resolve_quad_wf(s, q, true);
        let resolved = resolve_quad_spec(s, q, true);
        let s1 = resolved.0;
        match resolved.1 {
            Err(_) => {},
            Ok(None) => {},
            Ok(Some(iq)) => {
                if s1.next_id != u64::MAX {
                    let qid = s1.next_id;
                    let qprim = PrimModel {
                        id: qid,
                        hash: crate::hashing::qhash_of(iq),
                        refs: 1,
                        content: ContentModel::Quad(iq),
                    };
                    let u = s1.prims.push(qprim);
                    let s2 = StoreModel {
                        prims: u,
                        idx: add_entries(s1.idx, iq, qid),
                        next_id: (s1.next_id + 1) as u64,
                    };
                    lemma_add_entries_props(s1.idx, iq, qid);
                    assert(idx_of_id(s1.prims, qid) == -1) by {
                        lemma_idx_of_id_props(s1.prims, qid);
                        if idx_of_id(s1.prims, qid) >= 0 {
                            assert(s1.prims[idx_of_id(s1.prims, qid)].id < s1.next_id);
                        }
                    }
                    assert forall|a: int, b: int| 0 <= a < b < u.len() implies u[a].id < u[b].id by {
                        if b == s1.prims.len() {
                            assert(u[a] == s1.prims[a]);
                            assert(s1.prims[a].id < s1.next_id);
                        }
                    }
                    assert forall|i: int| 0 <= i < s2.idx.len() implies entry_derived(
                        s2,
                        #[trigger] s2.idx[i],
                    ) by {
                        let x = s2.idx[i];
                        lemma_has_entry(s2.idx, x);
                        assert(has_entry(s2.idx, x));
                        lemma_lookup_push(s1.prims, qprim, x.quad_id);
                        if has_entry(s1.idx, x) {
                            lemma_has_entry(s1.idx, x);
                            let pos = choose|p: int| 0 <= p < s1.idx.len() && s1.idx[p] == x;
                            assert(entry_derived(s1, s1.idx[pos]));
                            lemma_idx_of_id_props(s1.prims, x.quad_id);
                            let qi = idx_of_id(s1.prims, x.quad_id);
                            assert(0 <= qi < s1.prims.len());
                            assert(u[qi] == s1.prims[qi]);
                        } else {
                            assert(x.quad_id == qid && x.value_id != 0);
                            assert(idx_of_id(u, qid) == s1.prims.len());
                            assert(u[s1.prims.len() as int] == qprim);
                        }
                    }
                    assert forall|i: int| 0 <= i < s2.prims.len() implies #[trigger]
                        quad_entries_present(s2, i) by {
                        if i < s1.prims.len() {
                            assert(u[i] == s1.prims[i]);
                            assert(quad_entries_present(s1, i));
                            match s1.prims[i].content {
                                ContentModel::Quad(iq2) => {
                                    let pid = s1.prims[i].id;
                                    if iq2.s != 0 {
                                        assert(has_entry(s1.idx, entry(Direction::Subject, iq2.s, pid)));
                                        assert(has_entry(s2.idx, entry(Direction::Subject, iq2.s, pid)));
                                    }
                                    if iq2.p != 0 {
                                        assert(has_entry(s1.idx, entry(Direction::Predicate, iq2.p, pid)));
                                        assert(has_entry(s2.idx, entry(Direction::Predicate, iq2.p, pid)));
                                    }
                                    if iq2.o != 0 {
                                        assert(has_entry(s1.idx, entry(Direction::Object, iq2.o, pid)));
                                        assert(has_entry(s2.idx, entry(Direction::Object, iq2.o, pid)));
                                    }
                                    if iq2.l != 0 {
                                        assert(has_entry(s1.idx, entry(Direction::Label, iq2.l, pid)));
                                        assert(has_entry(s2.idx, entry(Direction::Label, iq2.l, pid)));
                                    }
                                },
                                ContentModel::Node(_) => {},
                            }
                        } else {
                            assert(u[i] == qprim);
                            if iq.s != 0 {
                                assert(has_entry(s2.idx, entry(Direction::Subject, iq.s, qid)));
                            }
                            if iq.p != 0 {
                                assert(has_entry(s2.idx, entry(Direction::Predicate, iq.p, qid)));
                            }
                            if iq.o != 0 {
                                assert(has_entry(s2.idx, entry(Direction::Object, iq.o, qid)));
                            }
                            if iq.l != 0 {
                                assert(has_entry(s2.idx, entry(Direction::Label, iq.l, qid)));
                            }
                        }
                    }
                }
            },
        }
    }
}

/// The mutation phase keeps the invariant from any well-formed start.
pub proof fn lemma_mutate_phase_wf(s: StoreModel, deltas: Seq<DeltaModel>)
    requires
        wf(s),
    ensures
        wf(mutate_phase(s, deltas).0),
    decreases deltas.len(),
{
    if deltas.len() > 0 {
        let d = deltas[0];
        match d.action {
            Procedure::Add => {
                lemma_add_quad_wf(s, d.quad);
                let step = add_quad_spec(s, d.quad);
                if !(step.1 is Err) {
                    lemma_mutate_phase_wf(step.0, deltas.drop_first());
                }
            },
            Procedure::Delete => {
                match find_quad_spec(s, d.quad) {
                    Some(p) => {
                        lemma_delete_wf(s, p.id);
                        let step = delete_spec(s, p.id);
                        if !(step.1 is Err) {
                            lemma_mutate_phase_wf(step.0, deltas.drop_first());
                        }
                    },
                    None => {
                        lemma_mutate_phase_wf(s, deltas.drop_first());
                    },
                }
            },
        }
    }
}

/// Applying a batch keeps the invariant.
pub proof fn lemma_apply_deltas_wf(
    s: StoreModel,
    deltas: Seq<DeltaModel>,
    ignore_dup: bool,
    ignore_missing: bool,
)
    requires
        wf(s),
    ensures
        wf(apply_deltas_spec(s, deltas, ignore_dup, ignore_missing).0),
{
    lemma_mutate_phase_wf(s, deltas);
}

} // verus!
