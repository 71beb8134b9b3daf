use quadstore::primitive::{
    Content, Delta, IgnoreOptions, InternalQuad, PrimitiveCount, Procedure, Ref, StoreError,
};
use quadstore::store::QuadStore;
use quadstore::value::{Direction, Quad, Value};

fn s(text: &str) -> Value {
    Value::Str(text.to_string())
}

fn quad(a: &str, b: &str, c: &str, l: Option<&str>) -> Quad {
    Quad::new(
        s(a),
        s(b),
        s(c),
        match l {
            Some(t) => s(t),
            None => Value::Absent,
        },
    )
}

fn add(store: &mut QuadStore, q: Quad) {
    store
        .apply_deltas(
            vec![Delta { action: Procedure::Add, quad: q }],
            &IgnoreOptions { ignore_dup: true, ignore_missing: true },
        )
        .unwrap();
}

#[test]
fn testing() {}

#[test]
fn hash_of_null_is_fnv1a_of_its_tag() {
    assert_eq!(Value::Null.calc_hash(), 0xaf63bc4c8601b62c);
    assert_eq!(Value::Bool(true).calc_hash(), 0x08395307b4f1348c);
    assert_eq!(s("a").calc_hash(), 0x08254f07b4e084b6);
    assert_eq!(Value::Int(5).calc_hash(), 0x796ed497b92b1ab9);
}

#[test]
fn distinct_values_get_distinct_ids() {
    let mut store = QuadStore::new();
    let ida = store.resolve_val(&s("a"), true).unwrap().unwrap();
    let idb = store.resolve_val(&s("b"), true).unwrap().unwrap();
    assert_ne!(ida, idb);
    assert_eq!(store.lookup_val(ida), Some(s("a")));
    assert_eq!(store.lookup_val(idb), Some(s("b")));
}

#[test]
fn dedup_same_value_twice() {
    let mut store = QuadStore::new();
    let first = store.resolve_val(&s("a"), true).unwrap().unwrap();
    let second = store.resolve_val(&s("a"), true).unwrap().unwrap();
    assert_eq!(first, second);
    let prim = store.get_primitive(first).unwrap();
    assert_eq!(prim.refs, 2);
    let count = store.get_count();
    assert_eq!(count.values, 1);
    assert_eq!(count.quads, 0);
}

#[test]
fn resolve_without_add_never_creates() {
    let mut store = QuadStore::new();
    assert_eq!(store.resolve_val(&s("a"), false).unwrap(), None);
    assert_eq!(store.resolve_val(&Value::Absent, true).unwrap(), None);
    assert_eq!(store.get_count(), PrimitiveCount { values: 0, quads: 0 });
}

#[test]
fn add_then_delete_scenario() {
    let mut store = QuadStore::new();
    add(&mut store, quad("a", "b", "c", None));

    let stats = store.stats(true).unwrap();
    assert_eq!(stats.nodes.value, 3);
    assert!(stats.nodes.exact);
    assert_eq!(stats.quads.value, 1);

    let ida = store.lookup_val_id(&s("a")).unwrap();
    let qprim = store.find_quad(&quad("a", "b", "c", None)).unwrap();
    assert_eq!(store.get_quad_direction(Direction::Subject, ida), vec![qprim.id]);

    store
        .apply_deltas(
            vec![Delta { action: Procedure::Delete, quad: quad("a", "b", "c", None) }],
            &IgnoreOptions { ignore_dup: true, ignore_missing: false },
        )
        .unwrap();
    let stats = store.stats(true).unwrap();
    assert_eq!(stats.nodes.value, 0);
    assert_eq!(stats.quads.value, 0);
}

#[test]
fn strict_delete_of_missing_quad_fails_and_changes_nothing() {
    let mut store = QuadStore::new();
    add(&mut store, quad("a", "b", "c", None));
    let before = store.stats(true).unwrap();

    let r = store.apply_deltas(
        vec![Delta { action: Procedure::Delete, quad: quad("x", "y", "z", None) }],
        &IgnoreOptions { ignore_dup: true, ignore_missing: false },
    );
    assert_eq!(r, Err(StoreError::QuadNotExist));
    assert_eq!(store.stats(true).unwrap(), before);
}

#[test]
fn strict_add_of_existing_quad_fails_and_changes_nothing() {
    let mut store = QuadStore::new();
    add(&mut store, quad("a", "b", "c", None));
    let before = store.stats(true).unwrap();

    let r = store.apply_deltas(
        vec![Delta { action: Procedure::Add, quad: quad("a", "b", "c", None) }],
        &IgnoreOptions { ignore_dup: false, ignore_missing: true },
    );
    assert_eq!(r, Err(StoreError::QuadExists));
    assert_eq!(store.stats(true).unwrap(), before);
}

#[test]
fn shared_predicate_scan_is_ascending() {
    let mut store = QuadStore::new();
    add(&mut store, quad("a", "b", "c", None));
    add(&mut store, quad("d", "b", "e", None));

    let idb = store.lookup_val_id(&s("b")).unwrap();
    let q1 = store.find_quad(&quad("a", "b", "c", None)).unwrap().id;
    let q2 = store.find_quad(&quad("d", "b", "e", None)).unwrap().id;
    assert!(q1 < q2);
    assert_eq!(store.get_quad_direction(Direction::Predicate, idb), vec![q1, q2]);

    let size = store.quad_iterator_size(
        Direction::Predicate,
        &Ref { k: Some(idb), content: Content::Empty },
    );
    assert_eq!(size.value, 2);
    assert!(size.exact);
}

#[test]
fn idempotent_add_keeps_one_quad_and_refcounts() {
    let mut store = QuadStore::new();
    add(&mut store, quad("a", "b", "c", None));
    add(&mut store, quad("a", "b", "c", None));

    let stats = store.stats(true).unwrap();
    assert_eq!(stats.nodes.value, 3);
    assert_eq!(stats.quads.value, 1);
    let ida = store.lookup_val_id(&s("a")).unwrap();
    assert_eq!(store.get_primitive(ida).unwrap().refs, 1);
}

#[test]
fn refcount_lifecycle_removes_node_with_last_quad() {
    let mut store = QuadStore::new();
    add(&mut store, quad("a", "b", "c", None));
    add(&mut store, quad("a", "x", "y", None));
    let ida = store.lookup_val_id(&s("a")).unwrap();
    assert_eq!(store.get_primitive(ida).unwrap().refs, 2);

    store
        .apply_deltas(
            vec![Delta { action: Procedure::Delete, quad: quad("a", "b", "c", None) }],
            &IgnoreOptions { ignore_dup: true, ignore_missing: false },
        )
        .unwrap();
    assert_eq!(store.get_primitive(ida).unwrap().refs, 1);
    store
        .apply_deltas(
            vec![Delta { action: Procedure::Delete, quad: quad("a", "x", "y", None) }],
            &IgnoreOptions { ignore_dup: true, ignore_missing: false },
        )
        .unwrap();
    assert_eq!(store.lookup_val_id(&s("a")), None);
    assert!(store.get_primitive(ida).is_none());
}

#[test]
fn index_entry_gone_after_delete() {
    let mut store = QuadStore::new();
    add(&mut store, quad("a", "b", "c", None));
    let ida = store.lookup_val_id(&s("a")).unwrap();
    let qid = store.find_quad(&quad("a", "b", "c", None)).unwrap().id;
    assert!(store.get_quad_direction(Direction::Subject, ida).contains(&qid));

    store.delete(qid).unwrap();
    assert!(store.get_quad_direction(Direction::Subject, ida).is_empty());
}

#[test]
fn round_trip_with_partial_positions() {
    let mut store = QuadStore::new();
    let cases = vec![
        quad("a", "b", "c", Some("l")),
        quad("a", "b", "c", None),
        Quad::new(Value::Absent, s("b"), Value::Absent, Value::Absent),
        Quad::new(Value::Null, Value::Bool(true), Value::Int(-7), Value::Iri("urn:x".to_string())),
        Quad::new(Value::Absent, Value::Absent, Value::Absent, Value::Absent),
    ];
    for q in cases {
        let iq = store.resolve_quad(&q, true).unwrap().unwrap();
        assert_eq!(store.lookup_quad_dirs(iq), q);
    }
}

#[test]
fn quad_and_direction_through_handles() {
    let mut store = QuadStore::new();
    add(&mut store, quad("a", "b", "c", None));
    let qid = store.find_quad(&quad("a", "b", "c", None)).unwrap().id;
    let handle = Ref { k: Some(qid), content: Content::Empty };

    assert_eq!(store.quad(&handle), Some(quad("a", "b", "c", None)));

    let sub = store.quad_direction(&handle, Direction::Subject).unwrap();
    assert_eq!(sub.key(), store.lookup_val_id(&s("a")));
    let lab = store.quad_direction(&handle, Direction::Label).unwrap();
    assert_eq!(lab.key(), None);

    assert_eq!(store.name_of(&sub), Some(s("a")));
}

#[test]
fn value_of_finds_only_present_values() {
    let mut store = QuadStore::new();
    add(&mut store, quad("a", "b", "c", None));
    let r = store.value_of(&s("a")).unwrap();
    assert_eq!(r.key(), store.lookup_val_id(&s("a")));
    assert!(store.value_of(&s("zz")).is_none());
    assert!(store.value_of(&Value::Absent).is_none());
}

#[test]
fn full_scan_walks_nodes_and_quads_separately() {
    let mut store = QuadStore::new();
    add(&mut store, quad("a", "b", "c", None));
    add(&mut store, quad("a", "b", "d", None));

    let nodes = store.all_nodes();
    let quads = store.all_quads();
    assert_eq!(nodes.len(), 4);
    assert_eq!(quads.len(), 2);

    // restartable stepping agrees with the collected scan, ascending by id
    let mut seen: Vec<u64> = Vec::new();
    let mut cur: Option<u64> = None;
    while let Some(r) = store.all_next(cur, false) {
        cur = r.key();
        seen.push(r.key().unwrap());
    }
    let quad_ids: Vec<u64> = quads.iter().map(|r| r.k.unwrap()).collect();
    assert_eq!(seen, quad_ids);
    let mut sorted = seen.clone();
    sorted.sort();
    assert_eq!(seen, sorted);

    // membership is a point lookup
    let probe = Ref { k: Some(quad_ids[0]), content: Content::Empty };
    assert!(store.contains(&probe, false).is_some());
    assert!(store.contains(&probe, true).is_none());
    assert!(store.contains(&Ref::none(), false).is_none());
}

#[test]
fn all_absent_quad_is_a_quad_with_no_nodes() {
    let mut store = QuadStore::new();
    let all_absent = Quad::new(Value::Absent, Value::Absent, Value::Absent, Value::Absent);
    add(&mut store, all_absent.clone());
    let stats = store.stats(true).unwrap();
    assert_eq!(stats.nodes.value, 0);
    assert_eq!(stats.quads.value, 1);
    let prim = store.find_quad(&all_absent).unwrap();
    assert_eq!(
        store.quad(&Ref { k: Some(prim.id), content: Content::Empty }),
        Some(all_absent)
    );
    store.delete(prim.id).unwrap();
    assert_eq!(store.stats(true).unwrap().quads.value, 0);
}

#[test]
fn delete_of_unknown_id_reports_false() {
    let mut store = QuadStore::new();
    assert_eq!(store.delete(42), Ok(false));
}

#[test]
fn internal_quad_only_for_quad_primitives() {
    let mut store = QuadStore::new();
    add(&mut store, quad("a", "b", "c", None));
    let ida = store.lookup_val_id(&s("a")).unwrap();
    let qid = store.find_quad(&quad("a", "b", "c", None)).unwrap().id;
    assert!(store.internal_quad(&Ref { k: Some(ida), content: Content::Empty }).is_none());
    let iq: InternalQuad =
        store.internal_quad(&Ref { k: Some(qid), content: Content::Empty }).unwrap();
    assert_eq!(iq.dir(Direction::Subject), ida);
    assert_eq!(iq.dir(Direction::Label), 0);
}

#[test]
fn primitive_counts_saturate_at_the_ends() {
    let mut c = PrimitiveCount::zero();
    c.increment_quads(5);
    assert_eq!(c.quads, 5);
    c.increment_quads(-2);
    assert_eq!(c.quads, 3);
    c.increment_quads(-10);
    assert_eq!(c.quads, 3);
    c.increment_values(7);
    c.increment_values(i64::MIN);
    assert_eq!(c.values, 7);
    assert_eq!(c.total(), 10);
}

#[test]
fn mixed_batch_applies_in_order() {
    let mut store = QuadStore::new();
    let batch = vec![
        Delta { action: Procedure::Add, quad: quad("a", "b", "c", None) },
        Delta { action: Procedure::Add, quad: quad("d", "b", "e", None) },
        Delta { action: Procedure::Delete, quad: quad("a", "b", "c", None) },
    ];
    store
        .apply_deltas(batch, &IgnoreOptions { ignore_dup: false, ignore_missing: true })
        .unwrap();
    let stats = store.stats(true).unwrap();
    assert_eq!(stats.quads.value, 1);
    assert!(store.find_quad(&quad("a", "b", "c", None)).is_none());
    assert!(store.find_quad(&quad("d", "b", "e", None)).is_some());
}
