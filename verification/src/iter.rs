//! Full-store enumeration and the handle-level lookups a query engine
//! consumes: statements by handle, per-position handles, range sizes, and
//! aggregate statistics.

use vstd::prelude::*;
use crate::value::{Direction, Quad};
use crate::primitive::{Content, Primitive, Ref, Size, Stats, StoreError};
use crate::model::{
    all_next_spec, all_refs_spec, kind_matches, lookup_id, n_nodes, n_quads, quad_at_spec,
    quad_direction_spec, scan_spec, to_ref_spec,
};
use crate::store::QuadStore;

verus! {

impl Primitive {
    /// The external handle for this record, produced only for the asked
    /// kind: nodes when `nodes` is set, quads otherwise.
    pub fn to_ref(&self, nodes: bool) -> (r: Option<Ref>)
        ensures
            match r {
                Some(rf) => to_ref_spec(self@, nodes) == Some(rf@),
                None => to_ref_spec(self@, nodes) is None,
            },
    {
        match &self.content {
            crate::primitive::PrimitiveContent::Value(v) => {
                if nodes {
                    Some(Ref { k: Some(self.id), content: Content::Value(v.clone()) })
                } else {
                    None
                }
            },
            crate::primitive::PrimitiveContent::InternalQuad(q) => {
                if !nodes {
                    Some(Ref { k: Some(self.id), content: Content::InternalQuad(*q) })
                } else {
                    None
                }
            },
        }
    }
}

impl QuadStore {
    /// Aggregate store statistics, exact; the flag is accepted for interface
    /// compatibility and ignored, the counts being exact either way.
    pub fn stats(&self, _exact: bool) -> (r: Result<Stats, StoreError>)
        ensures
            r is Ok,
            ({
                let st = r->Ok_0;
                &&& st.nodes.exact
                &&& st.quads.exact
                &&& n_nodes(self@.prims) <= i64::MAX ==> st.nodes.value == n_nodes(self@.prims)
                &&& n_quads(self@.prims) <= i64::MAX ==> st.quads.value == n_quads(self@.prims)
                &&& n_nodes(self@.prims) > i64::MAX ==> st.nodes.value == i64::MAX
                &&& n_quads(self@.prims) > i64::MAX ==> st.quads.value == i64::MAX
            }),
    {
        let count = self.get_count();
        let nodes_value: i64 = if count.values <= i64::MAX as u64 {
            count.values as i64
        } else {
            i64::MAX
        };
        let quads_value: i64 = if count.quads <= i64::MAX as u64 {
            count.quads as i64
        } else {
            i64::MAX
        };
        Ok(
            Stats {
                nodes: Size { value: nodes_value, exact: true },
                quads: Size { value: quads_value, exact: true },
            },
        )
    }

    /// The statement an external handle names: content the handle already
    /// carries is used as it stands, else the stored quad under its id is
    /// reassembled.
    pub fn quad(&self, r: &Ref) -> (q: Option<Quad>)
        ensures
            match q {
                Some(qq) => quad_at_spec(self@, r@) == Some(qq@),
                None => quad_at_spec(self@, r@) is None,
            },
    {
        match &r.content {
            Content::Quad(q) => Some(q.clone()),
            Content::InternalQuad(iq) => Some(self.lookup_quad_dirs(*iq)),
            _ => {
                match self.internal_quad(r) {
                    Some(iq) => Some(self.lookup_quad_dirs(iq)),
                    None => None,
                }
            },
        }
    }

    /// The handle for one position of the quad a handle names.  The quad
    /// existing but holding no value there yields the empty handle; a handle
    /// that names no stored quad yields nothing.
    pub fn quad_direction(&self, r: &Ref, d: Direction) -> (res: Option<Ref>)
        ensures
            match res {
                Some(rf) => quad_direction_spec(self@, r@, d) == Some(rf@),
                None => quad_direction_spec(self@, r@, d) is None,
            },
    {
        match self.internal_quad(r) {
            Some(q) => {
                let id = q.dir(d);
                if id == 0 {
                    Some(Ref::none())
                } else {
                    Some(Ref { k: Some(id), content: Content::Empty })
                }
            },
            None => None,
        }
    }

    /// How many quads hold the given value in the given direction: the exact
    /// size of the range a scan would return.
    pub fn quad_iterator_size(&self, d: Direction, r: &Ref) -> (sz: Size)
        ensures
            sz.exact,
            match r@.k {
                Some(i) => {
                    let n = scan_spec(self@.idx, d, i).len();
                    &&& n <= i64::MAX ==> sz.value == n
                    &&& n > i64::MAX ==> sz.value == i64::MAX
                },
                None => sz.value == 0,
            },
    {
        match r.key() {
            Some(i) => {
                let quad_ids = self.get_quad_direction(d, i);
                let n64: u64 = quad_ids.len() as u64;
                let value: i64 = if n64 <= i64::MAX as u64 {
                    n64 as i64
                } else {
                    i64::MAX
                };
                Size { value, exact: true }
            },
            None => Size { value: 0, exact: true },
        }
    }

    /// One step of a restartable full scan: the handle of the first
    /// primitive of the asked kind whose id lies beyond `cur`, or nothing
    /// when the id space is exhausted.  Ids come out ascending.
    pub fn all_next(&self, cur: Option<u64>, nodes: bool) -> (r: Option<Ref>)
        ensures
            match r {
                Some(rf) => {
                    &&& all_next_spec(self@.prims, cur, nodes) is Some
                    &&& to_ref_spec(all_next_spec(self@.prims, cur, nodes)->0, nodes) == Some(rf@)
                },
                None => all_next_spec(self@.prims, cur, nodes) is None,
            },
    {
        let n: usize = self.prims_len();
        let mut i: usize = 0;
        proof {
            assert(self@.prims.skip(0) =~= self@.prims);
        }
        while i < n
            invariant
                i <= n,
                n == self@.prims.len(),
                all_next_spec(self@.prims, cur, nodes) == all_next_spec(
                    self@.prims.skip(i as int),
                    cur,
                    nodes,
                ),
            decreases n - i,
        {
            proof {
                assert(self@.prims.skip(i as int).drop_first() =~= self@.prims.skip(i + 1));
                assert(self@.prims.skip(i as int)[0] == self@.prims[i as int]);
            }
            let p = self.prim_at(i);
            let beyond = match cur {
                Some(c) => p.id > c,
                None => true,
            };
            if beyond {
                if let Some(rf) = p.to_ref(nodes) {
                    return Some(rf);
                }
            }
            i = i + 1;
        }
        proof {
            assert(self@.prims.skip(n as int) =~= Seq::<crate::primitive::PrimModel>::empty());
        }
        None
    }

    /// Membership test for a full scan: a direct point lookup by the
    /// handle's id, never a range scan, whatever the store's size.
    pub fn contains(&self, v: &Ref, nodes: bool) -> (r: Option<Ref>)
        ensures
            match r {
                Some(rf) => match v@.k {
                    Some(i) => lookup_id(self@.prims, i) is Some && to_ref_spec(
                        lookup_id(self@.prims, i)->0,
                        nodes,
                    ) == Some(rf@),
                    None => false,
                },
                None => match v@.k {
                    Some(i) => lookup_id(self@.prims, i) is None || to_ref_spec(
                        lookup_id(self@.prims, i)->0,
                        nodes,
                    ) is None,
                    None => true,
                },
            },
    {
        match v.key() {
            Some(i) => match self.get_primitive(i) {
                Some(p) => p.to_ref(nodes),
                None => None,
            },
            None => None,
        }
    }

    /// The handles of every node primitive, ascending by id.
    pub fn all_nodes(&self) -> (r: Vec<Ref>)
        ensures
            r@.map_values(|rf: Ref| rf@) == all_refs_spec(self@.prims, true),
    {
        self.all_refs(true)
    }

    /// The handles of every quad primitive, ascending by id.
    pub fn all_quads(&self) -> (r: Vec<Ref>)
        ensures
            r@.map_values(|rf: Ref| rf@) == all_refs_spec(self@.prims, false),
    {
        self.all_refs(false)
    }

    /// Release the store.  The in-memory tables hold no outside connection,
    /// so there is nothing to report.
    pub fn close(&self) -> (r: Option<String>)
        ensures
            r is None,
    {
        None
    }

    /// The handles of every primitive of the asked kind, ascending by id.
    fn all_refs(&self, nodes: bool) -> (r: Vec<Ref>)
        ensures
            r@.map_values(|rf: Ref| rf@) == all_refs_spec(self@.prims, nodes),
    {
        let n: usize = self.prims_len();
        let mut r: Vec<Ref> = Vec::new();
        let mut i: usize = 0;
        proof {
            assert(self@.prims.skip(0) =~= self@.prims);
            assert(r@.map_values(|rf: Ref| rf@) =~= Seq::<crate::primitive::RefModel>::empty());
        }
        while i < n
            invariant
                i <= n,
                n == self@.prims.len(),
                all_refs_spec(self@.prims, nodes) == r@.map_values(|rf: Ref| rf@) + all_refs_spec(
                    self@.prims.skip(i as int),
                    nodes,
                ),
            decreases n - i,
        {
            proof {
                assert(self@.prims.skip(i as int).drop_first() =~= self@.prims.skip(i + 1));
                assert(self@.prims.skip(i as int)[0] == self@.prims[i as int]);
            }
            let p = self.prim_at(i);
            let ghost before = r@.map_values(|rf: Ref| rf@);
            if let Some(rf) = p.to_ref(nodes) {
                r.push(rf);
                proof {
                    assert(r@.map_values(|rf: Ref| rf@) =~= before + seq![rf@]);
                    assert((before + seq![rf@]) + all_refs_spec(self@.prims.skip(i + 1), nodes)
                        =~= before + (seq![rf@] + all_refs_spec(self@.prims.skip(i + 1), nodes)));
                }
            } else {
                proof {
                    assert(kind_matches(self@.prims[i as int], nodes) ==> to_ref_spec(
                        self@.prims[i as int],
                        nodes,
                    ) is Some);
                }
            }
            i = i + 1;
        }
        proof {
            assert(self@.prims.skip(n as int) =~= Seq::<crate::primitive::PrimModel>::empty());
            assert(r@.map_values(|rf: Ref| rf@) + Seq::<crate::primitive::RefModel>::empty()
                =~= r@.map_values(|rf: Ref| rf@));
        }
        r
    }
}

} // verus!
