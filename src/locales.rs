use std::collections::{HashMap, HashSet};
use std::marker::PhantomData;
use vstd::prelude::*;
use crate::attributes::AttributeCollection;
use crate::id::Id;
use crate::maps::{elements_of, keys_of, map_get_mut};
use crate::{EdgeDirection, EdgeIteratorItem};

verus! {

broadcast use vstd::std_specs::hash::group_hash_axioms;

/// How an edge relates to the vertex of the locale that records it.
#[derive(Clone, Copy, Debug, PartialEq, Eq, Structural)]
pub enum EdgeToVertexRelation {
    Undirected,
    Incoming,
    Outgoing,
}

/// What a locale records of one neighbour: the relation of the edge to the
/// locale's vertex, and the edge's attributes where this locale owns them.
pub type EdgeRecord<EA> = (EdgeToVertexRelation, Option<EA>);

/// The direction reported for an edge recorded with relation `rel`.
pub open spec fn direction_of(rel: EdgeToVertexRelation) -> EdgeDirection {
    match rel {
        EdgeToVertexRelation::Undirected => EdgeDirection::Undirected,
        EdgeToVertexRelation::Incoming => EdgeDirection::Directed2to1,
        EdgeToVertexRelation::Outgoing => EdgeDirection::Directed1to2,
    }
}

/// The neighbours whose edge has relation `rel`.
pub open spec fn ids_related<V, EA>(m: Map<V, EdgeRecord<EA>>, rel: EdgeToVertexRelation) -> Set<V> {
    m.dom().filter(|k: V| m[k].0 == rel)
}

/// Ownership rule: the source of a directed edge, and the smaller endpoint
/// of an undirected one, holds the edge's attributes.
pub open spec fn owns_edge<V: Id>(v: V, w: V, rel: EdgeToVertexRelation) -> bool {
    rel == EdgeToVertexRelation::Outgoing || (rel == EdgeToVertexRelation::Undirected && v.rank()
        <= w.rank())
}

/// The neighbours `w` of `v` whose edge `v` owns.
pub open spec fn owned_ids<V: Id, EA>(v: V, m: Map<V, EdgeRecord<EA>>) -> Set<V> {
    m.dom().filter(|k: V| owns_edge(v, k, m[k].0))
}

/// `r` lists the identifiers of `ids`, each once.
pub open spec fn lists_ids<V>(r: Seq<V>, ids: Set<V>) -> bool {
    r.to_set() == ids && r.no_duplicates()
}

/// `items` lists, each once, the edges from `v` to the neighbours in `ids`,
/// with the direction that `m` records and the placeholder edge identifier.
pub open spec fn lists_edges<E: Id, V: Id, EA>(
    items: Seq<EdgeIteratorItem<E, V>>,
    v: V,
    m: Map<V, EdgeRecord<EA>>,
    ids: Set<V>,
) -> bool {
    &&& lists_ids(items.map_values(|x: EdgeIteratorItem<E, V>| x.id2), ids)
    &&& forall|i: int|
        0 <= i < items.len() ==> {
            &&& (#[trigger] items[i]).id1 == v
            &&& items[i].direction == direction_of(m[items[i].id2].0)
            &&& items[i].edge_id.rank() == E::min_rank()
        }
}

/// A record is consistent: an incoming edge holds no attributes, an outgoing
/// one always does, and a locale that keeps no directions records only
/// undirected edges.
pub open spec fn well_shaped<V, EA>(m: Map<V, EdgeRecord<EA>>, keeps_direction: bool) -> bool {
    &&& m.dom().finite()
    &&& m.len() <= usize::MAX
    &&& forall|k: V|
        #[trigger] m.contains_key(k) ==> {
            &&& (m[k].0 == EdgeToVertexRelation::Incoming ==> m[k].1 is None)
            &&& (m[k].0 == EdgeToVertexRelation::Outgoing ==> m[k].1 is Some)
            &&& (!keeps_direction ==> m[k].0 == EdgeToVertexRelation::Undirected)
        }
}

/// The record that an edge with relation `rel` leaves in a locale.
pub open spec fn recorded_relation(rel: EdgeToVertexRelation, keeps_direction: bool) -> EdgeToVertexRelation {
    if keeps_direction {
        rel
    } else {
        EdgeToVertexRelation::Undirected
    }
}

/// The edges from `v` to the neighbours `ids`, in order, all with direction
/// `dir`.
fn items_for<E: Id, V: Id>(v: V, ids: &Vec<V>, dir: EdgeDirection) -> (r: Vec<EdgeIteratorItem<E, V>>)
    ensures
        r@.map_values(|x: EdgeIteratorItem<E, V>| x.id2) == ids@,
        forall|i: int|
            0 <= i < r@.len() ==> {
                &&& (#[trigger] r@[i]).id1 == v
                &&& r@[i].direction == dir
                &&& r@[i].edge_id.rank() == E::min_rank()
            },
{
    let mut r: Vec<EdgeIteratorItem<E, V>> = Vec::new();
    let mut i: usize = 0;
    while i < ids.len()
        invariant
            i <= ids.len(),
            r@.len() == i,
            forall|j: int| 0 <= j < i ==> (#[trigger] r@[j]).id2 == ids@[j],
            forall|j: int|
                0 <= j < i ==> {
                    &&& (#[trigger] r@[j]).id1 == v
                    &&& r@[j].direction == dir
                    &&& r@[j].edge_id.rank() == E::min_rank()
                },
        decreases ids.len() - i,
    {
        r.push(EdgeIteratorItem { direction: dir, edge_id: E::default(), id1: v, id2: ids[i] });
        i += 1;
    }
    assert(r@.map_values(|x: EdgeIteratorItem<E, V>| x.id2) =~= ids@);
    r
}

/// Edges built by `items_for` towards neighbours that all have relation
/// `rel` list those neighbours.
proof fn lemma_items_list<E: Id, V: Id, EA>(
    items: Seq<EdgeIteratorItem<E, V>>,
    v: V,
    m: Map<V, EdgeRecord<EA>>,
    ids: Set<V>,
    rel: EdgeToVertexRelation,
)
    requires
        lists_ids(items.map_values(|x: EdgeIteratorItem<E, V>| x.id2), ids),
        forall|i: int|
            0 <= i < items.len() ==> {
                &&& (#[trigger] items[i]).id1 == v
                &&& items[i].direction == direction_of(rel)
                &&& items[i].edge_id.rank() == E::min_rank()
            },
        forall|k: V| #[trigger] ids.contains(k) ==> m.contains_key(k) && m[k].0 == rel,
    ensures
        lists_edges(items, v, m, ids),
{
    assert forall|i: int| 0 <= i < items.len() implies items[i].direction == direction_of(m[items[i].id2].0) by {
        let s = items.map_values(|x: EdgeIteratorItem<E, V>| x.id2);
        assert(s[i] == items[i].id2);
        assert(s.to_set().contains(s[i]));
    }
}

/// Two lists of distinct identifiers with no identifier in common list
/// their union.
proof fn lemma_ids_concat<V>(a: Seq<V>, b: Seq<V>, sa: Set<V>, sb: Set<V>)
    requires
        lists_ids(a, sa),
        lists_ids(b, sb),
        sa.disjoint(sb),
    ensures
        lists_ids(a + b, sa + sb),
{
    assert forall|i: int, j: int| 0 <= i < a.len() && 0 <= j < b.len() implies a[i] != b[j] by {
        assert(a.to_set().contains(a[i]));
        assert(b.to_set().contains(b[j]));
    }
    vstd::seq_lib::lemma_no_dup_in_concat(a, b);
    assert((a + b).to_set() =~= sa + sb) by {
        assert forall|x: V| (a + b).to_set().contains(x) implies (sa + sb).contains(x) by {
            let k = choose|k: int| 0 <= k < (a + b).len() && (a + b)[k] == x;
            if k < a.len() {
                assert(a.to_set().contains(a[k]));
            } else {
                assert(b.to_set().contains(b[k - a.len()]));
            }
        }
        assert forall|x: V| (sa + sb).contains(x) implies (a + b).to_set().contains(x) by {
            if sa.contains(x) {
                assert(a.to_set().contains(x));
                let k = choose|k: int| 0 <= k < a.len() && a[k] == x;
                assert((a + b)[k] == x);
            } else {
                assert(b.to_set().contains(x));
                let k = choose|k: int| 0 <= k < b.len() && b[k] == x;
                assert((a + b)[a.len() + k] == x);
            }
        }
    }
}

/// Two edge lists towards neighbour sets with no neighbour in common list
/// the edges towards their union.
proof fn lemma_edges_concat<E: Id, V: Id, EA>(
    a: Seq<EdgeIteratorItem<E, V>>,
    b: Seq<EdgeIteratorItem<E, V>>,
    v: V,
    m: Map<V, EdgeRecord<EA>>,
    sa: Set<V>,
    sb: Set<V>,
)
    requires
        lists_edges(a, v, m, sa),
        lists_edges(b, v, m, sb),
        sa.disjoint(sb),
    ensures
        lists_edges(a + b, v, m, sa + sb),
{
    let f = |x: EdgeIteratorItem<E, V>| x.id2;
    assert((a + b).map_values(f) =~= a.map_values(f) + b.map_values(f));
    lemma_ids_concat(a.map_values(f), b.map_values(f), sa, sb);
    assert forall|i: int| 0 <= i < (a + b).len() implies {
        &&& (#[trigger] (a + b)[i]).id1 == v
        &&& (a + b)[i].direction == direction_of(m[(a + b)[i].id2].0)
        &&& (a + b)[i].edge_id.rank() == E::min_rank()
    } by {
        if i < a.len() {
            assert((a + b)[i] == a[i]);
        } else {
            assert((a + b)[i] == b[i - a.len()]);
        }
    }
}

/// The identifiers of `ids` that do not come before `v`.
fn ids_not_before<V: Id>(v: V, ids: &Vec<V>) -> (r: Vec<V>)
    requires
        ids@.no_duplicates(),
    ensures
        lists_ids(r@, ids@.to_set().filter(|k: V| v.rank() <= k.rank())),
{
    let mut r: Vec<V> = Vec::new();
    let mut i: usize = 0;
    while i < ids.len()
        invariant
            ids@.no_duplicates(),
            i <= ids.len(),
            r@.no_duplicates(),
            forall|x: V|
                r@.contains(x) <==> (exists|j: int| 0 <= j < i && #[trigger] ids@[j] == x && v.rank() <= x.rank()),
        decreases ids.len() - i,
    {
        let k = ids[i];
        let keep = v.no_later_than(&k);
        let ghost r0 = r@;
        if keep {
            proof {
                assert(!r0.contains(k)) by {
                    if r0.contains(k) {
                        let j = choose|j: int| 0 <= j < i && #[trigger] ids@[j] == k && v.rank() <= k.rank();
                        assert(ids@[j] == ids@[i as int]);
                    }
                }
            }
            r.push(k);
            proof {
                assert(r@ == r0.push(k));
                assert forall|x: V| r@.contains(x) <==> (r0.contains(x) || x == k) by {
                    if r@.contains(x) {
                        let j = choose|j: int| 0 <= j < r@.len() && r@[j] == x;
                        if j < r0.len() {
                            assert(r0[j] == x);
                        }
                    }
                    if r0.contains(x) {
                        let j = choose|j: int| 0 <= j < r0.len() && r0[j] == x;
                        assert(r@[j] == x);
                    }
                    if x == k {
                        assert(r@[r0.len() as int] == x);
                    }
                }
            }
        }
        proof {
            assert forall|x: V|
                r@.contains(x) <==> (exists|j: int| 0 <= j < i + 1 && #[trigger] ids@[j] == x && v.rank() <= x.rank()) by {
                if r@.contains(x) && !r0.contains(x) {
                    assert(ids@[i as int] == x);
                }
                if r0.contains(x) {
                    let j = choose|j: int| 0 <= j < i && #[trigger] ids@[j] == x && v.rank() <= x.rank();
                    assert(0 <= j < i + 1 && ids@[j] == x);
                }
                if exists|j: int| 0 <= j < i + 1 && #[trigger] ids@[j] == x && v.rank() <= x.rank() {
                    let j = choose|j: int| 0 <= j < i + 1 && #[trigger] ids@[j] == x && v.rank() <= x.rank();
                    if j == i {
                        assert(keep);
                    }
                }
            }
        }
        i += 1;
    }
    proof {
        assert(r@.to_set() =~= ids@.to_set().filter(|k: V| v.rank() <= k.rank())) by {
            assert forall|x: V| r@.to_set().contains(x) implies ids@.to_set().filter(|k: V| v.rank() <= k.rank()).contains(x) by {
                let j = choose|j: int| 0 <= j < i && #[trigger] ids@[j] == x && v.rank() <= x.rank();
                assert(ids@.contains(x));
            }
            assert forall|x: V| ids@.to_set().filter(|k: V| v.rank() <= k.rank()).contains(x) implies r@.to_set().contains(x) by {
                let j = choose|j: int| 0 <= j < ids@.len() && ids@[j] == x;
                assert(r@.contains(x));
            }
        }
    }
    r
}

/// An empty list of edges lists no neighbour.
proof fn lemma_no_edges<E: Id, V: Id, EA>(v: V, m: Map<V, EdgeRecord<EA>>)
    ensures
        lists_edges(Seq::<EdgeIteratorItem<E, V>>::empty(), v, m, Set::empty()),
{
    assert(Seq::<EdgeIteratorItem<E, V>>::empty().map_values(|x: EdgeIteratorItem<E, V>| x.id2) =~= Seq::empty());
    assert(Seq::<V>::empty().to_set() =~= Set::empty());
}

/// Mutable access to the attributes held for `id2` in `m`.
fn slot_attrs_mut<'a, EA, V: Id>(m: &'a mut HashMap<V, Option<EA>>, id2: &V) -> (r: Option<&'a mut EA>)
    ensures
        match r {
            Some(a) => {
                &&& old(m)@.contains_key(*id2)
                &&& old(m)@[*id2] == Some(*a)
                &&& final(m)@ == old(m)@.insert(*id2, Some(*final(a)))
            },
            None => {
                &&& !old(m)@.contains_key(*id2) || old(m)@[*id2] is None
                &&& final(m)@ == old(m)@
            },
        },
{
    proof {
        V::lemma_key_model();
    }
    match map_get_mut(m, id2) {
        Some(slot) => match slot {
            Some(a) => Some(a),
            None => None,
        },
        None => None,
    }
}

/// The per-vertex record of a graph: the vertex's attributes and its incident
/// edges, with the attributes of the edges this vertex owns.
pub trait Locale<EA: AttributeCollection, E: Id, VA: AttributeCollection, V: Id>: Sized {
    /// The vertex this locale belongs to.
    spec fn vertex(&self) -> V;

    /// The incident edges, by neighbour.
    spec fn incident(&self) -> Map<V, EdgeRecord<EA>>;

    /// The vertex's attributes.
    spec fn attributes(&self) -> VA;

    /// Whether the locale records directed edges as such.
    spec fn keeps_direction() -> bool;

    /// Internal consistency of the locale.
    spec fn wf(&self) -> bool;

    proof fn lemma_wf(&self)
        requires
            self.wf(),
        ensures
            well_shaped(self.incident(), Self::keeps_direction()),
    ;

    /// Whether the locale records directed edges as such.
    fn keeps_directions() -> (r: bool)
        ensures
            r == Self::keeps_direction(),
    ;

    /// An empty locale for `associated_vertex_id`.
    fn new(associated_vertex_id: V) -> (r: Self)
        ensures
            r.wf(),
            r.vertex() == associated_vertex_id,
            r.incident() == Map::<V, EdgeRecord<EA>>::empty(),
            r.attributes().is_new(),
    ;

    /// Records an edge to `id2`, replacing any earlier one; the edge's
    /// attributes are allocated here when `store_edge_attributes` holds.
    fn add_e(
        &mut self,
        id2: V,
        relation: EdgeToVertexRelation,
        edge_id: Option<E>,
        store_edge_attributes: bool,
    ) -> (r: E)
        requires
            old(self).wf(),
            Self::keeps_direction() && relation == EdgeToVertexRelation::Outgoing ==> store_edge_attributes,
            Self::keeps_direction() && relation == EdgeToVertexRelation::Incoming ==> !store_edge_attributes,
            old(self).incident().dom().insert(id2).len() <= usize::MAX,
        ensures
            final(self).wf(),
            final(self).vertex() == old(self).vertex(),
            final(self).attributes() == old(self).attributes(),
            final(self).incident().dom() == old(self).incident().dom().insert(id2),
            final(self).incident().remove(id2) == old(self).incident().remove(id2),
            final(self).incident()[id2].0 == recorded_relation(relation, Self::keeps_direction()),
            final(self).incident()[id2].1 is Some == store_edge_attributes,
            store_edge_attributes ==> final(self).incident()[id2].1->Some_0.is_new(),
            r.rank() == E::min_rank(),
    ;

    /// Number of incident edges.
    fn count_incident_e(&self) -> (r: usize)
        requires
            self.wf(),
        ensures
            r == self.incident().len(),
    ;

    /// Number of incoming edges.
    fn count_incident_e_in(&self) -> (r: usize)
        requires
            self.wf(),
        ensures
            r == ids_related(self.incident(), EdgeToVertexRelation::Incoming).len(),
    ;

    /// Number of outgoing edges.
    fn count_incident_e_out(&self) -> (r: usize)
        requires
            self.wf(),
        ensures
            r == ids_related(self.incident(), EdgeToVertexRelation::Outgoing).len(),
    ;

    /// Number of undirected edges.
    fn count_incident_e_undir(&self) -> (r: usize)
        requires
            self.wf(),
        ensures
            r == ids_related(self.incident(), EdgeToVertexRelation::Undirected).len(),
    ;

    /// Number of neighbours.
    fn count_neighbours(&self) -> (r: usize)
        requires
            self.wf(),
        ensures
            r == self.incident().len(),
    ;

    /// Number of neighbours with an edge towards this vertex.
    fn count_neighbours_in(&self) -> (r: usize)
        requires
            self.wf(),
        ensures
            r == ids_related(self.incident(), EdgeToVertexRelation::Incoming).len(),
    ;

    /// Number of neighbours with an edge away from this vertex.
    fn count_neighbours_out(&self) -> (r: usize)
        requires
            self.wf(),
        ensures
            r == ids_related(self.incident(), EdgeToVertexRelation::Outgoing).len(),
    ;

    /// Number of neighbours joined by an undirected edge.
    fn count_neighbours_undir(&self) -> (r: usize)
        requires
            self.wf(),
        ensures
            r == ids_related(self.incident(), EdgeToVertexRelation::Undirected).len(),
    ;

    /// The attributes of the edge to `id2`, where this locale owns them.
    fn e_attrs(&self, id2: &V, edge_id: &E) -> (r: Option<&EA>)
        requires
            self.wf(),
        ensures
            match r {
                Some(a) => self.incident().contains_key(*id2) && self.incident()[*id2].1 == Some(*a),
                None => !self.incident().contains_key(*id2) || self.incident()[*id2].1 is None,
            },
    ;

    /// Mutable access to the attributes of the edge to `id2`, where this
    /// locale owns them.
    fn e_attrs_mut(&mut self, id2: &V, edge_id: &E) -> (r: Option<&mut EA>)
        requires
            old(self).wf(),
        ensures
            match r {
                Some(a) => {
                    &&& old(self).incident().contains_key(*id2)
                    &&& old(self).incident()[*id2].1 == Some(*a)
                    &&& final(self).wf()
                    &&& final(self).vertex() == old(self).vertex()
                    &&& final(self).attributes() == old(self).attributes()
                    &&& final(self).incident() == old(self).incident().insert(
                        *id2,
                        (old(self).incident()[*id2].0, Some(*final(a))),
                    )
                },
                None => {
                    &&& !old(self).incident().contains_key(*id2) || old(self).incident()[*id2].1 is None
                    &&& final(self).wf()
                    &&& final(self).vertex() == old(self).vertex()
                    &&& final(self).attributes() == old(self).attributes()
                    &&& final(self).incident() == old(self).incident()
                },
            },
    ;

    /// The direction of the edge to `id2`, if there is one.
    fn e_direction(&self, id2: &V, edge_id: &E) -> (r: Option<EdgeDirection>)
        requires
            self.wf(),
        ensures
            r == (if self.incident().contains_key(*id2) {
                Some(direction_of(self.incident()[*id2].0))
            } else {
                None
            }),
    ;

    /// The incident edges.
    fn iter_incident_e(&self) -> (r: Vec<EdgeIteratorItem<E, V>>)
        requires
            self.wf(),
        ensures
            lists_edges(r@, self.vertex(), self.incident(), self.incident().dom()),
    ;

    /// The incoming edges.
    fn iter_incident_e_in(&self) -> (r: Vec<EdgeIteratorItem<E, V>>)
        requires
            self.wf(),
        ensures
            lists_edges(
                r@,
                self.vertex(),
                self.incident(),
                ids_related(self.incident(), EdgeToVertexRelation::Incoming),
            ),
    ;

    /// The outgoing edges.
    fn iter_incident_e_out(&self) -> (r: Vec<EdgeIteratorItem<E, V>>)
        requires
            self.wf(),
        ensures
            lists_edges(
                r@,
                self.vertex(),
                self.incident(),
                ids_related(self.incident(), EdgeToVertexRelation::Outgoing),
            ),
    ;

    /// The undirected edges.
    fn iter_incident_e_undir(&self) -> (r: Vec<EdgeIteratorItem<E, V>>)
        requires
            self.wf(),
        ensures
            lists_edges(
                r@,
                self.vertex(),
                self.incident(),
                ids_related(self.incident(), EdgeToVertexRelation::Undirected),
            ),
    ;

    /// The incident edges that this locale owns by the ownership rule.
    fn iter_incident_e_with_attrs(&self) -> (r: Vec<EdgeIteratorItem<E, V>>)
        requires
            self.wf(),
        ensures
            lists_edges(r@, self.vertex(), self.incident(), owned_ids(self.vertex(), self.incident())),
    ;

    /// The neighbours.
    fn iter_neighbours(&self) -> (r: Vec<V>)
        requires
            self.wf(),
        ensures
            lists_ids(r@, self.incident().dom()),
    ;

    /// The neighbours with an edge towards this vertex.
    fn iter_neighbours_in(&self) -> (r: Vec<V>)
        requires
            self.wf(),
        ensures
            lists_ids(r@, ids_related(self.incident(), EdgeToVertexRelation::Incoming)),
    ;

    /// The neighbours with an edge away from this vertex.
    fn iter_neighbours_out(&self) -> (r: Vec<V>)
        requires
            self.wf(),
        ensures
            lists_ids(r@, ids_related(self.incident(), EdgeToVertexRelation::Outgoing)),
    ;

    /// The neighbours joined by an undirected edge.
    fn iter_neighbours_undir(&self) -> (r: Vec<V>)
        requires
            self.wf(),
        ensures
            lists_ids(r@, ids_related(self.incident(), EdgeToVertexRelation::Undirected)),
    ;

    /// Removes the edge to `id2`; tells whether there was one.
    fn remove_e(&mut self, id2: &V, edge_id: &E) -> (r: bool)
        requires
            old(self).wf(),
        ensures
            final(self).wf(),
            final(self).vertex() == old(self).vertex(),
            final(self).attributes() == old(self).attributes(),
            final(self).incident() == old(self).incident().remove(*id2),
            r == old(self).incident().contains_key(*id2),
    ;

    /// Removes every edge to `id2`; tells whether there was one.
    fn remove_neighbour(&mut self, id2: &V) -> (r: bool)
        requires
            old(self).wf(),
        ensures
            final(self).wf(),
            final(self).vertex() == old(self).vertex(),
            final(self).attributes() == old(self).attributes(),
            final(self).incident() == old(self).incident().remove(*id2),
            r == old(self).incident().contains_key(*id2),
    ;

    /// The vertex's attributes.
    fn v_attrs(&self) -> (r: &VA)
        ensures
            *r == self.attributes(),
    ;

    /// Mutable access to the vertex's attributes.
    fn v_attrs_mut(&mut self) -> (r: &mut VA)
        ensures
            *r == old(self).attributes(),
            final(self).attributes() == *final(r),
            final(self).vertex() == old(self).vertex(),
            final(self).incident() == old(self).incident(),
            final(self).wf() == old(self).wf(),
    ;
}



/// Locale of a simple undirected graph: one map from neighbour to the
/// attributes of the edge, present where this vertex owns the edge.
pub struct SimpleUndirectedLocale<EA, E, VA, V> {
    associated_vertex_id: V,
    attributes: VA,
    edges: HashMap<V, Option<EA>>,
    edge_ids: PhantomData<E>,
}

/// The records of an undirected locale whose map is `edges`.
pub open spec fn undirected_records<V, EA>(edges: Map<V, Option<EA>>) -> Map<V, EdgeRecord<EA>> {
    edges.map_values(|a: Option<EA>| (EdgeToVertexRelation::Undirected, a))
}

/// Setting the attributes of one edge of an undirected locale sets them in
/// its records and keeps the records consistent.
proof fn lemma_undirected_attrs_update<V, EA>(edges: Map<V, Option<EA>>, k: V)
    requires
        well_shaped(undirected_records(edges), false),
        edges.contains_key(k),
    ensures
        forall|x: EA|
            #![trigger edges.insert(k, Some(x))]
            undirected_records(edges.insert(k, Some(x))) == undirected_records(edges).insert(
                k,
                (EdgeToVertexRelation::Undirected, Some(x)),
            ) && well_shaped(undirected_records(edges.insert(k, Some(x))), false),
{
    assert forall|x: EA|
        #![trigger edges.insert(k, Some(x))]
        undirected_records(edges.insert(k, Some(x))) == undirected_records(edges).insert(
            k,
            (EdgeToVertexRelation::Undirected, Some(x)),
        ) && well_shaped(undirected_records(edges.insert(k, Some(x))), false) by {
        assert(undirected_records(edges.insert(k, Some(x))) =~= undirected_records(edges).insert(
            k,
            (EdgeToVertexRelation::Undirected, Some(x)),
        ));
        assert(undirected_records(edges.insert(k, Some(x))).dom() =~= undirected_records(edges).dom());
    }
}

impl<EA: Clone, E, VA: Clone, V: Id> Clone for SimpleUndirectedLocale<EA, E, VA, V> {
    fn clone(&self) -> Self {
        SimpleUndirectedLocale {
            associated_vertex_id: self.associated_vertex_id,
            attributes: self.attributes.clone(),
            edges: self.edges.clone(),
            edge_ids: PhantomData,
        }
    }
}

impl<EA: AttributeCollection, E: Id, VA: AttributeCollection, V: Id> Locale<EA, E, VA, V> for SimpleUndirectedLocale<
    EA,
    E,
    VA,
    V,
> {
    closed spec fn vertex(&self) -> V {
        self.associated_vertex_id
    }

    closed spec fn incident(&self) -> Map<V, EdgeRecord<EA>> {
        undirected_records(self.edges@)
    }

    closed spec fn attributes(&self) -> VA {
        self.attributes
    }

    open spec fn keeps_direction() -> bool {
        false
    }

    closed spec fn wf(&self) -> bool {
        well_shaped(undirected_records(self.edges@), false)
    }

    proof fn lemma_wf(&self) {
    }

    fn keeps_directions() -> (r: bool) {
        false
    }

    fn new(associated_vertex_id: V) -> (r: Self) {
        let r = SimpleUndirectedLocale {
            associated_vertex_id,
            attributes: VA::new(),
            edges: HashMap::new(),
            edge_ids: PhantomData,
        };
        proof {
            assert(r.incident() =~= Map::<V, EdgeRecord<EA>>::empty());
        }
        r
    }

    fn add_e(
        &mut self,
        id2: V,
        relation: EdgeToVertexRelation,
        edge_id: Option<E>,
        store_edge_attributes: bool,
    ) -> (r: E) {
        proof {
            V::lemma_key_model();
        }
        let slot = if store_edge_attributes {
            Some(EA::new())
        } else {
            None
        };
        let ghost s = slot;
        self.edges.insert(id2, slot);
        proof {
            assert(self.incident() =~= old(self).incident().insert(id2, (EdgeToVertexRelation::Undirected, s)));
            assert(self.incident().remove(id2) =~= old(self).incident().remove(id2));
            assert(self.incident().dom() =~= old(self).incident().dom().insert(id2));
        }
        E::default()
    }

    fn count_incident_e(&self) -> (r: usize) {
        self.count_neighbours()
    }

    fn count_incident_e_in(&self) -> (r: usize) {
        self.count_neighbours_in()
    }

    fn count_incident_e_out(&self) -> (r: usize) {
        self.count_neighbours_out()
    }

    fn count_incident_e_undir(&self) -> (r: usize) {
        self.count_neighbours_undir()
    }

    fn count_neighbours(&self) -> (r: usize) {
        proof {
            V::lemma_key_model();
            assert(self.incident().dom() =~= self.edges@.dom());
        }
        self.edges.len()
    }

    fn count_neighbours_in(&self) -> (r: usize) {
        proof {
            assert(ids_related(self.incident(), EdgeToVertexRelation::Incoming) =~= Set::empty());
        }
        0
    }

    fn count_neighbours_out(&self) -> (r: usize) {
        proof {
            assert(ids_related(self.incident(), EdgeToVertexRelation::Outgoing) =~= Set::empty());
        }
        0
    }

    fn count_neighbours_undir(&self) -> (r: usize) {
        proof {
            assert(ids_related(self.incident(), EdgeToVertexRelation::Undirected) =~= self.incident().dom());
        }
        self.count_neighbours()
    }

    fn e_attrs(&self, id2: &V, edge_id: &E) -> (r: Option<&EA>) {
        proof {
            V::lemma_key_model();
        }
        match self.edges.get(id2) {
            Some(slot) => match slot {
                Some(a) => Some(a),
                None => None,
            },
            None => None,
        }
    }

    fn e_attrs_mut(&mut self, id2: &V, edge_id: &E) -> (r: Option<&mut EA>) {
        proof {
            V::lemma_key_model();
            if self.edges@.contains_key(*id2) {
                lemma_undirected_attrs_update(self.edges@, *id2);
            }
        }
        slot_attrs_mut(&mut self.edges, id2)
    }

    fn e_direction(&self, id2: &V, edge_id: &E) -> (r: Option<EdgeDirection>) {
        proof {
            V::lemma_key_model();
        }
        if self.edges.contains_key(id2) {
            Some(EdgeDirection::Undirected)
        } else {
            None
        }
    }

    fn iter_incident_e(&self) -> (r: Vec<EdgeIteratorItem<E, V>>) {
        let ids = self.iter_neighbours();
        let r = items_for(self.associated_vertex_id, &ids, EdgeDirection::Undirected);
        proof {
            lemma_items_list(r@, self.associated_vertex_id, self.incident(), self.incident().dom(), EdgeToVertexRelation::Undirected);
        }
        r
    }

    fn iter_incident_e_in(&self) -> (r: Vec<EdgeIteratorItem<E, V>>) {
        proof {
            lemma_no_edges::<E, V, EA>(self.associated_vertex_id, self.incident());
            assert(ids_related(self.incident(), EdgeToVertexRelation::Incoming) =~= Set::empty());
        }
        Vec::new()
    }

    fn iter_incident_e_out(&self) -> (r: Vec<EdgeIteratorItem<E, V>>) {
        proof {
            lemma_no_edges::<E, V, EA>(self.associated_vertex_id, self.incident());
            assert(ids_related(self.incident(), EdgeToVertexRelation::Outgoing) =~= Set::empty());
        }
        Vec::new()
    }

    fn iter_incident_e_undir(&self) -> (r: Vec<EdgeIteratorItem<E, V>>) {
        proof {
            assert(ids_related(self.incident(), EdgeToVertexRelation::Undirected) =~= self.incident().dom());
        }
        self.iter_incident_e()
    }

    fn iter_incident_e_with_attrs(&self) -> (r: Vec<EdgeIteratorItem<E, V>>) {
        let v = self.associated_vertex_id;
        let ids = self.iter_neighbours();
        let owned = ids_not_before(v, &ids);
        let r = items_for(v, &owned, EdgeDirection::Undirected);
        proof {
            assert(ids@.to_set().filter(|k: V| v.rank() <= k.rank()) =~= owned_ids(v, self.incident()));
            lemma_items_list(r@, v, self.incident(), owned_ids(v, self.incident()), EdgeToVertexRelation::Undirected);
        }
        r
    }

    fn iter_neighbours(&self) -> (r: Vec<V>) {
        proof {
            V::lemma_key_model();
            assert(self.incident().dom() =~= self.edges@.dom());
        }
        keys_of(&self.edges)
    }

    fn iter_neighbours_in(&self) -> (r: Vec<V>) {
        proof {
            assert(ids_related(self.incident(), EdgeToVertexRelation::Incoming) =~= Set::empty());
            assert(Seq::<V>::empty().to_set() =~= Set::empty());
        }
        Vec::new()
    }

    fn iter_neighbours_out(&self) -> (r: Vec<V>) {
        proof {
            assert(ids_related(self.incident(), EdgeToVertexRelation::Outgoing) =~= Set::empty());
            assert(Seq::<V>::empty().to_set() =~= Set::empty());
        }
        Vec::new()
    }

    fn iter_neighbours_undir(&self) -> (r: Vec<V>) {
        proof {
            assert(ids_related(self.incident(), EdgeToVertexRelation::Undirected) =~= self.incident().dom());
        }
        self.iter_neighbours()
    }

    fn remove_e(&mut self, id2: &V, edge_id: &E) -> (r: bool) {
        self.remove_neighbour(id2)
    }

    fn remove_neighbour(&mut self, id2: &V) -> (r: bool) {
        proof {
            V::lemma_key_model();
        }
        let r = self.edges.remove(id2).is_some();
        proof {
            assert(self.incident() =~= old(self).incident().remove(*id2));
            assert(self.incident().dom() =~= old(self).incident().dom().remove(*id2));
        }
        r
    }

    fn v_attrs(&self) -> (r: &VA) {
        &self.attributes
    }

    fn v_attrs_mut(&mut self) -> (r: &mut VA) {
        &mut self.attributes
    }
}


/// Locale of a simple directed graph: three disjoint collections, of the
/// neighbours with an edge towards this vertex, of those with an edge away
/// from it (whose attributes this vertex owns), and of those joined by an
/// undirected edge (with attributes where this vertex owns the edge).
pub struct SimpleDirectedLocale<EA, E, VA, V> {
    associated_vertex_id: V,
    attributes: VA,
    incoming: HashSet<V>,
    outgoing: HashMap<V, EA>,
    undirected: HashMap<V, Option<EA>>,
    edge_ids: PhantomData<E>,
}

/// The records of a directed locale whose collections are `incoming`,
/// `outgoing` and `undirected`.
pub open spec fn directed_records<V, EA>(
    incoming: Set<V>,
    outgoing: Map<V, EA>,
    undirected: Map<V, Option<EA>>,
) -> Map<V, EdgeRecord<EA>> {
    Map::new(
        |k: V| incoming.contains(k) || outgoing.contains_key(k) || undirected.contains_key(k),
        |k: V|
            if incoming.contains(k) {
                (EdgeToVertexRelation::Incoming, None)
            } else if outgoing.contains_key(k) {
                (EdgeToVertexRelation::Outgoing, Some(outgoing[k]))
            } else {
                (EdgeToVertexRelation::Undirected, undirected[k])
            },
    )
}

/// No neighbour is in two of the three collections, and there are finitely
/// many of them.
pub open spec fn parts_wf<V, EA>(incoming: Set<V>, outgoing: Map<V, EA>, undirected: Map<V, Option<EA>>) -> bool {
    &&& incoming.finite()
    &&& outgoing.dom().finite()
    &&& undirected.dom().finite()
    &&& incoming.disjoint(outgoing.dom())
    &&& incoming.disjoint(undirected.dom())
    &&& outgoing.dom().disjoint(undirected.dom())
}

/// The records of a directed locale: their neighbours by relation, and their
/// number.
proof fn lemma_directed_parts<V, EA>(incoming: Set<V>, outgoing: Map<V, EA>, undirected: Map<V, Option<EA>>)
    requires
        parts_wf(incoming, outgoing, undirected),
    ensures
        directed_records(incoming, outgoing, undirected).dom() == incoming + outgoing.dom() + undirected.dom(),
        ids_related(directed_records(incoming, outgoing, undirected), EdgeToVertexRelation::Incoming) == incoming,
        ids_related(directed_records(incoming, outgoing, undirected), EdgeToVertexRelation::Outgoing)
            == outgoing.dom(),
        ids_related(directed_records(incoming, outgoing, undirected), EdgeToVertexRelation::Undirected)
            == undirected.dom(),
        directed_records(incoming, outgoing, undirected).dom().finite(),
        directed_records(incoming, outgoing, undirected).len() == incoming.len() + outgoing.len()
            + undirected.len(),
        forall|k: V|
            #[trigger] directed_records(incoming, outgoing, undirected).contains_key(k) ==> {
                let m = directed_records(incoming, outgoing, undirected);
                &&& (m[k].0 == EdgeToVertexRelation::Incoming ==> m[k].1 is None)
                &&& (m[k].0 == EdgeToVertexRelation::Outgoing ==> m[k].1 is Some)
            },
{
    let m = directed_records(incoming, outgoing, undirected);
    assert(m.dom() =~= incoming + outgoing.dom() + undirected.dom());
    assert(ids_related(m, EdgeToVertexRelation::Incoming) =~= incoming);
    assert(ids_related(m, EdgeToVertexRelation::Outgoing) =~= outgoing.dom());
    assert(ids_related(m, EdgeToVertexRelation::Undirected) =~= undirected.dom());
    vstd::set_lib::lemma_set_disjoint_lens(incoming, outgoing.dom());
    assert((incoming + outgoing.dom()).disjoint(undirected.dom()));
    vstd::set_lib::lemma_set_disjoint_lens(incoming + outgoing.dom(), undirected.dom());
    assert(m.len() == m.dom().len());
    assert(outgoing.len() == outgoing.dom().len());
    assert(undirected.len() == undirected.dom().len());
}

/// Setting the attributes of one owned edge of a directed locale sets them in
/// its records and keeps the collections consistent.
proof fn lemma_directed_attrs_update<V, EA>(
    incoming: Set<V>,
    outgoing: Map<V, EA>,
    undirected: Map<V, Option<EA>>,
    k: V,
)
    requires
        parts_wf(incoming, outgoing, undirected),
    ensures
        outgoing.contains_key(k) ==> forall|x: EA|
            #![trigger outgoing.insert(k, x)]
            directed_records(incoming, outgoing.insert(k, x), undirected) == directed_records(
                incoming,
                outgoing,
                undirected,
            ).insert(k, (EdgeToVertexRelation::Outgoing, Some(x))) && parts_wf(
                incoming,
                outgoing.insert(k, x),
                undirected,
            ) && directed_records(incoming, outgoing.insert(k, x), undirected).len() == directed_records(
                incoming,
                outgoing,
                undirected,
            ).len(),
        undirected.contains_key(k) ==> forall|x: EA|
            #![trigger undirected.insert(k, Some(x))]
            directed_records(incoming, outgoing, undirected.insert(k, Some(x))) == directed_records(
                incoming,
                outgoing,
                undirected,
            ).insert(k, (EdgeToVertexRelation::Undirected, Some(x))) && parts_wf(
                incoming,
                outgoing,
                undirected.insert(k, Some(x)),
            ) && directed_records(incoming, outgoing, undirected.insert(k, Some(x))).len() == directed_records(
                incoming,
                outgoing,
                undirected,
            ).len(),
{
    if outgoing.contains_key(k) {
        assert forall|x: EA|
            #![trigger outgoing.insert(k, x)]
            directed_records(incoming, outgoing.insert(k, x), undirected) == directed_records(
                incoming,
                outgoing,
                undirected,
            ).insert(k, (EdgeToVertexRelation::Outgoing, Some(x))) && parts_wf(
                incoming,
                outgoing.insert(k, x),
                undirected,
            ) && directed_records(incoming, outgoing.insert(k, x), undirected).len() == directed_records(
                incoming,
                outgoing,
                undirected,
            ).len() by {
            assert(outgoing.insert(k, x).dom() =~= outgoing.dom());
            assert(directed_records(incoming, outgoing.insert(k, x), undirected).dom() =~= directed_records(
                incoming,
                outgoing,
                undirected,
            ).dom());
            assert(directed_records(incoming, outgoing.insert(k, x), undirected) =~= directed_records(
                incoming,
                outgoing,
                undirected,
            ).insert(k, (EdgeToVertexRelation::Outgoing, Some(x))));
        }
    }
    if undirected.contains_key(k) {
        assert forall|x: EA|
            #![trigger undirected.insert(k, Some(x))]
            directed_records(incoming, outgoing, undirected.insert(k, Some(x))) == directed_records(
                incoming,
                outgoing,
                undirected,
            ).insert(k, (EdgeToVertexRelation::Undirected, Some(x))) && parts_wf(
                incoming,
                outgoing,
                undirected.insert(k, Some(x)),
            ) && directed_records(incoming, outgoing, undirected.insert(k, Some(x))).len() == directed_records(
                incoming,
                outgoing,
                undirected,
            ).len() by {
            assert(undirected.insert(k, Some(x)).dom() =~= undirected.dom());
            assert(directed_records(incoming, outgoing, undirected.insert(k, Some(x))).dom() =~= directed_records(
                incoming,
                outgoing,
                undirected,
            ).dom());
            assert(directed_records(incoming, outgoing, undirected.insert(k, Some(x))) =~= directed_records(
                incoming,
                outgoing,
                undirected,
            ).insert(k, (EdgeToVertexRelation::Undirected, Some(x))));
        }
    }
}

impl<EA: Clone, E, VA: Clone, V: Id> Clone for SimpleDirectedLocale<EA, E, VA, V> {
    fn clone(&self) -> Self {
        proof {
            V::lemma_key_model();
        }
        let ids = elements_of(&self.incoming);
        let mut incoming: HashSet<V> = HashSet::new();
        for i in 0..ids.len() {
            incoming.insert(ids[i]);
        }
        SimpleDirectedLocale {
            associated_vertex_id: self.associated_vertex_id,
            attributes: self.attributes.clone(),
            incoming,
            outgoing: self.outgoing.clone(),
            undirected: self.undirected.clone(),
            edge_ids: PhantomData,
        }
    }
}

impl<EA: AttributeCollection, E: Id, VA: AttributeCollection, V: Id> Locale<EA, E, VA, V> for SimpleDirectedLocale<
    EA,
    E,
    VA,
    V,
> {
    closed spec fn vertex(&self) -> V {
        self.associated_vertex_id
    }

    closed spec fn incident(&self) -> Map<V, EdgeRecord<EA>> {
        directed_records(self.incoming@, self.outgoing@, self.undirected@)
    }

    closed spec fn attributes(&self) -> VA {
        self.attributes
    }

    open spec fn keeps_direction() -> bool {
        true
    }

    closed spec fn wf(&self) -> bool {
        &&& parts_wf(self.incoming@, self.outgoing@, self.undirected@)
        &&& directed_records(self.incoming@, self.outgoing@, self.undirected@).len() <= usize::MAX
    }

    proof fn lemma_wf(&self) {
        lemma_directed_parts(self.incoming@, self.outgoing@, self.undirected@);
    }

    fn keeps_directions() -> (r: bool) {
        true
    }

    fn new(associated_vertex_id: V) -> (r: Self) {
        let r = SimpleDirectedLocale {
            associated_vertex_id,
            attributes: VA::new(),
            incoming: HashSet::new(),
            outgoing: HashMap::new(),
            undirected: HashMap::new(),
            edge_ids: PhantomData,
        };
        proof {
            assert(r.incident() =~= Map::<V, EdgeRecord<EA>>::empty());
            assert(r.outgoing@.dom() =~= Set::empty());
            assert(r.undirected@.dom() =~= Set::empty());
        }
        r
    }

    fn add_e(
        &mut self,
        id2: V,
        relation: EdgeToVertexRelation,
        edge_id: Option<E>,
        store_edge_attributes: bool,
    ) -> (r: E) {
        proof {
            V::lemma_key_model();
        }
        self.incoming.remove(&id2);
        self.outgoing.remove(&id2);
        self.undirected.remove(&id2);
        let ghost rec: EdgeRecord<EA>;
        match relation {
            EdgeToVertexRelation::Incoming => {
                self.incoming.insert(id2);
                proof {
                    rec = (EdgeToVertexRelation::Incoming, None);
                }
            },
            EdgeToVertexRelation::Outgoing => {
                let a = EA::new();
                proof {
                    rec = (EdgeToVertexRelation::Outgoing, Some(a));
                }
                self.outgoing.insert(id2, a);
            },
            EdgeToVertexRelation::Undirected => {
                let slot = if store_edge_attributes {
                    Some(EA::new())
                } else {
                    None
                };
                proof {
                    rec = (EdgeToVertexRelation::Undirected, slot);
                }
                self.undirected.insert(id2, slot);
            },
        }
        proof {
            assert(self.incident() =~= old(self).incident().remove(id2).insert(id2, rec));
            assert(self.incident().remove(id2) =~= old(self).incident().remove(id2));
            assert(self.incident().dom() =~= old(self).incident().dom().insert(id2));
            lemma_directed_parts(self.incoming@, self.outgoing@, self.undirected@);
        }
        E::default()
    }

    fn count_incident_e(&self) -> (r: usize) {
        self.count_neighbours()
    }

    fn count_incident_e_in(&self) -> (r: usize) {
        self.count_neighbours_in()
    }

    fn count_incident_e_out(&self) -> (r: usize) {
        self.count_neighbours_out()
    }

    fn count_incident_e_undir(&self) -> (r: usize) {
        self.count_neighbours_undir()
    }

    fn count_neighbours(&self) -> (r: usize) {
        proof {
            V::lemma_key_model();
            lemma_directed_parts(self.incoming@, self.outgoing@, self.undirected@);
        }
        self.incoming.len() + self.outgoing.len() + self.undirected.len()
    }

    fn count_neighbours_in(&self) -> (r: usize) {
        proof {
            V::lemma_key_model();
            lemma_directed_parts(self.incoming@, self.outgoing@, self.undirected@);
        }
        self.incoming.len()
    }

    fn count_neighbours_out(&self) -> (r: usize) {
        proof {
            V::lemma_key_model();
            lemma_directed_parts(self.incoming@, self.outgoing@, self.undirected@);
        }
        self.outgoing.len()
    }

    fn count_neighbours_undir(&self) -> (r: usize) {
        proof {
            V::lemma_key_model();
            lemma_directed_parts(self.incoming@, self.outgoing@, self.undirected@);
        }
        self.undirected.len()
    }

    fn e_attrs(&self, id2: &V, edge_id: &E) -> (r: Option<&EA>) {
        proof {
            V::lemma_key_model();
        }
        match self.outgoing.get(id2) {
            Some(a) => Some(a),
            None => match self.undirected.get(id2) {
                Some(slot) => match slot {
                    Some(a) => Some(a),
                    None => None,
                },
                None => None,
            },
        }
    }

    fn e_attrs_mut(&mut self, id2: &V, edge_id: &E) -> (r: Option<&mut EA>) {
        proof {
            V::lemma_key_model();
            lemma_directed_attrs_update(self.incoming@, self.outgoing@, self.undirected@, *id2);
        }
        if self.outgoing.contains_key(id2) {
            map_get_mut(&mut self.outgoing, id2)
        } else {
            slot_attrs_mut(&mut self.undirected, id2)
        }
    }

    fn e_direction(&self, id2: &V, edge_id: &E) -> (r: Option<EdgeDirection>) {
        proof {
            V::lemma_key_model();
        }
        if self.incoming.contains(id2) {
            Some(EdgeDirection::Directed2to1)
        } else if self.outgoing.contains_key(id2) {
            Some(EdgeDirection::Directed1to2)
        } else if self.undirected.contains_key(id2) {
            Some(EdgeDirection::Undirected)
        } else {
            None
        }
    }

    fn iter_incident_e(&self) -> (r: Vec<EdgeIteratorItem<E, V>>) {
        let mut r = self.iter_incident_e_in();
        let mut o = self.iter_incident_e_out();
        let mut u = self.iter_incident_e_undir();
        let ghost (r0, o0, u0) = (r@, o@, u@);
        r.append(&mut o);
        r.append(&mut u);
        proof {
            let m = self.incident();
            lemma_directed_parts(self.incoming@, self.outgoing@, self.undirected@);
            lemma_edges_concat(r0, o0, self.associated_vertex_id, m, self.incoming@, self.outgoing@.dom());
            assert((self.incoming@ + self.outgoing@.dom()).disjoint(self.undirected@.dom()));
            lemma_edges_concat(r0 + o0, u0, self.associated_vertex_id, m, self.incoming@ + self.outgoing@.dom(), self.undirected@.dom());
            assert(r@ == r0 + o0 + u0);
        }
        r
    }

    fn iter_incident_e_in(&self) -> (r: Vec<EdgeIteratorItem<E, V>>) {
        let ids = self.iter_neighbours_in();
        let r = items_for(self.associated_vertex_id, &ids, EdgeDirection::Directed2to1);
        proof {
            lemma_directed_parts(self.incoming@, self.outgoing@, self.undirected@);
            lemma_items_list(r@, self.associated_vertex_id, self.incident(), self.incoming@, EdgeToVertexRelation::Incoming);
        }
        r
    }

    fn iter_incident_e_out(&self) -> (r: Vec<EdgeIteratorItem<E, V>>) {
        let ids = self.iter_neighbours_out();
        let r = items_for(self.associated_vertex_id, &ids, EdgeDirection::Directed1to2);
        proof {
            lemma_directed_parts(self.incoming@, self.outgoing@, self.undirected@);
            lemma_items_list(r@, self.associated_vertex_id, self.incident(), self.outgoing@.dom(), EdgeToVertexRelation::Outgoing);
        }
        r
    }

    fn iter_incident_e_undir(&self) -> (r: Vec<EdgeIteratorItem<E, V>>) {
        let ids = self.iter_neighbours_undir();
        let r = items_for(self.associated_vertex_id, &ids, EdgeDirection::Undirected);
        proof {
            lemma_directed_parts(self.incoming@, self.outgoing@, self.undirected@);
            lemma_items_list(r@, self.associated_vertex_id, self.incident(), self.undirected@.dom(), EdgeToVertexRelation::Undirected);
        }
        r
    }

    fn iter_incident_e_with_attrs(&self) -> (r: Vec<EdgeIteratorItem<E, V>>) {
        let v = self.associated_vertex_id;
        let mut r = self.iter_incident_e_out();
        let undirected_ids = self.iter_neighbours_undir();
        let owned = ids_not_before(v, &undirected_ids);
        let mut u = items_for(v, &owned, EdgeDirection::Undirected);
        let ghost (r0, u0) = (r@, u@);
        r.append(&mut u);
        proof {
            let m = self.incident();
            lemma_directed_parts(self.incoming@, self.outgoing@, self.undirected@);
            let su = undirected_ids@.to_set().filter(|k: V| v.rank() <= k.rank());
            lemma_items_list(u0, v, m, su, EdgeToVertexRelation::Undirected);
            lemma_edges_concat(r0, u0, v, m, self.outgoing@.dom(), su);
            assert(self.outgoing@.dom() + su =~= owned_ids(v, m));
            assert(r@ == r0 + u0);
        }
        r
    }

    fn iter_neighbours(&self) -> (r: Vec<V>) {
        let mut r = self.iter_neighbours_in();
        let mut o = self.iter_neighbours_out();
        let mut u = self.iter_neighbours_undir();
        let ghost (r0, o0, u0) = (r@, o@, u@);
        r.append(&mut o);
        r.append(&mut u);
        proof {
            lemma_directed_parts(self.incoming@, self.outgoing@, self.undirected@);
            lemma_ids_concat(r0, o0, self.incoming@, self.outgoing@.dom());
            assert((self.incoming@ + self.outgoing@.dom()).disjoint(self.undirected@.dom()));
            lemma_ids_concat(r0 + o0, u0, self.incoming@ + self.outgoing@.dom(), self.undirected@.dom());
            assert(r@ == r0 + o0 + u0);
        }
        r
    }

    fn iter_neighbours_in(&self) -> (r: Vec<V>) {
        proof {
            V::lemma_key_model();
            lemma_directed_parts(self.incoming@, self.outgoing@, self.undirected@);
        }
        elements_of(&self.incoming)
    }

    fn iter_neighbours_out(&self) -> (r: Vec<V>) {
        proof {
            V::lemma_key_model();
            lemma_directed_parts(self.incoming@, self.outgoing@, self.undirected@);
        }
        keys_of(&self.outgoing)
    }

    fn iter_neighbours_undir(&self) -> (r: Vec<V>) {
        proof {
            V::lemma_key_model();
            lemma_directed_parts(self.incoming@, self.outgoing@, self.undirected@);
        }
        keys_of(&self.undirected)
    }

    fn remove_e(&mut self, id2: &V, edge_id: &E) -> (r: bool) {
        self.remove_neighbour(id2)
    }

    fn remove_neighbour(&mut self, id2: &V) -> (r: bool) {
        proof {
            V::lemma_key_model();
        }
        let was_incoming = self.incoming.remove(id2);
        let was_outgoing = self.outgoing.remove(id2).is_some();
        let was_undirected = self.undirected.remove(id2).is_some();
        proof {
            assert(self.incident() =~= old(self).incident().remove(*id2));
            assert(self.incident().dom() =~= old(self).incident().dom().remove(*id2));
            lemma_directed_parts(old(self).incoming@, old(self).outgoing@, old(self).undirected@);
            lemma_directed_parts(self.incoming@, self.outgoing@, self.undirected@);
            assert(self.outgoing@.dom() =~= old(self).outgoing@.dom().remove(*id2));
            assert(self.undirected@.dom() =~= old(self).undirected@.dom().remove(*id2));
            assert(self.incident().len() <= old(self).incident().len());
        }
        was_incoming || was_outgoing || was_undirected
    }

    fn v_attrs(&self) -> (r: &VA) {
        &self.attributes
    }

    fn v_attrs_mut(&mut self) -> (r: &mut VA) {
        &mut self.attributes
    }
}

} // verus!
