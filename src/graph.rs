use std::collections::HashMap;
use std::marker::PhantomData;
use vstd::prelude::*;
use vstd::relations::injective_on;
use vstd::std_specs::hash::obeys_key_model;
use crate::attributes::AttributeCollection;
use crate::errors::{CrabNetsError, CrabNetsResult};
use crate::id::Id;
use crate::locales::{direction_of, ids_related, lists_ids, owned_ids, owns_edge, EdgeRecord, EdgeToVertexRelation, Locale};
use crate::maps::{keys_of, map_get_mut};
use crate::{EdgeDirection, EdgeIteratorItem};

verus! {

broadcast use vstd::std_specs::hash::group_hash_axioms;

/// The relation that the other endpoint records for an edge recorded here
/// with relation `rel`.
pub open spec fn reverse(rel: EdgeToVertexRelation) -> EdgeToVertexRelation {
    match rel {
        EdgeToVertexRelation::Undirected => EdgeToVertexRelation::Undirected,
        EdgeToVertexRelation::Incoming => EdgeToVertexRelation::Outgoing,
        EdgeToVertexRelation::Outgoing => EdgeToVertexRelation::Incoming,
    }
}

/// Vertex `a` exists and records an edge to `b`.
pub open spec fn has_record<EA, E, VA, V, L: Locale<EA, E, VA, V>>(g: Map<V, L>, a: V, b: V) -> bool
    where EA: AttributeCollection, E: Id, VA: AttributeCollection, V: Id,
{
    g.contains_key(a) && g[a].incident().contains_key(b)
}

/// The relation that `a` records for its edge to `b`.
pub open spec fn relation<EA, E, VA, V, L: Locale<EA, E, VA, V>>(g: Map<V, L>, a: V, b: V) -> EdgeToVertexRelation
    where EA: AttributeCollection, E: Id, VA: AttributeCollection, V: Id,
{
    g[a].incident()[b].0
}

/// Every locale is consistent and belongs to the vertex it is stored under.
pub open spec fn locales_wf<EA, E, VA, V, L: Locale<EA, E, VA, V>>(g: Map<V, L>) -> bool
    where EA: AttributeCollection, E: Id, VA: AttributeCollection, V: Id,
{
    forall|v: V| #[trigger] g.contains_key(v) ==> g[v].wf() && g[v].vertex() == v
}

/// Every edge is recorded at both endpoints with complementary relations; a
/// loop is recorded once, as outgoing or undirected.
pub open spec fn edges_symmetric<EA, E, VA, V, L: Locale<EA, E, VA, V>>(g: Map<V, L>) -> bool
    where EA: AttributeCollection, E: Id, VA: AttributeCollection, V: Id,
{
    forall|a: V, b: V|
        #[trigger] has_record(g, a, b) ==> {
            &&& g.contains_key(b)
            &&& a != b ==> has_record(g, b, a) && relation(g, b, a) == reverse(relation(g, a, b))
            &&& a == b ==> relation(g, a, b) != EdgeToVertexRelation::Incoming
        }
}

/// The attributes of an edge are held by the endpoint that the ownership
/// rule names, and by no other.
pub open spec fn attributes_owned<EA, E, VA, V, L: Locale<EA, E, VA, V>>(g: Map<V, L>) -> bool
    where EA: AttributeCollection, E: Id, VA: AttributeCollection, V: Id,
{
    forall|a: V, b: V|
        #[trigger] has_record(g, a, b) ==> (g[a].incident()[b].1 is Some <==> owns_edge(
            a,
            b,
            relation(g, a, b),
        ))
}

/// The attributes of the edge between `a` and `b`, wherever they are held.
pub open spec fn edge_attributes<EA, E, VA, V, L: Locale<EA, E, VA, V>>(g: Map<V, L>, a: V, b: V) -> Option<EA>
    where EA: AttributeCollection, E: Id, VA: AttributeCollection, V: Id,
{
    if owns_edge(a, b, relation(g, a, b)) {
        g[a].incident()[b].1
    } else {
        g[b].incident()[a].1
    }
}

/// The edges of the graph, each once, as the pair (owner, other endpoint).
pub open spec fn live_edges<EA, E, VA, V, L: Locale<EA, E, VA, V>>(g: Map<V, L>) -> Set<(V, V)>
    where EA: AttributeCollection, E: Id, VA: AttributeCollection, V: Id,
{
    Set::new(|p: (V, V)| has_record(g, p.0, p.1) && owns_edge(p.0, p.1, relation(g, p.0, p.1)))
}

/// `p` with its endpoint that comes first in front.
pub open spec fn ordered_pair<V: Id>(p: (V, V)) -> (V, V) {
    if p.0.rank() <= p.1.rank() {
        p
    } else {
        (p.1, p.0)
    }
}

/// The edges of the graph as unordered pairs of endpoints, each written with
/// the endpoint that comes first in front.
pub open spec fn endpoint_pairs<EA, E, VA, V, L: Locale<EA, E, VA, V>>(g: Map<V, L>) -> Set<(V, V)>
    where EA: AttributeCollection, E: Id, VA: AttributeCollection, V: Id,
{
    Set::new(|p: (V, V)| has_record(g, p.0, p.1) && p.0.rank() <= p.1.rank())
}

/// The pairs of elements of a finite set are finitely many.
proof fn lemma_pairs_finite<V>(s: Set<V>)
    requires
        s.finite(),
    ensures
        Set::new(|p: (V, V)| s.contains(p.0) && s.contains(p.1)).finite(),
    decreases s.len(),
{
    let all = Set::new(|p: (V, V)| s.contains(p.0) && s.contains(p.1));
    if s.len() == 0 {
        assert(s =~= Set::empty());
        assert(all =~= Set::empty());
    } else {
        let a = s.choose();
        let t = s.remove(a);
        lemma_pairs_finite(t);
        let rest = Set::new(|p: (V, V)| t.contains(p.0) && t.contains(p.1));
        let fl = |x: V| (a, x);
        let fr = |x: V| (x, a);
        s.lemma_map_finite(fl);
        s.lemma_map_finite(fr);
        assert(all =~= rest + s.map(fl) + s.map(fr)) by {
            assert forall|p: (V, V)| all.contains(p) implies (rest + s.map(fl) + s.map(fr)).contains(p) by {
                if p.0 == a {
                    assert(fl(p.1) == p);
                } else if p.1 == a {
                    assert(fr(p.0) == p);
                } else {
                    assert(rest.contains(p));
                }
            }
        }
    }
}

/// `v` is the smallest identifier that `g` does not use.
pub open spec fn smallest_free<V: Id, L>(g: Map<V, L>, v: V) -> bool {
    &&& !g.contains_key(v)
    &&& forall|w: V| #[trigger] w.rank() < v.rank() ==> g.contains_key(w)
}

/// The error for a vertex that does not exist.
fn vertex_missing(function_path: &str) -> (r: CrabNetsError)
    ensures
        r.message@ == function_path@ + ". "@ + "Vertex with the given ID doesn't exist."@,
{
    CrabNetsError::new(function_path, "Vertex with the given ID doesn't exist.")
}

/// The error for an edge that does not exist.
fn edge_missing(function_path: &str) -> (r: CrabNetsError)
    ensures
        r.message@ == function_path@ + ". "@ + "Accessing attributes of a non-existing edge."@,
{
    CrabNetsError::new(function_path, "Accessing attributes of a non-existing edge.")
}

/// `g2` has the vertices, edges, relations and vertex attributes of `g1`;
/// only edge attributes may differ, and each edge holds them where it did.
pub open spec fn same_topology<EA, E, VA, V, L: Locale<EA, E, VA, V>>(g1: Map<V, L>, g2: Map<V, L>) -> bool
    where EA: AttributeCollection, E: Id, VA: AttributeCollection, V: Id,
{
    &&& g2.dom() == g1.dom()
    &&& forall|v: V| #[trigger] g2.contains_key(v) ==> g2[v].attributes() == g1[v].attributes()
    &&& forall|a: V, b: V| #[trigger] has_record(g2, a, b) == has_record(g1, a, b)
    &&& forall|a: V, b: V|
        #[trigger] has_record(g2, a, b) ==> relation(g2, a, b) == relation(g1, a, b)
            && (g2[a].incident()[b].1 is Some == g1[a].incident()[b].1 is Some)
}

/// Replacing the attributes that `owner` holds for its edge to `other` keeps
/// the graph's invariant and its topology, whatever the new attributes are.
proof fn lemma_attrs_update<EA, E, VA, V, L: Locale<EA, E, VA, V>>(g: Map<V, L>, owner: V, other: V, id1: V, id2: V)
    where EA: AttributeCollection, E: Id, VA: AttributeCollection, V: Id,
    requires
        locales_wf(g),
        edges_symmetric(g),
        attributes_owned(g),
        has_record(g, owner, other),
        g[owner].incident()[other].1 is Some,
        has_record(g, id1, id2),
        (owner == id1 && other == id2) || (owner == id2 && other == id1),
        g[owner].incident()[other].1 == edge_attributes(g, id1, id2),
    ensures
        forall|l2: L, x: EA|
            #![trigger g.insert(owner, l2), g[owner].incident().insert(other, (g[owner].incident()[other].0, Some(x)))]
            l2.wf() && l2.vertex() == owner && l2.attributes() == g[owner].attributes() && l2.incident()
                == g[owner].incident().insert(other, (g[owner].incident()[other].0, Some(x))) ==> {
                &&& locales_wf(g.insert(owner, l2))
                &&& edges_symmetric(g.insert(owner, l2))
                &&& attributes_owned(g.insert(owner, l2))
                &&& same_topology(g, g.insert(owner, l2))
                &&& edge_attributes(g.insert(owner, l2), id1, id2) == Some(x)
                &&& forall|a: V, b: V|
                    #[trigger] has_record(g, a, b) && !((a == id1 && b == id2) || (a == id2 && b == id1))
                        ==> g.insert(owner, l2)[a].incident()[b] == g[a].incident()[b]
            },
{
    V::lemma_id_laws(&id1, &id2);
    assert forall|l2: L, x: EA|
        #![trigger g.insert(owner, l2), g[owner].incident().insert(other, (g[owner].incident()[other].0, Some(x)))]
        l2.wf() && l2.vertex() == owner && l2.attributes() == g[owner].attributes() && l2.incident()
            == g[owner].incident().insert(other, (g[owner].incident()[other].0, Some(x))) implies {
            &&& locales_wf(g.insert(owner, l2))
            &&& edges_symmetric(g.insert(owner, l2))
            &&& attributes_owned(g.insert(owner, l2))
            &&& same_topology(g, g.insert(owner, l2))
            &&& edge_attributes(g.insert(owner, l2), id1, id2) == Some(x)
            &&& forall|a: V, b: V|
                #[trigger] has_record(g, a, b) && !((a == id1 && b == id2) || (a == id2 && b == id1))
                    ==> g.insert(owner, l2)[a].incident()[b] == g[a].incident()[b]
        } by {
        let g2 = g.insert(owner, l2);
        assert(g2.dom() =~= g.dom());
        assert forall|a: V, b: V| #[trigger] has_record(g2, a, b) == has_record(g, a, b) by {}
        assert forall|a: V, b: V| #[trigger] has_record(g2, a, b) implies {
            &&& g2.contains_key(b)
            &&& a != b ==> has_record(g2, b, a) && relation(g2, b, a) == reverse(relation(g2, a, b))
            &&& a == b ==> relation(g2, a, b) != EdgeToVertexRelation::Incoming
        } by {
            assert(has_record(g, a, b));
            if a != b {
                assert(has_record(g, b, a));
            }
        }
        assert forall|a: V, b: V| #[trigger] has_record(g2, a, b) implies (g2[a].incident()[b].1 is Some
            <==> owns_edge(a, b, relation(g2, a, b))) by {
            assert(has_record(g, a, b));
        }
        assert(has_record(g, id1, id2));
        if id1 != id2 {
            assert(has_record(g, id2, id1));
        }
    }
}

/// Replacing the locale of `id` by one with the same edges keeps the graph's
/// invariant, whatever the vertex's attributes become.
proof fn lemma_vertex_attrs_update<EA, E, VA, V, L: Locale<EA, E, VA, V>>(g: Map<V, L>, id: V)
    where EA: AttributeCollection, E: Id, VA: AttributeCollection, V: Id,
    requires
        locales_wf(g),
        edges_symmetric(g),
        attributes_owned(g),
        g.contains_key(id),
    ensures
        forall|l2: L|
            l2.wf() && l2.vertex() == id && l2.incident() == g[id].incident() ==> {
                &&& locales_wf(#[trigger] g.insert(id, l2))
                &&& edges_symmetric(g.insert(id, l2))
                &&& attributes_owned(g.insert(id, l2))
                &&& g.insert(id, l2).dom() == g.dom()
            },
{
    assert forall|l2: L|
        l2.wf() && l2.vertex() == id && l2.incident() == g[id].incident() implies {
            &&& locales_wf(#[trigger] g.insert(id, l2))
            &&& edges_symmetric(g.insert(id, l2))
            &&& attributes_owned(g.insert(id, l2))
            &&& g.insert(id, l2).dom() == g.dom()
        } by {
        let g2 = g.insert(id, l2);
        assert(g2.dom() =~= g.dom());
        assert forall|a: V, b: V| #[trigger] has_record(g2, a, b) implies {
            &&& g2.contains_key(b)
            &&& a != b ==> has_record(g2, b, a) && relation(g2, b, a) == reverse(relation(g2, a, b))
            &&& a == b ==> relation(g2, a, b) != EdgeToVertexRelation::Incoming
        } by {
            assert(has_record(g, a, b));
            if a != b {
                assert(has_record(g, b, a));
            }
        }
        assert forall|a: V, b: V| #[trigger] has_record(g2, a, b) implies (g2[a].incident()[b].1 is Some
            <==> owns_edge(a, b, relation(g2, a, b))) by {
            assert(has_record(g, a, b));
        }
    }
}

/// The (first, second) endpoints of each listed edge.
pub open spec fn edge_pairs<E, V>(items: Seq<EdgeIteratorItem<E, V>>) -> Seq<(V, V)> {
    items.map_values(|x: EdgeIteratorItem<E, V>| (x.id1, x.id2))
}

/// A graph: a map from vertex identifier to the vertex's locale, and the
/// smallest unused vertex identifier.
pub struct Graph<EA, E, L, VA, V> {
    edge_list: HashMap<V, L>,
    min_free_vertex_id: V,
    phantom: PhantomData<(EA, E, VA)>,
}

impl<EA, E, L: Clone, VA, V: Id> Clone for Graph<EA, E, L, VA, V> {
    /// A deep copy: every locale, with its attributes, is copied.
    fn clone(&self) -> Self {
        Graph { edge_list: self.edge_list.clone(), min_free_vertex_id: self.min_free_vertex_id, phantom: PhantomData }
    }
}

impl<EA, E, L, VA, V> View for Graph<EA, E, L, VA, V> {
    type V = Map<V, L>;

    closed spec fn view(&self) -> Map<V, L> {
        self.edge_list@
    }
}

impl<EA: AttributeCollection, E: Id, L: Locale<EA, E, VA, V>, VA: AttributeCollection, V: Id> Graph<EA, E, L, VA, V> {
    /// The graph's invariant.
    pub open spec fn wf(&self) -> bool {
        &&& locales_wf(self@)
        &&& edges_symmetric(self@)
        &&& attributes_owned(self@)
        &&& forall|w: V| #[trigger] w.rank() < self.min_free_vertex_id().rank() ==> self@.contains_key(w)
        &&& self@.contains_key(self.min_free_vertex_id()) ==> self.min_free_vertex_id().rank() == V::max_rank()
    }

    /// An empty graph.
    pub fn new() -> (r: Self)
        ensures
            r.wf(),
            r@ == Map::<V, L>::empty(),
            r.min_free_vertex_id().rank() == V::min_rank(),
    {
        let r = Graph { edge_list: HashMap::new(), min_free_vertex_id: V::default(), phantom: PhantomData };
        proof {
            assert forall|w: V| #[trigger] w.rank() < r.min_free_vertex_id().rank() implies r@.contains_key(w) by {
                V::lemma_id_laws(&w, &w);
            }
        }
        r
    }

    /// Moves the smallest unused identifier forward past used ones.
    fn advance_min_free(&mut self)
        requires
            locales_wf(old(self)@),
            edges_symmetric(old(self)@),
            attributes_owned(old(self)@),
            forall|w: V| #[trigger] w.rank() < old(self).min_free_vertex_id().rank() ==> old(self)@.contains_key(w),
        ensures
            final(self).wf(),
            final(self)@ == old(self)@,
    {
        proof {
            V::lemma_key_model();
        }
        while self.edge_list.contains_key(&self.min_free_vertex_id) && !self.min_free_vertex_id.is_max()
            invariant
                obeys_key_model::<V>(),
                self@ == old(self)@,
                forall|w: V| #[trigger] w.rank() < self.min_free_vertex_id().rank() ==> self@.contains_key(w),
            decreases V::max_rank() - self.min_free_vertex_id.rank(),
        {
            let ghost m = self.min_free_vertex_id;
            proof {
                V::lemma_id_laws(&m, &m);
            }
            self.min_free_vertex_id.increment();
            proof {
                assert forall|w: V| #[trigger] w.rank() < self.min_free_vertex_id().rank() implies self@.contains_key(w) by {
                    V::lemma_id_laws(&w, &m);
                }
            }
        }
    }

    /// The endpoint that holds the attributes of the edge between `id1` and
    /// `id2` by the ownership rule, and the other endpoint.
    fn owner_of(&self, id1: &V, id2: &V, dir: EdgeDirection) -> (r: (V, V))
        requires
            self.wf(),
            has_record(self@, *id1, *id2),
            dir == direction_of(relation(self@, *id1, *id2)),
        ensures
            has_record(self@, r.0, r.1),
            self@[r.0].incident()[r.1].1 == edge_attributes(self@, *id1, *id2),
            self@[r.0].incident()[r.1].1 is Some,
            (r.0 == *id1 && r.1 == *id2) || (r.0 == *id2 && r.1 == *id1),
    {
        proof {
            V::lemma_id_laws(id1, id2);
            assert(has_record(self@, *id1, *id2));
            if *id1 != *id2 {
                assert(has_record(self@, *id2, *id1));
            }
        }
        match dir {
            EdgeDirection::Undirected => if id1.no_later_than(id2) {
                (*id1, *id2)
            } else {
                (*id2, *id1)
            },
            EdgeDirection::Directed1to2 => (*id1, *id2),
            EdgeDirection::Directed2to1 => (*id2, *id1),
        }
    }

    /// The locale of vertex `id`.
    pub(crate) fn locale(&self, id: &V) -> (r: Option<&L>)
        ensures
            match r {
                Some(l) => self@.contains_key(*id) && *l == self@[*id],
                None => !self@.contains_key(*id),
            },
    {
        proof {
            V::lemma_key_model();
        }
        self.edge_list.get(id)
    }

    /// A graph has finitely many vertices.
    pub proof fn lemma_finite(&self)
        ensures
            self@.dom().finite(),
    {
    }

    /// The degree of a vertex is the sum of its incoming, outgoing and
    /// undirected degrees.
    pub proof fn lemma_degree_decomposition(&self, v: V)
        requires
            self.wf(),
            self@.contains_key(v),
        ensures
            self@[v].incident().len() == ids_related(self@[v].incident(), EdgeToVertexRelation::Incoming).len()
                + ids_related(self@[v].incident(), EdgeToVertexRelation::Outgoing).len() + ids_related(
                self@[v].incident(),
                EdgeToVertexRelation::Undirected,
            ).len(),
    {
        let inc = self@[v].incident();
        self@[v].lemma_wf();
        let i = ids_related(inc, EdgeToVertexRelation::Incoming);
        let o = ids_related(inc, EdgeToVertexRelation::Outgoing);
        let u = ids_related(inc, EdgeToVertexRelation::Undirected);
        inc.dom().lemma_len_filter(|k: V| inc[k].0 == EdgeToVertexRelation::Incoming);
        inc.dom().lemma_len_filter(|k: V| inc[k].0 == EdgeToVertexRelation::Outgoing);
        inc.dom().lemma_len_filter(|k: V| inc[k].0 == EdgeToVertexRelation::Undirected);
        assert(i == inc.dom().filter(|k: V| inc[k].0 == EdgeToVertexRelation::Incoming));
        assert(o == inc.dom().filter(|k: V| inc[k].0 == EdgeToVertexRelation::Outgoing));
        assert(u == inc.dom().filter(|k: V| inc[k].0 == EdgeToVertexRelation::Undirected));
        assert(i.disjoint(o));
        vstd::set_lib::lemma_set_disjoint_lens(i, o);
        assert((i + o).disjoint(u));
        vstd::set_lib::lemma_set_disjoint_lens(i + o, u);
        assert(inc.dom() =~= i + o + u);
        assert(inc.len() == inc.dom().len());
    }

    /// Of the two endpoints of an edge between distinct vertices exactly one
    /// holds the edge's attributes, and it is the one that the ownership rule
    /// names.
    pub proof fn lemma_ownership_symmetry(&self, a: V, b: V)
        requires
            self.wf(),
            has_record(self@, a, b),
            a != b,
        ensures
            has_record(self@, b, a),
            (self@[a].incident()[b].1 is Some) != (self@[b].incident()[a].1 is Some),
            (self@[a].incident()[b].1 is Some) == owns_edge(a, b, relation(self@, a, b)),
    {
        V::lemma_id_laws(&a, &b);
        assert(has_record(self@, a, b));
        assert(has_record(self@, b, a));
    }

    /// Each edge between distinct vertices is listed once by the edge count:
    /// exactly one of its two orientations is a live edge.
    pub proof fn lemma_edge_counted_once(&self, a: V, b: V)
        requires
            self.wf(),
            has_record(self@, a, b),
            a != b,
        ensures
            live_edges(self@).contains((a, b)) != live_edges(self@).contains((b, a)),
    {
        self.lemma_ownership_symmetry(a, b);
    }

    /// An identifier freed below the smallest unused one becomes the smallest
    /// unused one: once `remove_v` has set `min_free_vertex_id` to `id`, the
    /// next automatic `add_v` can only hand out `id`.
    pub proof fn lemma_identifier_reuse(&self, id: V, next: V)
        requires
            self.wf(),
            self.min_free_vertex_id() == id,
            smallest_free(self@, next),
        ensures
            next == id,
    {
        V::lemma_id_laws(&id, &next);
        V::lemma_id_laws(&next, &id);
        if next.rank() < id.rank() {
            assert(self@.contains_key(next));
        }
        if id.rank() < next.rank() {
            assert(self@.contains_key(id));
        }
    }

    /// Replacing a vertex takes away as many edges as it had: where `after`
    /// is what `add_v(Some(id))` leaves of `before`, the edge count drops by
    /// the degree of `id`.
    pub proof fn lemma_replace_drops_degree(before: &Self, after: &Self, id: V)
        requires
            before.wf(),
            before@.contains_key(id),
            after@.dom() == before@.dom().insert(id),
            after@[id].incident() == Map::<V, EdgeRecord<EA>>::empty(),
            forall|v: V| #[trigger] after@.contains_key(v) && v != id ==> after@[v].incident() == before@[v].incident().remove(id),
        ensures
            endpoint_pairs(after@).len() + before@[id].incident().len() == endpoint_pairs(before@).len(),
    {
        let g0 = before@;
        let g1 = after@;
        before.lemma_finite();
        g0[id].lemma_wf();
        let p0 = endpoint_pairs(g0);
        let p1 = endpoint_pairs(g1);
        let dom = g0.dom();
        lemma_pairs_finite(dom);
        let all = Set::new(|p: (V, V)| dom.contains(p.0) && dom.contains(p.1));
        assert(p0.subset_of(all)) by {
            assert forall|p: (V, V)| p0.contains(p) implies all.contains(p) by {
                assert(has_record(g0, p.0, p.1));
            }
        }
        vstd::set_lib::lemma_len_subset(p0, all);
        let r = p0.filter(|p: (V, V)| p.0 == id || p.1 == id);
        assert(p1 =~= p0.difference(r)) by {
            assert forall|p: (V, V)| p1.contains(p) implies p0.difference(r).contains(p) by {
                assert(has_record(g1, p.0, p.1));
                if p.0 != id {
                    assert(g0[p.0].incident().remove(id).contains_key(p.1));
                }
            }
            assert forall|p: (V, V)| p0.difference(r).contains(p) implies p1.contains(p) by {
                assert(has_record(g0, p.0, p.1));
                assert(g1.contains_key(p.0));
                assert(g0[p.0].incident().remove(id).contains_key(p.1));
            }
        }
        let d = g0[id].incident().dom();
        let f = |b: V| ordered_pair((id, b));
        assert(injective_on(f, d)) by {
            assert forall|b1: V, b2: V| d.contains(b1) && d.contains(b2) && #[trigger] f(b1) == #[trigger] f(b2) implies b1 == b2 by {
                V::lemma_id_laws(&b1, &b2);
                V::lemma_id_laws(&id, &b1);
                V::lemma_id_laws(&id, &b2);
            }
        }
        assert(d.map(f) =~= r) by {
            assert forall|p: (V, V)| d.map(f).contains(p) implies r.contains(p) by {
                let b = choose|b: V| d.contains(b) && f(b) == p;
                assert(has_record(g0, id, b));
                if b != id {
                    assert(has_record(g0, b, id));
                }
            }
            assert forall|p: (V, V)| r.contains(p) implies d.map(f).contains(p) by {
                assert(has_record(g0, p.0, p.1));
                V::lemma_id_laws(&p.0, &p.1);
                if p.0 == id {
                    assert(f(p.1) == p);
                } else {
                    assert(has_record(g0, p.1, p.0));
                    assert(f(p.0) == p);
                }
            }
        }
        vstd::set_lib::lemma_map_size(d, r, f);
        vstd::set_lib::lemma_len_subset(r, p0);
        vstd::set_lib::lemma_len_subset(p0.difference(r), p0);
        assert(p0 =~= p0.difference(r) + r);
        vstd::set_lib::lemma_set_disjoint_lens(p0.difference(r), r);
        assert(g0[id].incident().len() == d.len());
    }

    /// A locale of a well-formed graph has room for one more neighbour.
    proof fn lemma_locale_room(&self, a: V, b: V)
        requires
            self.wf(),
            self@.contains_key(a),
            self@.contains_key(b),
        ensures
            self@[a].incident().dom().insert(b).len() <= usize::MAX,
    {
        V::lemma_key_model();
        let l = self@[a];
        l.lemma_wf();
        assert(l.incident().dom().insert(b).subset_of(self@.dom())) by {
            assert forall|x: V| l.incident().dom().insert(b).contains(x) implies self@.dom().contains(x) by {
                if x != b {
                    assert(has_record(self@, a, x));
                }
            }
        }
        vstd::set_lib::lemma_len_subset(l.incident().dom().insert(b), self@.dom());
        assert(self@.len() == self.edge_list.len());
    }
}

impl<EA: AttributeCollection, E: Id, L: Locale<EA, E, VA, V>, VA: AttributeCollection, V: Id> Default for Graph<
    EA,
    E,
    L,
    VA,
    V,
> {
    /// An empty graph.
    fn default() -> (r: Self)
        ensures
            r.wf(),
            r@ == Map::<V, L>::empty(),
    {
        Graph::new()
    }
}

/// Queries on a graph that leave it unchanged.
pub trait BasicImmutableGraph<EA: AttributeCollection, E: Id, VA: AttributeCollection, V: Id>: Sized {
    /// The locale type of the graph.
    type LocaleType: Locale<EA, E, VA, V>;

    /// The vertices, each with its locale.
    spec fn locales(&self) -> Map<V, Self::LocaleType>;

    /// The identifier that the next automatic vertex insertion hands out.
    spec fn min_free_vertex_id(&self) -> V;

    /// The graph's invariant.
    spec fn valid(&self) -> bool;

    /// The direction of the edge between `id1` and `id2`, if both vertices
    /// and the edge exist.
    fn contains_e(&self, id1: &V, id2: &V, edge_id: &E) -> (r: Option<EdgeDirection>)
        requires
            self.valid(),
        ensures
            r == (if has_record(self.locales(), *id1, *id2) {
                Some(direction_of(relation(self.locales(), *id1, *id2)))
            } else {
                None
            }),
    ;

    /// Whether vertex `id` exists.
    fn contains_v(&self, id: &V) -> (r: bool)
        ensures
            r == self.locales().contains_key(*id),
    ;

    /// Number of edges, each counted once through the endpoint that owns it.
    fn count_e(&self) -> (r: usize)
        requires
            self.valid(),
        ensures
            r == live_edges(self.locales()).len(),
            r == endpoint_pairs(self.locales()).len(),
    ;

    /// Number of vertices.
    fn count_v(&self) -> (r: usize)
        ensures
            r == self.locales().len(),
    ;

    /// The attributes of the edge between `id1` and `id2`, read from the
    /// endpoint that owns them. Fails where the edge or a vertex is missing.
    fn e_attrs(&self, id1: &V, id2: &V, edge_id: &E) -> (r: CrabNetsResult<&EA>)
        requires
            self.valid(),
        ensures
            match r {
                Ok(a) => has_record(self.locales(), *id1, *id2) && edge_attributes(self.locales(), *id1, *id2) == Some(*a),
                Err(_) => !has_record(self.locales(), *id1, *id2),
            },
    ;

    /// The edges, each once, as listed by the endpoint that owns them.
    fn iter_e(&self) -> (r: Vec<EdgeIteratorItem<E, V>>)
        requires
            self.valid(),
        ensures
            edge_pairs(r@).to_set() == live_edges(self.locales()),
            edge_pairs(r@).no_duplicates(),
            forall|j: int|
                0 <= j < r@.len() ==> {
                    &&& has_record(self.locales(), (#[trigger] r@[j]).id1, r@[j].id2)
                    &&& r@[j].direction == direction_of(relation(self.locales(), r@[j].id1, r@[j].id2))
                    &&& r@[j].edge_id.rank() == E::min_rank()
                },
    ;

    /// The vertices, each once.
    fn iter_v(&self) -> (r: Vec<V>)
        ensures
            lists_ids(r@, self.locales().dom()),
    ;

    /// The attributes of vertex `id`.
    fn v_attrs(&self, id: &V) -> (r: CrabNetsResult<&VA>)
        ensures
            match r {
                Ok(a) => self.locales().contains_key(*id) && *a == self.locales()[*id].attributes(),
                Err(_) => !self.locales().contains_key(*id),
            },
    ;

    /// Number of edges at vertex `id`.
    fn v_degree(&self, id: &V) -> (r: CrabNetsResult<usize>)
        requires
            self.valid(),
        ensures
            match r {
                Ok(n) => self.locales().contains_key(*id) && n == self.locales()[*id].incident().len(),
                Err(_) => !self.locales().contains_key(*id),
            },
    ;

    /// Number of edges directed towards vertex `id`.
    fn v_degree_in(&self, id: &V) -> (r: CrabNetsResult<usize>)
        requires
            self.valid(),
        ensures
            match r {
                Ok(n) => self.locales().contains_key(*id) && n == ids_related(
                    self.locales()[*id].incident(),
                    EdgeToVertexRelation::Incoming,
                ).len(),
                Err(_) => !self.locales().contains_key(*id),
            },
    ;

    /// Number of edges directed away from vertex `id`.
    fn v_degree_out(&self, id: &V) -> (r: CrabNetsResult<usize>)
        requires
            self.valid(),
        ensures
            match r {
                Ok(n) => self.locales().contains_key(*id) && n == ids_related(
                    self.locales()[*id].incident(),
                    EdgeToVertexRelation::Outgoing,
                ).len(),
                Err(_) => !self.locales().contains_key(*id),
            },
    ;

    /// Number of undirected edges at vertex `id`.
    fn v_degree_undir(&self, id: &V) -> (r: CrabNetsResult<usize>)
        requires
            self.valid(),
        ensures
            match r {
                Ok(n) => self.locales().contains_key(*id) && n == ids_related(
                    self.locales()[*id].incident(),
                    EdgeToVertexRelation::Undirected,
                ).len(),
                Err(_) => !self.locales().contains_key(*id),
            },
    ;
}

/// Operations that change a graph.
pub trait BasicMutableGraph<EA: AttributeCollection, E: Id, VA: AttributeCollection, V: Id>: BasicImmutableGraph<EA, E, VA, V> {
    /// Adds an edge between `id1` and `id2`, directed from `id1` to `id2`
    /// where `directed` holds and the locales keep directions, and replaces
    /// any earlier edge between the two. Fails where a vertex is missing.
    fn add_e(&mut self, id1: &V, id2: &V, directed: bool, edge_id: Option<E>) -> (r: CrabNetsResult<E>)
        requires
            old(self).valid(),
        ensures
            final(self).valid(),
            final(self).min_free_vertex_id() == old(self).min_free_vertex_id(),
            r is Ok <==> old(self).locales().contains_key(*id1) && old(self).locales().contains_key(*id2),
            r is Err ==> final(self).locales() == old(self).locales(),
            r is Ok ==> {
                &&& r->Ok_0.rank() == E::min_rank()
                &&& final(self).locales().dom() == old(self).locales().dom()
                &&& has_record(final(self).locales(), *id1, *id2)
                &&& edge_attributes(final(self).locales(), *id1, *id2) is Some
                &&& edge_attributes(final(self).locales(), *id1, *id2)->Some_0.is_new()
                &&& relation(final(self).locales(), *id1, *id2) == (if directed && Self::LocaleType::keeps_direction() {
                    EdgeToVertexRelation::Outgoing
                } else {
                    EdgeToVertexRelation::Undirected
                })
                &&& forall|v: V| #[trigger] final(self).locales().contains_key(v) ==> final(self).locales()[v].attributes() == old(self).locales()[v].attributes()
                &&& forall|a: V, b: V|
                    !((a == *id1 && b == *id2) || (a == *id2 && b == *id1)) ==> (#[trigger] has_record(
                        final(self).locales(),
                        a,
                        b,
                    ) == has_record(old(self).locales(), a, b) && (has_record(old(self).locales(), a, b)
                        ==> final(self).locales()[a].incident()[b] == old(self).locales()[a].incident()[b]))
            },
    ;

    /// Adds a vertex at `id`, replacing any vertex there together with its
    /// edges; without an identifier, at the smallest unused one. Returns the
    /// new vertex's identifier.
    fn add_v(&mut self, id: Option<V>) -> (r: V)
        requires
            old(self).valid(),
            id is None ==> exists|v: V| !old(self).locales().contains_key(v),
        ensures
            final(self).valid(),
            id is Some ==> r == id->Some_0,
            id is None ==> smallest_free(old(self).locales(), r),
            final(self).locales().dom() == old(self).locales().dom().insert(r),
            final(self).locales()[r].incident() == Map::<V, EdgeRecord<EA>>::empty(),
            final(self).locales()[r].attributes().is_new(),
            forall|v: V| #[trigger] final(self).locales().contains_key(v) && v != r ==> {
                &&& final(self).locales()[v].incident() == old(self).locales()[v].incident().remove(r)
                &&& final(self).locales()[v].attributes() == old(self).locales()[v].attributes()
            },
    ;

    /// Mutable access to the attributes of the edge between `id1` and `id2`,
    /// at the endpoint that owns them. Fails where the edge or a vertex is
    /// missing.
    fn e_attrs_mut(&mut self, id1: &V, id2: &V, edge_id: &E) -> (r: CrabNetsResult<&mut EA>)
        requires
            old(self).valid(),
        ensures
            match r {
                Ok(a) => {
                    &&& has_record(old(self).locales(), *id1, *id2)
                    &&& edge_attributes(old(self).locales(), *id1, *id2) == Some(*a)
                    &&& final(self).valid()
                    &&& final(self).min_free_vertex_id() == old(self).min_free_vertex_id()
                    &&& edge_attributes(final(self).locales(), *id1, *id2) == Some(*final(a))
                    &&& same_topology(old(self).locales(), final(self).locales())
                    &&& forall|x: V, y: V|
                        #[trigger] has_record(old(self).locales(), x, y) && !((x == *id1 && y == *id2) || (x == *id2
                            && y == *id1)) ==> final(self).locales()[x].incident()[y] == old(self).locales()[x].incident()[y]
                },
                Err(_) => {
                    &&& !has_record(old(self).locales(), *id1, *id2)
                    &&& final(self).locales() == old(self).locales()
                    &&& final(self).min_free_vertex_id() == old(self).min_free_vertex_id()
                },
            },
    ;

    /// Removes the edge between `id1` and `id2` from both endpoints; tells
    /// whether it existed. Fails where a vertex is missing.
    fn remove_e(&mut self, id1: &V, id2: &V, edge_id: &E) -> (r: CrabNetsResult<bool>)
        requires
            old(self).valid(),
        ensures
            final(self).valid(),
            final(self).min_free_vertex_id() == old(self).min_free_vertex_id(),
            r is Ok <==> old(self).locales().contains_key(*id1) && old(self).locales().contains_key(*id2),
            r is Err ==> final(self).locales() == old(self).locales(),
            r is Ok ==> {
                &&& r->Ok_0 == has_record(old(self).locales(), *id1, *id2)
                &&& final(self).locales().dom() == old(self).locales().dom()
                &&& forall|v: V| #[trigger] final(self).locales().contains_key(v) ==> final(self).locales()[v].attributes() == old(self).locales()[v].attributes()
                &&& forall|a: V, b: V|
                    #[trigger] has_record(final(self).locales(), a, b) == (has_record(old(self).locales(), a, b) && !((a == *id1
                        && b == *id2) || (a == *id2 && b == *id1)))
                &&& forall|a: V, b: V|
                    #[trigger] has_record(final(self).locales(), a, b) ==> final(self).locales()[a].incident()[b]
                        == old(self).locales()[a].incident()[b]
            },
    ;

    /// Removes vertex `id` and every edge at it; tells whether it existed.
    fn remove_v(&mut self, id: &V) -> (r: bool)
        requires
            old(self).valid(),
        ensures
            final(self).valid(),
            r == old(self).locales().contains_key(*id),
            !r ==> final(self).locales() == old(self).locales() && final(self).min_free_vertex_id() == old(self).min_free_vertex_id(),
            r ==> {
                &&& final(self).locales().dom() == old(self).locales().dom().remove(*id)
                &&& forall|v: V| #[trigger] final(self).locales().contains_key(v) ==> {
                    &&& final(self).locales()[v].incident() == old(self).locales()[v].incident().remove(*id)
                    &&& final(self).locales()[v].attributes() == old(self).locales()[v].attributes()
                }
                &&& final(self).min_free_vertex_id() == (if id.rank() < old(self).min_free_vertex_id().rank() {
                    *id
                } else {
                    old(self).min_free_vertex_id()
                })
            },
    ;

    /// Mutable access to the attributes of vertex `id`.
    fn v_attrs_mut(&mut self, id: &V) -> (r: CrabNetsResult<&mut VA>)
        requires
            old(self).valid(),
        ensures
            match r {
                Ok(a) => {
                    &&& old(self).locales().contains_key(*id)
                    &&& *a == old(self).locales()[*id].attributes()
                    &&& final(self).valid()
                    &&& final(self).min_free_vertex_id() == old(self).min_free_vertex_id()
                    &&& final(self).locales().dom() == old(self).locales().dom()
                    &&& final(self).locales()[*id].attributes() == *final(a)
                    &&& forall|v: V| #[trigger] final(self).locales().contains_key(v) ==> final(self).locales()[v].incident() == old(self).locales()[v].incident()
                    &&& forall|v: V| #[trigger] final(self).locales().contains_key(v) && v != *id ==> final(self).locales()[v].attributes() == old(self).locales()[v].attributes()
                },
                Err(_) => {
                    &&& !old(self).locales().contains_key(*id)
                    &&& final(self).locales() == old(self).locales()
                    &&& final(self).min_free_vertex_id() == old(self).min_free_vertex_id()
                },
            },
    ;
}

impl<EA: AttributeCollection, E: Id, L: Locale<EA, E, VA, V>, VA: AttributeCollection, V: Id> BasicImmutableGraph<EA, E, VA, V> for Graph<
    EA,
    E,
    L,
    VA,
    V,
> {
    type LocaleType = L;

    open spec fn locales(&self) -> Map<V, L> {
        self@
    }

    closed spec fn min_free_vertex_id(&self) -> V {
        self.min_free_vertex_id
    }

    open spec fn valid(&self) -> bool {
        self.wf()
    }

    fn contains_e(&self, id1: &V, id2: &V, edge_id: &E) -> (r: Option<EdgeDirection>)
    {
        proof {
            V::lemma_key_model();
        }
        match self.edge_list.get(id1) {
            Some(locale) => locale.e_direction(id2, edge_id),
            None => None,
        }
    }

    fn contains_v(&self, id: &V) -> (r: bool)
    {
        proof {
            V::lemma_key_model();
        }
        self.edge_list.contains_key(id)
    }

    fn count_e(&self) -> (r: usize)
    {
        let edges = self.iter_e();
        proof {
            let ps = edge_pairs(edges@);
            ps.unique_seq_to_set();
            let qs = ps.map_values(|p: (V, V)| ordered_pair(p));
            assert forall|i: int, j: int| 0 <= i < qs.len() && 0 <= j < qs.len() && i != j implies qs[i] != qs[j] by {
                let (p, q) = (ps[i], ps[j]);
                assert(ps.to_set().contains(p) && ps.to_set().contains(q));
                V::lemma_id_laws(&p.0, &p.1);
                V::lemma_id_laws(&q.0, &q.1);
                V::lemma_id_laws(&p.0, &q.0);
                V::lemma_id_laws(&p.1, &q.1);
                V::lemma_id_laws(&p.0, &q.1);
                if qs[i] == qs[j] {
                    assert(p != q);
                    assert(p.0 == q.1 && p.1 == q.0);
                    self.lemma_edge_counted_once(p.0, p.1);
                }
            }
            assert(qs.to_set() =~= endpoint_pairs(self@)) by {
                assert forall|p: (V, V)| qs.to_set().contains(p) implies endpoint_pairs(self@).contains(p) by {
                    let i = choose|i: int| 0 <= i < qs.len() && qs[i] == p;
                    assert(ps.to_set().contains(ps[i]));
                    let a = ps[i].0;
                    let b = ps[i].1;
                    V::lemma_id_laws(&a, &b);
                    if a != b {
                        assert(has_record(self@, a, b));
                        assert(has_record(self@, b, a));
                    }
                }
                assert forall|p: (V, V)| endpoint_pairs(self@).contains(p) implies qs.to_set().contains(p) by {
                    let (x, y) = p;
                    V::lemma_id_laws(&x, &y);
                    assert(has_record(self@, x, y));
                    if x != y {
                        assert(has_record(self@, y, x));
                    }
                    let w = if live_edges(self@).contains((x, y)) { (x, y) } else { (y, x) };
                    assert(live_edges(self@).contains(w));
                    assert(ps.to_set().contains(w));
                    let i = choose|i: int| 0 <= i < ps.len() && ps[i] == w;
                    assert(qs[i] == p);
                }
            }
            qs.unique_seq_to_set();
        }
        edges.len()
    }

    fn count_v(&self) -> (r: usize)
    {
        proof {
            V::lemma_key_model();
        }
        self.edge_list.len()
    }

    fn e_attrs(&self, id1: &V, id2: &V, edge_id: &E) -> (r: CrabNetsResult<&EA>)
    {
        proof {
            V::lemma_key_model();
        }
        let dir = match self.contains_e(id1, id2, edge_id) {
            Some(d) => d,
            None => {
                return Err(edge_missing("Graph::BasicImmutableGraph::e_attrs"));
            },
        };
        let (owner, other) = self.owner_of(id1, id2, dir);
        match self.edge_list.get(&owner) {
            Some(locale) => match locale.e_attrs(&other, edge_id) {
                Some(a) => Ok(a),
                None => Err(edge_missing("Graph::BasicImmutableGraph::e_attrs")),
            },
            None => Err(edge_missing("Graph::BasicImmutableGraph::e_attrs")),
        }
    }

    fn iter_e(&self) -> (r: Vec<EdgeIteratorItem<E, V>>)
    {
        proof {
            V::lemma_key_model();
        }
        let ks = keys_of(&self.edge_list);
        let ghost g = self@;
        let mut r: Vec<EdgeIteratorItem<E, V>> = Vec::new();
        let mut i: usize = 0;
        while i < ks.len()
            invariant
                obeys_key_model::<V>(),
                self.wf(),
                g == self@,
                lists_ids(ks@, g.dom()),
                i <= ks.len(),
                edge_pairs(r@).no_duplicates(),
                forall|p: (V, V)|
                    #![trigger edge_pairs(r@).contains(p)]
                    #![trigger live_edges(g).contains(p)]
                    edge_pairs(r@).contains(p) <==> (live_edges(g).contains(p) && ks@.take(i as int).contains(p.0)),
                forall|j: int|
                    0 <= j < r@.len() ==> {
                        &&& has_record(g, (#[trigger] r@[j]).id1, r@[j].id2)
                        &&& r@[j].direction == direction_of(relation(g, r@[j].id1, r@[j].id2))
                        &&& r@[j].edge_id.rank() == E::min_rank()
                    },
            decreases ks.len() - i,
        {
            let a = ks[i];
            proof {
                assert(ks@.to_set().contains(a));
            }
            let mut items = match self.edge_list.get(&a) {
                Some(locale) => locale.iter_incident_e_with_attrs(),
                None => Vec::new(),
            };
            let ghost r0 = r@;
            let ghost it = items@;
            proof {
                let inc = g[a].incident();
                assert(it.map_values(|x: EdgeIteratorItem<E, V>| x.id2).to_set() == owned_ids(a, inc));
                assert forall|j: int| 0 <= j < it.len() implies #[trigger] edge_pairs(it)[j] == (a, it[j].id2)
                    && owned_ids(a, inc).contains(it[j].id2) by {
                    assert(it.map_values(|x: EdgeIteratorItem<E, V>| x.id2)[j] == it[j].id2);
                }
                assert(edge_pairs(it).no_duplicates()) by {
                    assert forall|j: int, k: int| 0 <= j < it.len() && 0 <= k < it.len() && j != k implies edge_pairs(it)[j] != edge_pairs(it)[k] by {
                        assert(it.map_values(|x: EdgeIteratorItem<E, V>| x.id2)[j] == it[j].id2);
                        assert(it.map_values(|x: EdgeIteratorItem<E, V>| x.id2)[k] == it[k].id2);
                    }
                }
                assert forall|j: int, k: int| 0 <= j < r0.len() && 0 <= k < it.len() implies edge_pairs(r0)[j] != edge_pairs(it)[k] by {
                    let p = edge_pairs(r0)[j];
                    assert(edge_pairs(r0).contains(p));
                    assert(live_edges(g).contains(p) && ks@.take(i as int).contains(p.0));
                    if p == edge_pairs(it)[k] {
                        assert(p.0 == a);
                        let m = choose|m: int| 0 <= m < ks@.take(i as int).len() && ks@.take(i as int)[m] == a;
                        assert(ks@[m] == ks@[i as int]);
                    }
                }
                vstd::seq_lib::lemma_no_dup_in_concat(edge_pairs(r0), edge_pairs(it));
                assert(edge_pairs(r0 + it) =~= edge_pairs(r0) + edge_pairs(it));
            }
            r.append(&mut items);
            proof {
                let inc = g[a].incident();
                assert(r@ == r0 + it);
                assert(ks@.take(i as int + 1) == ks@.take(i as int).push(a));
                assert forall|p: (V, V)|
                    #![trigger edge_pairs(r@).contains(p)]
                    #![trigger live_edges(g).contains(p)]
                    edge_pairs(r@).contains(p) <==> (live_edges(g).contains(p) && ks@.take(i as int + 1).contains(p.0)) by {
                    if edge_pairs(r@).contains(p) {
                        let j = choose|j: int| 0 <= j < edge_pairs(r@).len() && edge_pairs(r@)[j] == p;
                        if j < r0.len() {
                            assert(edge_pairs(r0)[j] == p);
                            assert(edge_pairs(r0).contains(p));
                        } else {
                            assert(edge_pairs(it)[j - r0.len()] == p);
                            assert(ks@.take(i as int + 1)[i as int] == a);
                        }
                    }
                    if live_edges(g).contains(p) && ks@.take(i as int + 1).contains(p.0) {
                        if ks@.take(i as int).contains(p.0) {
                            let j = choose|j: int| 0 <= j < edge_pairs(r0).len() && edge_pairs(r0)[j] == p;
                            assert(edge_pairs(r@)[j] == p);
                        } else {
                            assert(p.0 == a);
                            assert(owned_ids(a, inc).contains(p.1));
                            assert(it.map_values(|x: EdgeIteratorItem<E, V>| x.id2).to_set().contains(p.1));
                            let ids2 = it.map_values(|x: EdgeIteratorItem<E, V>| x.id2);
                            assert(ids2.contains(p.1));
                            let k = choose|k: int| 0 <= k < ids2.len() && #[trigger] ids2[k] == p.1;
                            assert(edge_pairs(it)[k] == p);
                            assert(edge_pairs(r@)[r0.len() + k] == p);
                        }
                    }
                }
                assert forall|j: int| 0 <= j < r@.len() implies {
                    &&& has_record(g, (#[trigger] r@[j]).id1, r@[j].id2)
                    &&& r@[j].direction == direction_of(relation(g, r@[j].id1, r@[j].id2))
                    &&& r@[j].edge_id.rank() == E::min_rank()
                } by {
                    if j >= r0.len() {
                        assert(r@[j] == it[j - r0.len()]);
                        assert(edge_pairs(it)[j - r0.len()] == (a, it[j - r0.len()].id2));
                    }
                }
            }
            i += 1;
        }
        proof {
            assert(ks@.take(ks@.len() as int) == ks@);
            assert(edge_pairs(r@).to_set() =~= live_edges(g)) by {
                assert forall|p: (V, V)| live_edges(g).contains(p) implies ks@.contains(p.0) by {
                    assert(ks@.to_set().contains(p.0));
                }
            }
        }
        r
    }

    fn iter_v(&self) -> (r: Vec<V>)
    {
        proof {
            V::lemma_key_model();
        }
        keys_of(&self.edge_list)
    }

    fn v_attrs(&self, id: &V) -> (r: CrabNetsResult<&VA>)
    {
        proof {
            V::lemma_key_model();
        }
        match self.edge_list.get(id) {
            Some(locale) => Ok(locale.v_attrs()),
            None => Err(vertex_missing("Graph::BasicMutableGraph::v_attrs")),
        }
    }

    fn v_degree(&self, id: &V) -> (r: CrabNetsResult<usize>)
    {
        proof {
            V::lemma_key_model();
        }
        match self.edge_list.get(id) {
            Some(locale) => Ok(locale.count_neighbours()),
            None => Err(vertex_missing("Graph::BasicImmutableGraph::v_degree")),
        }
    }

    fn v_degree_in(&self, id: &V) -> (r: CrabNetsResult<usize>)
    {
        proof {
            V::lemma_key_model();
        }
        match self.edge_list.get(id) {
            Some(locale) => Ok(locale.count_neighbours_in()),
            None => Err(vertex_missing("Graph::BasicImmutableGraph::v_degree_in")),
        }
    }

    fn v_degree_out(&self, id: &V) -> (r: CrabNetsResult<usize>)
    {
        proof {
            V::lemma_key_model();
        }
        match self.edge_list.get(id) {
            Some(locale) => Ok(locale.count_neighbours_out()),
            None => Err(vertex_missing("Graph::BasicImmutableGraph::v_degree_out")),
        }
    }

    fn v_degree_undir(&self, id: &V) -> (r: CrabNetsResult<usize>)
    {
        proof {
            V::lemma_key_model();
        }
        match self.edge_list.get(id) {
            Some(locale) => Ok(locale.count_neighbours_undir()),
            None => Err(vertex_missing("Graph::BasicImmutableGraph::v_degree_undir")),
        }
    }
}

impl<EA: AttributeCollection, E: Id, L: Locale<EA, E, VA, V>, VA: AttributeCollection, V: Id> BasicMutableGraph<EA, E, VA, V> for Graph<
    EA,
    E,
    L,
    VA,
    V,
> {
    fn add_e(&mut self, id1: &V, id2: &V, directed: bool, edge_id: Option<E>) -> (r: CrabNetsResult<E>)
    {
        proof {
            V::lemma_key_model();
        }
        if !self.edge_list.contains_key(id1) {
            return Err(vertex_missing("Graph::BasicMutableGraph::add_e"));
        }
        if !self.edge_list.contains_key(id2) {
            return Err(vertex_missing("Graph::BasicMutableGraph::add_e"));
        }
        let ghost g = self@;
        let dir = directed && L::keeps_directions();
        let rel1 = if dir {
            EdgeToVertexRelation::Outgoing
        } else {
            EdgeToVertexRelation::Undirected
        };
        let rel2 = if dir {
            EdgeToVertexRelation::Incoming
        } else {
            EdgeToVertexRelation::Undirected
        };
        let a = *id1;
        let b = *id2;
        proof {
            V::lemma_id_laws(&a, &b);
            self.lemma_locale_room(a, b);
            self.lemma_locale_room(b, a);
        }
        if a.no_later_than(&b) && b.no_later_than(&a) {
            let mut la = match self.edge_list.remove(&a) {
                Some(locale) => locale,
                None => {
                    return Err(vertex_missing("Graph::BasicMutableGraph::add_e"));
                },
            };
            let e = la.add_e(b, rel1, edge_id, true);
            self.edge_list.insert(a, la);
            proof {
                assert(self@ == g.insert(a, la));
                assert(a == b);
                assert forall|y: V| y != b implies (la.incident().contains_key(y) == g[a].incident().contains_key(y)
                    && (la.incident().contains_key(y) ==> la.incident()[y] == g[a].incident()[y])) by {
                    assert(la.incident().remove(b).contains_key(y) == g[a].incident().remove(b).contains_key(y));
                    if la.incident().contains_key(y) {
                        assert(la.incident().remove(b)[y] == g[a].incident().remove(b)[y]);
                    }
                }
                assert forall|x: V, y: V| #[trigger] has_record(self@, x, y) implies {
                    &&& self@.contains_key(y)
                    &&& x != y ==> has_record(self@, y, x) && relation(self@, y, x) == reverse(relation(self@, x, y))
                    &&& x == y ==> relation(self@, x, y) != EdgeToVertexRelation::Incoming
                } by {
                    if x == a && y != a {
                        assert(has_record(g, x, y));
                    } else if x != a && y == a {
                        assert(has_record(g, x, y));
                    } else if x != a {
                        assert(has_record(g, x, y));
                    }
                }
                assert forall|x: V, y: V| #[trigger] has_record(self@, x, y) implies (self@[x].incident()[y].1 is Some
                    <==> owns_edge(x, y, relation(self@, x, y))) by {
                    if !(x == a && y == a) {
                        assert(has_record(g, x, y));
                    }
                }
                assert forall|x: V, y: V|
                    !((x == *id1 && y == *id2) || (x == *id2 && y == *id1)) implies (#[trigger] has_record(
                        self@,
                        x,
                        y,
                    ) == has_record(g, x, y) && (has_record(g, x, y)
                        ==> self@[x].incident()[y] == g[x].incident()[y])) by {
                    if x == a {
                        assert(y != b);
                        assert(la.incident().remove(b).contains_key(y) == g[a].incident().remove(b).contains_key(y));
                    }
                }
                assert(self@.dom() =~= g.dom());
            }
            return Ok(e);
        }
        let store1 = dir || a.no_later_than(&b);
        let store2 = !dir && b.no_later_than(&a);
        let mut la = match self.edge_list.remove(&a) {
            Some(locale) => locale,
            None => {
                return Err(vertex_missing("Graph::BasicMutableGraph::add_e"));
            },
        };
        let e = la.add_e(b, rel1, edge_id, store1);
        self.edge_list.insert(a, la);
        let mut lb = match self.edge_list.remove(&b) {
            Some(locale) => locale,
            None => {
                return Err(vertex_missing("Graph::BasicMutableGraph::add_e"));
            },
        };
        lb.add_e(a, rel2, Some(e), store2);
        self.edge_list.insert(b, lb);
        proof {
            assert(self@ == g.insert(a, la).insert(b, lb));
            assert(a != b);
            assert forall|y: V| y != b implies (la.incident().contains_key(y) == g[a].incident().contains_key(y)
                && (la.incident().contains_key(y) ==> la.incident()[y] == g[a].incident()[y])) by {
                assert(la.incident().remove(b).contains_key(y) == g[a].incident().remove(b).contains_key(y));
                if la.incident().contains_key(y) {
                    assert(la.incident().remove(b)[y] == g[a].incident().remove(b)[y]);
                }
            }
            assert forall|y: V| y != a implies (lb.incident().contains_key(y) == g[b].incident().contains_key(y)
                && (lb.incident().contains_key(y) ==> lb.incident()[y] == g[b].incident()[y])) by {
                assert(lb.incident().remove(a).contains_key(y) == g[b].incident().remove(a).contains_key(y));
                if lb.incident().contains_key(y) {
                    assert(lb.incident().remove(a)[y] == g[b].incident().remove(a)[y]);
                }
            }
            assert forall|x: V, y: V| #[trigger] has_record(self@, x, y) implies {
                &&& self@.contains_key(y)
                &&& x != y ==> has_record(self@, y, x) && relation(self@, y, x) == reverse(relation(self@, x, y))
                &&& x == y ==> relation(self@, x, y) != EdgeToVertexRelation::Incoming
            } by {
                if x == a && y == b {
                } else if x == b && y == a {
                } else {
                    assert(has_record(g, x, y));
                    if x != y {
                        assert(has_record(g, y, x));
                    }
                }
            }
            assert forall|x: V, y: V| #[trigger] has_record(self@, x, y) implies (self@[x].incident()[y].1 is Some
                <==> owns_edge(x, y, relation(self@, x, y))) by {
                if !((x == a && y == b) || (x == b && y == a)) {
                    assert(has_record(g, x, y));
                }
            }
            assert forall|x: V, y: V|
                !((x == *id1 && y == *id2) || (x == *id2 && y == *id1)) implies (#[trigger] has_record(
                    self@,
                    x,
                    y,
                ) == has_record(g, x, y) && (has_record(g, x, y)
                    ==> self@[x].incident()[y] == g[x].incident()[y])) by {
                if x == a {
                    assert(la.incident().remove(b).contains_key(y) == g[a].incident().remove(b).contains_key(y));
                }
                if x == b {
                    assert(lb.incident().remove(a).contains_key(y) == g[b].incident().remove(a).contains_key(y));
                }
            }
            assert(self@.dom() =~= g.dom());
        }
        Ok(e)
    }

    fn add_v(&mut self, id: Option<V>) -> (r: V)
    {
        proof {
            V::lemma_key_model();
        }
        let ghost g = self@;
        let v = match id {
            Some(v) => {
                self.remove_v(&v);
                v
            },
            None => {
                let v = self.min_free_vertex_id;
                proof {
                    let w = choose|w: V| !g.contains_key(w);
                    V::lemma_id_laws(&w, &v);
                    assert(!g.contains_key(v));
                    assert forall|x: V| #[trigger] x.rank() < v.rank() implies g.contains_key(x) by {}
                    assert forall|x: V| #[trigger] self@.contains_key(x) && x != v implies self@[x].incident()
                        == g[x].incident().remove(v) by {
                        if g[x].incident().contains_key(v) {
                            assert(has_record(g, x, v));
                        }
                        assert(g[x].incident().remove(v) =~= g[x].incident());
                    }
                }
                v
            },
        };
        let ghost g1 = self@;
        proof {
            assert forall|x: V| #[trigger] g1.contains_key(x) && x != v implies {
                &&& g1[x].incident() == g[x].incident().remove(v)
                &&& g1[x].attributes() == g[x].attributes()
            } by {
                if !g.contains_key(v) {
                    if g[x].incident().contains_key(v) {
                        assert(has_record(g, x, v));
                    }
                    assert(g[x].incident().remove(v) =~= g[x].incident());
                }
            }
        }
        self.edge_list.insert(v, L::new(v));
        proof {
            assert forall|x: V, y: V| #[trigger] has_record(self@, x, y) implies {
                &&& self@.contains_key(y)
                &&& x != y ==> has_record(self@, y, x) && relation(self@, y, x) == reverse(relation(self@, x, y))
                &&& x == y ==> relation(self@, x, y) != EdgeToVertexRelation::Incoming
            } by {
                assert(has_record(g1, x, y));
                if x != y {
                    assert(has_record(g1, y, x));
                }
            }
            assert forall|x: V, y: V| #[trigger] has_record(self@, x, y) implies (self@[x].incident()[y].1 is Some
                <==> owns_edge(x, y, relation(self@, x, y))) by {
                assert(has_record(g1, x, y));
            }
        }
        self.advance_min_free();
        v
    }

    fn e_attrs_mut(&mut self, id1: &V, id2: &V, edge_id: &E) -> (r: CrabNetsResult<&mut EA>)
    {
        proof {
            V::lemma_key_model();
        }
        let dir = match self.contains_e(id1, id2, edge_id) {
            Some(d) => d,
            None => {
                return Err(edge_missing("Graph::BasicMutableGraph::e_attrs_mut"));
            },
        };
        let (owner, other) = self.owner_of(id1, id2, dir);
        proof {
            lemma_attrs_update(self@, owner, other, *id1, *id2);
        }
        match map_get_mut(&mut self.edge_list, &owner) {
            Some(locale) => match locale.e_attrs_mut(&other, edge_id) {
                Some(a) => Ok(a),
                None => Err(edge_missing("Graph::BasicMutableGraph::e_attrs_mut")),
            },
            None => Err(edge_missing("Graph::BasicMutableGraph::e_attrs_mut")),
        }
    }

    fn remove_e(&mut self, id1: &V, id2: &V, edge_id: &E) -> (r: CrabNetsResult<bool>)
    {
        proof {
            V::lemma_key_model();
        }
        if !self.edge_list.contains_key(id1) {
            return Err(vertex_missing("Graph::BasicMutableGraph::remove_e"));
        }
        if !self.edge_list.contains_key(id2) {
            return Err(vertex_missing("Graph::BasicMutableGraph::remove_e"));
        }
        let ghost g = self@;
        let a = *id1;
        let b = *id2;
        proof {
            V::lemma_id_laws(&a, &b);
        }
        let mut la = match self.edge_list.remove(&a) {
            Some(locale) => locale,
            None => {
                return Err(vertex_missing("Graph::BasicMutableGraph::remove_e"));
            },
        };
        let existed = la.remove_e(&b, edge_id);
        self.edge_list.insert(a, la);
        if a.no_later_than(&b) && b.no_later_than(&a) {
            proof {
                assert(a == b);
                assert(self@ == g.insert(a, la));
                assert(self@.dom() =~= g.dom());
                assert forall|x: V, y: V| #[trigger] has_record(self@, x, y) implies {
                    &&& self@.contains_key(y)
                    &&& x != y ==> has_record(self@, y, x) && relation(self@, y, x) == reverse(relation(self@, x, y))
                    &&& x == y ==> relation(self@, x, y) != EdgeToVertexRelation::Incoming
                } by {
                    assert(has_record(g, x, y));
                }
                assert forall|x: V, y: V| #[trigger] has_record(self@, x, y) implies (self@[x].incident()[y].1 is Some
                    <==> owns_edge(x, y, relation(self@, x, y))) by {
                    assert(has_record(g, x, y));
                }
            }
            return Ok(existed);
        }
        let mut lb = match self.edge_list.remove(&b) {
            Some(locale) => locale,
            None => {
                return Err(vertex_missing("Graph::BasicMutableGraph::remove_e"));
            },
        };
        lb.remove_e(&a, edge_id);
        self.edge_list.insert(b, lb);
        proof {
            assert(a != b);
            assert(self@ == g.insert(a, la).insert(b, lb));
            assert(self@.dom() =~= g.dom());
            assert forall|x: V, y: V| #[trigger] has_record(self@, x, y) implies {
                &&& self@.contains_key(y)
                &&& x != y ==> has_record(self@, y, x) && relation(self@, y, x) == reverse(relation(self@, x, y))
                &&& x == y ==> relation(self@, x, y) != EdgeToVertexRelation::Incoming
            } by {
                assert(has_record(g, x, y));
                if x != y {
                    assert(has_record(g, y, x));
                }
            }
            assert forall|x: V, y: V| #[trigger] has_record(self@, x, y) implies (self@[x].incident()[y].1 is Some
                <==> owns_edge(x, y, relation(self@, x, y))) by {
                assert(has_record(g, x, y));
            }
        }
        Ok(existed)
    }

    fn remove_v(&mut self, id: &V) -> (r: bool)
    {
        proof {
            V::lemma_key_model();
        }
        let neighbours = match self.edge_list.get(id) {
            Some(locale) => locale.iter_neighbours(),
            None => {
                return false;
            },
        };
        let ghost g = self@;
        let v0 = *id;
        let mut i: usize = 0;
        while i < neighbours.len()
            invariant
                obeys_key_model::<V>(),
                g.contains_key(v0),
                lists_ids(neighbours@, g[v0].incident().dom()),
                i <= neighbours.len(),
                self@.dom() == g.dom(),
                self.min_free_vertex_id == old(self).min_free_vertex_id,
                g == old(self)@,
                old(self).wf(),
                forall|v: V| #[trigger] self@.contains_key(v) ==> {
                    &&& self@[v].wf()
                    &&& self@[v].vertex() == v
                    &&& self@[v].attributes() == g[v].attributes()
                    &&& self@[v].incident() == if v != v0 && neighbours@.take(i as int).contains(v) {
                        g[v].incident().remove(v0)
                    } else {
                        g[v].incident()
                    }
                },
            decreases neighbours.len() - i,
        {
            let n = neighbours[i];
            proof {
                V::lemma_id_laws(&n, &v0);
                assert(neighbours@.take(i as int + 1) == neighbours@.take(i as int).push(n));
            }
            if !(n.no_later_than(&v0) && v0.no_later_than(&n)) {
                let ghost before = self@;
                let mut ln = match self.edge_list.remove(&n) {
                    Some(locale) => locale,
                    None => {
                        proof {
                            assert(neighbours@.to_set().contains(n));
                            assert(has_record(g, v0, n));
                        }
                        return false;
                    },
                };
                ln.remove_neighbour(&v0);
                self.edge_list.insert(n, ln);
                proof {
                    assert(self@ == before.insert(n, ln));
                    assert(self@.dom() =~= g.dom());
                    assert forall|v: V| #[trigger] self@.contains_key(v) implies {
                        &&& self@[v].wf()
                        &&& self@[v].vertex() == v
                        &&& self@[v].attributes() == g[v].attributes()
                        &&& self@[v].incident() == if v != v0 && neighbours@.take(i as int + 1).contains(v) {
                            g[v].incident().remove(v0)
                        } else {
                            g[v].incident()
                        }
                    } by {
                        if v == n {
                            assert(neighbours@.take(i as int + 1)[i as int] == n);
                            assert(neighbours@.take(i as int + 1).contains(v));
                            assert(!neighbours@.take(i as int).contains(v)) by {
                                if neighbours@.take(i as int).contains(v) {
                                    let j = choose|j: int| 0 <= j < i && neighbours@.take(i as int)[j] == v;
                                    assert(neighbours@[j] == neighbours@[i as int]);
                                }
                            }
                        } else {
                            assert(neighbours@.take(i as int + 1).contains(v) == neighbours@.take(i as int).contains(v));
                        }
                    }
                }
            } else {
                proof {
                    assert forall|v: V| #[trigger] self@.contains_key(v) implies
                        self@[v].incident() == if v != v0 && neighbours@.take(i as int + 1).contains(v) {
                            g[v].incident().remove(v0)
                        } else {
                            g[v].incident()
                        } by {
                        if v != v0 {
                            assert(neighbours@.take(i as int + 1).contains(v) == neighbours@.take(i as int).contains(v));
                        }
                    }
                }
            }
            i += 1;
        }
        let ghost before = self@;
        self.edge_list.remove(id);
        if !self.min_free_vertex_id.no_later_than(id) {
            self.min_free_vertex_id = *id;
        }
        proof {
            assert(neighbours@.take(neighbours@.len() as int) == neighbours@);
            assert(self@ == before.remove(v0));
            assert forall|v: V| #[trigger] self@.contains_key(v) implies {
                &&& self@[v].incident() == g[v].incident().remove(v0)
                &&& self@[v].attributes() == g[v].attributes()
            } by {
                if !neighbours@.contains(v) {
                    if g[v].incident().contains_key(v0) {
                        assert(has_record(g, v, v0));
                        assert(has_record(g, v0, v));
                        assert(neighbours@.to_set().contains(v));
                    }
                    assert(g[v].incident().remove(v0) =~= g[v].incident());
                }
            }
            assert forall|x: V, y: V| #[trigger] has_record(self@, x, y) implies {
                &&& self@.contains_key(y)
                &&& x != y ==> has_record(self@, y, x) && relation(self@, y, x) == reverse(relation(self@, x, y))
                &&& x == y ==> relation(self@, x, y) != EdgeToVertexRelation::Incoming
            } by {
                assert(has_record(g, x, y));
                if x != y {
                    assert(has_record(g, y, x));
                }
            }
            assert forall|x: V, y: V| #[trigger] has_record(self@, x, y) implies (self@[x].incident()[y].1 is Some
                <==> owns_edge(x, y, relation(self@, x, y))) by {
                assert(has_record(g, x, y));
            }
            assert forall|w: V| #[trigger] w.rank() < self.min_free_vertex_id().rank() implies self@.contains_key(w) by {
                V::lemma_id_laws(&w, &v0);
                assert(g.contains_key(w));
            }
            if self@.contains_key(self.min_free_vertex_id()) {
                V::lemma_id_laws(&self.min_free_vertex_id, &v0);
            }
        }
        true
    }

    fn v_attrs_mut(&mut self, id: &V) -> (r: CrabNetsResult<&mut VA>)
    {
        proof {
            V::lemma_key_model();
        }
        proof {
            if self@.contains_key(*id) {
                lemma_vertex_attrs_update(self@, *id);
            }
        }
        match map_get_mut(&mut self.edge_list, id) {
            Some(locale) => Ok(locale.v_attrs_mut()),
            None => Err(vertex_missing("Graph::BasicMutableGraph::v_attrs_mut")),
        }
    }
}

} // verus!
