use std::collections::{HashSet, VecDeque};
use vstd::prelude::*;
use vstd::std_specs::hash::obeys_key_model;
use crate::attributes::AttributeCollection;
use crate::graph::{has_record, relation, BasicImmutableGraph, Graph};
use crate::id::Id;
use crate::locales::{ids_related, lists_ids, EdgeToVertexRelation, Locale};

verus! {

broadcast use vstd::std_specs::hash::group_hash_axioms;

/// Which edges a search may follow.
#[derive(Clone, Copy, Debug, PartialEq, Eq, Structural)]
pub enum Adjacency {
    /// Every edge, in either direction.
    Undirected,
    /// Undirected edges, and directed ones from source to target.
    Forward,
    /// Undirected edges, and directed ones from target to source.
    Backward,
}

impl<EA: AttributeCollection, E: Id, L: Locale<EA, E, VA, V>, VA: AttributeCollection, V: Id> Graph<EA, E, L, VA, V> {
    /// A search following `mode` may go from `a` to the different vertex `b`.
    pub open spec fn step(&self, mode: Adjacency, a: V, b: V) -> bool {
        &&& a != b
        &&& has_record(self@, a, b)
        &&& match mode {
            Adjacency::Undirected => true,
            Adjacency::Forward => relation(self@, a, b) != EdgeToVertexRelation::Incoming,
            Adjacency::Backward => relation(self@, a, b) != EdgeToVertexRelation::Outgoing,
        }
    }

    /// `p` is a walk that follows `mode`.
    pub open spec fn is_path(&self, mode: Adjacency, p: Seq<V>) -> bool {
        &&& p.len() >= 1
        &&& forall|i: int| 0 <= i < p.len() - 1 ==> #[trigger] self.step(mode, p[i], p[i + 1])
    }

    /// A walk following `mode` leads from `a` to `b`.
    pub open spec fn reachable(&self, mode: Adjacency, a: V, b: V) -> bool {
        exists|p: Seq<V>| #[trigger] self.is_path(mode, p) && p[0] == a && p.last() == b
    }

    /// Every vertex can be reached from every other, edges taken in either
    /// direction.
    pub open spec fn connected(&self) -> bool {
        forall|a: V, b: V|
            self@.contains_key(a) && self@.contains_key(b) ==> #[trigger] self.reachable(Adjacency::Undirected, a, b)
    }

    /// Every vertex can be reached from every other, directed edges taken
    /// from source to target.
    pub open spec fn strongly_connected(&self) -> bool {
        forall|a: V, b: V|
            self@.contains_key(a) && self@.contains_key(b) ==> #[trigger] self.reachable(Adjacency::Forward, a, b)
    }

    proof fn lemma_reach_refl(&self, mode: Adjacency, a: V)
        ensures
            self.reachable(mode, a, a),
    {
        assert(self.is_path(mode, seq![a]));
    }

    proof fn lemma_reach_step(&self, mode: Adjacency, a: V, x: V, y: V)
        requires
            self.reachable(mode, a, x),
            self.step(mode, x, y),
        ensures
            self.reachable(mode, a, y),
    {
        let p = choose|p: Seq<V>| #[trigger] self.is_path(mode, p) && p[0] == a && p.last() == x;
        let q = p.push(y);
        assert forall|i: int| 0 <= i < q.len() - 1 implies #[trigger] self.step(mode, q[i], q[i + 1]) by {
            if i < p.len() - 1 {
                assert(q[i] == p[i] && q[i + 1] == p[i + 1]);
            }
        }
        assert(self.is_path(mode, q));
    }

    proof fn lemma_reach_trans(&self, mode: Adjacency, a: V, b: V, c: V)
        requires
            self.reachable(mode, a, b),
            self.reachable(mode, b, c),
        ensures
            self.reachable(mode, a, c),
    {
        let p = choose|p: Seq<V>| #[trigger] self.is_path(mode, p) && p[0] == a && p.last() == b;
        let q = choose|q: Seq<V>| #[trigger] self.is_path(mode, q) && q[0] == b && q.last() == c;
        let w = p + q.drop_first();
        assert forall|i: int| 0 <= i < w.len() - 1 implies #[trigger] self.step(mode, w[i], w[i + 1]) by {
            if i < p.len() - 1 {
                assert(w[i] == p[i] && w[i + 1] == p[i + 1]);
            } else {
                let k = i - (p.len() - 1);
                assert(w[i] == q[k] && w[i + 1] == q[k + 1]);
            }
        }
        assert(self.is_path(mode, w));
        if q.len() == 1 {
            assert(w.last() == p.last());
        } else {
            assert(w.last() == q.last());
        }
    }

    /// Walks along `m1` are walks along `m2` taken backwards.
    proof fn lemma_reach_reverse(&self, m1: Adjacency, m2: Adjacency, a: V, b: V)
        requires
            self.wf(),
            self.reachable(m1, a, b),
            (m1 == Adjacency::Undirected && m2 == Adjacency::Undirected) || (m1 == Adjacency::Forward && m2
                == Adjacency::Backward) || (m1 == Adjacency::Backward && m2 == Adjacency::Forward),
        ensures
            self.reachable(m2, b, a),
    {
        let p = choose|p: Seq<V>| #[trigger] self.is_path(m1, p) && p[0] == a && p.last() == b;
        let q = p.reverse();
        assert forall|i: int| 0 <= i < q.len() - 1 implies #[trigger] self.step(m2, q[i], q[i + 1]) by {
            let k = p.len() - 2 - i;
            assert(q[i] == p[k + 1] && q[i + 1] == p[k]);
            assert(self.step(m1, p[k], p[k + 1]));
            assert(has_record(self@, p[k], p[k + 1]));
        }
        assert(self.is_path(m2, q));
        assert(q[0] == b && q.last() == a);
    }

    /// A set that holds `a` and is closed under the steps of `mode` holds
    /// every vertex reachable from `a`.
    proof fn lemma_closed_holds_reachable(&self, mode: Adjacency, s: Set<V>, a: V, b: V)
        requires
            s.contains(a),
            forall|x: V, y: V| s.contains(x) && #[trigger] self.step(mode, x, y) ==> s.contains(y),
            self.reachable(mode, a, b),
        ensures
            s.contains(b),
    {
        let p = choose|p: Seq<V>| #[trigger] self.is_path(mode, p) && p[0] == a && p.last() == b;
        self.lemma_path_in_closed(mode, s, p, p.len() - 1);
    }

    proof fn lemma_path_in_closed(&self, mode: Adjacency, s: Set<V>, p: Seq<V>, i: int)
        requires
            self.is_path(mode, p),
            s.contains(p[0]),
            forall|x: V, y: V| s.contains(x) && #[trigger] self.step(mode, x, y) ==> s.contains(y),
            0 <= i < p.len(),
        ensures
            s.contains(p[i]),
        decreases i,
    {
        if i > 0 {
            self.lemma_path_in_closed(mode, s, p, i - 1);
            let k = i - 1;
            assert(self.step(mode, p[k], p[k + 1]));
            assert(k + 1 == i);
        }
    }

    /// The vertices one step from `x` along `mode`, possibly with `x` itself.
    fn adjacent(&self, x: &V, mode: Adjacency) -> (r: Vec<V>)
        requires
            self.wf(),
            self@.contains_key(*x),
        ensures
            forall|i: int| 0 <= i < r@.len() ==> #[trigger] r@[i] == *x || self.step(mode, *x, r@[i]),
            forall|y: V| #[trigger] self.step(mode, *x, y) ==> r@.contains(y),
    {
        proof {
            V::lemma_key_model();
        }
        let locale = match self.locale(x) {
            Some(l) => l,
            None => {
                return Vec::new();
            },
        };
        let ghost inc = locale.incident();
        proof {
            locale.lemma_wf();
        }
        match mode {
            Adjacency::Undirected => {
                let r = locale.iter_neighbours();
                proof {
                    assert forall|i: int| 0 <= i < r@.len() implies #[trigger] r@[i] == *x || self.step(mode, *x, r@[i]) by {
                        assert(r@.to_set().contains(r@[i]));
                    }
                    assert forall|y: V| #[trigger] self.step(mode, *x, y) implies r@.contains(y) by {
                        assert(r@.to_set().contains(y));
                    }
                }
                r
            },
            Adjacency::Forward => {
                let mut r = locale.iter_neighbours_out();
                let mut u = locale.iter_neighbours_undir();
                let ghost r0 = r@;
                let ghost u0 = u@;
                r.append(&mut u);
                proof {
                    let o = ids_related(inc, EdgeToVertexRelation::Outgoing);
                    let d = ids_related(inc, EdgeToVertexRelation::Undirected);
                    assert forall|i: int| 0 <= i < r@.len() implies #[trigger] r@[i] == *x || self.step(mode, *x, r@[i]) by {
                        if i < r0.len() {
                            assert(r0.to_set().contains(r0[i]));
                        } else {
                            assert(u0.to_set().contains(u0[i - r0.len()]));
                        }
                    }
                    assert forall|y: V| #[trigger] self.step(mode, *x, y) implies r@.contains(y) by {
                        if relation(self@, *x, y) == EdgeToVertexRelation::Outgoing {
                            assert(o.contains(y));
                            assert(r0.to_set().contains(y));
                            let j = choose|j: int| 0 <= j < r0.len() && r0[j] == y;
                            assert(r@[j] == y);
                        } else {
                            assert(d.contains(y));
                            assert(u0.to_set().contains(y));
                            let j = choose|j: int| 0 <= j < u0.len() && u0[j] == y;
                            assert(r@[r0.len() + j] == y);
                        }
                    }
                }
                r
            },
            Adjacency::Backward => {
                let mut r = locale.iter_neighbours_in();
                let mut u = locale.iter_neighbours_undir();
                let ghost r0 = r@;
                let ghost u0 = u@;
                r.append(&mut u);
                proof {
                    let o = ids_related(inc, EdgeToVertexRelation::Incoming);
                    let d = ids_related(inc, EdgeToVertexRelation::Undirected);
                    assert forall|i: int| 0 <= i < r@.len() implies #[trigger] r@[i] == *x || self.step(mode, *x, r@[i]) by {
                        if i < r0.len() {
                            assert(r0.to_set().contains(r0[i]));
                        } else {
                            assert(u0.to_set().contains(u0[i - r0.len()]));
                        }
                    }
                    assert forall|y: V| #[trigger] self.step(mode, *x, y) implies r@.contains(y) by {
                        if relation(self@, *x, y) == EdgeToVertexRelation::Incoming {
                            assert(o.contains(y));
                            assert(r0.to_set().contains(y));
                            let j = choose|j: int| 0 <= j < r0.len() && r0[j] == y;
                            assert(r@[j] == y);
                        } else {
                            assert(d.contains(y));
                            assert(u0.to_set().contains(y));
                            let j = choose|j: int| 0 <= j < u0.len() && u0[j] == y;
                            assert(r@[r0.len() + j] == y);
                        }
                    }
                }
                r
            },
        }
    }

    /// Whether a breadth-first search from `s` along `mode` visits every
    /// vertex.
    fn reaches_all(&self, s: V, mode: Adjacency) -> (r: bool)
        requires
            self.wf(),
            self@.contains_key(s),
        ensures
            r == forall|v: V| #[trigger] self@.contains_key(v) ==> self.reachable(mode, s, v),
    {
        proof {
            V::lemma_key_model();
            self.lemma_reach_refl(mode, s);
            self.lemma_finite();
        }
        let ghost dom = self@.dom();
        let total = self.count_v();
        let mut visited: HashSet<V> = HashSet::new();
        let mut queue: VecDeque<V> = VecDeque::new();
        visited.insert(s);
        queue.push_back(s);
        let mut n: usize = 1;
        proof {
            assert(visited@ =~= Set::empty().insert(s));
            assert(queue@ =~= seq![s]);
            assert(queue@[0] == s);
            vstd::set_lib::lemma_len_subset(visited@, dom);
        }
        while queue.len() > 0
            invariant
                obeys_key_model::<V>(),
                self.wf(),
                dom == self@.dom(),
                dom.finite(),
                total == dom.len(),
                self@.contains_key(s),
                visited@.contains(s),
                visited@.subset_of(dom),
                visited@.finite(),
                n == visited@.len(),
                n <= total,
                queue@.no_duplicates(),
                forall|i: int| 0 <= i < queue@.len() ==> visited@.contains(#[trigger] queue@[i]),
                forall|x: V, y: V|
                    visited@.contains(x) && !queue@.contains(x) && #[trigger] self.step(mode, x, y) ==> visited@.contains(y),
                forall|x: V| #[trigger] visited@.contains(x) ==> self.reachable(mode, s, x),
            decreases total - n, queue@.len(),
        {
            let ghost q_before = queue@;
            let x = match queue.pop_front() {
                Some(x) => x,
                None => {
                    proof {
                        assert(false);
                    }
                    return false;
                },
            };
            let ghost q1 = queue@;
            let ghost n1 = n;
            proof {
                assert(q_before == seq![x] + q1);
                assert(q_before[0] == x);
                assert(!q1.contains(x)) by {
                    if q1.contains(x) {
                        let k = choose|k: int| 0 <= k < q1.len() && q1[k] == x;
                        assert(q_before[k + 1] == x);
                    }
                }
                assert forall|i: int| 0 <= i < q1.len() implies visited@.contains(#[trigger] q1[i]) by {
                    assert(q1[i] == q_before[i + 1]);
                }
                assert(q1.no_duplicates()) by {
                    assert forall|i: int, k: int| 0 <= i < q1.len() && 0 <= k < q1.len() && i != k implies q1[i] != q1[k] by {
                        assert(q1[i] == q_before[i + 1] && q1[k] == q_before[k + 1]);
                    }
                }
                assert forall|x2: V, y: V|
                    visited@.contains(x2) && !q1.contains(x2) && x2 != x && #[trigger] self.step(mode, x2, y)
                        implies visited@.contains(y) by {
                    if q_before.contains(x2) {
                        let k = choose|k: int| 0 <= k < q_before.len() && q_before[k] == x2;
                        assert(k != 0);
                        assert(q1[k - 1] == x2);
                    }
                }
            }
            let nbrs = self.adjacent(&x, mode);
            let mut j: usize = 0;
            while j < nbrs.len()
                invariant
                    obeys_key_model::<V>(),
                    self.wf(),
                    dom == self@.dom(),
                    dom.finite(),
                    total == dom.len(),
                    visited@.contains(s),
                    visited@.contains(x),
                    visited@.subset_of(dom),
                    visited@.finite(),
                    n == visited@.len(),
                    n <= total,
                    n1 <= n,
                    queue@.len() == q1.len() + (n - n1),
                    q1.len() < q_before.len(),
                    j <= nbrs@.len(),
                    !queue@.contains(x),
                    queue@.no_duplicates(),
                    forall|i: int| 0 <= i < queue@.len() ==> visited@.contains(#[trigger] queue@[i]),
                    forall|x2: V, y: V|
                        visited@.contains(x2) && !queue@.contains(x2) && x2 != x && #[trigger] self.step(mode, x2, y)
                            ==> visited@.contains(y),
                    forall|i: int| 0 <= i < j ==> visited@.contains(#[trigger] nbrs@[i]),
                    forall|i: int| 0 <= i < nbrs@.len() ==> #[trigger] nbrs@[i] == x || self.step(mode, x, nbrs@[i]),
                    forall|y: V| #[trigger] self.step(mode, x, y) ==> nbrs@.contains(y),
                    forall|x2: V| #[trigger] visited@.contains(x2) ==> self.reachable(mode, s, x2),
                decreases nbrs@.len() - j,
            {
                let y = nbrs[j];
                if !visited.contains(&y) {
                    proof {
                        assert(self.step(mode, x, y));
                        assert(has_record(self@, x, y));
                        assert(dom.contains(y));
                        vstd::set_lib::lemma_len_subset(visited@.insert(y), dom);
                        self.lemma_reach_step(mode, s, x, y);
                    }
                    let ghost v0 = visited@;
                    let ghost q0 = queue@;
                    visited.insert(y);
                    queue.push_back(y);
                    n = n + 1;
                    proof {
                        vstd::set_lib::lemma_len_subset(visited@, dom);
                        assert(queue@ == q0.push(y));
                        assert forall|i: int| 0 <= i < queue@.len() implies visited@.contains(#[trigger] queue@[i]) by {
                            if i < q0.len() {
                                assert(queue@[i] == q0[i]);
                            }
                        }
                        assert(!queue@.contains(x)) by {
                            if queue@.contains(x) {
                                let k = choose|k: int| 0 <= k < queue@.len() && queue@[k] == x;
                                if k < q0.len() {
                                    assert(q0[k] == x);
                                }
                            }
                        }
                        assert forall|x2: V, y2: V|
                            visited@.contains(x2) && !queue@.contains(x2) && x2 != x && #[trigger] self.step(mode, x2, y2)
                                implies visited@.contains(y2) by {
                            if x2 != y {
                                assert(v0.contains(x2));
                                if q0.contains(x2) {
                                    let k = choose|k: int| 0 <= k < q0.len() && q0[k] == x2;
                                    assert(queue@[k] == x2);
                                }
                            } else {
                                assert(queue@[q0.len() as int] == y);
                            }
                        }
                        assert forall|x2: V| #[trigger] visited@.contains(x2) implies self.reachable(mode, s, x2) by {
                            if x2 != y {
                                assert(v0.contains(x2));
                            }
                        }
                    }
                }
                j += 1;
            }
            proof {
                assert forall|x2: V, y: V|
                    visited@.contains(x2) && !queue@.contains(x2) && #[trigger] self.step(mode, x2, y) implies visited@.contains(y) by {
                    if x2 == x {
                        assert(nbrs@.contains(y));
                        let k = choose|k: int| 0 <= k < nbrs@.len() && nbrs@[k] == y;
                        assert(visited@.contains(nbrs@[k]));
                    }
                }
            }
        }
        proof {
            assert forall|x: V, y: V| visited@.contains(x) && #[trigger] self.step(mode, x, y) implies visited@.contains(y) by {
                assert(!queue@.contains(x));
            }
            assert forall|v: V| #[trigger] self.reachable(mode, s, v) implies visited@.contains(v) by {
                self.lemma_closed_holds_reachable(mode, visited@, s, v);
            }
            vstd::set_lib::lemma_len_subset(visited@, dom);
            if n == total {
                assert forall|v: V| #[trigger] self@.contains_key(v) implies self.reachable(mode, s, v) by {
                    if !visited@.contains(v) {
                        vstd::set_lib::lemma_len_subset(visited@, dom.remove(v));
                    }
                }
            } else {
                assert(!(visited@ =~= dom));
                let missing = choose|v: V| dom.contains(v) && !visited@.contains(v);
                assert(!self.reachable(mode, s, missing));
                assert(self@.contains_key(missing));
            }
        }
        n == total
    }
}


/// Decisions on the topology of a graph.
pub trait TopologyTests {
    /// The invariant under which the decisions are made.
    spec fn valid(&self) -> bool;

    /// Every vertex can be reached from every other, edges taken in either
    /// direction.
    spec fn spec_connected(&self) -> bool;

    /// Every vertex can be reached from every other, directed edges taken
    /// from source to target.
    spec fn spec_strongly_connected(&self) -> bool;

    /// Whether the graph is connected; an empty graph is.
    fn is_connected(&self) -> (r: bool)
        requires
            self.valid(),
        ensures
            r == self.spec_connected(),
    ;

    /// Whether the graph is strongly connected; an empty graph is.
    fn is_strongly_connected(&self) -> (r: bool)
        requires
            self.valid(),
        ensures
            r == self.spec_strongly_connected(),
    ;
}

impl<EA: AttributeCollection, E: Id, L: Locale<EA, E, VA, V>, VA: AttributeCollection, V: Id> TopologyTests for Graph<
    EA,
    E,
    L,
    VA,
    V,
> {
    open spec fn valid(&self) -> bool {
        self.wf()
    }

    open spec fn spec_connected(&self) -> bool {
        self.connected()
    }

    open spec fn spec_strongly_connected(&self) -> bool {
        self.strongly_connected()
    }

    fn is_connected(&self) -> (r: bool) {
        let vertices = self.iter_v();
        if vertices.len() == 0 {
            proof {
                assert forall|a: V, b: V|
                    self@.contains_key(a) && self@.contains_key(b) implies #[trigger] self.reachable(
                        Adjacency::Undirected,
                        a,
                        b,
                    ) by {
                    assert(vertices@.to_set().contains(a));
                }
            }
            return true;
        }
        let s = vertices[0];
        proof {
            assert(vertices@.to_set().contains(s));
        }
        let r = self.reaches_all(s, Adjacency::Undirected);
        proof {
            if r {
                assert forall|a: V, b: V|
                    self@.contains_key(a) && self@.contains_key(b) implies #[trigger] self.reachable(
                        Adjacency::Undirected,
                        a,
                        b,
                    ) by {
                    self.lemma_reach_reverse(Adjacency::Undirected, Adjacency::Undirected, s, a);
                    self.lemma_reach_trans(Adjacency::Undirected, a, s, b);
                }
            } else {
                let v = choose|v: V| self@.contains_key(v) && !self.reachable(Adjacency::Undirected, s, v);
                assert(!self.reachable(Adjacency::Undirected, s, v));
            }
        }
        r
    }

    fn is_strongly_connected(&self) -> (r: bool) {
        let vertices = self.iter_v();
        if vertices.len() == 0 {
            proof {
                assert forall|a: V, b: V|
                    self@.contains_key(a) && self@.contains_key(b) implies #[trigger] self.reachable(
                        Adjacency::Forward,
                        a,
                        b,
                    ) by {
                    assert(vertices@.to_set().contains(a));
                }
            }
            return true;
        }
        let s = vertices[0];
        proof {
            assert(vertices@.to_set().contains(s));
        }
        // Strongly connected exactly when `s` reaches every vertex along the
        // edges and every vertex reaches `s`, that is, when `s` also reaches
        // every vertex against the edges.
        let forward = self.reaches_all(s, Adjacency::Forward);
        let backward = self.reaches_all(s, Adjacency::Backward);
        proof {
            if forward && backward {
                assert forall|a: V, b: V|
                    self@.contains_key(a) && self@.contains_key(b) implies #[trigger] self.reachable(
                        Adjacency::Forward,
                        a,
                        b,
                    ) by {
                    assert(self.reachable(Adjacency::Backward, s, a));
                    self.lemma_reach_reverse(Adjacency::Backward, Adjacency::Forward, s, a);
                    self.lemma_reach_trans(Adjacency::Forward, a, s, b);
                }
            } else if !forward {
                let v = choose|v: V| self@.contains_key(v) && !self.reachable(Adjacency::Forward, s, v);
                assert(!self.reachable(Adjacency::Forward, s, v));
            } else {
                let v = choose|v: V| self@.contains_key(v) && !self.reachable(Adjacency::Backward, s, v);
                if self.reachable(Adjacency::Forward, v, s) {
                    self.lemma_reach_reverse(Adjacency::Forward, Adjacency::Backward, v, s);
                }
                assert(!self.reachable(Adjacency::Forward, v, s));
            }
        }
        forward && backward
    }
}

} // verus!
