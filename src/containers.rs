use vstd::prelude::*;
use crate::attributes::AttributeCollection;
use crate::errors::CrabNetsResult;
use crate::graph::{BasicImmutableGraph, BasicMutableGraph, Graph};
use crate::id::Id;
use crate::locales::Locale;
use crate::{EdgeDirection, EdgeIteratorItem};

verus! {

/// A type that holds a graph and offers the graph's queries as its own.
pub trait ImmutableGraphContainer: Sized {
    /// The attribute collection of the edges.
    type EdgeAttributeCollectionType: AttributeCollection;
    /// The edge identifiers.
    type EdgeIdType: Id;
    /// The locale of the vertices.
    type LocaleType: Locale<
        Self::EdgeAttributeCollectionType,
        Self::EdgeIdType,
        Self::VertexAttributeCollectionType,
        Self::VertexIdType,
    >;
    /// The attribute collection of the vertices.
    type VertexAttributeCollectionType: AttributeCollection;
    /// The vertex identifiers.
    type VertexIdType: Id;

    /// The graph held.
    spec fn graph(&self) -> Graph<
        Self::EdgeAttributeCollectionType,
        Self::EdgeIdType,
        Self::LocaleType,
        Self::VertexAttributeCollectionType,
        Self::VertexIdType,
    >;

    /// The graph held.
    fn unwrap(&self) -> (r: &Graph<
        Self::EdgeAttributeCollectionType,
        Self::EdgeIdType,
        Self::LocaleType,
        Self::VertexAttributeCollectionType,
        Self::VertexIdType,
    >)
        ensures
            *r == self.graph(),
    ;
}

impl<T: ImmutableGraphContainer> BasicImmutableGraph<
    T::EdgeAttributeCollectionType,
    T::EdgeIdType,
    T::VertexAttributeCollectionType,
    T::VertexIdType,
> for T {
    type LocaleType = T::LocaleType;

    open spec fn locales(&self) -> Map<T::VertexIdType, T::LocaleType> {
        self.graph()@
    }

    open spec fn min_free_vertex_id(&self) -> T::VertexIdType {
        self.graph().min_free_vertex_id()
    }

    open spec fn valid(&self) -> bool {
        self.graph().wf()
    }

    fn contains_e(&self, id1: &T::VertexIdType, id2: &T::VertexIdType, edge_id: &T::EdgeIdType) -> (r: Option<EdgeDirection>) {
        self.unwrap().contains_e(id1, id2, edge_id)
    }

    fn contains_v(&self, id: &T::VertexIdType) -> (r: bool) {
        self.unwrap().contains_v(id)
    }

    fn count_e(&self) -> (r: usize) {
        self.unwrap().count_e()
    }

    fn count_v(&self) -> (r: usize) {
        self.unwrap().count_v()
    }

    fn e_attrs(&self, id1: &T::VertexIdType, id2: &T::VertexIdType, edge_id: &T::EdgeIdType) -> (r: CrabNetsResult<&T::EdgeAttributeCollectionType>) {
        self.unwrap().e_attrs(id1, id2, edge_id)
    }

    fn iter_e(&self) -> (r: Vec<EdgeIteratorItem<T::EdgeIdType, T::VertexIdType>>) {
        self.unwrap().iter_e()
    }

    fn iter_v(&self) -> (r: Vec<T::VertexIdType>) {
        self.unwrap().iter_v()
    }

    fn v_attrs(&self, id: &T::VertexIdType) -> (r: CrabNetsResult<&T::VertexAttributeCollectionType>) {
        self.unwrap().v_attrs(id)
    }

    fn v_degree(&self, id: &T::VertexIdType) -> (r: CrabNetsResult<usize>) {
        self.unwrap().v_degree(id)
    }

    fn v_degree_in(&self, id: &T::VertexIdType) -> (r: CrabNetsResult<usize>) {
        self.unwrap().v_degree_in(id)
    }

    fn v_degree_out(&self, id: &T::VertexIdType) -> (r: CrabNetsResult<usize>) {
        self.unwrap().v_degree_out(id)
    }

    fn v_degree_undir(&self, id: &T::VertexIdType) -> (r: CrabNetsResult<usize>) {
        self.unwrap().v_degree_undir(id)
    }
}


/// A type that holds a graph and offers the graph's changes as its own.
pub trait MutableGraphContainer: ImmutableGraphContainer {
    /// Mutable access to the graph held.
    fn unwrap(&mut self) -> (r: &mut Graph<
        Self::EdgeAttributeCollectionType,
        Self::EdgeIdType,
        Self::LocaleType,
        Self::VertexAttributeCollectionType,
        Self::VertexIdType,
    >)
        ensures
            *r == old(self).graph(),
            final(self).graph() == *final(r),
    ;
}

impl<T: MutableGraphContainer> BasicMutableGraph<T::EdgeAttributeCollectionType, T::EdgeIdType, T::VertexAttributeCollectionType, T::VertexIdType> for T {
    fn add_e(&mut self, id1: &T::VertexIdType, id2: &T::VertexIdType, directed: bool, edge_id: Option<T::EdgeIdType>) -> (r: CrabNetsResult<T::EdgeIdType>) {
        MutableGraphContainer::unwrap(self).add_e(id1, id2, directed, edge_id)
    }

    fn add_v(&mut self, id: Option<T::VertexIdType>) -> (r: T::VertexIdType) {
        let g = MutableGraphContainer::unwrap(self);
        proof {
            if id is None {
                let w = choose|w: T::VertexIdType| !old(self).locales().contains_key(w);
                assert(!g.locales().contains_key(w));
            }
        }
        g.add_v(id)
    }

    fn e_attrs_mut(&mut self, id1: &T::VertexIdType, id2: &T::VertexIdType, edge_id: &T::EdgeIdType) -> (r: CrabNetsResult<&mut T::EdgeAttributeCollectionType>) {
        MutableGraphContainer::unwrap(self).e_attrs_mut(id1, id2, edge_id)
    }

    fn remove_e(&mut self, id1: &T::VertexIdType, id2: &T::VertexIdType, edge_id: &T::EdgeIdType) -> (r: CrabNetsResult<bool>) {
        MutableGraphContainer::unwrap(self).remove_e(id1, id2, edge_id)
    }

    fn remove_v(&mut self, id: &T::VertexIdType) -> (r: bool) {
        MutableGraphContainer::unwrap(self).remove_v(id)
    }

    fn v_attrs_mut(&mut self, id: &T::VertexIdType) -> (r: CrabNetsResult<&mut T::VertexAttributeCollectionType>) {
        MutableGraphContainer::unwrap(self).v_attrs_mut(id)
    }
}

} // verus!
