pub mod attributes;
pub mod containers;
pub mod errors;
pub mod graph;
pub mod id;
pub mod locales;
pub mod maps;
pub mod topology_tests;

use vstd::prelude::*;

pub use attributes::{AttributeCollection, DynamicDispatchAttributeMap, StaticDispatchAttributeValue};
pub use containers::{ImmutableGraphContainer, MutableGraphContainer};
pub use errors::{CrabNetsError, CrabNetsResult};
pub use graph::{BasicImmutableGraph, BasicMutableGraph, Graph};
pub use id::Id;
pub use locales::{EdgeToVertexRelation, Locale, SimpleDirectedLocale, SimpleUndirectedLocale};
pub use topology_tests::TopologyTests;

verus! {

/// Orientation of an edge as seen from the pair `(id1, id2)` it was queried with.
#[derive(Clone, Copy, Debug, Hash, PartialEq, Eq, Structural)]
pub enum EdgeDirection {
    Undirected,
    Directed1to2,
    Directed2to1,
}

/// One incident edge, as listed by a locale or by the graph.
#[derive(Clone, Copy, Debug, Hash, PartialEq, Eq)]
pub struct EdgeIteratorItem<EdgeIdType, VertexIdType> {
    pub direction: EdgeDirection,
    pub edge_id: EdgeIdType,
    pub id1: VertexIdType,
    pub id2: VertexIdType,
}

} // verus!
