use crabnets::{
    BasicImmutableGraph, BasicMutableGraph, Graph, ImmutableGraphContainer, MutableGraphContainer,
    SimpleUndirectedLocale,
};

type Inner = Graph<(), u8, SimpleUndirectedLocale<(), u8, (), u32>, (), u32>;

struct Network {
    graph: Inner,
}

impl ImmutableGraphContainer for Network {
    type EdgeAttributeCollectionType = ();
    type EdgeIdType = u8;
    type LocaleType = SimpleUndirectedLocale<(), u8, (), u32>;
    type VertexAttributeCollectionType = ();
    type VertexIdType = u32;

    fn graph(&self) -> Inner {
        self.graph.clone()
    }

    fn unwrap(&self) -> &Inner {
        &self.graph
    }
}

impl MutableGraphContainer for Network {
    fn unwrap(&mut self) -> &mut Inner {
        &mut self.graph
    }
}

#[test]
fn container_offers_graph_operations() {
    let mut n = Network { graph: Graph::new() };
    assert_eq!(n.add_v(None), 0);
    assert_eq!(n.add_v(None), 1);
    assert!(n.add_e(&0, &1, false, None).is_ok());
    assert_eq!(n.count_v(), 2);
    assert_eq!(n.count_e(), 1);
    assert!(n.v_degree(&1).is_ok_and(|x| x == 1));
    assert!(n.remove_v(&0));
    assert_eq!(n.count_e(), 0);
    assert_eq!(n.graph.count_v(), 1);
}
