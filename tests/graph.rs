use crabnets::{BasicImmutableGraph, BasicMutableGraph, Graph, SimpleDirectedLocale, SimpleUndirectedLocale};
use crabnets::{DynamicDispatchAttributeMap, EdgeDirection, StaticDispatchAttributeValue};

type UndirectedGraph = Graph<(), u8, SimpleUndirectedLocale<(), u8, (), usize>, (), usize>;
type DirectedGraph = Graph<(), u8, SimpleDirectedLocale<(), u8, (), usize>, (), usize>;
type Names = DynamicDispatchAttributeMap<String>;
type AttributedDirectedGraph = Graph<Names, u8, SimpleDirectedLocale<Names, u8, (), usize>, (), usize>;
type AttributedUndirectedGraph = Graph<Names, u8, SimpleUndirectedLocale<Names, u8, (), usize>, (), usize>;

#[test]
fn graph_new_xxx_with() {
    let mut g: Graph<(), u8, SimpleUndirectedLocale<(), u8, (), i8>, (), i8> = Graph::new();
    assert_eq!(g.add_v(None), -128);
}

#[test]
fn graph_new_axa() {
    let mut g: Graph<(), u8, SimpleUndirectedLocale<(), u8, Names, usize>, Names, usize> = Graph::new();
    assert_eq!(g.add_v(None), 0);
}

#[test]
fn graph_new_axa_with() {
    let mut g: Graph<(), u8, SimpleUndirectedLocale<(), u8, (), i8>, (), i8> = Graph::new();
    assert_eq!(g.add_v(None), -128);
}

#[test]
fn add_degree_delete() {
    // Undirected simple unattributed graph
    let mut g: UndirectedGraph = Graph::new();
    // Add vertices
    assert_eq!(g.add_v(None), 0);
    assert_eq!(g.add_v(Some(1)), 1);
    assert_eq!(g.add_v(None), 2);
    assert_eq!(g.add_v(Some(218)), 218);
    // Add edges
    assert!(g.add_e(&0, &1, false, None).is_ok());
    assert!(g.add_e(&218, &2, true, Some(30)).is_ok_and(|x| x == 0));
    assert!(g.add_e(&5, &6, false, None).is_err());
    assert!(g.add_e(&0, &218, true, None).is_ok());
    // Degrees
    assert!(g.v_degree(&0).is_ok_and(|x| x == 2));
    assert!(g.v_degree_out(&218).is_ok_and(|x| x == 0));
    assert!(g.v_degree_undir(&218).is_ok_and(|x| x == 2));
    assert!(g.v_degree_in(&5).is_err());
    // Remove edges
    assert!(g.remove_e(&2, &218, &0).is_ok_and(|x| x));
    assert!(g.v_degree(&218).is_ok_and(|x| x == 1));
    assert!(g.v_degree_undir(&2).is_ok_and(|x| x == 0));
    // Add new edges
    assert!(g.add_e(&0, &2, false, None).is_ok());
    assert!(g.add_e(&218, &2, true, None).is_ok_and(|x| x == 0));
    // Remove vertex
    assert!(g.remove_v(&0));
    assert!(g.v_degree(&0).is_err());
    assert!(g.v_degree(&1).is_ok_and(|x| x == 0));
    assert!(g.v_degree(&2).is_ok_and(|x| x == 1));
    assert!(g.v_degree(&218).is_ok_and(|x| x == 1));
    // Add new vertices
    assert_eq!(g.add_v(None), 0);
    assert_eq!(g.add_v(None), 3);
    assert_eq!(g.count_v(), 5);
    assert_eq!(g.count_e(), 1);
}

#[test]
fn empty_graph_counts() {
    let g: DirectedGraph = Graph::new();
    assert_eq!(g.count_v(), 0);
    assert_eq!(g.count_e(), 0);
    assert!(g.iter_v().is_empty());
    assert!(g.iter_e().is_empty());
}

#[test]
fn explicit_high_id_leaves_minimum_free() {
    let mut g: UndirectedGraph = Graph::new();
    assert_eq!(g.add_v(Some(218)), 218);
    assert_eq!(g.add_v(None), 0);
    assert!(g.remove_v(&218));
    assert_eq!(g.add_v(Some(218)), 218);
    assert!(g.remove_v(&218));
    assert_eq!(g.add_v(None), 1);
    assert_eq!(g.count_v(), 2);
}

#[test]
fn removed_id_is_reused() {
    let mut g: DirectedGraph = Graph::new();
    for _ in 0..5 {
        g.add_v(None);
    }
    assert!(g.remove_v(&2));
    assert!(!g.remove_v(&2));
    assert_eq!(g.add_v(None), 2);
    assert_eq!(g.add_v(None), 5);
}

#[test]
fn readding_vertex_discards_its_edges() {
    let mut g: DirectedGraph = Graph::new();
    for _ in 0..3 {
        g.add_v(None);
    }
    g.add_e(&0, &1, true, None).unwrap();
    g.add_e(&2, &0, false, None).unwrap();
    assert!(g.v_degree(&0).is_ok_and(|x| x == 2));
    assert_eq!(g.add_v(Some(0)), 0);
    assert!(g.v_degree(&0).is_ok_and(|x| x == 0));
    assert!(g.v_degree(&1).is_ok_and(|x| x == 0));
    assert!(g.v_degree(&2).is_ok_and(|x| x == 0));
    assert!(g.contains_e(&1, &0, &0).is_none());
    assert_eq!(g.count_e(), 0);
}

#[test]
fn directed_degrees_add_up() {
    let mut g: DirectedGraph = Graph::new();
    for _ in 0..4 {
        g.add_v(None);
    }
    g.add_e(&0, &1, true, None).unwrap();
    g.add_e(&2, &0, true, None).unwrap();
    g.add_e(&0, &3, false, None).unwrap();
    assert!(g.v_degree(&0).is_ok_and(|x| x == 3));
    assert!(g.v_degree_in(&0).is_ok_and(|x| x == 1));
    assert!(g.v_degree_out(&0).is_ok_and(|x| x == 1));
    assert!(g.v_degree_undir(&0).is_ok_and(|x| x == 1));
    assert!(g.v_degree_in(&1).is_ok_and(|x| x == 1));
    assert!(g.v_degree_out(&2).is_ok_and(|x| x == 1));
    assert_eq!(g.count_e(), 3);
    assert_eq!(g.iter_e().len(), 3);
}

#[test]
fn newer_edge_replaces_older() {
    let mut g: DirectedGraph = Graph::new();
    g.add_v(None);
    g.add_v(None);
    g.add_e(&0, &1, true, None).unwrap();
    assert!(g.contains_e(&0, &1, &0) == Some(EdgeDirection::Directed1to2));
    assert!(g.contains_e(&1, &0, &0) == Some(EdgeDirection::Directed2to1));
    g.add_e(&1, &0, true, None).unwrap();
    assert!(g.contains_e(&0, &1, &0) == Some(EdgeDirection::Directed2to1));
    assert_eq!(g.count_e(), 1);
    g.add_e(&0, &1, false, None).unwrap();
    assert!(g.contains_e(&1, &0, &0) == Some(EdgeDirection::Undirected));
    assert_eq!(g.count_e(), 1);
    assert!(g.remove_e(&1, &0, &0).is_ok_and(|x| x));
    assert!(g.remove_e(&1, &0, &0).is_ok_and(|x| !x));
    assert_eq!(g.count_e(), 0);
}

#[test]
fn undirected_graph_ignores_direction() {
    let mut g: UndirectedGraph = Graph::new();
    g.add_v(None);
    g.add_v(None);
    g.add_e(&1, &0, true, None).unwrap();
    assert!(g.contains_e(&0, &1, &0) == Some(EdgeDirection::Undirected));
    assert!(g.v_degree_in(&0).is_ok_and(|x| x == 0));
    assert!(g.v_degree_undir(&0).is_ok_and(|x| x == 1));
}

#[test]
fn missing_vertices_are_errors() {
    let mut g: DirectedGraph = Graph::new();
    g.add_v(None);
    assert!(g.add_e(&0, &7, true, None).is_err());
    assert!(g.add_e(&7, &0, true, None).is_err());
    assert!(g.remove_e(&0, &7, &0).is_err());
    assert!(g.v_degree(&7).is_err());
    assert!(g.v_degree_out(&7).is_err());
    assert!(g.v_degree_undir(&7).is_err());
    assert!(g.v_attrs(&7).is_err());
    assert!(g.v_attrs_mut(&7).is_err());
    assert!(g.e_attrs(&0, &7, &0).is_err());
    assert!(g.contains_e(&0, &7, &0).is_none());
    assert!(!g.contains_v(&7));
    assert!(g.contains_v(&0));
    let e = g.v_degree(&7).unwrap_err();
    assert!(e.message.ends_with("Vertex with the given ID doesn't exist."));
    assert!(e.to_string().starts_with("CrabNetsError: Graph::"));
}

#[test]
fn missing_edge_attributes_are_errors() {
    let mut g: AttributedDirectedGraph = Graph::new();
    g.add_v(None);
    g.add_v(None);
    assert!(g.e_attrs(&0, &1, &0).is_err());
    assert!(g.e_attrs_mut(&0, &1, &0).is_err());
    let e = g.e_attrs(&0, &1, &0).err().unwrap();
    assert!(e.message.ends_with("Accessing attributes of a non-existing edge."));
}

#[test]
fn directed_edge_attributes_live_at_source() {
    let mut g: AttributedDirectedGraph = Graph::new();
    g.add_v(None);
    g.add_v(None);
    g.add_e(&1, &0, true, None).unwrap();
    g.e_attrs_mut(&0, &1, &0)
        .unwrap()
        .insert("weight".to_string(), StaticDispatchAttributeValue::Int32(7));
    let attrs = g.e_attrs(&1, &0, &0).unwrap();
    assert!(matches!(attrs.get(&"weight".to_string()), Some(StaticDispatchAttributeValue::Int32(7))));
    let attrs = g.e_attrs(&0, &1, &0).unwrap();
    assert_eq!(attrs.iter().len(), 1);
}

#[test]
fn undirected_edge_attributes_live_at_smaller_end() {
    let mut g: AttributedUndirectedGraph = Graph::new();
    for _ in 0..3 {
        g.add_v(None);
    }
    g.add_e(&2, &1, false, None).unwrap();
    g.e_attrs_mut(&2, &1, &0)
        .unwrap()
        .insert("name".to_string(), StaticDispatchAttributeValue::Str("bridge".to_string()));
    let attrs = g.e_attrs(&1, &2, &0).unwrap();
    assert!(matches!(attrs.get(&"name".to_string()), Some(StaticDispatchAttributeValue::Str(s)) if s == "bridge"));
    let edges = g.iter_e();
    assert_eq!(edges.len(), 1);
    assert_eq!(edges[0].id1, 1);
    assert_eq!(edges[0].id2, 2);
}

#[test]
fn vertex_attributes_are_kept() {
    let mut g: Graph<(), u8, SimpleUndirectedLocale<(), u8, Names, usize>, Names, usize> = Graph::new();
    g.add_v(None);
    g.v_attrs_mut(&0).unwrap().insert("label".to_string(), StaticDispatchAttributeValue::Bool(true));
    let attrs = g.v_attrs(&0).unwrap();
    assert!(matches!(attrs.get(&"label".to_string()), Some(StaticDispatchAttributeValue::Bool(true))));
    assert!(attrs.get(&"other".to_string()).is_none());
}

#[test]
fn undirected_loop_is_one_edge() {
    let mut g: UndirectedGraph = Graph::new();
    g.add_v(None);
    g.add_e(&0, &0, false, None).unwrap();
    assert!(g.v_degree(&0).is_ok_and(|x| x == 1));
    assert_eq!(g.count_e(), 1);
    assert!(g.remove_v(&0));
    assert_eq!(g.count_v(), 0);
}

#[test]
fn edge_listing_is_owned_once() {
    let mut g: DirectedGraph = Graph::new();
    for _ in 0..4 {
        g.add_v(None);
    }
    g.add_e(&3, &1, true, None).unwrap();
    g.add_e(&2, &1, false, None).unwrap();
    g.add_e(&0, &2, true, None).unwrap();
    let mut pairs: Vec<(usize, usize)> = g.iter_e().iter().map(|e| (e.id1, e.id2)).collect();
    pairs.sort();
    assert_eq!(pairs, vec![(0, 2), (1, 2), (3, 1)]);
    let mut vertices = g.iter_v();
    vertices.sort();
    assert_eq!(vertices, vec![0, 1, 2, 3]);
}

#[test]
fn clone_is_independent() {
    let mut g: AttributedUndirectedGraph = Graph::new();
    g.add_v(None);
    g.add_v(None);
    g.add_e(&0, &1, false, None).unwrap();
    let copy = g.clone();
    g.e_attrs_mut(&0, &1, &0)
        .unwrap()
        .insert("w".to_string(), StaticDispatchAttributeValue::UInt8(1));
    g.remove_v(&1);
    assert_eq!(copy.count_v(), 2);
    assert_eq!(copy.count_e(), 1);
    assert!(copy.e_attrs(&1, &0, &0).unwrap().get(&"w".to_string()).is_none());
    assert_eq!(g.count_v(), 1);
    assert_eq!(g.count_e(), 0);
}

#[test]
fn whole_identifier_space_is_handed_out() {
    let mut g: Graph<(), u8, SimpleUndirectedLocale<(), u8, (), i8>, (), i8> = Graph::new();
    for expected in -128i16..=127i16 {
        assert_eq!(g.add_v(None) as i16, expected);
    }
    assert_eq!(g.count_v(), 256);
    assert!(g.remove_v(&5));
    assert_eq!(g.add_v(None), 5);
    assert_eq!(g.count_v(), 256);
}

#[test]
fn highest_identifier_does_not_move_minimum() {
    let mut g: Graph<(), u8, SimpleDirectedLocale<(), u8, (), u8>, (), u8> = Graph::new();
    assert_eq!(g.add_v(Some(255)), 255);
    assert_eq!(g.add_v(None), 0);
    assert_eq!(g.add_v(None), 1);
    g.add_e(&255, &0, true, None).unwrap();
    assert!(g.contains_e(&0, &255, &0) == Some(EdgeDirection::Directed2to1));
}

#[test]
fn default_graph_is_empty() {
    let mut g: DirectedGraph = Default::default();
    assert_eq!(g.count_v(), 0);
    assert_eq!(g.add_v(None), 0);
}

#[test]
fn readded_edge_has_fresh_attributes() {
    let mut g: AttributedDirectedGraph = Graph::new();
    g.add_v(None);
    g.add_v(None);
    g.add_e(&0, &1, true, None).unwrap();
    g.e_attrs_mut(&0, &1, &0)
        .unwrap()
        .insert("w".to_string(), StaticDispatchAttributeValue::Int8(3));
    g.add_e(&0, &1, true, None).unwrap();
    assert_eq!(g.e_attrs(&1, &0, &0).unwrap().iter().len(), 0);
    g.e_attrs_mut(&0, &1, &0)
        .unwrap()
        .insert("w".to_string(), StaticDispatchAttributeValue::Int8(4));
    g.add_e(&1, &0, false, None).unwrap();
    assert_eq!(g.e_attrs(&0, &1, &0).unwrap().iter().len(), 0);
}

#[test]
fn replaced_vertex_has_fresh_attributes() {
    let mut g: Graph<(), u8, SimpleUndirectedLocale<(), u8, Names, usize>, Names, usize> = Graph::new();
    g.add_v(None);
    g.add_v(None);
    g.add_e(&0, &1, false, None).unwrap();
    g.v_attrs_mut(&0).unwrap().insert("label".to_string(), StaticDispatchAttributeValue::Bool(true));
    assert_eq!(g.add_v(Some(0)), 0);
    assert!(g.v_attrs(&0).unwrap().get(&"label".to_string()).is_none());
    assert_eq!(g.count_e(), 0);
}

#[test]
fn writing_one_edge_leaves_others() {
    let mut g: AttributedUndirectedGraph = Graph::new();
    for _ in 0..3 {
        g.add_v(None);
    }
    g.add_e(&0, &1, false, None).unwrap();
    g.add_e(&1, &2, false, None).unwrap();
    g.e_attrs_mut(&1, &0, &0)
        .unwrap()
        .insert("w".to_string(), StaticDispatchAttributeValue::UInt16(9));
    assert!(g.e_attrs(&1, &2, &0).unwrap().get(&"w".to_string()).is_none());
    assert!(matches!(
        g.e_attrs(&0, &1, &0).unwrap().get(&"w".to_string()),
        Some(StaticDispatchAttributeValue::UInt16(9))
    ));
}

#[test]
fn replacing_vertex_drops_its_degree_from_count() {
    let mut g: DirectedGraph = Graph::new();
    for _ in 0..4 {
        g.add_v(None);
    }
    g.add_e(&0, &1, true, None).unwrap();
    g.add_e(&2, &0, false, None).unwrap();
    g.add_e(&2, &3, true, None).unwrap();
    let before = g.count_e();
    let degree = g.v_degree(&0).unwrap();
    g.add_v(Some(0));
    assert_eq!(g.count_e(), before - degree);
    assert_eq!(g.count_e(), 1);
}
