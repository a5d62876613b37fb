use std::collections::HashSet;

use multidigraph::labeled_multidigraph::{Edge, LabeledMultidigraph, Vertex};

#[test]
fn labeled_multidigraph_test_1() {
    let mut directed_graph = LabeledMultidigraph::new();
    let x1 = directed_graph.add_vertex(Vertex { label: "X1" });
    assert_eq!(Some(x1), directed_graph.contains_vertex(&Vertex { label: "X1" }));
    let x2 = directed_graph.add_vertex(Vertex { label: "X2" });
    let x1_a_x2 = directed_graph.add_edge(Edge { source: x1, label: 'a', target: x2 });
    assert_eq!(
        Some(x1_a_x2),
        directed_graph.contains_edge(&Edge { source: x1, label: 'a', target: x2 })
    );
}

#[test]
fn labeled_multidigraph_test_2() {
    let mut directed_graph = LabeledMultidigraph::new();
    let x1 = directed_graph.add_vertex(Vertex { label: "X1" });
    assert_eq!(&Vertex { label: "X1" }, directed_graph.get_vertex(x1));
    let x2 = directed_graph.add_vertex(Vertex { label: "X2" });
    let x1_a_x2 = directed_graph.add_edge(Edge { source: x1, label: 'a', target: x2 });
    assert_eq!(
        &Edge { source: x1, label: 'a', target: x2 },
        directed_graph.get_edge(x1_a_x2)
    );
}

#[test]
fn labeled_multidigraph_test_3() {
    let mut directed_graph = LabeledMultidigraph::new();
    let x1 = directed_graph.add_vertex(Vertex { label: "X1" });
    let x2 = directed_graph.add_vertex(Vertex { label: "X2" });
    let x3 = directed_graph.add_vertex(Vertex { label: "X3" });
    let x1_a_x2 = directed_graph.add_edge(Edge { source: x1, label: 'a', target: x2 });
    let x1_b_x2 = directed_graph.add_edge(Edge { source: x1, label: 'b', target: x2 });
    let x1_a_x3 = directed_graph.add_edge(Edge { source: x1, label: 'a', target: x3 });
    let neighbors: HashSet<usize> = directed_graph.get_neighbors(x1).into_iter().collect();
    assert_eq!(HashSet::from([x2, x3]), neighbors);
    let edges_from: HashSet<usize> = directed_graph.get_edges_from(x1).into_iter().collect();
    assert_eq!(HashSet::from([x1_a_x2, x1_b_x2, x1_a_x3]), edges_from);
    let edges_between: HashSet<usize> =
        directed_graph.get_edges_between(x1, x2).into_iter().collect();
    assert_eq!(HashSet::from([x1_a_x2, x1_b_x2]), edges_between);
}

#[test]
fn vertex_dedup_keeps_index_and_count() {
    let mut graph = LabeledMultidigraph::<&str, char>::new();
    let first = graph.add_vertex(Vertex { label: "X1" });
    let second = graph.add_vertex(Vertex { label: "X1" });
    assert_eq!(first, second);
    assert_eq!(1, graph.vertices().len());
}

#[test]
fn edge_dedup_keeps_index_and_count() {
    let mut graph = LabeledMultidigraph::new();
    let x1 = graph.add_vertex(Vertex { label: "X1" });
    let x2 = graph.add_vertex(Vertex { label: "X2" });
    let first = graph.add_edge(Edge { source: x1, label: 'a', target: x2 });
    let second = graph.add_edge(Edge { source: x1, label: 'a', target: x2 });
    assert_eq!(first, second);
    assert_eq!(1, graph.edges().len());
}

#[test]
fn vertex_indexes_are_dense() {
    let mut graph = LabeledMultidigraph::<&str, char>::new();
    graph.add_vertex(Vertex { label: "X1" });
    graph.add_vertex(Vertex { label: "X2" });
    graph.add_vertex(Vertex { label: "X3" });
    assert_eq!(vec![0, 1, 2], graph.vertices());
}

#[test]
fn edge_indexes_are_dense() {
    let mut graph = LabeledMultidigraph::new();
    let x1 = graph.add_vertex(Vertex { label: "X1" });
    let x2 = graph.add_vertex(Vertex { label: "X2" });
    graph.add_edge(Edge { source: x1, label: 'a', target: x2 });
    graph.add_edge(Edge { source: x1, label: 'b', target: x2 });
    graph.add_edge(Edge { source: x2, label: 'a', target: x1 });
    assert_eq!(vec![0, 1, 2], graph.edges());
}

#[test]
fn vertex_round_trip() {
    let mut graph = LabeledMultidigraph::<&str, char>::new();
    let x1 = graph.add_vertex(Vertex { label: "X1" });
    let x2 = graph.add_vertex(Vertex { label: "X2" });
    assert_eq!(Some(x1), graph.contains_vertex(&Vertex { label: "X1" }));
    assert_eq!(Some(x2), graph.contains_vertex(&Vertex { label: "X2" }));
    assert_eq!("X1", graph.get_vertex(x1).label);
    assert_eq!("X2", graph.get_vertex(x2).label);
    assert_eq!(None, graph.contains_vertex(&Vertex { label: "X3" }));
}

#[test]
fn get_edge_returns_inserted_triple() {
    let mut graph = LabeledMultidigraph::new();
    let x1 = graph.add_vertex(Vertex { label: "X1" });
    let x2 = graph.add_vertex(Vertex { label: "X2" });
    let e0 = graph.add_edge(Edge { source: x1, label: 'a', target: x2 });
    let e1 = graph.add_edge(Edge { source: x2, label: 'b', target: x1 });
    assert_eq!(&Edge { source: x1, label: 'a', target: x2 }, graph.get_edge(e0));
    assert_eq!(&Edge { source: x2, label: 'b', target: x1 }, graph.get_edge(e1));
    assert_eq!(None, graph.contains_edge(&Edge { source: x1, label: 'b', target: x2 }));
}

#[test]
fn adjacency_scenario() {
    let mut graph = LabeledMultidigraph::new();
    let x1 = graph.add_vertex(Vertex { label: "X1" });
    let x2 = graph.add_vertex(Vertex { label: "X2" });
    let x3 = graph.add_vertex(Vertex { label: "X3" });
    assert_eq!(0, x1);
    assert_eq!(1, x2);
    assert_eq!(2, x3);
    assert_eq!(Some(0), graph.contains_vertex(&Vertex { label: "X1" }));
    let e0 = graph.add_edge(Edge { source: 0, label: 'a', target: 1 });
    let e1 = graph.add_edge(Edge { source: 0, label: 'b', target: 1 });
    let e2 = graph.add_edge(Edge { source: 0, label: 'a', target: 2 });
    assert_eq!(0, e0);
    assert_eq!(1, e1);
    assert_eq!(2, e2);
    let neighbors: HashSet<usize> = graph.get_neighbors(0).into_iter().collect();
    assert_eq!(HashSet::from([1, 2]), neighbors);
    let edges_from: HashSet<usize> = graph.get_edges_from(0).into_iter().collect();
    assert_eq!(HashSet::from([0, 1, 2]), edges_from);
    let between_0_1: HashSet<usize> = graph.get_edges_between(0, 1).into_iter().collect();
    assert_eq!(HashSet::from([0, 1]), between_0_1);
    let between_0_2: HashSet<usize> = graph.get_edges_between(0, 2).into_iter().collect();
    assert_eq!(HashSet::from([2]), between_0_2);
    let between_1_2: HashSet<usize> = graph.get_edges_between(1, 2).into_iter().collect();
    assert_eq!(HashSet::new(), between_1_2);
}

#[test]
fn edge_reinsertion_scenario() {
    let mut graph = LabeledMultidigraph::new();
    graph.add_vertex(Vertex { label: "X1" });
    graph.add_vertex(Vertex { label: "X2" });
    graph.add_vertex(Vertex { label: "X3" });
    graph.add_edge(Edge { source: 0, label: 'a', target: 1 });
    graph.add_edge(Edge { source: 0, label: 'b', target: 1 });
    graph.add_edge(Edge { source: 0, label: 'a', target: 2 });
    let again = graph.add_edge(Edge { source: 0, label: 'a', target: 1 });
    assert_eq!(0, again);
    assert_eq!(3, graph.edges().len());
}

#[test]
fn neighbors_list_one_entry_per_edge() {
    let mut graph = LabeledMultidigraph::new();
    let x1 = graph.add_vertex(Vertex { label: "X1" });
    let x2 = graph.add_vertex(Vertex { label: "X2" });
    graph.add_edge(Edge { source: x1, label: 'a', target: x2 });
    graph.add_edge(Edge { source: x1, label: 'b', target: x2 });
    let mut neighbors = graph.get_neighbors(x1);
    neighbors.sort();
    assert_eq!(vec![x2, x2], neighbors);
    assert_eq!(Vec::<usize>::new(), graph.get_neighbors(x2));
    assert_eq!(Vec::<usize>::new(), graph.get_edges_from(x2));
}

#[test]
fn empty_graph_has_no_indexes() {
    let graph = LabeledMultidigraph::<&str, char>::new();
    assert_eq!(Vec::<usize>::new(), graph.vertices());
    assert_eq!(Vec::<usize>::new(), graph.edges());
    assert_eq!(None, graph.contains_vertex(&Vertex { label: "X1" }));
}
