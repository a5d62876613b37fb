use std::collections::HashSet;

use multidigraph::labeled_multidigraph::{Edge, LabeledMultidigraph, Vertex};

#[test]
fn directed_graph_test_1() {
    let mut directed_graph = LabeledMultidigraph::new();
    let x1 = directed_graph.add_vertex(Vertex { label: "X1" });
    assert_eq!(Some(x1), directed_graph.contains_vertex(&Vertex { label: "X1" }));
    let x2 = directed_graph.add_vertex(Vertex { label: "X2" });
    let x1_a_x2 = directed_graph.add_edge(Edge { source: x1, label: 'a', target: x2 });
    assert_eq!(
        Some(x1_a_x2),
        directed_graph.contains_edge(&Edge { source: x1, label: 'a', target: x2 })
    );
}

#[test]
fn directed_graph_test_2() {
    let mut directed_graph = LabeledMultidigraph::new();
    let x1 = directed_graph.add_vertex(Vertex { label: "X1" });
    assert_eq!(&Vertex { label: "X1" }, directed_graph.get_vertex(x1));
    let x2 = directed_graph.add_vertex(Vertex { label: "X2" });
    let x1_a_x2 = directed_graph.add_edge(Edge { source: x1, label: 'a', target: x2 });
    assert_eq!(
        &Edge { source: x1, label: 'a', target: x2 },
        directed_graph.get_edge(x1_a_x2)
    );
}

#[test]
fn directed_graph_test_3() {
    let mut directed_graph = LabeledMultidigraph::new();
    let x1 = directed_graph.add_vertex(Vertex { label: "X1" });
    let x2 = directed_graph.add_vertex(Vertex { label: "X2" });
    let x3 = directed_graph.add_vertex(Vertex { label: "X3" });
    let x1_a_x2 = directed_graph.add_edge(Edge { source: x1, label: 'a', target: x2 });
    let x1_b_x2 = directed_graph.add_edge(Edge { source: x1, label: 'b', target: x2 });
    let x1_a_x3 = directed_graph.add_edge(Edge { source: x1, label: 'a', target: x3 });
    let neighbors: HashSet<usize> = directed_graph.get_neighbors(x1).into_iter().collect();
    assert_eq!(HashSet::from([x2, x3]), neighbors);
    let edges_from: HashSet<usize> = directed_graph.get_edges_from(x1).into_iter().collect();
    assert_eq!(HashSet::from([x1_a_x2, x1_b_x2, x1_a_x3]), edges_from);
    let edges_between: HashSet<usize> =
        directed_graph.get_edges_between(x1, x2).into_iter().collect();
    assert_eq!(HashSet::from([x1_a_x2, x1_b_x2]), edges_between);
}
