//! The labeled multidigraph container.
//!
//! The canonical storage is two dense vectors: vertex entities in index
//! order and edge entities in index order. A derived adjacency index keeps,
//! for every vertex, the indexes of the edges leaving it; well-formedness
//! (`wf`) says that this index always equals what a full scan of edge
//! storage would produce.

use vstd::prelude::*;
use vstd::std_specs::cmp::PartialEqSpec;

use crate::model::{
    as_ints, edge_index_of, edge_matches, edges_between_ix, edges_from_ix, find_edge, find_vertex,
    labels_after_add, lemma_edges_from_ix_characterizes, lemma_edges_from_ix_empty,
    lemma_edges_from_ix_push, lemma_find_edge_at, lemma_find_edge_characterizes,
    lemma_find_vertex_at, lemma_find_vertex_characterizes, neighbors_ix, triples_after_add,
    vertex_index_of,
};

verus! {

/// The stable public handle of a vertex: dense, zero-based, assigned in
/// insertion order and never reused.
pub type VertexIndex = usize;

/// The stable public handle of an edge: dense, zero-based, assigned in
/// insertion order and never reused.
pub type EdgeIndex = usize;

/// A directed edge entity: a source vertex index, an edge label and a
/// target vertex index. Two edges are the same entity exactly when their
/// (source, label, target) triples are equal.
#[derive(Clone, Copy, Debug, Eq, Hash, PartialEq)]
pub struct Edge<EdgeLabel> {
    pub source: VertexIndex,
    pub label: EdgeLabel,
    pub target: VertexIndex,
}

/// A vertex entity, identified by its label alone.
#[derive(Clone, Copy, Debug, Eq, Hash, PartialEq)]
pub struct Vertex<VertexLabel> {
    pub label: VertexLabel,
}

/// A generic, in-memory labeled directed multigraph: an append-only store
/// of deduplicated vertices and edges, addressed by dense integer indexes.
pub struct LabeledMultidigraph<VertexLabel, EdgeLabel> {
    vertices: Vec<Vertex<VertexLabel>>,
    edges: Vec<Edge<EdgeLabel>>,
    edges_from: Vec<Vec<EdgeIndex>>,
}

impl<VertexLabel: Eq, EdgeLabel: Eq> LabeledMultidigraph<VertexLabel, EdgeLabel> {
    /// The vertex labels in index order: the vertex with index `i` holds
    /// entry `i` of this sequence.
    pub closed spec fn labels(self) -> Seq<VertexLabel> {
        self.vertices@.map_values(|x: Vertex<VertexLabel>| x.label)
    }

    /// The edge triples in index order: the edge with index `i` runs from
    /// vertex `.0` to vertex `.2` and carries label `.1`.
    pub closed spec fn triples(self) -> Seq<(VertexIndex, EdgeLabel, VertexIndex)> {
        self.edges@.map_values(|x: Edge<EdgeLabel>| (x.source, x.label, x.target))
    }

    /// How many vertices have been issued; the valid vertex indexes are
    /// exactly those below this count.
    pub open spec fn vertex_count(self) -> nat {
        self.labels().len()
    }

    /// How many edges have been issued; the valid edge indexes are exactly
    /// those below this count.
    pub open spec fn edge_count(self) -> nat {
        self.triples().len()
    }

    /// Well-formedness: every stored edge's endpoints are issued vertex
    /// indexes, and the adjacency index lists, for every vertex, exactly
    /// the edges leaving it, in increasing index order.
    pub closed spec fn wf(self) -> bool {
        &&& self.edges_from@.len() == self.vertices@.len()
        &&& forall|e: int|
            0 <= e < self.edges@.len() ==> (#[trigger] self.edges@[e]).source
                < self.vertices@.len() && self.edges@[e].target < self.vertices@.len()
        &&& forall|v: int|
            0 <= v < self.edges_from@.len() ==> as_ints((#[trigger] self.edges_from@[v])@)
                == edges_from_ix(self.triples(), v)
    }

    /// In a well-formed graph, every stored edge's source and target are
    /// issued vertex indexes.
    pub proof fn lemma_wf_endpoints(self)
        requires
            self.wf(),
        ensures
            forall|e: int|
                0 <= e < self.edge_count() ==> (#[trigger] self.triples()[e]).0
                    < self.vertex_count() && self.triples()[e].2 < self.vertex_count(),
    {
        assert forall|e: int|
            0 <= e < self.edge_count() implies (#[trigger] self.triples()[e]).0
            < self.vertex_count() && self.triples()[e].2 < self.vertex_count() by {
            assert(self.triples()[e] == (self.edges@[e].source, self.edges@[e].label,
            self.edges@[e].target));
        }
    }

    /// Creates an empty graph: zero vertices, zero edges.
    pub fn new() -> (graph: LabeledMultidigraph<VertexLabel, EdgeLabel>)
        ensures
            graph.wf(),
            graph.labels() == Seq::<VertexLabel>::empty(),
            graph.triples() == Seq::<(VertexIndex, EdgeLabel, VertexIndex)>::empty(),
    {
        let graph = LabeledMultidigraph { vertices: Vec::new(), edges: Vec::new(), edges_from: Vec::new() };
        proof {
            assert(graph.labels() =~= Seq::<VertexLabel>::empty());
            assert(graph.triples() =~= Seq::<(VertexIndex, EdgeLabel, VertexIndex)>::empty());
        }
        graph
    }

    /// Pure lookup by label equality: the index of the vertex whose label
    /// equals the given vertex's label, if one is present. Absence is a
    /// normal outcome, not an error.
    pub fn contains_vertex(&self, vertex: &Vertex<VertexLabel>) -> (found: Option<VertexIndex>)
        ensures
            found matches Some(i) ==> i < self.vertex_count(),
            VertexLabel::obeys_eq_spec() ==> match found {
                Some(i) => find_vertex(self.labels(), vertex.label) == Some(i as int),
                None => find_vertex(self.labels(), vertex.label) is None,
            },
    {
        let n = self.vertices.len();
        let mut i: usize = 0;
        while i < n
            invariant
                n == self.vertices@.len(),
                i <= n,
                VertexLabel::obeys_eq_spec() ==> forall|j: int|
                    0 <= j < i ==> !vertex.label.eq_spec(&self.labels()[j]),
            decreases n - i,
        {
            let hit = vertex.label.eq(&self.vertices[i].label);
            proof {
                assert(self.labels()[i as int] == self.vertices@[i as int].label);
            }
            if hit {
                proof {
                    if VertexLabel::obeys_eq_spec() {
                        lemma_find_vertex_at(self.labels(), vertex.label, i as int);
                    }
                }
                return Some(i);
            }
            i = i + 1;
        }
        proof {
            if VertexLabel::obeys_eq_spec() {
                lemma_find_vertex_characterizes(self.labels(), vertex.label);
            }
        }
        None
    }

    /// Inserts a vertex. When a vertex with an equal label is already
    /// present this returns its existing index and changes nothing;
    /// otherwise the label is stored under the next sequential index,
    /// which is returned. Never fails.
    pub fn add_vertex(&mut self, vertex: Vertex<VertexLabel>) -> (vertex_index: VertexIndex)
        requires
            old(self).wf(),
        ensures
            final(self).wf(),
            final(self).triples() == old(self).triples(),
            vertex_index <= old(self).vertex_count(),
            vertex_index < old(self).vertex_count() ==> final(self).labels() == old(self).labels(),
            vertex_index == old(self).vertex_count() ==> final(self).labels() == old(
                self,
            ).labels().push(vertex.label),
            VertexLabel::obeys_eq_spec() ==> {
                &&& vertex_index == vertex_index_of(old(self).labels(), vertex.label)
                &&& final(self).labels() == labels_after_add(old(self).labels(), vertex.label)
            },
    {
        match self.contains_vertex(&vertex) {
            Some(vertex_index) => vertex_index,
            None => {
                let vertex_index = self.vertices.len();
                self.vertices.push(vertex);
                self.edges_from.push(Vec::new());
                proof {
                    let pre = *old(self);
                    assert(self.labels() =~= pre.labels().push(vertex.label));
                    assert(self.triples() =~= pre.triples());
                    let n = pre.vertices@.len() as int;
                    assert forall|v: int|
                        0 <= v < self.edges_from@.len() implies as_ints(
                        (#[trigger] self.edges_from@[v])@,
                    ) == edges_from_ix(self.triples(), v) by {
                        if v < n {
                            assert(self.edges_from@[v] == pre.edges_from@[v]);
                        } else {
                            assert forall|e: int|
                                0 <= e < self.triples().len() implies (
                            #[trigger] self.triples()[e]).0 as int != v by {
                                assert(self.triples()[e].0 == pre.edges@[e].source);
                            }
                            lemma_edges_from_ix_empty(self.triples(), v);
                            assert(as_ints(self.edges_from@[v]@) =~= Seq::<int>::empty());
                        }
                    }
                }
                vertex_index
            },
        }
    }

    /// The vertex entity issued the given index. The index must be one
    /// this graph issued: passing any other index is a caller bug, ruled
    /// out by the precondition rather than handled at run time.
    pub fn get_vertex(&self, vertex_index: VertexIndex) -> (vertex: &Vertex<VertexLabel>)
        requires
            vertex_index < self.vertex_count(),
        ensures
            vertex.label == self.labels()[vertex_index as int],
    {
        proof {
            assert(self.labels()[vertex_index as int] == self.vertices@[vertex_index as int].label);
        }
        &self.vertices[vertex_index]
    }

    /// Pure lookup by (source, label, target) equality: the index of the
    /// matching edge, if one is present. Absence is a normal outcome, not
    /// an error.
    pub fn contains_edge(&self, edge: &Edge<EdgeLabel>) -> (found: Option<EdgeIndex>)
        ensures
            found matches Some(i) ==> i < self.edge_count(),
            EdgeLabel::obeys_eq_spec() ==> match found {
                Some(i) => find_edge(self.triples(), (edge.source, edge.label, edge.target))
                    == Some(i as int),
                None => find_edge(self.triples(), (edge.source, edge.label, edge.target)) is None,
            },
    {
        let ghost q = (edge.source, edge.label, edge.target);
        let m = self.edges.len();
        let mut i: usize = 0;
        while i < m
            invariant
                m == self.edges@.len(),
                i <= m,
                q == (edge.source, edge.label, edge.target),
                EdgeLabel::obeys_eq_spec() ==> forall|j: int|
                    0 <= j < i ==> !edge_matches(q, self.triples()[j]),
            decreases m - i,
        {
            let stored = &self.edges[i];
            let hit = stored.source == edge.source && stored.target == edge.target
                && edge.label.eq(&stored.label);
            proof {
                assert(self.triples()[i as int] == (self.edges@[i as int].source,
                self.edges@[i as int].label, self.edges@[i as int].target));
            }
            if hit {
                proof {
                    if EdgeLabel::obeys_eq_spec() {
                        lemma_find_edge_at(self.triples(), q, i as int);
                    }
                }
                return Some(i);
            }
            i = i + 1;
        }
        proof {
            if EdgeLabel::obeys_eq_spec() {
                lemma_find_edge_characterizes(self.triples(), q);
            }
        }
        None
    }

    /// Inserts an edge from `edge.source` to `edge.target`. Both endpoints
    /// must be indexes this graph issued: passing any other index is a
    /// caller bug, ruled out by the precondition rather than handled at
    /// run time. When an edge with an equal triple is already present this
    /// returns its existing index and changes nothing; otherwise the
    /// triple is stored under the next sequential edge index, the
    /// adjacency index is extended to keep it consistent, and the new
    /// index is returned.
    pub fn add_edge(&mut self, edge: Edge<EdgeLabel>) -> (edge_index: EdgeIndex)
        requires
            old(self).wf(),
            edge.source < old(self).vertex_count(),
            edge.target < old(self).vertex_count(),
        ensures
            final(self).wf(),
            final(self).labels() == old(self).labels(),
            edge_index <= old(self).edge_count(),
            edge_index < old(self).edge_count() ==> final(self).triples() == old(self).triples(),
            edge_index == old(self).edge_count() ==> final(self).triples() == old(
                self,
            ).triples().push((edge.source, edge.label, edge.target)),
            EdgeLabel::obeys_eq_spec() ==> {
                &&& edge_index == edge_index_of(
                    old(self).triples(),
                    (edge.source, edge.label, edge.target),
                )
                &&& final(self).triples() == triples_after_add(
                    old(self).triples(),
                    (edge.source, edge.label, edge.target),
                )
            },
    {
        match self.contains_edge(&edge) {
            Some(edge_index) => edge_index,
            None => {
                let edge_index = self.edges.len();
                let edge_source = edge.source;
                self.edges.push(edge);
                self.edges_from[edge_source].push(edge_index);
                proof {
                    let pre = *old(self);
                    let t = (edge.source, edge.label, edge.target);
                    assert(self.labels() =~= pre.labels());
                    assert(self.triples() =~= pre.triples().push(t));
                    assert forall|v: int|
                        0 <= v < self.edges_from@.len() implies as_ints(
                        (#[trigger] self.edges_from@[v])@,
                    ) == edges_from_ix(self.triples(), v) by {
                        lemma_edges_from_ix_push(pre.triples(), t, v);
                        if v == edge.source as int {
                            assert(self.edges_from@[v]@ == pre.edges_from@[v]@.push(edge_index));
                            assert(as_ints(pre.edges_from@[v]@.push(edge_index)) =~= as_ints(
                                pre.edges_from@[v]@,
                            ).push(edge_index as int));
                        } else {
                            assert(self.edges_from@[v] == pre.edges_from@[v]);
                        }
                    }
                }
                edge_index
            },
        }
    }

    /// The edge entity issued the given index. The index must be one this
    /// graph issued: passing any other index is a caller bug, ruled out by
    /// the precondition rather than handled at run time.
    pub fn get_edge(&self, edge_index: EdgeIndex) -> (edge: &Edge<EdgeLabel>)
        requires
            edge_index < self.edge_count(),
        ensures
            (edge.source, edge.label, edge.target) == self.triples()[edge_index as int],
    {
        proof {
            assert(self.triples()[edge_index as int] == (self.edges@[edge_index as int].source,
            self.edges@[edge_index as int].label, self.edges@[edge_index as int].target));
        }
        &self.edges[edge_index]
    }

    /// The target-vertex indexes of every edge leaving the given vertex,
    /// one entry per edge; empty when no edge leaves it. The vertex index
    /// must be one this graph issued.
    pub fn get_neighbors(&self, vertex_index: VertexIndex) -> (neighbors: Vec<VertexIndex>)
        requires
            self.wf(),
            vertex_index < self.vertex_count(),
        ensures
            as_ints(neighbors@) == neighbors_ix(self.triples(), vertex_index as int),
    {
        let ghost efi = edges_from_ix(self.triples(), vertex_index as int);
        proof {
            lemma_edges_from_ix_characterizes(self.triples(), vertex_index as int);
        }
        let bucket = &self.edges_from[vertex_index];
        let mut neighbors: Vec<VertexIndex> = Vec::new();
        let mut j: usize = 0;
        while j < bucket.len()
            invariant
                self.wf(),
                vertex_index < self.vertex_count(),
                bucket@ == self.edges_from@[vertex_index as int]@,
                as_ints(bucket@) == efi,
                efi == edges_from_ix(self.triples(), vertex_index as int),
                forall|k: int|
                    0 <= k < efi.len() ==> 0 <= #[trigger] efi[k] < self.triples().len()
                        && self.triples()[efi[k]].0 as int == vertex_index as int,
                j <= bucket@.len(),
                neighbors@.len() == j,
                forall|k: int|
                    0 <= k < j ==> #[trigger] neighbors@[k] as int == self.triples()[efi[k]].2
                        as int,
            decreases bucket@.len() - j,
        {
            let e = bucket[j];
            proof {
                assert(as_ints(bucket@)[j as int] == e as int);
                assert(self.triples()[e as int] == (self.edges@[e as int].source,
                self.edges@[e as int].label, self.edges@[e as int].target));
            }
            let target = self.edges[e].target;
            neighbors.push(target);
            j = j + 1;
        }
        proof {
            assert(as_ints(neighbors@) =~= neighbors_ix(self.triples(), vertex_index as int));
        }
        neighbors
    }

    /// The indexes of every edge leaving the given vertex; empty when no
    /// edge leaves it. The vertex index must be one this graph issued.
    pub fn get_edges_from(&self, vertex_index: VertexIndex) -> (edge_indexes: Vec<EdgeIndex>)
        requires
            self.wf(),
            vertex_index < self.vertex_count(),
        ensures
            as_ints(edge_indexes@) == edges_from_ix(self.triples(), vertex_index as int),
    {
        let bucket = &self.edges_from[vertex_index];
        let mut edge_indexes: Vec<EdgeIndex> = Vec::new();
        let mut j: usize = 0;
        while j < bucket.len()
            invariant
                bucket@ == self.edges_from@[vertex_index as int]@,
                as_ints(bucket@) == edges_from_ix(self.triples(), vertex_index as int),
                j <= bucket@.len(),
                edge_indexes@.len() == j,
                forall|k: int| 0 <= k < j ==> #[trigger] edge_indexes@[k] == bucket@[k],
            decreases bucket@.len() - j,
        {
            let e = bucket[j];
            edge_indexes.push(e);
            j = j + 1;
        }
        proof {
            assert(edge_indexes@ =~= bucket@);
        }
        edge_indexes
    }

    /// The indexes of every edge that runs from the first vertex to the
    /// second; empty when there is none. Both vertex indexes must be ones
    /// this graph issued.
    pub fn get_edges_between(
        &self,
        source_vertex_index: VertexIndex,
        target_vertex_index: VertexIndex,
    ) -> (edge_indexes: Vec<EdgeIndex>)
        requires
            self.wf(),
            source_vertex_index < self.vertex_count(),
            target_vertex_index < self.vertex_count(),
        ensures
            as_ints(edge_indexes@) == edges_between_ix(
                self.triples(),
                source_vertex_index as int,
                target_vertex_index as int,
            ),
    {
        let m = self.edges.len();
        let mut edge_indexes: Vec<EdgeIndex> = Vec::new();
        let mut e: usize = 0;
        while e < m
            invariant
                m == self.edges@.len(),
                e <= m,
                as_ints(edge_indexes@) == edges_between_ix(
                    self.triples().take(e as int),
                    source_vertex_index as int,
                    target_vertex_index as int,
                ),
            decreases m - e,
        {
            let ghost prefix = self.triples().take(e as int);
            let stored = &self.edges[e];
            let hit = stored.source == source_vertex_index && stored.target == target_vertex_index;
            proof {
                assert(self.triples()[e as int] == (self.edges@[e as int].source,
                self.edges@[e as int].label, self.edges@[e as int].target));
                assert(self.triples().take(e as int + 1).drop_last() =~= prefix);
                assert(self.triples().take(e as int + 1).last() == self.triples()[e as int]);
            }
            if hit {
                edge_indexes.push(e);
                proof {
                    assert(as_ints(edge_indexes@) =~= as_ints(edge_indexes@.drop_last()).push(
                        e as int,
                    ));
                }
            }
            e = e + 1;
        }
        proof {
            assert(self.triples().take(m as int) =~= self.triples());
        }
        edge_indexes
    }

    /// Every vertex index this graph has issued, in increasing order:
    /// exactly the integers below the vertex count.
    pub fn vertices(&self) -> (vertex_indexes: Vec<VertexIndex>)
        ensures
            vertex_indexes@.len() == self.vertex_count(),
            forall|j: int| 0 <= j < vertex_indexes@.len() ==> #[trigger] vertex_indexes@[j] as int
                == j,
    {
        let n = self.vertices.len();
        let mut vertex_indexes: Vec<VertexIndex> = Vec::new();
        let mut i: usize = 0;
        while i < n
            invariant
                n == self.vertices@.len(),
                i <= n,
                vertex_indexes@.len() == i,
                forall|j: int| 0 <= j < i ==> #[trigger] vertex_indexes@[j] as int == j,
            decreases n - i,
        {
            vertex_indexes.push(i);
            i = i + 1;
        }
        vertex_indexes
    }

    /// Every edge index this graph has issued, in increasing order:
    /// exactly the integers below the edge count.
    pub fn edges(&self) -> (edge_indexes: Vec<EdgeIndex>)
        ensures
            edge_indexes@.len() == self.edge_count(),
            forall|j: int| 0 <= j < edge_indexes@.len() ==> #[trigger] edge_indexes@[j] as int
                == j,
    {
        let m = self.edges.len();
        let mut edge_indexes: Vec<EdgeIndex> = Vec::new();
        let mut e: usize = 0;
        while e < m
            invariant
                m == self.edges@.len(),
                e <= m,
                edge_indexes@.len() == e,
                forall|j: int| 0 <= j < e ==> #[trigger] edge_indexes@[j] as int == j,
            decreases m - e,
        {
            edge_indexes.push(e);
            e = e + 1;
        }
        edge_indexes
    }
}

} // verus!
