//! The container's general laws, stated over the model and proved once and
//! for all.
//!
//! Each law speaks about the sequences that the container's contracts
//! expose: the vertex labels in index order and the edge triples in index
//! order. The insertion functions promise results in terms of
//! `labels_after_add`, `vertex_index_of`, `triples_after_add` and
//! `edge_index_of`, and the adjacency queries in terms of `edges_from_ix`
//! and `edges_between_ix`; the laws below are therefore laws about every
//! well-formed graph.

use vstd::prelude::*;
use vstd::std_specs::cmp::PartialEqSpec;

use crate::model::{
    edge_index_of, edge_matches, edges_between_ix, edges_from_ix, find_edge, find_vertex,
    labels_after_add, lemma_edges_between_ix_characterizes, lemma_edges_from_ix_characterizes,
    lemma_find_edge_at, lemma_find_edge_characterizes, lemma_find_vertex_at,
    lemma_find_vertex_characterizes, triples_after_add, vertex_index_of,
};

verus! {

/// Dedup idempotence for vertices: once a label has been inserted,
/// inserting an equal label again hands back the index the first insertion
/// handed back and leaves the stored labels unchanged, so the vertex count
/// does not grow. The one assumption is that the label equals itself under
/// the label type's equality.
pub proof fn lemma_vertex_dedup_idempotent<VertexLabel: PartialEq>(
    labels: Seq<VertexLabel>,
    l: VertexLabel,
)
    requires
        l.eq_spec(&l),
    ensures
        labels_after_add(labels_after_add(labels, l), l) == labels_after_add(labels, l),
        vertex_index_of(labels_after_add(labels, l), l) == vertex_index_of(labels, l),
{
    lemma_find_vertex_characterizes(labels, l);
    if find_vertex(labels, l) is None {
        let first = labels.push(l);
        assert forall|j: int| 0 <= j < labels.len() implies !l.eq_spec(&first[j]) by {
            assert(first[j] == labels[j]);
        }
        lemma_find_vertex_at(first, l, labels.len() as int);
    }
}

/// Dedup idempotence for edges: once a triple has been inserted, inserting
/// a matching triple again hands back the index the first insertion handed
/// back and leaves the stored triples unchanged, so the edge count does
/// not grow. The one assumption is that the edge label equals itself under
/// the label type's equality.
pub proof fn lemma_edge_dedup_idempotent<EdgeLabel: PartialEq>(
    triples: Seq<(usize, EdgeLabel, usize)>,
    q: (usize, EdgeLabel, usize),
)
    requires
        q.1.eq_spec(&q.1),
    ensures
        triples_after_add(triples_after_add(triples, q), q) == triples_after_add(triples, q),
        edge_index_of(triples_after_add(triples, q), q) == edge_index_of(triples, q),
{
    lemma_find_edge_characterizes(triples, q);
    if find_edge(triples, q) is None {
        let first = triples.push(q);
        assert forall|j: int| 0 <= j < triples.len() implies !edge_matches(q, first[j]) by {
            assert(first[j] == triples[j]);
        }
        lemma_find_edge_at(first, q, triples.len() as int);
    }
}

/// The vertex labels after inserting each label of `ls` in turn, starting
/// from the stored labels `labels`.
pub open spec fn labels_after_all<VertexLabel: PartialEq>(
    labels: Seq<VertexLabel>,
    ls: Seq<VertexLabel>,
) -> Seq<VertexLabel>
    decreases ls.len(),
{
    if ls.len() == 0 {
        labels
    } else {
        labels_after_all(labels_after_add(labels, ls[0]), ls.drop_first())
    }
}

/// The edge triples after inserting each triple of `es` in turn, starting
/// from the stored triples `triples`.
pub open spec fn triples_after_all<EdgeLabel: PartialEq>(
    triples: Seq<(usize, EdgeLabel, usize)>,
    es: Seq<(usize, EdgeLabel, usize)>,
) -> Seq<(usize, EdgeLabel, usize)>
    decreases es.len(),
{
    if es.len() == 0 {
        triples
    } else {
        triples_after_all(triples_after_add(triples, es[0]), es.drop_first())
    }
}

/// Inserting labels that are not yet present and pairwise unequal appends
/// them all, in order.
proof fn lemma_fresh_vertices_append<VertexLabel: PartialEq>(
    labels: Seq<VertexLabel>,
    ls: Seq<VertexLabel>,
)
    requires
        forall|k: int| 0 <= k < ls.len() ==> find_vertex(labels, #[trigger] ls[k]) is None,
        forall|a: int, b: int| 0 <= a < b < ls.len() ==> !ls[b].eq_spec(&ls[a]),
    ensures
        labels_after_all(labels, ls) == labels + ls,
    decreases ls.len(),
{
    if ls.len() == 0 {
        assert(labels + ls =~= labels);
    } else {
        let l0 = ls[0];
        let grown = labels.push(l0);
        let rest = ls.drop_first();
        assert(labels_after_add(labels, l0) == grown);
        assert forall|k: int|
            0 <= k < rest.len() implies find_vertex(grown, #[trigger] rest[k]) is None by {
            assert(rest[k] == ls[k + 1]);
            lemma_find_vertex_characterizes(labels, ls[k + 1]);
            lemma_find_vertex_characterizes(grown, ls[k + 1]);
            if let Some(i) = find_vertex(grown, ls[k + 1]) {
                assert(ls[k + 1].eq_spec(&grown[i]));
                if i < labels.len() {
                    assert(grown[i] == labels[i]);
                } else {
                    assert(grown[i] == l0);
                }
            }
        }
        assert forall|a: int, b: int| 0 <= a < b < rest.len() implies !rest[b].eq_spec(
            &rest[a],
        ) by {
            assert(rest[a] == ls[a + 1] && rest[b] == ls[b + 1]);
        }
        lemma_fresh_vertices_append(grown, rest);
        assert(grown + rest =~= labels + ls);
    }
}

/// Index density for vertices: inserting `N` pairwise unequal labels into
/// the empty graph stores them all, in insertion order, so the issued
/// vertex indexes are exactly the integers below `N`, and the vertex with
/// index `k` holds the `k`-th inserted label.
pub proof fn lemma_vertex_index_density<VertexLabel: PartialEq>(ls: Seq<VertexLabel>)
    requires
        forall|a: int, b: int| 0 <= a < b < ls.len() ==> !ls[b].eq_spec(&ls[a]),
    ensures
        labels_after_all(Seq::empty(), ls) == ls,
{
    lemma_fresh_vertices_append(Seq::empty(), ls);
    assert(Seq::empty() + ls =~= ls);
}

/// Inserting triples that are not yet present and pairwise non-matching
/// appends them all, in order.
proof fn lemma_fresh_edges_append<EdgeLabel: PartialEq>(
    triples: Seq<(usize, EdgeLabel, usize)>,
    es: Seq<(usize, EdgeLabel, usize)>,
)
    requires
        forall|k: int| 0 <= k < es.len() ==> find_edge(triples, #[trigger] es[k]) is None,
        forall|a: int, b: int| 0 <= a < b < es.len() ==> !edge_matches(es[b], es[a]),
    ensures
        triples_after_all(triples, es) == triples + es,
    decreases es.len(),
{
    if es.len() == 0 {
        assert(triples + es =~= triples);
    } else {
        let e0 = es[0];
        let grown = triples.push(e0);
        let rest = es.drop_first();
        assert(triples_after_add(triples, e0) == grown);
        assert forall|k: int|
            0 <= k < rest.len() implies find_edge(grown, #[trigger] rest[k]) is None by {
            assert(rest[k] == es[k + 1]);
            lemma_find_edge_characterizes(triples, es[k + 1]);
            lemma_find_edge_characterizes(grown, es[k + 1]);
            if let Some(i) = find_edge(grown, es[k + 1]) {
                assert(edge_matches(es[k + 1], grown[i]));
                if i < triples.len() {
                    assert(grown[i] == triples[i]);
                } else {
                    assert(grown[i] == e0);
                }
            }
        }
        assert forall|a: int, b: int| 0 <= a < b < rest.len() implies !edge_matches(
            rest[b],
            rest[a],
        ) by {
            assert(rest[a] == es[a + 1] && rest[b] == es[b + 1]);
        }
        lemma_fresh_edges_append(grown, rest);
        assert(grown + rest =~= triples + es);
    }
}

/// Index density for edges: inserting `N` pairwise non-matching triples
/// into a graph with no edges stores them all, in insertion order, so the
/// issued edge indexes are exactly the integers below `N`, and the edge
/// with index `k` holds the `k`-th inserted triple.
pub proof fn lemma_edge_index_density<EdgeLabel: PartialEq>(es: Seq<(usize, EdgeLabel, usize)>)
    requires
        forall|a: int, b: int| 0 <= a < b < es.len() ==> !edge_matches(es[b], es[a]),
    ensures
        triples_after_all(Seq::empty(), es) == es,
{
    lemma_fresh_edges_append(Seq::empty(), es);
    assert(Seq::empty() + es =~= es);
}

/// Adjacency consistency: an edge index is selected for vertex `v` exactly
/// when it is an issued edge index whose edge's source is `v`, and
/// selected for the ordered pair `(u, w)` exactly when it is an issued
/// edge index whose edge runs from `u` to `w`.
pub proof fn lemma_adjacency_consistency<EdgeLabel>(
    triples: Seq<(usize, EdgeLabel, usize)>,
    v: int,
    u: int,
    w: int,
)
    ensures
        forall|e: int|
            #[trigger] edges_from_ix(triples, v).contains(e) ==> 0 <= e < triples.len()
                && triples[e].0 as int == v,
        forall|e: int|
            0 <= e < triples.len() && (#[trigger] triples[e]).0 as int == v ==> edges_from_ix(
                triples,
                v,
            ).contains(e),
        forall|e: int|
            #[trigger] edges_between_ix(triples, u, w).contains(e) ==> 0 <= e < triples.len()
                && triples[e].0 as int == u && triples[e].2 as int == w,
        forall|e: int|
            0 <= e < triples.len() && (#[trigger] triples[e]).0 as int == u && triples[e].2 as int
                == w ==> edges_between_ix(triples, u, w).contains(e),
{
    lemma_edges_from_ix_characterizes(triples, v);
    lemma_edges_between_ix_characterizes(triples, u, w);
    assert forall|e: int|
        #[trigger] edges_from_ix(triples, v).contains(e) implies 0 <= e < triples.len()
        && triples[e].0 as int == v by {
        let m = edges_from_ix(triples, v);
        let j = choose|j: int| 0 <= j < m.len() && m[j] == e;
        assert(0 <= m[j] < triples.len() && triples[m[j]].0 as int == v);
    }
    assert forall|e: int|
        #[trigger] edges_between_ix(triples, u, w).contains(e) implies 0 <= e < triples.len()
        && triples[e].0 as int == u && triples[e].2 as int == w by {
        let m = edges_between_ix(triples, u, w);
        let j = choose|j: int| 0 <= j < m.len() && m[j] == e;
        assert(0 <= m[j] < triples.len() && triples[m[j]].0 as int == u && triples[m[j]].2 as int
            == w);
    }
}

/// Round trip for vertices: after a label is inserted, looking the label
/// up finds exactly the index the insertion handed back, and the vertex
/// stored under that index holds a label equal to the inserted one. The
/// one assumption is that the label equals itself under the label type's
/// equality.
pub proof fn lemma_vertex_round_trip<VertexLabel: PartialEq>(
    labels: Seq<VertexLabel>,
    l: VertexLabel,
)
    requires
        l.eq_spec(&l),
    ensures
        0 <= vertex_index_of(labels, l) < labels_after_add(labels, l).len(),
        find_vertex(labels_after_add(labels, l), l) == Some(vertex_index_of(labels, l)),
        l.eq_spec(&labels_after_add(labels, l)[vertex_index_of(labels, l)]),
{
    lemma_find_vertex_characterizes(labels, l);
    if find_vertex(labels, l) is None {
        let after = labels.push(l);
        assert forall|j: int| 0 <= j < labels.len() implies !l.eq_spec(&after[j]) by {
            assert(after[j] == labels[j]);
        }
        lemma_find_vertex_at(after, l, labels.len() as int);
    }
}

} // verus!
