//! The mathematical model of the container.
//!
//! A graph is modelled by two sequences: the vertex labels, in index order,
//! and the edge triples (source, label, target), in index order. The spec
//! functions here say where a label or a triple is first found under the
//! label type's own equality (`eq_spec`), what an insertion does to the
//! sequences, and which edge indexes the adjacency queries select.

use vstd::prelude::*;
use vstd::std_specs::cmp::PartialEqSpec;

verus! {

/// Index of the first label of `labels` that the queried label `l` equals
/// under the label type's equality, if any, scanning from index 0.
pub open spec fn find_vertex<VertexLabel: PartialEq>(
    labels: Seq<VertexLabel>,
    l: VertexLabel,
) -> Option<int>
    decreases labels.len(),
{
    if labels.len() == 0 {
        None
    } else if l.eq_spec(&labels[0]) {
        Some(0int)
    } else {
        match find_vertex(labels.drop_first(), l) {
            Some(i) => Some(i + 1),
            None => None,
        }
    }
}

/// `find_vertex` returns the position of the first equal label: a found
/// position holds an equal label and every earlier position does not;
/// `None` means no position holds an equal label.
pub proof fn lemma_find_vertex_characterizes<VertexLabel: PartialEq>(
    labels: Seq<VertexLabel>,
    l: VertexLabel,
)
    ensures
        match find_vertex(labels, l) {
            Some(i) => 0 <= i < labels.len() && l.eq_spec(&labels[i]) && (forall|j: int|
                0 <= j < i ==> !l.eq_spec(&labels[j])),
            None => forall|j: int| 0 <= j < labels.len() ==> !l.eq_spec(&labels[j]),
        },
    decreases labels.len(),
{
    if labels.len() > 0 && !l.eq_spec(&labels[0]) {
        let rest = labels.drop_first();
        lemma_find_vertex_characterizes(rest, l);
        match find_vertex(labels, l) {
            Some(i) => {
                assert(rest[i - 1] == labels[i]);
                assert forall|j: int| 0 <= j < i implies !l.eq_spec(&labels[j]) by {
                    if j > 0 {
                        assert(labels[j] == rest[j - 1]);
                    }
                }
            },
            None => {
                assert forall|j: int| 0 <= j < labels.len() implies !l.eq_spec(&labels[j]) by {
                    if j > 0 {
                        assert(labels[j] == rest[j - 1]);
                    }
                }
            },
        }
    }
}

/// The converse: a position holding an equal label, with no equal label
/// before it, is what `find_vertex` returns.
pub proof fn lemma_find_vertex_at<VertexLabel: PartialEq>(
    labels: Seq<VertexLabel>,
    l: VertexLabel,
    i: int,
)
    requires
        0 <= i < labels.len(),
        l.eq_spec(&labels[i]),
        forall|j: int| 0 <= j < i ==> !l.eq_spec(&labels[j]),
    ensures
        find_vertex(labels, l) == Some(i),
    decreases labels.len(),
{
    if i > 0 {
        assert(forall|j: int| 0 <= j < labels.drop_first().len() ==> labels.drop_first()[j]
            == labels[j + 1]);
        lemma_find_vertex_at(labels.drop_first(), l, i - 1);
    }
}

/// Whether the queried triple `q` identifies the stored triple `stored`:
/// the endpoints agree and the edge labels are equal under the edge-label
/// type's equality.
pub open spec fn edge_matches<EdgeLabel: PartialEq>(
    q: (usize, EdgeLabel, usize),
    stored: (usize, EdgeLabel, usize),
) -> bool {
    stored.0 == q.0 && stored.2 == q.2 && q.1.eq_spec(&stored.1)
}

/// Index of the first triple of `triples` that the queried triple `q`
/// matches, if any, scanning from index 0.
pub open spec fn find_edge<EdgeLabel: PartialEq>(
    triples: Seq<(usize, EdgeLabel, usize)>,
    q: (usize, EdgeLabel, usize),
) -> Option<int>
    decreases triples.len(),
{
    if triples.len() == 0 {
        None
    } else if edge_matches(q, triples[0]) {
        Some(0int)
    } else {
        match find_edge(triples.drop_first(), q) {
            Some(i) => Some(i + 1),
            None => None,
        }
    }
}

/// `find_edge` returns the position of the first matching triple, and
/// `None` exactly when no position matches.
pub proof fn lemma_find_edge_characterizes<EdgeLabel: PartialEq>(
    triples: Seq<(usize, EdgeLabel, usize)>,
    q: (usize, EdgeLabel, usize),
)
    ensures
        match find_edge(triples, q) {
            Some(i) => 0 <= i < triples.len() && edge_matches(q, triples[i]) && (forall|j: int|
                0 <= j < i ==> !edge_matches(q, triples[j])),
            None => forall|j: int| 0 <= j < triples.len() ==> !edge_matches(q, triples[j]),
        },
    decreases triples.len(),
{
    if triples.len() > 0 && !edge_matches(q, triples[0]) {
        let rest = triples.drop_first();
        lemma_find_edge_characterizes(rest, q);
        match find_edge(triples, q) {
            Some(i) => {
                assert(rest[i - 1] == triples[i]);
                assert forall|j: int| 0 <= j < i implies !edge_matches(q, triples[j]) by {
                    if j > 0 {
                        assert(triples[j] == rest[j - 1]);
                    }
                }
            },
            None => {
                assert forall|j: int| 0 <= j < triples.len() implies !edge_matches(
                    q,
                    triples[j],
                ) by {
                    if j > 0 {
                        assert(triples[j] == rest[j - 1]);
                    }
                }
            },
        }
    }
}

/// The converse: a position matching `q`, with no match before it, is what
/// `find_edge` returns.
pub proof fn lemma_find_edge_at<EdgeLabel: PartialEq>(
    triples: Seq<(usize, EdgeLabel, usize)>,
    q: (usize, EdgeLabel, usize),
    i: int,
)
    requires
        0 <= i < triples.len(),
        edge_matches(q, triples[i]),
        forall|j: int| 0 <= j < i ==> !edge_matches(q, triples[j]),
    ensures
        find_edge(triples, q) == Some(i),
    decreases triples.len(),
{
    if i > 0 {
        assert(forall|j: int| 0 <= j < triples.drop_first().len() ==> triples.drop_first()[j]
            == triples[j + 1]);
        lemma_find_edge_at(triples.drop_first(), q, i - 1);
    }
}

/// The index that inserting label `l` into a graph with vertex labels
/// `labels` hands back: the first equal label's index, or the next fresh
/// index.
pub open spec fn vertex_index_of<VertexLabel: PartialEq>(
    labels: Seq<VertexLabel>,
    l: VertexLabel,
) -> int {
    match find_vertex(labels, l) {
        Some(i) => i,
        None => labels.len() as int,
    }
}

/// The vertex labels after inserting label `l`: unchanged when an equal
/// label is present, extended by `l` otherwise.
pub open spec fn labels_after_add<VertexLabel: PartialEq>(
    labels: Seq<VertexLabel>,
    l: VertexLabel,
) -> Seq<VertexLabel> {
    match find_vertex(labels, l) {
        Some(_) => labels,
        None => labels.push(l),
    }
}

/// The index that inserting triple `q` into a graph with edge triples
/// `triples` hands back: the first matching triple's index, or the next
/// fresh index.
pub open spec fn edge_index_of<EdgeLabel: PartialEq>(
    triples: Seq<(usize, EdgeLabel, usize)>,
    q: (usize, EdgeLabel, usize),
) -> int {
    match find_edge(triples, q) {
        Some(i) => i,
        None => triples.len() as int,
    }
}

/// The edge triples after inserting triple `q`: unchanged when a matching
/// triple is present, extended by `q` otherwise.
pub open spec fn triples_after_add<EdgeLabel: PartialEq>(
    triples: Seq<(usize, EdgeLabel, usize)>,
    q: (usize, EdgeLabel, usize),
) -> Seq<(usize, EdgeLabel, usize)> {
    match find_edge(triples, q) {
        Some(_) => triples,
        None => triples.push(q),
    }
}

/// The indexes of the edges whose source is vertex `v`, in increasing
/// order.
pub open spec fn edges_from_ix<EdgeLabel>(
    triples: Seq<(usize, EdgeLabel, usize)>,
    v: int,
) -> Seq<int>
    decreases triples.len(),
{
    if triples.len() == 0 {
        Seq::empty()
    } else {
        let pre = edges_from_ix(triples.drop_last(), v);
        if triples.last().0 as int == v {
            pre.push(triples.len() - 1)
        } else {
            pre
        }
    }
}

/// The indexes of the edges whose source is vertex `u` and whose target is
/// vertex `w`, in increasing order.
pub open spec fn edges_between_ix<EdgeLabel>(
    triples: Seq<(usize, EdgeLabel, usize)>,
    u: int,
    w: int,
) -> Seq<int>
    decreases triples.len(),
{
    if triples.len() == 0 {
        Seq::empty()
    } else {
        let pre = edges_between_ix(triples.drop_last(), u, w);
        if triples.last().0 as int == u && triples.last().2 as int == w {
            pre.push(triples.len() - 1)
        } else {
            pre
        }
    }
}

/// The target-vertex indexes of the edges whose source is vertex `v`, one
/// entry per such edge.
pub open spec fn neighbors_ix<EdgeLabel>(
    triples: Seq<(usize, EdgeLabel, usize)>,
    v: int,
) -> Seq<int> {
    edges_from_ix(triples, v).map_values(|e: int| triples[e].2 as int)
}

/// A sequence of machine indexes read as mathematical integers.
pub open spec fn as_ints(s: Seq<usize>) -> Seq<int> {
    s.map_values(|x: usize| x as int)
}

/// `edges_from_ix` selects exactly the edges leaving `v`: every selected
/// index is a valid edge index whose source is `v`, every such edge index
/// is selected, and the selection is strictly increasing (so no index
/// appears twice).
pub proof fn lemma_edges_from_ix_characterizes<EdgeLabel>(
    triples: Seq<(usize, EdgeLabel, usize)>,
    v: int,
)
    ensures
        forall|j: int| 0 <= j < edges_from_ix(triples, v).len() ==> {
            let e = #[trigger] edges_from_ix(triples, v)[j];
            0 <= e < triples.len() && triples[e].0 as int == v
        },
        forall|e: int| 0 <= e < triples.len() && (#[trigger] triples[e]).0 as int == v
            ==> edges_from_ix(triples, v).contains(e),
        forall|j1: int, j2: int| 0 <= j1 < j2 < edges_from_ix(triples, v).len()
            ==> edges_from_ix(triples, v)[j1] < edges_from_ix(triples, v)[j2],
    decreases triples.len(),
{
    let m = edges_from_ix(triples, v);
    if triples.len() > 0 {
        let dl = triples.drop_last();
        let pre = edges_from_ix(dl, v);
        lemma_edges_from_ix_characterizes(dl, v);
        assert forall|j: int| 0 <= j < m.len() implies 0 <= #[trigger] m[j] < triples.len()
            && triples[m[j]].0 as int == v by {
            if j < pre.len() {
                assert(m[j] == pre[j]);
                assert(dl[pre[j]] == triples[pre[j]]);
            } else {
                assert(m[j] == triples.len() - 1);
            }
        }
        assert forall|e: int| 0 <= e < triples.len() && triples[e].0 as int == v implies m.contains(
            e,
        ) by {
            if e < triples.len() - 1 {
                assert(dl[e] == triples[e]);
                assert(pre.contains(e));
                let k = choose|k: int| 0 <= k < pre.len() && pre[k] == e;
                assert(m[k] == e);
            } else {
                assert(m[m.len() - 1] == e);
            }
        }
        assert forall|j1: int, j2: int| 0 <= j1 < j2 < m.len() implies m[j1] < m[j2] by {
            if j2 < pre.len() {
                assert(m[j1] == pre[j1] && m[j2] == pre[j2]);
            } else if j2 == pre.len() && m.len() > pre.len() {
                assert(m[j1] == pre[j1]);
                assert(dl[pre[j1]] == triples[pre[j1]]);
                assert(m[j2] == triples.len() - 1);
            }
        }
    }
}

/// `edges_between_ix` selects exactly the edges from `u` to `w`, strictly
/// increasing.
pub proof fn lemma_edges_between_ix_characterizes<EdgeLabel>(
    triples: Seq<(usize, EdgeLabel, usize)>,
    u: int,
    w: int,
)
    ensures
        forall|j: int| 0 <= j < edges_between_ix(triples, u, w).len() ==> {
            let e = #[trigger] edges_between_ix(triples, u, w)[j];
            0 <= e < triples.len() && triples[e].0 as int == u && triples[e].2 as int == w
        },
        forall|e: int| 0 <= e < triples.len() && (#[trigger] triples[e]).0 as int == u
            && triples[e].2 as int == w ==> edges_between_ix(triples, u, w).contains(e),
        forall|j1: int, j2: int| 0 <= j1 < j2 < edges_between_ix(triples, u, w).len()
            ==> edges_between_ix(triples, u, w)[j1] < edges_between_ix(triples, u, w)[j2],
    decreases triples.len(),
{
    let m = edges_between_ix(triples, u, w);
    if triples.len() > 0 {
        let dl = triples.drop_last();
        let pre = edges_between_ix(dl, u, w);
        lemma_edges_between_ix_characterizes(dl, u, w);
        assert forall|j: int| 0 <= j < m.len() implies 0 <= #[trigger] m[j] < triples.len()
            && triples[m[j]].0 as int == u && triples[m[j]].2 as int == w by {
            if j < pre.len() {
                assert(m[j] == pre[j]);
                assert(dl[pre[j]] == triples[pre[j]]);
            } else {
                assert(m[j] == triples.len() - 1);
            }
        }
        assert forall|e: int| 0 <= e < triples.len() && triples[e].0 as int == u && triples[e].2
            as int == w implies m.contains(e) by {
            if e < triples.len() - 1 {
                assert(dl[e] == triples[e]);
                assert(pre.contains(e));
                let k = choose|k: int| 0 <= k < pre.len() && pre[k] == e;
                assert(m[k] == e);
            } else {
                assert(m[m.len() - 1] == e);
            }
        }
        assert forall|j1: int, j2: int| 0 <= j1 < j2 < m.len() implies m[j1] < m[j2] by {
            if j2 < pre.len() {
                assert(m[j1] == pre[j1] && m[j2] == pre[j2]);
            } else if j2 == pre.len() && m.len() > pre.len() {
                assert(m[j1] == pre[j1]);
                assert(dl[pre[j1]] == triples[pre[j1]]);
                assert(m[j2] == triples.len() - 1);
            }
        }
    }
}

/// Appending a triple extends the selection of edges leaving `v` by the
/// new edge's index exactly when the new edge's source is `v`.
pub proof fn lemma_edges_from_ix_push<EdgeLabel>(
    triples: Seq<(usize, EdgeLabel, usize)>,
    t: (usize, EdgeLabel, usize),
    v: int,
)
    ensures
        edges_from_ix(triples.push(t), v) == if t.0 as int == v {
            edges_from_ix(triples, v).push(triples.len() as int)
        } else {
            edges_from_ix(triples, v)
        },
{
    assert(triples.push(t).drop_last() =~= triples);
    assert(triples.push(t).last() == t);
}

/// A vertex that no edge leaves has an empty selection.
pub proof fn lemma_edges_from_ix_empty<EdgeLabel>(
    triples: Seq<(usize, EdgeLabel, usize)>,
    v: int,
)
    requires
        forall|e: int| 0 <= e < triples.len() ==> (#[trigger] triples[e]).0 as int != v,
    ensures
        edges_from_ix(triples, v) == Seq::<int>::empty(),
{
    lemma_edges_from_ix_characterizes(triples, v);
    let m = edges_from_ix(triples, v);
    if m.len() > 0 {
        assert(0 <= m[0] < triples.len() && triples[m[0]].0 as int == v);
    }
    assert(m =~= Seq::<int>::empty());
}

} // verus!
