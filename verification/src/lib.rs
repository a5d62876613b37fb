//! An in-memory labeled directed multigraph container.
//!
//! Callers add labeled vertices and labeled edges and receive dense,
//! zero-based integer indexes as stable handles. Insertion deduplicates:
//! a vertex is identified by its label, an edge by its
//! (source, label, target) triple. Queries answer adjacency questions
//! (neighbors, edges leaving a vertex, edges between an ordered pair)
//! from an adjacency index that is proven consistent with the canonical
//! vertex and edge storage.

pub mod labeled_multidigraph;
pub mod laws;
pub mod model;

pub use labeled_multidigraph::{Edge, EdgeIndex, LabeledMultidigraph, Vertex, VertexIndex};
