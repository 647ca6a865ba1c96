//! A weighted, multi-edged, directed graph stored in adjacency lists, and a
//! reader for a compact line-oriented text format that rebuilds such a graph.

pub mod error;
pub mod num;
pub mod index_type;
pub mod weight;
pub mod graph;
pub mod sgf;
