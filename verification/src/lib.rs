//! Converts a textual Turing-machine transition table between two
//! tape-boundary conventions: a doubly-infinite tape and a singly-infinite
//! tape bounded by an origin marker. The engine rewrites transitions and
//! synthesizes the auxiliary control states that simulate boundary crossings.

pub mod convert;
pub mod inf_to_sipser;
pub mod laws;
pub mod model;
pub mod parse;
pub mod primitives;
pub mod rename;
pub mod render;
pub mod sipser_to_inf;
