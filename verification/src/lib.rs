//! Accessor paths for compiled pattern matches.
//!
//! A leaf of a decision tree reaches its value by a chain of primitive
//! accessors applied to the subject. This crate turns structural paths into
//! such chains, lowers a chain into nested bindings, and merges chains in a
//! prefix-sharing trie so that each accessor is bound once.

pub mod tipo;
pub mod path;
pub mod air;
pub mod builtins;
pub mod tree_set;
