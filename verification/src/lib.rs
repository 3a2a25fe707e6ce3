//! A runtime value model and an iterative JSON serializer over it.
//!
//! A value is described by a tree of nodes (scalars, structs, enums, tuples,
//! sequences, maps, options and wrapper layers), and a cursor (`Peek`) is a
//! read-only view into that tree.  The serializer walks the tree with an
//! explicit heap-allocated frame stack instead of native recursion, so that
//! the nesting depth of the input is limited only by available memory, and
//! produces JSON text whose exact shape is stated by the specification
//! functions in `jspec`.

pub mod tree;
pub mod text;
pub mod peek;
pub mod jspec;
pub mod iters;
pub mod engine;
pub mod laws;
