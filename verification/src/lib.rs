//! A structural codec between an in-memory recipe data model and a generic
//! node-based document tree (named nodes carrying ordered positional values,
//! named properties, and ordered named child nodes).
//!
//! The text parser and writer for the tree format are external collaborators;
//! this crate holds the mapping rules between tree shape and model shape,
//! including the shorthand-collapsing and canonicalization conventions that
//! make single-valued fields inline while multi-valued fields expand into
//! repeated child nodes.

pub mod tree;

pub mod error;

pub mod model;

pub mod source;

pub mod encode;

pub mod decode;

pub mod laws;






