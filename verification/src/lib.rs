//! A command-tree parser and dispatcher.
//!
//! Commands are registered as a tree of literal and argument nodes, with
//! redirects from a node into another subtree. An input line is resolved
//! against the tree into a chain of contexts, one for each subtree that the
//! path went through; the chain says what is to be run, and for which
//! sources.
//!
//! The functions of an embedder (executors, requirements, redirect
//! modifiers, suggestion providers) are held in the tree as handles, and are
//! handed to the functions that call them.
pub mod text;
pub mod exceptions;
pub mod string_reader;
pub mod suggestion;
pub mod arguments;
pub mod context;
pub mod tree;
pub mod dispatcher;
pub mod execution;
pub mod completion;
pub mod usage;
pub mod chat;
pub mod laws;
