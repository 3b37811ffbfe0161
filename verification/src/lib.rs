//! A mutation interpreter for trees of renderable nodes.
//!
//! A differ describes the changes between two versions of a user interface as
//! a linear stream of operations. The [`interpreter::Interpreter`] applies such
//! a stream, strictly in order, to the nodes of a host [`platform::Platform`],
//! staging new subtrees on an operand stack and keeping the tables that give
//! the stream its vocabulary: node ids, templates, listeners and interned
//! names.
//!
//! Every function states what it does over a mathematical model of the state.
//! The model of the nodes is in [`forest`], the model of the interpreter and
//! the meaning of each operation in [`semantics`], the framing of a stream in
//! [`wire`]. What holds of several operations together is proved in [`laws`].
//! [`document::Document`] is a platform that keeps its nodes in memory.

pub mod error;
pub mod stack;
pub mod registry;
pub mod names;
pub mod text;
pub mod assoc;
pub mod forest;
pub mod platform;
pub mod listeners;
pub mod templates;
pub mod document;
pub mod wire;
pub mod semantics;
pub mod interpreter;
pub mod batch;
pub mod laws;
