//! A schema compiler for the ProtoDef protocol description format.
//!
//! A protocol document is a generic JSON tree; the parser turns it into a
//! typed grammar, the lowering pass resolves names into an id-addressed type
//! graph, and the backend emits Rust type definitions for that graph.

pub mod backend;
pub mod json;
pub mod lowering;
pub mod syntax;
pub mod table;
pub mod text;
pub mod wire;
