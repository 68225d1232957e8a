//! Lowering: from the grammar's AST to a resolved, id-addressed type graph.

pub mod analysis;
pub mod diagnostics;
pub mod hir;

pub use analysis::{lower, Analyser};
pub use diagnostics::{Diagnostic, Diagnostics};
pub use hir::{
    BitFields, Collection, CompilationUnit, Enum, Field, LengthPrefixedString, Struct, Type,
    TypeId, Variant,
};
