//! The ProtoDef AST: a near-literal, typed reading of a protocol document,
//! together with the parser that builds it from a JSON tree.

pub mod ast;
pub mod errors;
pub mod parse;

pub use ast::{BitField, BitFields, Container, Field, Mapper, Protocol, Switch, Type};
pub use errors::{ErrorKind, ParseError, ValueKind};
pub use parse::parse;
