//! A parser for the chunk format: one line-oriented text that interleaves
//! schema declarations (`#_type(chunk)` blocks) and data instances
//! (`#_chunk` blocks), built into a `Document`.
pub mod directive;
pub mod fields;
pub mod laws;
pub mod literal;
pub mod model;
pub mod parser;
pub mod text;

pub use model::{
    ChunkInstance, Document, ErrorKind, FieldDefinition, FieldTypeExpression, Number, NumberKind,
    ParseError, TypeSchema, Value,
};
pub use parser::{parse_str, Parser};
