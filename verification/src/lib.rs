//! Runtime support for a packet-processing pipeline: big unsigned selectors,
//! match-action tables, bit-exact header serialization and the per-frame
//! decisions of the pipeline executor; and the syntax tree of the programs
//! that describe such pipelines.

pub mod ast;
pub mod big;
pub mod bits;
pub mod codegen;
pub mod diagnostics;
pub mod header;
pub mod lexer;
pub mod pipeline;
pub mod table;
pub mod table_lemmas;
