//! Structural and semantic extraction for web-controller source files.
//!
//! The analysis takes the lines of one controller source file and finds its
//! brace-delimited blocks, the class name, each block's role, and the details
//! of data-context scopes, methods, variables, conditionals and queries.

pub mod analyze;
pub mod blocks;
pub mod classify;
pub mod details;
pub mod discover;
pub mod frequency;
pub mod queries;
pub mod text;
pub mod types;

pub use analyze::analyze_lines;
pub use frequency::sort_and_save_frequency;
pub use types::{
    AnalyzeError, Block, BlockDetails, BlockType, Data, HttpType, LinqSyntax, QueryType,
    ReturnData, Table, Variable, WhereClause,
};
