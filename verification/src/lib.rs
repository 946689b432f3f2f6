pub mod span;
pub mod utf8_facts;
pub mod id;
pub mod lexer;
pub mod ast;
pub mod diagnostic;
pub mod diagnostic_source;
pub mod paths;
pub mod parse_errors;
pub mod testing;
pub mod grammar;
pub mod recognize;
pub mod parser;
pub mod fx;
pub mod symbols;
pub mod interner;
pub mod vfs;
pub mod source_text;
pub mod visit;
pub mod semantic;
pub mod ir;
pub mod export;
pub mod compiler;
pub mod run_result;
pub mod report;
pub mod errors;
