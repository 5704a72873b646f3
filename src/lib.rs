//! A loop vectorizer for a small array language. A program in a tagged
//! textual IR is parsed, written out with tracing instructions, and the
//! trace of a run is turned into a dependence graph whose edges carry the
//! kind and loop level of each dependence. The Allen–Kennedy walk over that
//! graph then rewrites the program so that loops without carried cycles
//! become array-range assignments.

pub mod ir;
pub mod ir_parse;
pub mod fold;
pub mod text;
pub mod deps;
pub mod lex;
pub mod trace;
pub mod analysis;
pub mod graph;
pub mod scc;
pub mod dot;
pub mod plan;
pub mod tables;
pub mod codegen;
pub mod emit;
pub mod vectorize;
