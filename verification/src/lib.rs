//! Core of a line-oriented command shell: tokenizing a line, expanding
//! variables, parsing a pipeline and deciding, stage by stage, how the
//! pipeline is run and what it leaves behind.

pub mod builtins;
pub mod cmdoutput;
pub mod command;
pub mod environment;
pub mod eval;
pub mod state;
pub mod text;
pub mod tokenizer;
