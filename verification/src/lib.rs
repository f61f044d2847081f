//! Core of an interactive command-line shell: line tokenization, pipeline
//! assembly, the executor's decisions, line-editor state, the PATH index,
//! and the pure parts of the built-in commands, all with verified
//! contracts. The surrounding terminal, filesystem and process work lives
//! in the accompanying application crate.

pub mod ansi;
pub mod autocomp;
pub mod binfind;
pub mod commands;
pub mod editor;
pub mod exec;
pub mod history;
pub mod outside;
pub mod pathindex;
pub mod pipeline;
pub mod render;
pub mod shell;
pub mod strutil;
pub mod subst;
pub mod token;
