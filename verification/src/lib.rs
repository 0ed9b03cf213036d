//! Core of an interactive line-editing shell front end: a quote-aware
//! tokenizer and command classifier, the edit-buffer and history state
//! machine, and the pure geometry behind terminal rendering.  All terminal
//! and filesystem work lives outside this crate; everything here is plain
//! data in, plain data out, with verified contracts.

pub mod text;
pub mod parser;
pub mod pwd;
pub mod state_manager;
pub mod ui;
pub mod editor;
pub mod ls_format;
pub mod rm_args;
