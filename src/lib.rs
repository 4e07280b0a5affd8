//! Command-line shell helpers: an inline hint and completion engine over a
//! tree of subcommands, plus message and error types for shell output.
pub mod errors;
pub mod format;
pub mod shell;
pub mod text;
pub mod tree;
pub mod ui;
