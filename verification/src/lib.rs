//! A small template engine: text with `${...}` markers is read against a
//! registry of named variables and named functions and rendered to a string.
//!
//! - [`grammar`] says what a template is and reads one into expressions;
//!   [`laws`] holds what follows for every input.
//! - [`cache`] holds the values and the registry.
//! - [`func`] holds the functions that every registry starts with.
//! - [`lexer`] evaluates the expressions of a template and renders them.
//! - [`decimal`] and [`text`] read and write integers and handle characters.
//! - [`error`] holds the failures.
//!
//! Floats are carried as their numerals. Where a float has to be drawn, the
//! library calls the float draw that the host handed to [`cache::Cache::new`].
//!
//! Every function is verified against its contract. What is taken on trust
//! is said where it stands: the calls into `rand`, `random_string`,
//! `hostname` and `chrono` in [`func`], and `String::push` in [`text`].

pub mod cache;
pub mod decimal;
pub mod error;
pub mod func;
pub mod grammar;
pub mod laws;
pub mod lexer;
pub mod text;
