//! Renders a compiler's symbol table (a pool of types and a tree of modules)
//! into the pages of a cross-linked HTML documentation tree.
//!
//! Every page is computed as a value: the library touches no file. What a
//! function returns is stated over the views of its arguments.
//!
//! - [`schema`] takes the types as they are read and makes the pool of
//!   [`types`]; [`format`] writes the notation of a type.
//! - [`module`] holds the modules and their symbols, kept in the order of
//!   [`names`]; [`pages`] says what stands on the page of a module, and
//!   [`paths`] where the page goes.
//! - [`root`] is a whole symbol table: it drops the top-level modules that a
//!   [`filter`] matches and writes the pages of the others and the index.
//! - [`format_laws`], [`path_laws`] and [`render_laws`] state what holds of
//!   every symbol table.

pub mod error;
pub mod filter;
pub mod format;
pub mod format_laws;
pub mod gather;
pub mod module;
pub mod names;
pub mod pages;
pub mod path_laws;
pub mod paths;
pub mod render_laws;
pub mod root;
pub mod schema;
pub mod text;
pub mod types;
