//! Core of a package-installer command line tool: a version-constraint
//! resolution engine, and the command-dispatch framework that drives it.
//!
//! Resolution runs in two steps. `Versions::resolve_full_version` answers from
//! the constraint alone when it can; when it cannot, the caller fetches the
//! registry's full version listing and `Versions::resolve_partial_version`
//! picks the version from it. `command_parser::handle_args` selects a command
//! by name and runs its two-phase parse/execute lifecycle.

pub mod command_parser;
pub mod decimal;
pub mod errors;
pub mod lex;
pub mod versions;
