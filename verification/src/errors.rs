use vstd::prelude::*;

verus! {

/// An error raised while reading the command line. It propagates to the top
/// level and aborts the run.
#[derive(Clone, Debug, PartialEq, Eq)]
pub enum ParseError {
    /// No command is registered under the given name. Holds the name exactly
    /// as the user spelled it.
    CommandNotFound(String),
    /// A package specifier's version requirement could not be parsed. Holds
    /// the requirement parser's message.
    InvalidVersionNotation(String),
}

/// An error raised while a command runs. It is reported as a diagnostic and
/// does not abort the run.
#[derive(Clone, Debug, PartialEq, Eq)]
pub enum CommandError {
    /// No published version satisfies the requested constraint.
    InvalidVersion,
}

} // verus!
