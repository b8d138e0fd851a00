use vstd::prelude::*;

verus! {

/// Failures reported by the attribute registry, the commands and the
/// sequence generator.
#[derive(Clone, Debug, PartialEq, Eq)]
pub enum TodoError {
    UnknownCommand { name: String },
    UnknownCommandParam { param: String },
    KeyNotFound { key: String },
    AliasAlreadyExists { alias: String, key: String },
    FileNotSpecified,
    InvalidSyntax { rest: String },
    FileUnreadable { path: String },
    InvalidNumber { text: String },
    CounterOverflow { text: String },
    UnknownGenerator { name: String },
}

} // verus!
