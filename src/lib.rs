use vstd::prelude::*;

pub mod attr_parser;
pub mod attrs;
pub mod create;
pub mod entries;
pub mod error;
pub mod expr;
pub mod find;
pub mod format;
pub mod generator;
pub mod issue;
pub mod list;
pub mod lang;
pub mod new;
pub mod parser;
pub mod settings;
pub mod setup;
pub mod text;

verus! {

} // verus!
