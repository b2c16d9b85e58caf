//! A small command-line argument parser: flags, options, positionals,
//! subcommands, environment fallbacks, value validators, help text and shell
//! completion scripts.
//!
//! A schema is built with [`ArgBuilder`] from [`Flag`], [`Opt`] and [`Pos`]
//! definitions; [`ArgParser::parse`] reads an argument list against it into a
//! [`ParseResult`]. [`parse_loose_from`] reads an argument list without a schema.
use vstd::prelude::*;

pub mod builders;
pub mod completions;
pub mod free;
pub mod help;
pub mod parser;
pub mod properties;
pub mod reading;
pub mod result;
pub mod semantics;
pub mod text;
pub mod types;
pub mod validators;

pub use builders::{ArgBuilder, Flag, Opt, Pos};
pub use completions::Shell;
pub use free::parse_loose_from;
pub use parser::ArgParser;
pub use result::{OptionError, ParseResult, ParseResultBuilder};
pub use types::{FlagDef, OptionDef, ParseError, PositionalDef, SubcommandDef};
pub use validators::{max_length, min_length, non_empty, one_of, path_exists, range, Validator};

verus! {
} // verus!
