//! Definitions of the schema entries and of the parse errors.
use vstd::prelude::*;

use crate::parser::ArgParser;
use crate::text;
use crate::text::{append_str, owned};
use crate::validators::Validator;

verus! {

/// Definition of a boolean flag (e.g. `--verbose` / `-v`).
#[derive(Clone, Debug, PartialEq, Eq)]
pub struct FlagDef {
    /// Long name used as `--name`.
    pub long: String,
    /// Optional single-character short form used as `-c`.
    pub short: Option<char>,
    /// Human-readable description shown in help text.
    pub description: String,
    /// When `true`, this flag is omitted from help text but still parsed.
    pub hidden: bool,
}

/// Definition of a key-value option (e.g. `--output FILE` / `-o FILE`).
#[derive(Clone, Debug, PartialEq, Eq)]
pub struct OptionDef {
    /// Long name used as `--name`.
    pub long: String,
    /// Optional single-character short form used as `-c`.
    pub short: Option<char>,
    /// Placeholder shown in help text (e.g. `FILE`, `NUM`).
    pub placeholder: String,
    /// Human-readable description shown in help text.
    pub description: String,
    /// When `true`, parsing fails if this option is not provided.
    pub required: bool,
    /// Default value used when the option is absent from CLI and env.
    pub default: Option<String>,
    /// Environment variable name to check as a fallback.
    pub env_var: Option<String>,
    /// When `true`, repeated occurrences are collected into a `Vec`.
    pub multi: bool,
    /// When `true`, this option is omitted from help text but still parsed.
    pub hidden: bool,
    /// Check applied to every value of this option.
    pub validator: Option<Validator>,
}

/// Definition of a positional argument (e.g. `<input>` or `[extra]`).
#[derive(Clone, Debug, PartialEq, Eq)]
pub struct PositionalDef {
    /// Name shown in usage line and help text.
    pub name: String,
    /// Human-readable description shown in help text.
    pub description: String,
    /// When `true`, parsing fails if this positional is not provided.
    pub required: bool,
    /// Value used when the positional is absent.
    pub default: Option<String>,
    /// When `true`, the positional collects the remaining arguments.
    pub multi: bool,
    /// Check applied to the value of this positional.
    pub validator: Option<Validator>,
}

/// Definition of a subcommand: a name, description, and its own [`ArgParser`].
#[derive(Debug, PartialEq)]
pub struct SubcommandDef {
    /// Subcommand name as typed on the command line.
    pub name: String,
    /// Human-readable description shown in help text.
    pub description: String,
    /// Independent parser that handles arguments after the subcommand name.
    pub parser: ArgParser,
}

/// Errors produced during argument parsing.
///
/// The `HelpRequested` and `VersionRequested` variants carry the formatted
/// text that should be printed to stdout. All other variants represent actual
/// errors and carry a descriptive message suitable for display.
#[derive(Clone, Debug, PartialEq, Eq)]
pub enum ParseError {
    /// A required argument was not provided. Contains the argument name.
    MissingRequired(String),
    /// An option was provided without a value. Contains the option name.
    MissingValue(String),
    /// An unrecognized argument was encountered. Contains the raw token.
    UnknownArgument(String),
    /// A structural error in the parser definition. Contains a description.
    InvalidFormat(String),
    /// The `-h` / `--help` flag was encountered. Contains the formatted help text.
    HelpRequested(String),
    /// The `-V` / `--version` flag was encountered. Contains the formatted version text.
    VersionRequested(String),
    /// A subcommand was expected but none was provided. Contains available names.
    NoSubcommand(String),
    /// An unrecognized subcommand was provided. Contains the unknown name.
    UnknownSubcommand(String),
    /// A non-multi option was provided more than once. Contains the option name.
    DuplicateOption(String),
    /// A command-line argument contained bytes that are not valid UTF-8.
    /// Contains the lossy representation.
    InvalidUtf8(String),
    /// A value was rejected by the argument's validator.
    ValidationFailed { name: String, message: String },
}

/// The mathematical content of a [`ParseError`].
pub enum ErrorV {
    MissingRequired(Seq<char>),
    MissingValue(Seq<char>),
    UnknownArgument(Seq<char>),
    InvalidFormat(Seq<char>),
    HelpRequested(Seq<char>),
    VersionRequested(Seq<char>),
    NoSubcommand(Seq<char>),
    UnknownSubcommand(Seq<char>),
    DuplicateOption(Seq<char>),
    InvalidUtf8(Seq<char>),
    ValidationFailed { name: Seq<char>, message: Seq<char> },
}

impl View for ParseError {
    type V = ErrorV;

    open spec fn view(&self) -> ErrorV {
        match self {
            ParseError::MissingRequired(s) => ErrorV::MissingRequired(s@),
            ParseError::MissingValue(s) => ErrorV::MissingValue(s@),
            ParseError::UnknownArgument(s) => ErrorV::UnknownArgument(s@),
            ParseError::InvalidFormat(s) => ErrorV::InvalidFormat(s@),
            ParseError::HelpRequested(s) => ErrorV::HelpRequested(s@),
            ParseError::VersionRequested(s) => ErrorV::VersionRequested(s@),
            ParseError::NoSubcommand(s) => ErrorV::NoSubcommand(s@),
            ParseError::UnknownSubcommand(s) => ErrorV::UnknownSubcommand(s@),
            ParseError::DuplicateOption(s) => ErrorV::DuplicateOption(s@),
            ParseError::InvalidUtf8(s) => ErrorV::InvalidUtf8(s@),
            ParseError::ValidationFailed { name, message } => ErrorV::ValidationFailed {
                name: name@,
                message: message@,
            },
        }
    }
}

/// The text that describes an error to a user.
pub open spec fn error_text(e: ErrorV) -> Seq<char> {
    match e {
        ErrorV::HelpRequested(t) => t,
        ErrorV::VersionRequested(t) => t,
        ErrorV::MissingRequired(n) => "missing required argument: "@ + n,
        ErrorV::MissingValue(n) => "missing value for option: --"@ + n,
        ErrorV::UnknownArgument(t) => "unknown argument: "@ + t,
        ErrorV::InvalidFormat(m) => "invalid format: "@ + m,
        ErrorV::NoSubcommand(names) => "no subcommand provided. Available: "@ + names,
        ErrorV::UnknownSubcommand(n) => "unknown subcommand: "@ + n,
        ErrorV::DuplicateOption(n) => "option --"@ + n
            + " was provided more than once (use .multi() to allow repeats)"@,
        ErrorV::InvalidUtf8(l) => "argument is not valid UTF-8: "@ + l,
        ErrorV::ValidationFailed { name, message } => "invalid value for "@ + name + ": "@
            + message,
    }
}

impl ParseError {
    /// The message that describes this error to a user.
    pub fn to_string(&self) -> (r: String)
        ensures
            r@ == error_text(self@),
    {
        match self {
            ParseError::HelpRequested(t) => t.clone(),
            ParseError::VersionRequested(t) => t.clone(),
            ParseError::MissingRequired(n) => {
                let mut s = owned("missing required argument: ");
                append_str(&mut s, n.as_str());
                s
            },
            ParseError::MissingValue(n) => {
                let mut s = owned("missing value for option: --");
                append_str(&mut s, n.as_str());
                s
            },
            ParseError::UnknownArgument(t) => {
                let mut s = owned("unknown argument: ");
                append_str(&mut s, t.as_str());
                s
            },
            ParseError::InvalidFormat(m) => {
                let mut s = owned("invalid format: ");
                append_str(&mut s, m.as_str());
                s
            },
            ParseError::NoSubcommand(names) => {
                let mut s = owned("no subcommand provided. Available: ");
                append_str(&mut s, names.as_str());
                s
            },
            ParseError::UnknownSubcommand(n) => {
                let mut s = owned("unknown subcommand: ");
                append_str(&mut s, n.as_str());
                s
            },
            ParseError::DuplicateOption(n) => {
                let mut s = owned("option --");
                append_str(&mut s, n.as_str());
                append_str(&mut s, " was provided more than once (use .multi() to allow repeats)");
                s
            },
            ParseError::InvalidUtf8(l) => {
                let mut s = owned("argument is not valid UTF-8: ");
                append_str(&mut s, l.as_str());
                s
            },
            ParseError::ValidationFailed { name, message } => {
                let mut s = owned("invalid value for ");
                append_str(&mut s, name.as_str());
                append_str(&mut s, ": ");
                append_str(&mut s, message.as_str());
                s
            },
        }
    }
}

} // verus!
