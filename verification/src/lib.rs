//! A command-line argument parsing engine, verified with Verus.
//!
//! A schema of commands, options, positionals and groups is declared once;
//! [`parse`] resolves an argument vector against it into [`Matches`], with
//! the provenance of every binding, and fires the callbacks of the schema.
//!
//! The modules, from the leaves up:
//!
//! - [`text`], [`token`], [`dict`], [`vars`]: text helpers, argument tokens,
//!   a small map keyed by text, and the environment variables as a mapping;
//! - [`error`]: the error type and the text shown for each error;
//! - [`util`], [`suggest`]: the numeric grammar, visible length, edit
//!   distance and the ranking of suggestions;
//! - [`schema`]: commands, options, positionals and groups, each with its
//!   mathematical value;
//! - [`matches`]: the result store and its scoped views;
//! - [`help`]: the help text;
//! - [`model`]: the resolution engine as a mathematical model;
//! - [`parse`]: the engine itself, proved against the model;
//! - [`laws`]: what holds of the model for all inputs.

pub mod dict;
pub mod error;
pub mod help;
pub mod laws;
pub mod matches;
pub mod model;
pub mod parse;
pub mod schema;
pub mod suggest;
pub mod text;
pub mod token;
pub mod util;
pub mod vars;

pub use error::{format_alternates, Error, UserError, UserFault};
pub use help::{render_help, render_help_with_path, wrap_after};
pub use matches::{key_for, pos_key_for, MatchView, Matches, Status, Value};
pub use parse::{check_level, parse, resolve_args};
pub use schema::{
    ArgKind, CmdHandler, CmdSpec, CmdValidator, ColorMode, Env, GroupDecl, GroupMode, OnFlag,
    OnValue, OptSpec, PosCardinality, PosSpec, Repeat, Source, ValueValidator,
};
pub use suggest::{best_suggestions, levenshtein};
pub use token::Token;
pub use util::{looks_like_number_token, strip_ansi_len};
pub use vars::EnvVars;
