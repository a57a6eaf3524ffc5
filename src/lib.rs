//! Command abstraction layer for bot libraries: a lexer for human-typed
//! command strings and a hint-driven transformer that turns its tokens into
//! `Select` / `Execute` fragments with typed argument values.
pub mod coercion;
pub mod command;
pub mod command_fragment;
pub mod command_spec;
pub mod error;
pub mod lex;
pub mod text;

pub use command::Command;
pub use command_fragment::{
    CommandArgument, CommandArgumentValue, CommandArgumentValueType, CommandFragment, FloatValue,
};
pub use coercion::{
    CommaSeparated, SpaceSeparated, TryFromArgumentValue, TryFromArgumentValueError,
};
pub use command_spec::{CommandOption, CommandOptionValueKind, CommandOptionValueTy, CommandSpec};
pub use error::CommandParseError;
