//! The kinds of value that a command option takes.
use vstd::prelude::*;

use crate::command_fragment::FloatValue;

verus! {

/// The shape of a command: its name, description, options and subcommands.
#[derive(Debug, PartialEq)]
pub struct CommandSpec {
    /// The command's name.
    pub name: &'static str,
    /// What the command does.
    pub description: &'static str,
    /// The options the command takes.
    pub options: Vec<CommandOption>,
    /// The command's subcommands.
    pub subcommands: Vec<CommandSpec>,
}

/// An option that a command takes.
#[derive(Debug, PartialEq)]
pub struct CommandOption {
    /// Its name, when given as a named argument.
    pub name: &'static str,
    /// Its position, when given as a positional argument.
    pub position: usize,
    /// What the option is for.
    pub description: &'static str,
    /// The kind of value it takes.
    pub value: CommandOptionValueKind,
}

/// The kind of value that an option takes.
#[derive(Debug, PartialEq)]
pub enum CommandOptionValueKind {
    /// A value that may be left out.
    Optional(Box<CommandOptionValueKind>),
    /// A value that may be given several times.
    Multiple(Box<CommandOptionValueKind>),
    /// A string.
    String,
    /// An integer.
    Integer,
    /// A double-precision floating-point number.
    Double,
}

impl CommandOptionValueKind {
    /// The kind with every `Optional` and `Multiple` wrapper taken off.
    pub open spec fn primitive(&self) -> CommandOptionValueKind
        decreases self,
    {
        match self {
            CommandOptionValueKind::Optional(t) => t.primitive(),
            CommandOptionValueKind::Multiple(t) => t.primitive(),
            CommandOptionValueKind::String => CommandOptionValueKind::String,
            CommandOptionValueKind::Integer => CommandOptionValueKind::Integer,
            CommandOptionValueKind::Double => CommandOptionValueKind::Double,
        }
    }

    /// Whether the value may be left out.
    pub fn is_optional(&self) -> (r: bool)
        ensures
            r == (*self is Optional),
    {
        match self {
            CommandOptionValueKind::Optional(_) => true,
            _ => false,
        }
    }

    /// The kind as primitive as possible: wrappers taken off.
    pub fn as_primitive(&self) -> (r: CommandOptionValueKind)
        ensures
            r == self.primitive(),
        decreases self,
    {
        match self {
            CommandOptionValueKind::Optional(t) => t.as_primitive(),
            CommandOptionValueKind::Multiple(t) => t.as_primitive(),
            CommandOptionValueKind::String => CommandOptionValueKind::String,
            CommandOptionValueKind::Integer => CommandOptionValueKind::Integer,
            CommandOptionValueKind::Double => CommandOptionValueKind::Double,
        }
    }
}

/// Taking the wrappers off always ends at a primitive kind.
pub proof fn lemma_primitive_is_leaf(k: CommandOptionValueKind)
    ensures
        k.primitive() is String || k.primitive() is Integer || k.primitive() is Double,
    decreases k,
{
    match k {
        CommandOptionValueKind::Optional(t) => lemma_primitive_is_leaf(*t),
        CommandOptionValueKind::Multiple(t) => lemma_primitive_is_leaf(*t),
        _ => {},
    }
}

impl Clone for CommandOptionValueKind {
    fn clone(&self) -> (r: Self)
        ensures
            r == *self,
        decreases self,
    {
        match self {
            CommandOptionValueKind::Optional(t) => CommandOptionValueKind::Optional(
                Box::new((**t).clone()),
            ),
            CommandOptionValueKind::Multiple(t) => CommandOptionValueKind::Multiple(
                Box::new((**t).clone()),
            ),
            CommandOptionValueKind::String => CommandOptionValueKind::String,
            CommandOptionValueKind::Integer => CommandOptionValueKind::Integer,
            CommandOptionValueKind::Double => CommandOptionValueKind::Double,
        }
    }
}

/// A Rust type that an option's value is read into: the kind of value it
/// stands for, and the value an absent option takes.
pub trait CommandOptionValueTy: Sized {
    /// The kind of value this type stands for.
    spec fn value_kind() -> CommandOptionValueKind;

    /// `d` is the value an absent option of this type takes.
    spec fn absent_value(d: Option<Self>) -> bool;

    /// The kind of value this type stands for.
    fn spec_kind() -> (r: CommandOptionValueKind)
        ensures
            r == Self::value_kind(),
    ;

    /// The value an absent option takes, if it may be absent.
    fn default() -> (r: Option<Self>)
        ensures
            Self::absent_value(r),
    ;
}

impl<T: CommandOptionValueTy> CommandOptionValueTy for Option<T> {
    open spec fn value_kind() -> CommandOptionValueKind {
        CommandOptionValueKind::Optional(Box::new(T::value_kind()))
    }

    open spec fn absent_value(d: Option<Option<T>>) -> bool {
        d == Some(None::<T>)
    }

    fn spec_kind() -> (r: CommandOptionValueKind) {
        CommandOptionValueKind::Optional(Box::new(T::spec_kind()))
    }

    fn default() -> (r: Option<Option<T>>) {
        Some(None)
    }
}

impl<T: CommandOptionValueTy> CommandOptionValueTy for Vec<T> {
    open spec fn value_kind() -> CommandOptionValueKind {
        CommandOptionValueKind::Multiple(Box::new(T::value_kind()))
    }

    open spec fn absent_value(d: Option<Vec<T>>) -> bool {
        d is None
    }

    fn spec_kind() -> (r: CommandOptionValueKind) {
        CommandOptionValueKind::Multiple(Box::new(T::spec_kind()))
    }

    fn default() -> (r: Option<Vec<T>>) {
        None
    }
}

impl CommandOptionValueTy for String {
    open spec fn value_kind() -> CommandOptionValueKind {
        CommandOptionValueKind::String
    }

    open spec fn absent_value(d: Option<String>) -> bool {
        d is None
    }

    fn spec_kind() -> (r: CommandOptionValueKind) {
        CommandOptionValueKind::String
    }

    fn default() -> (r: Option<String>) {
        None
    }
}

impl CommandOptionValueTy for i64 {
    open spec fn value_kind() -> CommandOptionValueKind {
        CommandOptionValueKind::Integer
    }

    open spec fn absent_value(d: Option<i64>) -> bool {
        d is None
    }

    fn spec_kind() -> (r: CommandOptionValueKind) {
        CommandOptionValueKind::Integer
    }

    fn default() -> (r: Option<i64>) {
        None
    }
}

impl CommandOptionValueTy for FloatValue {
    open spec fn value_kind() -> CommandOptionValueKind {
        CommandOptionValueKind::Double
    }

    open spec fn absent_value(d: Option<FloatValue>) -> bool {
        d is None
    }

    fn spec_kind() -> (r: CommandOptionValueKind) {
        CommandOptionValueKind::Double
    }

    fn default() -> (r: Option<FloatValue>) {
        None
    }
}

} // verus!
