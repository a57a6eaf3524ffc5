//! A command: its shape, and how it is built from fragments.
use vstd::prelude::*;

use crate::command_fragment::CommandFragment;
use crate::command_spec::CommandSpec;
use crate::error::CommandParseError;

verus! {

/// A command that can be declared to a dispatcher and parsed from the
/// fragments of a transformed command string.
pub trait Command: Sized {
    /// The command's name.
    const NAME: &'static str;

    /// The command's shape, for registering it.
    fn spec() -> CommandSpec;

    /// Builds the command from its fragments.
    fn parse(fragments: &[CommandFragment]) -> Result<Self, CommandParseError<'_>>;
}

} // verus!
