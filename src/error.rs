//! Failures of parsing a command from its fragments.
use vstd::prelude::*;
use vstd::string::*;

use crate::lex::TokenTransformError;

verus! {

/// A failure to parse a command from its fragments.
#[derive(Debug, PartialEq, Eq)]
pub enum CommandParseError<'a> {
    /// No command has this name.
    UnknownCommand(&'a String),
    /// These arguments are missing.
    MissingArguments(Vec<&'a str>),
    /// The fragments end before the command is complete.
    IncompleteCommand,
    /// An `Execute` fragment came before the command was selected.
    ExecuteTooEarly,
    /// Transforming the tokens failed.
    TokenTransformError(TokenTransformError<'a>),
    /// Transforming the tokens failed, as borrowed.
    TokenTransformErrorRef(&'a TokenTransformError<'a>),
}

/// Names joined with `, ` between them.
pub open spec fn joined(names: Seq<Seq<char>>) -> Seq<char>
    decreases names.len(),
{
    if names.len() == 0 {
        Seq::empty()
    } else if names.len() == 1 {
        names[0]
    } else {
        joined(names.drop_last()) + ", "@ + names.last()
    }
}

fn join_names(names: &Vec<&str>) -> (r: String)
    ensures
        r@ == joined(names@.map_values(|n: &str| n@)),
{
    let ghost all = names@.map_values(|n: &str| n@);
    let mut out = String::new();
    let mut i: usize = 0;
    assert(all.subrange(0, 0) =~= Seq::<Seq<char>>::empty());
    while i < names.len()
        invariant
            i <= names.len(),
            all == names@.map_values(|n: &str| n@),
            out@ == joined(all.subrange(0, i as int)),
        decreases names.len() - i,
    {
        let ghost prev = all.subrange(0, i as int);
        let ghost next = all.subrange(0, i + 1);
        assert(next.drop_last() =~= prev);
        if i > 0 {
            out.append(", ");
        }
        out.append(names[i]);
        proof {
            if i == 0 {
                assert(out@ =~= next[0]);
            } else {
                assert(out@ =~= joined(prev) + ", "@ + next.last());
            }
        }
        i = i + 1;
    }
    assert(all.subrange(0, names@.len() as int) =~= all);
    out
}

impl<'a> CommandParseError<'a> {
    /// The text that `message` gives.
    pub open spec fn spec_message(&self) -> Seq<char> {
        match *self {
            CommandParseError::UnknownCommand(name) => "Unknown command: "@ + name@,
            CommandParseError::MissingArguments(names) => "Missing arguments: "@ + joined(
                names@.map_values(|n: &str| n@),
            ),
            CommandParseError::IncompleteCommand => "Incomplete command"@,
            CommandParseError::ExecuteTooEarly => "Execute too early"@,
            CommandParseError::TokenTransformError(e) => "Token transform error: "@
                + e.spec_message(),
            CommandParseError::TokenTransformErrorRef(e) => "Token transform error: "@
                + e.spec_message(),
        }
    }

    /// A description of the failure for a person to read.
    pub fn message(&self) -> (r: String)
        ensures
            r@ == self.spec_message(),
    {
        match self {
            CommandParseError::UnknownCommand(name) => {
                let mut out = String::new();
                out.append("Unknown command: ");
                out.append(name.as_str());
                out
            },
            CommandParseError::MissingArguments(names) => {
                let mut out = String::new();
                out.append("Missing arguments: ");
                let list = join_names(names);
                out.append(list.as_str());
                out
            },
            CommandParseError::IncompleteCommand => "Incomplete command".to_owned(),
            CommandParseError::ExecuteTooEarly => "Execute too early".to_owned(),
            CommandParseError::TokenTransformError(e) => {
                let mut out = String::new();
                out.append("Token transform error: ");
                let inner = e.message();
                out.append(inner.as_str());
                out
            },
            CommandParseError::TokenTransformErrorRef(e) => {
                let mut out = String::new();
                out.append("Token transform error: ");
                let inner = e.message();
                out.append(inner.as_str());
                out
            },
        }
    }
}

impl<'a> From<TokenTransformError<'a>> for CommandParseError<'a> {
    fn from(err: TokenTransformError<'a>) -> (r: Self)
        ensures
            r == CommandParseError::TokenTransformError(err),
    {
        CommandParseError::TokenTransformError(err)
    }
}

impl<'a> vstd::std_specs::convert::FromSpecImpl<TokenTransformError<'a>> for CommandParseError<'a> {
    open spec fn obeys_from_spec() -> bool {
        true
    }

    open spec fn from_spec(err: TokenTransformError<'a>) -> Self {
        CommandParseError::TokenTransformError(err)
    }
}

impl<'a> From<&'a TokenTransformError<'a>> for CommandParseError<'a> {
    fn from(err: &'a TokenTransformError<'a>) -> (r: Self)
        ensures
            r == CommandParseError::TokenTransformErrorRef(err),
    {
        CommandParseError::TokenTransformErrorRef(err)
    }
}

impl<'a> vstd::std_specs::convert::FromSpecImpl<&'a TokenTransformError<'a>> for CommandParseError<'a> {
    open spec fn obeys_from_spec() -> bool {
        true
    }

    open spec fn from_spec(err: &'a TokenTransformError<'a>) -> Self {
        CommandParseError::TokenTransformErrorRef(err)
    }
}

} // verus!
