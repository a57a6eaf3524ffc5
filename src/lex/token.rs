//! Tokens produced by the lexer, and their mathematical model.
use vstd::prelude::*;

verus! {

/// The pattern matched by a raw string, telling how the token may be read.
#[derive(Debug, PartialEq, Eq, Clone, Copy, Structural)]
pub enum RawStringPattern {
    /// Matches no numeric pattern.
    Unrecognized,
    /// Digits with an optional leading sign.
    Integer,
    /// Digits with exactly one dot among them, and no sign.
    Float,
}

/// A token of a command string. Borrowed parts are views into the source.
#[derive(Debug, PartialEq, Eq)]
pub enum CommandToken<'a> {
    /// A word, with the numeric pattern it matches.
    RawString(&'a str, RawStringPattern),
    /// A run of white space.
    Whitespace(&'a str),
    /// Opening quote, unescaped value, closing quote.
    QuotedString(&'a str, String, &'a str),
    /// `name=value`; the value is never itself named nor white space.
    Named(&'a str, Box<CommandToken<'a>>),
}

/// What a token holds, as sequences of characters.
pub enum TokenModel {
    Raw(Seq<char>, RawStringPattern),
    Space(Seq<char>),
    Quoted(Seq<char>, Seq<char>, Seq<char>),
    Named(Seq<char>, Box<TokenModel>),
}

impl<'a> CommandToken<'a> {
    /// The token's model.
    pub open spec fn model(&self) -> TokenModel
        decreases self,
    {
        match self {
            CommandToken::RawString(s, p) => TokenModel::Raw(s@, *p),
            CommandToken::Whitespace(s) => TokenModel::Space(s@),
            CommandToken::QuotedString(o, v, c) => TokenModel::Quoted(o@, v@, c@),
            CommandToken::Named(n, t) => TokenModel::Named(n@, Box::new(t.model())),
        }
    }
}

} // verus!
