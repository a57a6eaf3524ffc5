//! Lexing a command string and transforming its tokens into fragments.
pub mod chars;
pub mod label_strip;
pub mod token;
pub mod lexer;
pub mod transform_hint;
pub mod transformer;

pub use label_strip::{remove_leading, remove_trailing};
pub use lexer::{CommandLexError, CommandLexer};
pub use token::{CommandToken, RawStringPattern};
pub use transformer::{TokenTransformError, TokenTransformer, TokenTransformerHandle};
pub use transform_hint::{
    TransformHint, TransformHintPart, TransformHintPartKind, TransformHintProvider,
};
