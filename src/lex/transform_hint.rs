//! The declarative shape that drives the transformer.
use vstd::prelude::*;

use crate::command_spec::CommandOptionValueKind;

verus! {

broadcast use vstd::std_specs::vec::axiom_vec_index_decreases;

/// How an argument slot reads its token.
#[derive(Clone, Copy, Debug, PartialEq, Eq, Structural)]
pub enum TransformHintPartKind {
    /// An integer where the token is one.
    Integer,
    /// A float where the token is an integer or a decimal.
    Float,
    /// A string.
    String,
    /// All the remaining input, as one string.
    StringGreedy,
}

/// One argument slot of an `Execute` hint.
#[derive(Clone, Copy, Debug, PartialEq, Eq, Structural)]
pub struct TransformHintPart {
    /// How the slot reads its token.
    pub kind: TransformHintPartKind,
    /// Whether the slot repeats; carried along, not yet acted on.
    pub multiple: bool,
}

/// What a part becomes when made greedy: a string slot takes the rest of the
/// input; any other slot stays as it is.
pub open spec fn greedy_part(p: TransformHintPart) -> TransformHintPart {
    if p.kind == TransformHintPartKind::String {
        TransformHintPart { kind: TransformHintPartKind::StringGreedy, ..p }
    } else {
        p
    }
}

/// The slot for an option of kind `k`: wrappers are taken off, and the
/// primitive kind picks the slot's kind.
pub open spec fn part_for(k: CommandOptionValueKind) -> TransformHintPart {
    TransformHintPart {
        kind: match k.primitive() {
            CommandOptionValueKind::Integer => TransformHintPartKind::Integer,
            CommandOptionValueKind::Double => TransformHintPartKind::Float,
            _ => TransformHintPartKind::String,
        },
        multiple: false,
    }
}

impl TransformHintPart {
    /// Makes the slot take the rest of the input, where it is a string slot.
    pub fn make_greedy(self) -> (r: Self)
        ensures
            r == greedy_part(self),
    {
        match self.kind {
            TransformHintPartKind::String => TransformHintPart {
                kind: TransformHintPartKind::StringGreedy,
                multiple: self.multiple,
            },
            _ => self,
        }
    }
}

impl From<CommandOptionValueKind> for TransformHintPart {
    fn from(kind: CommandOptionValueKind) -> (r: Self)
        ensures
            r == part_for(kind),
        decreases kind,
    {
        match kind {
            CommandOptionValueKind::Optional(v) => TransformHintPart::from(*v),
            CommandOptionValueKind::Multiple(v) => TransformHintPart::from(*v),
            CommandOptionValueKind::String => TransformHintPart {
                kind: TransformHintPartKind::String,
                multiple: false,
            },
            CommandOptionValueKind::Integer => TransformHintPart {
                kind: TransformHintPartKind::Integer,
                multiple: false,
            },
            CommandOptionValueKind::Double => TransformHintPart {
                kind: TransformHintPartKind::Float,
                multiple: false,
            },
        }
    }
}

impl vstd::std_specs::convert::FromSpecImpl<CommandOptionValueKind> for TransformHintPart {
    open spec fn obeys_from_spec() -> bool {
        true
    }

    open spec fn from_spec(kind: CommandOptionValueKind) -> Self {
        part_for(kind)
    }
}

/// Making a slot greedy twice is making it greedy once.
pub proof fn lemma_make_greedy_idempotent(p: TransformHintPart)
    ensures
        greedy_part(greedy_part(p)) == greedy_part(p),
{
}

/// The slot made from an option kind whose primitive is not a string is
/// left unchanged by `make_greedy`.
pub proof fn lemma_greedy_keeps_non_string(k: CommandOptionValueKind)
    requires
        k.primitive() != CommandOptionValueKind::String,
    ensures
        greedy_part(part_for(k)) == part_for(k),
{
    crate::command_spec::lemma_primitive_is_leaf(k);
}

/// The shape the transformer expects at one level of a command. The names
/// of one map are distinct (`hint_wf`), as the keys of a map are.
#[derive(Debug, PartialEq, Eq)]
pub enum TransformHint {
    /// Select a child by name.
    Select(Vec<(&'static str, TransformHint)>),
    /// Execute with these argument slots.
    Execute(Vec<TransformHintPart>),
    /// Select a child by name, or execute with these argument slots.
    SelectOrExecute(Vec<(&'static str, TransformHint)>, Vec<TransformHintPart>),
}

/// No two entries share a name.
pub open spec fn distinct_names(entries: Seq<(&'static str, TransformHint)>) -> bool {
    forall|a: int, b: int| 0 <= a < b < entries.len() ==> (#[trigger] entries[a]).0@ != (
    #[trigger] entries[b]).0@
}

/// Every `Select` map in the hint, at any depth, has distinct names.
pub open spec fn hint_wf(h: TransformHint) -> bool
    decreases h,
{
    match h {
        TransformHint::Select(m) => distinct_names(m@) && forall|i: int|
            0 <= i < m@.len() ==> hint_wf(#[trigger] m@[i].1),
        TransformHint::Execute(_) => true,
        TransformHint::SelectOrExecute(m, _) => distinct_names(m@) && forall|i: int|
            0 <= i < m@.len() ==> hint_wf(#[trigger] m@[i].1),
    }
}

/// A type that provides the hint for its own command shape.
pub trait TransformHintProvider {
    /// The hint for this command.
    fn hint() -> TransformHint;
}

} // verus!
