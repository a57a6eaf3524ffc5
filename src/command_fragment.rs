//! Fragments of a parsed command and the values of its arguments.
use vstd::prelude::*;

use crate::lex::chars::is_digit;
use crate::lex::lexer::{classify, has_sign};
use crate::lex::token::RawStringPattern;

verus! {

/// A floating-point argument, held as the literal it was written as, in the
/// grammar of `f64`'s standard parse (see `float_literal`). Turning the
/// literal into a machine float is left to the reader of the value.
#[derive(Debug, PartialEq, Eq)]
pub struct FloatValue {
    literal: String,
}

pub open spec fn sign_len(s: Seq<char>) -> int {
    if has_sign(s) {
        1
    } else {
        0
    }
}

/// End of the run of digits and dots that starts at `i`.
pub open spec fn mantissa_end(s: Seq<char>, i: int) -> int
    decreases s.len() - i,
{
    if 0 <= i < s.len() && (is_digit(s[i]) || s[i] == '.') {
        mantissa_end(s, i + 1)
    } else {
        i
    }
}

/// `b` spells the word `lo` / `up` with each letter in either case.
pub open spec fn ci_eq(b: Seq<char>, lo: Seq<char>, up: Seq<char>) -> bool {
    b.len() == lo.len() && forall|t: int| 0 <= t < b.len() ==> b[t] == lo[t] || b[t] == up[t]
}

/// What `f64`'s standard parse accepts: an optional sign, then `inf`,
/// `infinity` or `nan` in any letter case, or digits with at most one dot
/// among them (at least one digit) and an optional exponent: `e` or `E`, an
/// optional sign, and at least one digit.
pub open spec fn float_literal(s: Seq<char>) -> bool {
    let k = sign_len(s);
    let b = s.subrange(k, s.len() as int);
    let m = mantissa_end(s, k);
    ci_eq(b, "inf"@, "INF"@) || ci_eq(b, "infinity"@, "INFINITY"@) || ci_eq(b, "nan"@, "NAN"@) || (
    classify(s.subrange(k, m)) != RawStringPattern::Unrecognized && (m == s.len() || ((s[m] == 'e'
        || s[m] == 'E') && classify(s.subrange(m + 1, s.len() as int)) == RawStringPattern::Integer)))
}

fn ci_equal(chars: &Vec<char>, k: usize, n: usize, lo: &str, up: &str) -> (r: bool)
    requires
        k <= n <= chars.len(),
        lo@.len() == up@.len(),
    ensures
        r == ci_eq(chars@.subrange(k as int, n as int), lo@, up@),
{
    let len = lo.unicode_len();
    if n - k != len {
        return false;
    }
    let ghost b = chars@.subrange(k as int, n as int);
    let mut i: usize = 0;
    while i < len
        invariant
            k <= n <= chars.len(),
            len == lo@.len(),
            len == up@.len(),
            n - k == len,
            b == chars@.subrange(k as int, n as int),
            i <= len,
            forall|t: int| 0 <= t < i ==> b[t] == lo@[t] || b[t] == up@[t],
        decreases len - i,
    {
        let c = chars[k + i];
        assert(c == b[i as int]);
        if c != lo.get_char(i) && c != up.get_char(i) {
            return false;
        }
        i = i + 1;
    }
    true
}

impl FloatValue {
    #[verifier::type_invariant]
    spec fn inv(&self) -> bool {
        float_literal(self.literal@)
    }

    /// The literal's characters.
    pub closed spec fn spec_literal(&self) -> Seq<char> {
        self.literal@
    }

    /// A float value for `literal`, if `f64`'s standard parse accepts it.
    pub fn parse(literal: &str) -> (r: Option<FloatValue>)
        ensures
            r matches Some(f) ==> f.spec_literal() == literal@,
            r is Some <==> float_literal(literal@),
    {
        let chars = crate::lex::chars::chars_of(literal);
        let n = chars.len();
        let k: usize = if n > 0 && (chars[0] == '+' || chars[0] == '-') {
            1
        } else {
            0
        };
        proof {
            reveal_strlit("inf");
            reveal_strlit("INF");
            reveal_strlit("infinity");
            reveal_strlit("INFINITY");
            reveal_strlit("nan");
            reveal_strlit("NAN");
        }
        let special = ci_equal(&chars, k, n, "inf", "INF") || ci_equal(
            &chars,
            k,
            n,
            "infinity",
            "INFINITY",
        ) || ci_equal(&chars, k, n, "nan", "NAN");
        let mut m = k;
        while m < n && (('0' <= chars[m] && chars[m] <= '9') || chars[m] == '.')
            invariant
                k <= m <= n,
                n == chars.len(),
                chars@ == literal@,
                mantissa_end(literal@, k as int) == mantissa_end(literal@, m as int),
            decreases n - m,
        {
            m = m + 1;
        }
        let mantissa = crate::lex::lexer::classify_span(&chars, k, m);
        let exponent = if m == n {
            true
        } else if chars[m] == 'e' || chars[m] == 'E' {
            matches!(crate::lex::lexer::classify_span(&chars, m + 1, n), RawStringPattern::Integer)
        } else {
            false
        };
        let numeric = !matches!(mantissa, RawStringPattern::Unrecognized) && exponent;
        proof {
            assert(chars@.subrange(0, n as int) =~= literal@);
        }
        if special || numeric {
            Some(FloatValue { literal: literal.to_owned() })
        } else {
            None
        }
    }

    /// The literal as written.
    pub fn literal(&self) -> (r: &str)
        ensures
            r@ == self.spec_literal(),
            float_literal(r@),
    {
        proof {
            use_type_invariant(self);
        }
        self.literal.as_str()
    }
}

impl Clone for FloatValue {
    fn clone(&self) -> (r: Self)
        ensures
            r.spec_literal() == self.spec_literal(),
    {
        proof {
            use_type_invariant(self);
        }
        FloatValue { literal: self.literal.clone() }
    }
}

/// The value of an argument.
#[derive(Clone, Debug, PartialEq)]
pub enum CommandArgumentValue {
    /// A string.
    String(String),
    /// A 64-bit signed integer.
    I64(i64),
    /// A floating-point number.
    F64(FloatValue),
}

/// The type that an argument value may have.
#[derive(Clone, Copy, Debug, PartialEq, Eq, Structural)]
pub enum CommandArgumentValueType {
    /// `String`
    String,
    /// `i64`
    I64,
    /// `f64`
    F64,
}

/// An argument of a command, by name or by position.
#[derive(Clone, Debug, PartialEq)]
pub enum CommandArgument {
    /// `name=value`
    Named(String, CommandArgumentValue),
    /// The value at a position among the positional arguments.
    Positioned(usize, CommandArgumentValue),
}

/// One step of a parsed command.
#[derive(Clone, Debug, PartialEq)]
pub enum CommandFragment {
    /// Select the subcommand of this name.
    Select(String),
    /// Execute with these arguments.
    Execute(Vec<CommandArgument>),
}

/// An argument value, mathematically.
pub enum ValueModel {
    Str(Seq<char>),
    Int(int),
    Float(Seq<char>),
}

/// An argument, mathematically.
pub enum ArgumentModel {
    Named(Seq<char>, ValueModel),
    Positioned(nat, ValueModel),
}

/// A fragment, mathematically.
pub enum FragmentModel {
    Select(Seq<char>),
    Execute(Seq<ArgumentModel>),
}

impl View for CommandArgumentValue {
    type V = ValueModel;

    open spec fn view(&self) -> ValueModel {
        match self {
            CommandArgumentValue::String(s) => ValueModel::Str(s@),
            CommandArgumentValue::I64(i) => ValueModel::Int(*i as int),
            CommandArgumentValue::F64(f) => ValueModel::Float(f.spec_literal()),
        }
    }
}

impl View for CommandArgument {
    type V = ArgumentModel;

    open spec fn view(&self) -> ArgumentModel {
        match self {
            CommandArgument::Named(n, v) => ArgumentModel::Named(n@, v@),
            CommandArgument::Positioned(p, v) => ArgumentModel::Positioned(*p as nat, v@),
        }
    }
}

impl View for CommandFragment {
    type V = FragmentModel;

    open spec fn view(&self) -> FragmentModel {
        match self {
            CommandFragment::Select(s) => FragmentModel::Select(s@),
            CommandFragment::Execute(args) => FragmentModel::Execute(args_view(args@)),
        }
    }
}

pub open spec fn args_view(v: Seq<CommandArgument>) -> Seq<ArgumentModel> {
    v.map_values(|a: CommandArgument| a@)
}

impl CommandArgumentValueType {
    /// The type's name as Rust writes it.
    pub fn name(&self) -> (r: &'static str)
        ensures
            r@ == value_type_name(*self),
    {
        proof {
            reveal_strlit("String");
            reveal_strlit("i64");
            reveal_strlit("f64");
        }
        match self {
            CommandArgumentValueType::String => "String",
            CommandArgumentValueType::I64 => "i64",
            CommandArgumentValueType::F64 => "f64",
        }
    }
}

impl<'v> From<&'v CommandArgumentValue> for CommandArgumentValueType {
    fn from(value: &'v CommandArgumentValue) -> (r: CommandArgumentValueType)
        ensures
            r == type_of(value@),
    {
        match value {
            CommandArgumentValue::String(_) => CommandArgumentValueType::String,
            CommandArgumentValue::I64(_) => CommandArgumentValueType::I64,
            CommandArgumentValue::F64(_) => CommandArgumentValueType::F64,
        }
    }
}

impl<'v> vstd::std_specs::convert::FromSpecImpl<&'v CommandArgumentValue> for CommandArgumentValueType {
    open spec fn obeys_from_spec() -> bool {
        true
    }

    open spec fn from_spec(value: &'v CommandArgumentValue) -> Self {
        type_of(value@)
    }
}

/// The type of a value.
pub open spec fn type_of(v: ValueModel) -> CommandArgumentValueType {
    match v {
        ValueModel::Str(_) => CommandArgumentValueType::String,
        ValueModel::Int(_) => CommandArgumentValueType::I64,
        ValueModel::Float(_) => CommandArgumentValueType::F64,
    }
}

/// A type's name as Rust writes it.
pub open spec fn value_type_name(t: CommandArgumentValueType) -> Seq<char> {
    match t {
        CommandArgumentValueType::String => seq!['S', 't', 'r', 'i', 'n', 'g'],
        CommandArgumentValueType::I64 => seq!['i', '6', '4'],
        CommandArgumentValueType::F64 => seq!['f', '6', '4'],
    }
}

} // verus!
