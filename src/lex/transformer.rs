//! The transformer: walks the lexer's tokens against a hint and produces
//! `Select` fragments followed by one `Execute` fragment.
use vstd::prelude::*;
use vstd::string::*;

use super::chars::{chars_of, is_digit, str_equal};
use super::lexer::{
    classify, count_dots, outcome_matches, unsigned_part, CommandLexError, CommandLexer, LexFault,
};
use super::token::{CommandToken, RawStringPattern, TokenModel};
use super::transform_hint::{
    distinct_names, hint_wf, TransformHint, TransformHintPart, TransformHintPartKind,
};
use crate::command_fragment::{
    float_literal,
    args_view, ArgumentModel, CommandArgument, CommandArgumentValue, CommandFragment, FloatValue,
    FragmentModel, ValueModel,
};

verus! {

/// A failure while transforming tokens into fragments.
#[derive(Debug, PartialEq, Eq)]
pub enum TokenTransformError<'a> {
    /// The lexer failed.
    LexError(CommandLexError<'a>),
    /// The command label is not a word, or could not be stripped.
    InvalidCommandLabel,
    /// A positional argument came after a named one.
    PositionedAfterNamed,
}

/// A transformation failure, mathematically.
pub enum TransformFault {
    Lex(LexFault),
    InvalidCommandLabel,
    PositionedAfterNamed,
}

impl<'a> TokenTransformError<'a> {
    /// This error reports fault `f` of source `s`.
    pub open spec fn reports(&self, s: Seq<char>, f: TransformFault) -> bool {
        match (*self, f) {
            (TokenTransformError::LexError(e), TransformFault::Lex(g)) => e.reports(s, g),
            (TokenTransformError::InvalidCommandLabel, TransformFault::InvalidCommandLabel) => true,
            (TokenTransformError::PositionedAfterNamed, TransformFault::PositionedAfterNamed) => true,
            _ => false,
        }
    }

    /// The text that `message` gives.
    pub open spec fn spec_message(&self) -> Seq<char> {
        match *self {
            TokenTransformError::LexError(e) => e.spec_message(),
            TokenTransformError::InvalidCommandLabel => "Invalid command label"@,
            TokenTransformError::PositionedAfterNamed =>
                "Positioned argument cannot appear after named argument"@,
        }
    }

    /// A description of the failure for a person to read.
    pub fn message(&self) -> (r: String)
        ensures
            r@ == self.spec_message(),
    {
        match self {
            TokenTransformError::LexError(e) => e.message(),
            TokenTransformError::InvalidCommandLabel => "Invalid command label".to_owned(),
            TokenTransformError::PositionedAfterNamed =>
                "Positioned argument cannot appear after named argument".to_owned(),
        }
    }
}

impl<'a> From<CommandLexError<'a>> for TokenTransformError<'a> {
    fn from(e: CommandLexError<'a>) -> (r: Self)
        ensures
            r == TokenTransformError::LexError(e),
    {
        TokenTransformError::LexError(e)
    }
}

impl<'a> vstd::std_specs::convert::FromSpecImpl<CommandLexError<'a>> for TokenTransformError<'a> {
    open spec fn obeys_from_spec() -> bool {
        true
    }

    open spec fn from_spec(e: CommandLexError<'a>) -> Self {
        TokenTransformError::LexError(e)
    }
}

/// The child hint named `name`: the first entry with that name.
pub open spec fn lookup(entries: Seq<(&'static str, TransformHint)>, name: Seq<char>) -> Option<
    TransformHint,
>
    decreases entries.len(),
{
    if entries.len() == 0 {
        None
    } else if entries[0].0@ == name {
        Some(entries[0].1)
    } else {
        lookup(entries.drop_first(), name)
    }
}

/// With distinct names the entries behave as a map: an entry's name selects
/// that entry's hint, wherever it stands.
pub proof fn lemma_lookup_distinct(entries: Seq<(&'static str, TransformHint)>, i: int)
    requires
        distinct_names(entries),
        0 <= i < entries.len(),
    ensures
        lookup(entries, entries[i].0@) == Some(entries[i].1),
    decreases i,
{
    if i > 0 {
        assert(entries[0].0@ != entries[i].0@);
        let rest = entries.drop_first();
        assert forall|a: int, b: int| 0 <= a < b < rest.len() implies (#[trigger] rest[a]).0@ != (
        #[trigger] rest[b]).0@ by {
            assert(rest[a] == entries[a + 1] && rest[b] == entries[b + 1]);
        }
        assert(rest[i - 1] == entries[i]);
        lemma_lookup_distinct(rest, i - 1);
    }
}

/// The hint after selecting `name` under `h`. Only a `Select` hint has
/// children to select from.
pub open spec fn child(h: Option<TransformHint>, name: Seq<char>) -> Option<TransformHint> {
    match h {
        Some(TransformHint::Select(m)) => lookup(m@, name),
        _ => None,
    }
}

/// The argument slots of `h`: those of an `Execute` hint, else none.
pub open spec fn slots(h: Option<TransformHint>) -> Seq<TransformHintPart> {
    match h {
        Some(TransformHint::Execute(p)) => p@,
        _ => Seq::empty(),
    }
}

pub open spec fn opt_hint(h: Option<&TransformHint>) -> Option<TransformHint> {
    match h {
        Some(x) => Some(*x),
        None => None,
    }
}

/// The number that a string of decimal digits denotes.
pub open spec fn digits_value(d: Seq<char>) -> int
    decreases d.len(),
{
    if d.len() == 0 {
        0
    } else {
        digits_value(d.drop_last()) * 10 + (d.last() as int - '0' as int)
    }
}

/// The integer that an integer literal denotes.
pub open spec fn int_value(w: Seq<char>) -> int {
    if w.len() > 0 && w[0] == '-' {
        -digits_value(unsigned_part(w))
    } else {
        digits_value(unsigned_part(w))
    }
}

pub open spec fn fits_i64(v: int) -> bool {
    -0x8000_0000_0000_0000 <= v <= 0x7fff_ffff_ffff_ffff
}

/// How a word reads in a slot of kind `kind`: a float slot takes integers and
/// decimals as floats, an integer slot takes integers that fit in 64 bits;
/// anything else stays a string.
pub open spec fn raw_value(
    kind: Option<TransformHintPartKind>,
    s: Seq<char>,
    p: RawStringPattern,
) -> ValueModel {
    if kind == Some(TransformHintPartKind::Float) && (p == RawStringPattern::Float || p
        == RawStringPattern::Integer) && float_literal(s) {
        ValueModel::Float(s)
    } else if kind == Some(TransformHintPartKind::Integer) && p == RawStringPattern::Integer
        && int_literal(s) is Some {
        ValueModel::Int(int_literal(s)->0)
    } else {
        ValueModel::Str(s)
    }
}

/// The value a token carries; a quoted string is always a string.
pub open spec fn plain_value(kind: Option<TransformHintPartKind>, t: TokenModel) -> ValueModel
    decreases t,
{
    match t {
        TokenModel::Raw(s, p) => raw_value(kind, s, p),
        TokenModel::Space(s) => ValueModel::Str(s),
        TokenModel::Quoted(_, v, _) => ValueModel::Str(v),
        TokenModel::Named(_, inner) => plain_value(kind, *inner),
    }
}

/// The argument a token gives, with its name if it is named; white space
/// gives none.
pub open spec fn argument_of(kind: Option<TransformHintPartKind>, t: TokenModel) -> Option<
    (Option<Seq<char>>, ValueModel),
> {
    match t {
        TokenModel::Space(_) => None,
        TokenModel::Named(n, inner) => Some((Some(n), plain_value(kind, *inner))),
        _ => Some((None, plain_value(kind, t))),
    }
}

/// A greedy slot's text after token `t`: the token as written, quotes kept
/// around the unescaped value, `name=` kept; white space counts only once the
/// text has begun.
pub open spec fn greedy_add(g: Seq<char>, t: TokenModel) -> Seq<char>
    decreases t,
{
    match t {
        TokenModel::Raw(s, _) => g + s,
        TokenModel::Space(s) => if g.len() > 0 {
            g + s
        } else {
            g
        },
        TokenModel::Quoted(o, v, c) => g + o + v + c,
        TokenModel::Named(n, inner) => greedy_add(g + n + seq!['='], *inner),
    }
}

pub open spec fn fault_index(f: LexFault) -> int {
    match f {
        LexFault::UnclosedQuote(p) => p,
        LexFault::NamedProhibitsWhitespace(p) => p,
        LexFault::NamedCannotContainNamed(p) => p,
    }
}

/// The source text a failure reports: from where it starts to the end.
pub open spec fn fault_text(s: Seq<char>, f: LexFault) -> Seq<char> {
    s.subrange(fault_index(f), s.len() as int)
}

/// The kind of slot `j`, if there is one.
pub open spec fn slot_kind(parts: Seq<TransformHintPart>, j: int) -> Option<TransformHintPartKind> {
    if 0 <= j < parts.len() {
        Some(parts[j].kind)
    } else {
        None
    }
}

/// The arguments once the input has run out: a non-empty greedy text becomes
/// the last positional argument (after a named argument, that is an ordering
/// failure, which `run_args` reports).
pub open spec fn finish_args(
    args: Seq<ArgumentModel>,
    greedy: Option<Seq<char>>,
    pos: nat,
) -> Seq<ArgumentModel> {
    match greedy {
        Some(g) => if g.len() > 0 {
            args.push(ArgumentModel::Positioned(pos, ValueModel::Str(g)))
        } else {
            args
        },
        None => args,
    }
}

/// Building arguments from items `ys` against slots `parts`: each slot in
/// turn takes the next token that is not white space, and tokens left once
/// the slots run out are ignored; a failure of the lexer still ends it. `j`
/// is the current slot, `pos` the next position, `named` whether a named argument
/// was given, `greedy` the greedy text so far, `args` the arguments so far.
pub open spec fn run_args(
    s: Seq<char>,
    parts: Seq<TransformHintPart>,
    ys: Seq<Result<TokenModel, LexFault>>,
    j: int,
    pos: nat,
    named: bool,
    greedy: Option<Seq<char>>,
    args: Seq<ArgumentModel>,
) -> Result<Seq<ArgumentModel>, TransformFault>
    decreases ys.len(),
{
    if ys.len() == 0 {
        if named && (greedy matches Some(g) && g.len() > 0) {
            Err(TransformFault::PositionedAfterNamed)
        } else {
            Ok(finish_args(args, greedy, pos))
        }
    } else if slot_kind(parts, j) == Some(TransformHintPartKind::StringGreedy) {
        let g = match greedy {
            Some(g) => g,
            None => Seq::empty(),
        };
        let g2 = match ys[0] {
            Ok(t) => greedy_add(g, t),
            Err(f) => g + fault_text(s, f),
        };
        run_args(s, parts, ys.drop_first(), j, pos, named, Some(g2), args)
    } else {
        match ys[0] {
            Err(f) => Err(TransformFault::Lex(f)),
            Ok(t) => if slot_kind(parts, j) is None {
                run_args(s, parts, ys.drop_first(), j, pos, named, greedy, args)
            } else { match argument_of(slot_kind(parts, j), t) {
                None => run_args(s, parts, ys.drop_first(), j, pos, named, greedy, args),
                Some((Some(n), v)) => run_args(
                    s,
                    parts,
                    ys.drop_first(),
                    j + 1,
                    pos,
                    true,
                    greedy,
                    args.push(ArgumentModel::Named(n, v)),
                ),
                Some((None, v)) => if named {
                    Err(TransformFault::PositionedAfterNamed)
                } else {
                    run_args(
                        s,
                        parts,
                        ys.drop_first(),
                        j + 1,
                        pos + 1,
                        named,
                        greedy,
                        args.push(ArgumentModel::Positioned(pos, v)),
                    )
                },
            } },
        }
    }
}

/// The closing `Execute` fragment built from items `ys` under hint `h`.
pub open spec fn execute_with(
    s: Seq<char>,
    h: Option<TransformHint>,
    ys: Seq<Result<TokenModel, LexFault>>,
    frags: Seq<FragmentModel>,
) -> Result<Seq<FragmentModel>, TransformFault> {
    match run_args(s, slots(h), ys, 0, 0, false, None, Seq::empty()) {
        Ok(a) => Ok(frags.push(FragmentModel::Execute(a))),
        Err(f) => Err(f),
    }
}

/// Selecting subcommands from items `ys` under hint `h`, then executing.
/// Words select; white space is skipped; anything else begins the arguments,
/// as does reaching an `Execute` hint or the end of the input.
pub open spec fn run_subcommands(
    s: Seq<char>,
    h: Option<TransformHint>,
    ys: Seq<Result<TokenModel, LexFault>>,
    frags: Seq<FragmentModel>,
) -> Result<Seq<FragmentModel>, TransformFault>
    decreases ys.len(),
{
    if h matches Some(TransformHint::Execute(_)) {
        execute_with(s, h, ys, frags)
    } else if ys.len() == 0 {
        execute_with(s, h, ys, frags)
    } else {
        match ys[0] {
            Ok(TokenModel::Space(_)) => run_subcommands(s, h, ys.drop_first(), frags),
            Ok(TokenModel::Raw(name, _)) => run_subcommands(
                s,
                child(h, name),
                ys.drop_first(),
                frags.push(FragmentModel::Select(name)),
            ),
            Ok(_) => execute_with(s, h, ys, frags),
            Err(f) => Err(TransformFault::Lex(f)),
        }
    }
}

/// The item that ends the sequence: the `Execute` fragment built from `ys`
/// under `h`, or the failure met building it.
pub open spec fn execute_item(
    s: Seq<char>,
    h: Option<TransformHint>,
    ys: Seq<Result<TokenModel, LexFault>>,
) -> Result<FragmentModel, TransformFault> {
    match run_args(s, slots(h), ys, 0, 0, false, None, Seq::empty()) {
        Ok(a) => Ok(FragmentModel::Execute(a)),
        Err(f) => Err(f),
    }
}

/// What the transformer yields one by one from the selection stage on, over
/// items `ys` under hint `h`: a `Select` per word, then the `Execute`
/// fragment; a failure ends the sequence.
pub open spec fn stream_from(
    s: Seq<char>,
    h: Option<TransformHint>,
    ys: Seq<Result<TokenModel, LexFault>>,
) -> Seq<Result<FragmentModel, TransformFault>>
    decreases ys.len(),
{
    if h matches Some(TransformHint::Execute(_)) || ys.len() == 0 {
        seq![execute_item(s, h, ys)]
    } else {
        match ys[0] {
            Ok(TokenModel::Space(_)) => stream_from(s, h, ys.drop_first()),
            Ok(TokenModel::Raw(name, _)) => seq![Ok(FragmentModel::Select(name))] + stream_from(
                s,
                child(h, name),
                ys.drop_first(),
            ),
            Ok(_) => seq![execute_item(s, h, ys)],
            Err(f) => seq![Err(TransformFault::Lex(f))],
        }
    }
}

/// Collecting a sequence after fragments `frags`: its first failure, or all
/// its fragments.
pub open spec fn collect_stream(
    frags: Seq<FragmentModel>,
    st: Seq<Result<FragmentModel, TransformFault>>,
) -> Result<Seq<FragmentModel>, TransformFault>
    decreases st.len(),
{
    if st.len() == 0 {
        Ok(frags)
    } else {
        match st[0] {
            Ok(x) => collect_stream(frags.push(x), st.drop_first()),
            Err(f) => Err(f),
        }
    }
}

/// Collecting what the transformer yields gives `run_subcommands`.
pub proof fn lemma_stream_collects(
    s: Seq<char>,
    h: Option<TransformHint>,
    ys: Seq<Result<TokenModel, LexFault>>,
    frags: Seq<FragmentModel>,
)
    ensures
        collect_stream(frags, stream_from(s, h, ys)) == run_subcommands(s, h, ys, frags),
    decreases ys.len(),
{
    reveal_with_fuel(collect_stream, 2);
    let st = stream_from(s, h, ys);
    if h matches Some(TransformHint::Execute(_)) || ys.len() == 0 {
        assert(st.drop_first() =~= Seq::<Result<FragmentModel, TransformFault>>::empty());
    } else {
        match ys[0] {
            Ok(TokenModel::Space(_)) => {
                lemma_stream_collects(s, h, ys.drop_first(), frags);
            },
            Ok(TokenModel::Raw(name, _)) => {
                let rest = stream_from(s, child(h, name), ys.drop_first());
                assert(st.drop_first() =~= rest);
                lemma_stream_collects(
                    s,
                    child(h, name),
                    ys.drop_first(),
                    frags.push(FragmentModel::Select(name)),
                );
            },
            Ok(_) => {
                assert(st.drop_first() =~= Seq::<Result<FragmentModel, TransformFault>>::empty());
            },
            Err(_) => {},
        }
    }
}

/// Index of the first item that is not white space.
pub open spec fn first_non_space(ys: Seq<Result<TokenModel, LexFault>>) -> int
    decreases ys.len(),
{
    if ys.len() > 0 && ys[0] matches Ok(TokenModel::Space(_)) {
        1 + first_non_space(ys.drop_first())
    } else {
        0
    }
}

pub open spec fn fragments_view(v: Seq<CommandFragment>) -> Seq<FragmentModel> {
    v.map_values(|f: CommandFragment| f@)
}

/// Result `r` agrees with model `m` over source `s`.
pub open spec fn transformed<'a>(
    s: Seq<char>,
    r: Result<Vec<CommandFragment>, TokenTransformError<'a>>,
    m: Result<Seq<FragmentModel>, TransformFault>,
) -> bool {
    match (r, m) {
        (Ok(v), Ok(fs)) => fragments_view(v@) == fs,
        (Err(e), Err(f)) => e.reports(s, f),
        _ => false,
    }
}

proof fn lemma_no_dots(w: Seq<char>)
    requires
        count_dots(w) == 0,
    ensures
        forall|m: int| 0 <= m < w.len() ==> #[trigger] w[m] != '.',
    decreases w.len(),
{
    if w.len() > 0 {
        lemma_no_dots(w.drop_last());
        assert forall|m: int| 0 <= m < w.len() implies #[trigger] w[m] != '.' by {
            if m < w.len() - 1 {
                assert(w[m] == w.drop_last()[m]);
            }
        }
    }
}

/// An integer literal is digits after its sign.
proof fn lemma_integer_digits(w: Seq<char>)
    requires
        classify(w) == RawStringPattern::Integer,
    ensures
        forall|m: int| 0 <= m < unsigned_part(w).len() ==> is_digit(#[trigger] unsigned_part(w)[m]),
{
    lemma_no_dots(unsigned_part(w));
}

proof fn lemma_digits_nonneg(w: Seq<char>)
    requires
        forall|m: int| 0 <= m < w.len() ==> is_digit(#[trigger] w[m]),
    ensures
        digits_value(w) >= 0,
    decreases w.len(),
{
    if w.len() > 0 {
        lemma_digits_nonneg(w.drop_last());
    }
}

proof fn lemma_digits_monotone(w: Seq<char>, j: int)
    requires
        forall|m: int| 0 <= m < w.len() ==> is_digit(#[trigger] w[m]),
        0 <= j <= w.len(),
    ensures
        digits_value(w.subrange(0, j)) <= digits_value(w),
    decreases w.len(),
{
    if j < w.len() {
        let v = w.drop_last();
        assert(v.subrange(0, j) =~= w.subrange(0, j));
        lemma_digits_monotone(v, j);
        lemma_digits_nonneg(v);
    } else {
        assert(w.subrange(0, j) =~= w);
    }
}

/// The value of an integer literal, if it is one and fits in 64 bits.
pub open spec fn int_literal(s: Seq<char>) -> Option<int> {
    if classify(s) == RawStringPattern::Integer && fits_i64(int_value(s)) {
        Some(int_value(s))
    } else {
        None
    }
}

/// Reads `s` as a 64-bit integer literal.
pub fn parse_i64(s: &str) -> (r: Option<i64>)
    ensures
        r matches Some(v) ==> int_literal(s@) == Some(v as int),
        r is None ==> int_literal(s@) is None,
{
    let chars = chars_of(s);
    let n = chars.len();
    if !matches!(crate::lex::lexer::classify_span(&chars, 0, n), RawStringPattern::Integer) {
        proof {
            assert(chars@.subrange(0, n as int) =~= s@);
        }
        return None;
    }
    proof {
        assert(chars@.subrange(0, n as int) =~= s@);
        lemma_integer_digits(s@);
    }
    let neg = n > 0 && chars[0] == '-';
    let start: usize = if n > 0 && (chars[0] == '+' || chars[0] == '-') {
        1
    } else {
        0
    };
    let ghost d = unsigned_part(s@);
    assert(d =~= chars@.subrange(start as int, n as int));
    let limit: u64 = if neg {
        9223372036854775808
    } else {
        9223372036854775807
    };
    let mut acc: u64 = 0;
    let mut j = start;
    assert(chars@.subrange(start as int, start as int) =~= Seq::<char>::empty());
    while j < n
        invariant
            start <= j <= n,
            n == chars.len(),
            chars@ == s@,
            d == chars@.subrange(start as int, n as int),
            d == unsigned_part(s@),
            forall|m: int| 0 <= m < d.len() ==> is_digit(#[trigger] d[m]),
            acc as int == digits_value(chars@.subrange(start as int, j as int)),
            acc <= limit,
            neg == (s@.len() > 0 && s@[0] == '-'),
            limit == if neg {
                9223372036854775808u64
            } else {
                9223372036854775807u64
            },
        decreases n - j,
    {
        let c = chars[j];
        assert(d[j - start] == c);
        let dg = (c as u32 - '0' as u32) as u64;
        let ghost next = chars@.subrange(start as int, j + 1);
        assert(next.drop_last() =~= chars@.subrange(start as int, j as int));
        assert(next =~= d.subrange(0, j + 1 - start));
        if acc > 922337203685477580 || (acc == 922337203685477580 && dg > limit
            - 9223372036854775800) {
            proof {
                assert(digits_value(next) == acc * 10 + dg);
                lemma_digits_monotone(d, j + 1 - start);
                assert(d.subrange(0, d.len() as int) =~= d);
                assert(digits_value(d) > limit);
                assert(neg == (s@.len() > 0 && s@[0] == '-'));
                assert(int_value(s@) == if neg {
                    -digits_value(d)
                } else {
                    digits_value(d)
                });
                assert(!fits_i64(int_value(s@)));
            }
            return None;
        }
        acc = acc * 10 + dg;
        j = j + 1;
    }
    proof {
        lemma_digits_nonneg(d);
    }
    if neg {
        if acc == 9223372036854775808 {
            Some(i64::MIN)
        } else {
            Some(-(acc as i64))
        }
    } else {
        Some(acc as i64)
    }
}

/// The hint named `name` among `entries`.
fn lookup_child<'h>(entries: &'h Vec<(&'static str, TransformHint)>, name: &str) -> (r: Option<
    &'h TransformHint,
>)
    ensures
        opt_hint(r) == lookup(entries@, name@),
{
    let n = entries.len();
    let mut i: usize = 0;
    assert(entries@.subrange(0, n as int) =~= entries@);
    while i < n
        invariant
            n == entries.len(),
            i <= n,
            lookup(entries@, name@) == lookup(entries@.subrange(i as int, n as int), name@),
        decreases n - i,
    {
        let ghost rest = entries@.subrange(i as int, n as int);
        assert(rest[0] == entries@[i as int]);
        if str_equal(entries[i].0, name) {
            return Some(&entries[i].1);
        }
        assert(rest.drop_first() =~= entries@.subrange(i + 1, n as int));
        i = i + 1;
    }
    None
}

/// The hint after selecting `name` under `h`.
fn select_child<'h>(h: Option<&'h TransformHint>, name: &str) -> (r: Option<&'h TransformHint>)
    ensures
        opt_hint(r) == child(opt_hint(h), name@),
{
    match h {
        Some(TransformHint::Select(entries)) => lookup_child(entries, name),
        _ => None,
    }
}

/// How word `s` with pattern `p` reads in a slot of kind `kind`.
fn raw_argument(kind: Option<TransformHintPartKind>, s: &str, p: RawStringPattern) -> (r:
    CommandArgumentValue)
    ensures
        r@ == raw_value(kind, s@, p),
{
    match (kind, p) {
        (Some(TransformHintPartKind::Float), RawStringPattern::Float)
        | (Some(TransformHintPartKind::Float), RawStringPattern::Integer) => {
            match FloatValue::parse(s) {
                Some(f) => CommandArgumentValue::F64(f),
                None => CommandArgumentValue::String(s.to_owned()),
            }
        },
        (Some(TransformHintPartKind::Integer), RawStringPattern::Integer) => {
            match parse_i64(s) {
                Some(v) => CommandArgumentValue::I64(v),
                None => CommandArgumentValue::String((*s).to_owned()),
            }
        },
        _ => CommandArgumentValue::String((*s).to_owned()),
    }
}


/// The value that token `t` carries in a slot of kind `kind`.
fn plain_argument<'a>(kind: Option<TransformHintPartKind>, t: &CommandToken<'a>) -> (r:
    CommandArgumentValue)
    ensures
        r@ == plain_value(kind, t.model()),
    decreases t,
{
    match t {
        CommandToken::RawString(s, p) => raw_argument(kind, s, *p),
        CommandToken::Whitespace(s) => CommandArgumentValue::String((*s).to_owned()),
        CommandToken::QuotedString(_, v, _) => CommandArgumentValue::String(v.as_str().to_owned()),
        CommandToken::Named(_, inner) => plain_argument(kind, &**inner),
    }
}

pub open spec fn opt_chars(n: Option<String>) -> Option<Seq<char>> {
    match n {
        Some(x) => Some(x@),
        None => None,
    }
}

/// The argument that token `t` gives in a slot of kind `kind`.
fn token_argument<'a>(kind: Option<TransformHintPartKind>, t: &CommandToken<'a>) -> (r: Option<
    (Option<String>, CommandArgumentValue),
>)
    ensures
        match (r, argument_of(kind, t.model())) {
            (None, None) => true,
            (Some((n, v)), Some((nm, vm))) => opt_chars(n) == nm && v@ == vm,
            _ => false,
        },
{
    match t {
        CommandToken::Whitespace(_) => None,
        CommandToken::Named(n, inner) => Some((Some((*n).to_owned()), plain_argument(kind, &**inner))),
        _ => Some((None, plain_argument(kind, t))),
    }
}

/// Appends token `t` to greedy text `g`.
fn push_greedy<'a>(g: &mut String, t: &CommandToken<'a>)
    ensures
        final(g)@ == greedy_add(old(g)@, t.model()),
    decreases t,
{
    match t {
        CommandToken::RawString(s, p) => {
            let x: &str = *s;
            g.append(x);

        },
        CommandToken::Whitespace(s) => {
            if !g.as_str().is_empty() {
                g.append(s);
            }
        },
        CommandToken::QuotedString(o, v, c) => {
            g.append(o);
            g.append(v.as_str());
            g.append(c);
        },
        CommandToken::Named(n, inner) => {
            g.append(n);
            proof {
                reveal_strlit("=");
            }
            let eq = "=";
            assert(eq@ =~= seq!['=']);
            g.append(eq);
            push_greedy(g, &**inner);
        },
    }
}

/// The source text from where error `e` starts.
fn error_rest<'a>(e: &CommandLexError<'a>) -> (r: &'a str)
    ensures
        forall|s: Seq<char>, f: LexFault| #[trigger] e.reports(s, f) ==> r@ == fault_text(s, f),
{
    match e {
        CommandLexError::UnclosedQuote(_, rest) => rest,
        CommandLexError::NamedProhibitsWhitespace(_, rest) => rest,
        CommandLexError::NamedCannotContainNamed(_, rest) => rest,
    }
}

pub open spec fn parts_view(parts: Option<&Vec<TransformHintPart>>) -> Seq<TransformHintPart> {
    match parts {
        Some(p) => p@,
        None => Seq::empty(),
    }
}

/// Builds the arguments of the `Execute` fragment from `current` and what the
/// lexer has left, against `parts` (no slots when `None`).
fn next_args<'a>(
    parts: Option<&Vec<TransformHintPart>>,
    current: Option<Result<CommandToken<'a>, CommandLexError<'a>>>,
    lexer: &mut CommandLexer<'a>,
    Ghost(ys): Ghost<Seq<Result<TokenModel, LexFault>>>,
) -> (r: Result<Vec<CommandArgument>, TokenTransformError<'a>>)
    requires
        old(lexer).wf(),
        current is None ==> ys.len() == 0 && old(lexer).rest().len() == 0,
        current matches Some(x) ==> ys.len() > 0 && outcome_matches(old(lexer).text(), x, ys[0])
            && ys.drop_first() == old(lexer).rest(),
    ensures
        final(lexer).wf(),
        final(lexer).text() == old(lexer).text(),
        match (r, run_args(old(lexer).text(), parts_view(parts), ys, 0, 0, false, None, Seq::empty())) {
            (Ok(v), Ok(m)) => args_view(v@) == m,
            (Err(e), Err(f)) => e.reports(old(lexer).text(), f),
            _ => false,
        },
{
    let ghost s = lexer.text();
    let ghost pv = parts_view(parts);
    let ghost goal = run_args(s, pv, ys, 0, 0, false, None, Seq::empty());
    let mut current = current;
    let ghost mut zs = ys;
    let mut j: usize = 0;
    let mut pos: usize = 0;
    let mut named = false;
    let mut greedy = String::new();
    let mut greedy_on = false;
    let mut args: Vec<CommandArgument> = Vec::new();
    assert(args_view(args@) =~= Seq::<ArgumentModel>::empty());
    loop
        invariant
            lexer.wf(),
            lexer.text() == s,
            s == old(lexer).text(),
            pv == parts_view(parts),
            goal == run_args(s, pv, ys, 0, 0, false, None, Seq::empty()),
            current is None ==> zs.len() == 0 && lexer.rest().len() == 0,
            current matches Some(x) ==> zs.len() > 0 && outcome_matches(s, x, zs[0])
                && zs.drop_first() == lexer.rest(),
            pos <= j,
            j == args.len(),
            greedy_on || greedy@.len() == 0,
            goal == run_args(
                s,
                pv,
                zs,
                j as int,
                pos as nat,
                named,
                if greedy_on {
                    Some(greedy@)
                } else {
                    None
                },
                args_view(args@),
            ),
        decreases zs.len(),
    {
        let kind = match parts {
            Some(p) => if j < p.len() {
                Some(p[j].kind)
            } else {
                None
            },
            None => None,
        };
        assert(kind == slot_kind(pv, j as int));
        match current {
            None => {
                if greedy_on && !greedy.as_str().is_empty() {
                    if named {
                        return Err(TokenTransformError::PositionedAfterNamed);
                    }
                    args.push(CommandArgument::Positioned(pos, CommandArgumentValue::String(greedy)));
                    assert(args_view(args@) =~= args_view(args@.drop_last()).push(
                        args@.last()@,
                    ));
                }
                return Ok(args);
            },
            Some(item) => {
                let ghost j0 = j as int;
                let ghost pos0 = pos as nat;
                let ghost named0 = named;
                let ghost g0 = if greedy_on {
                    Some(greedy@)
                } else {
                    None
                };
                let ghost a0 = args_view(args@);
                if matches!(kind, Some(TransformHintPartKind::StringGreedy)) {
                    assert(greedy@ =~= match g0 {
                        Some(g) => g,
                        None => Seq::<char>::empty(),
                    });
                    greedy_on = true;
                    match item {
                        Ok(t) => push_greedy(&mut greedy, &t),
                        Err(e) => greedy.append(error_rest(&e)),
                    }
                    assert(run_args(s, pv, zs, j0, pos0, named0, g0, a0) == run_args(
                        s,
                        pv,
                        zs.drop_first(),
                        j as int,
                        pos as nat,
                        named,
                        Some(greedy@),
                        args_view(args@),
                    ));
                } else {
                    match item {
                        Err(e) => {
                            return Err(TokenTransformError::LexError(e));
                        },
                        Ok(t) => if kind.is_none() {
                            assert(run_args(s, pv, zs, j0, pos0, named0, g0, a0) == run_args(
                                s, pv, zs.drop_first(), j as int, pos as nat, named, g0, a0));
                        } else {
                            match token_argument(kind, &t) {
                                None => {
                                    assert(run_args(s, pv, zs, j0, pos0, named0, g0, a0) == run_args(
                                        s, pv, zs.drop_first(), j as int, pos as nat, named, g0, a0));
                                },
                                Some((Some(n), v)) => {
                                    let ghost before = args@;
                                    args.push(CommandArgument::Named(n, v));
                                    assert(args_view(args@) =~= args_view(before).push(args@.last()@));
                                    named = true;
                                    j = args.len();
                                    assert(run_args(s, pv, zs, j0, pos0, named0, g0, a0) == run_args(
                                        s, pv, zs.drop_first(), j as int, pos as nat, named, g0, args_view(args@)));
                                },
                                Some((None, v)) => {
                                    if named {
                                        return Err(TokenTransformError::PositionedAfterNamed);
                                    }
                                    let ghost before = args@;
                                    args.push(CommandArgument::Positioned(pos, v));
                                    assert(args_view(args@) =~= args_view(before).push(args@.last()@));
                                    j = args.len();
                                    pos = pos + 1;
                                    assert(run_args(s, pv, zs, j0, pos0, named0, g0, a0) == run_args(
                                        s, pv, zs.drop_first(), j as int, pos as nat, named, g0, args_view(args@)));
                                },
                            }
                        },
                    }
                }
                proof {
                    zs = zs.drop_first();
                }
                current = lexer.next();
            },
        }
    }
}

/// A token that gives a positional argument: a word or a quoted string.
pub open spec fn is_positional(x: Result<TokenModel, LexFault>) -> bool {
    x matches Ok(TokenModel::Raw(_, _)) || x matches Ok(TokenModel::Quoted(_, _, _))
}

/// A token that neither gives a positional argument nor fails: white space
/// or a named argument.
pub open spec fn space_or_named(x: Result<TokenModel, LexFault>) -> bool {
    x matches Ok(TokenModel::Space(_)) || x matches Ok(TokenModel::Named(_, _))
}

/// How many of the first `m` items are named arguments.
pub open spec fn named_before(ys: Seq<Result<TokenModel, LexFault>>, m: int) -> int
    decreases m,
{
    if m <= 0 || ys.len() == 0 {
        0
    } else {
        (if ys[0] matches Ok(TokenModel::Named(_, _)) {
            1int
        } else {
            0int
        }) + named_before(ys.drop_first(), m - 1)
    }
}

/// Slots `j` to `l` (both included) exist and none is greedy.
pub open spec fn plain_slots(parts: Seq<TransformHintPart>, j: int, l: int) -> bool {
    0 <= j <= l < parts.len() && forall|i: int| j <= i <= l ==> (#[trigger] parts[i]).kind
        != TransformHintPartKind::StringGreedy
}

proof fn lemma_named_then_positional(
    s: Seq<char>,
    parts: Seq<TransformHintPart>,
    ys: Seq<Result<TokenModel, LexFault>>,
    m: int,
    j: int,
    pos: nat,
    greedy: Option<Seq<char>>,
    args: Seq<ArgumentModel>,
)
    requires
        plain_slots(parts, j, j + named_before(ys, m)),
        0 <= m < ys.len(),
        forall|k: int| 0 <= k < m ==> space_or_named(#[trigger] ys[k]),
        is_positional(ys[m]),
    ensures
        run_args(s, parts, ys, j, pos, true, greedy, args) == Err::<
            Seq<ArgumentModel>,
            TransformFault,
        >(TransformFault::PositionedAfterNamed),
    decreases m,
{
    assert(parts[j].kind != TransformHintPartKind::StringGreedy);
    if m > 0 {
        assert(space_or_named(ys[0]));
        let zs = ys.drop_first();
        assert forall|k: int| 0 <= k < m - 1 implies space_or_named(#[trigger] zs[k]) by {
            assert(zs[k] == ys[k + 1]);
        }
        assert(zs[m - 1] == ys[m]);
        lemma_named_before_nonneg(zs, m - 1);
        if let Ok(TokenModel::Named(n, inner)) = ys[0] {
            lemma_named_then_positional(
                s,
                parts,
                zs,
                m - 1,
                j + 1,
                pos,
                greedy,
                args.push(ArgumentModel::Named(n, plain_value(Some(parts[j].kind), *inner))),
            );
        } else {
            lemma_named_then_positional(s, parts, zs, m - 1, j, pos, greedy, args);
        }
    }
}

proof fn lemma_named_before_nonneg(ys: Seq<Result<TokenModel, LexFault>>, m: int)
    ensures
        named_before(ys, m) >= 0,
    decreases m,
{
    if m > 0 && ys.len() > 0 {
        lemma_named_before_nonneg(ys.drop_first(), m - 1);
    }
}

/// Once a named argument has been given, a later token that would be
/// positional is an ordering failure. The named argument fills slot `j`;
/// white space or further named arguments may follow; the positional token
/// lands on slot `j` plus the number of named arguments before it, which
/// must exist; no slot from `j` to there is greedy. This holds whatever came
/// before.
pub proof fn lemma_positioned_after_named(
    s: Seq<char>,
    parts: Seq<TransformHintPart>,
    ys: Seq<Result<TokenModel, LexFault>>,
    m: int,
    j: int,
    pos: nat,
    named: bool,
    greedy: Option<Seq<char>>,
    args: Seq<ArgumentModel>,
)
    requires
        plain_slots(parts, j, j + named_before(ys, m)),
        1 <= m < ys.len(),
        ys[0] matches Ok(TokenModel::Named(_, _)),
        forall|k: int| 1 <= k < m ==> space_or_named(#[trigger] ys[k]),
        is_positional(ys[m]),
    ensures
        run_args(s, parts, ys, j, pos, named, greedy, args) == Err::<
            Seq<ArgumentModel>,
            TransformFault,
        >(TransformFault::PositionedAfterNamed),
{
    assert(parts[j].kind != TransformHintPartKind::StringGreedy);
    let zs = ys.drop_first();
    assert forall|k: int| 0 <= k < m - 1 implies space_or_named(#[trigger] zs[k]) by {
        assert(zs[k] == ys[k + 1]);
    }
    assert(zs[m - 1] == ys[m]);
    lemma_named_before_nonneg(zs, m - 1);
    if let Ok(TokenModel::Named(n, inner)) = ys[0] {
        lemma_named_then_positional(
            s,
            parts,
            zs,
            m - 1,
            j + 1,
            pos,
            greedy,
            args.push(ArgumentModel::Named(n, plain_value(Some(parts[j].kind), *inner))),
        );
    }
}

/// A greedy tail after a named argument is an ordering failure: with the
/// named argument given, a greedy slot reached, and the input ending with a
/// non-empty greedy text.
pub proof fn lemma_greedy_after_named(
    s: Seq<char>,
    parts: Seq<TransformHintPart>,
    j: int,
    pos: nat,
    g: Seq<char>,
    args: Seq<ArgumentModel>,
)
    requires
        g.len() > 0,
    ensures
        run_args(s, parts, Seq::empty(), j, pos, true, Some(g), args) == Err::<
            Seq<ArgumentModel>,
            TransformFault,
        >(TransformFault::PositionedAfterNamed),
{
}

/// What collecting a transformation gives when a label stripper `f` is set: white space
/// before the label is skipped; the label must be a word; `f` strips it, and
/// the stripped label is selected under the hint before selection goes on.
/// Input with no label at all is an invalid label.
pub open spec fn labelled<'a, F: Fn(&str) -> Result<&str, TokenTransformError>>(
    f: F,
    s: Seq<char>,
    hint: TransformHint,
    xs: Seq<Result<TokenModel, LexFault>>,
    r: Result<Vec<CommandFragment>, TokenTransformError<'a>>,
) -> bool {
    let k = first_non_space(xs);
    if k >= xs.len() {
        r == Err::<Vec<CommandFragment>, TokenTransformError<'a>>(
            TokenTransformError::InvalidCommandLabel,
        )
    } else {
        match xs[k] {
            Err(e) => transformed(s, r, Err(TransformFault::Lex(e))),
            Ok(TokenModel::Raw(label, _)) => exists|x: &'a str, out: Result<&'a str, TokenTransformError<'a>>|
                x@ == label && #[trigger] call_ensures(f, (x,), out) && stripped_then(
                    s,
                    hint,
                    xs.subrange(k + 1, xs.len() as int),
                    out,
                    r,
                ),
            Ok(_) => r matches Err(TokenTransformError::InvalidCommandLabel),
        }
    }
}

/// After the stripper gave `out`: a failure to strip is an invalid label;
/// otherwise the stripped label is selected and selection goes on over `ys`.
pub open spec fn stripped_then<'a>(
    s: Seq<char>,
    hint: TransformHint,
    ys: Seq<Result<TokenModel, LexFault>>,
    out: Result<&'a str, TokenTransformError<'a>>,
    r: Result<Vec<CommandFragment>, TokenTransformError<'a>>,
) -> bool {
    match out {
        Ok(st) => transformed(
            s,
            r,
            run_subcommands(s, child(Some(hint), st@), ys, seq![FragmentModel::Select(st@)]),
        ),
        Err(_) => r == Err::<Vec<CommandFragment>, TokenTransformError<'a>>(
            TokenTransformError::InvalidCommandLabel,
        ),
    }
}

/// Turns the lexer's tokens into fragments under a hint. An optional label
/// stripper first strips the command label (a leading `/`, a trailing
/// `@bot`) before it is selected.
pub struct TokenTransformer<F> where F: Fn(&str) -> Result<&str, TokenTransformError> {
    label_stripper: Option<F>,
    hint: TransformHint,
}

impl<F> TokenTransformer<F> where F: Fn(&str) -> Result<&str, TokenTransformError> {
    /// The label stripper, if any.
    pub closed spec fn stripper(&self) -> Option<F> {
        self.label_stripper
    }

    /// The hint that transformation starts from.
    pub closed spec fn spec_hint(&self) -> TransformHint {
        self.hint
    }

    /// A transformer for a command's own arguments: no label to strip. The
    /// stripper type is left to the caller, as none is ever called.
    pub fn command_args(hint: TransformHint) -> (r: Self)
        ensures
            r.stripper() is None,
            r.spec_hint() == hint,
    {
        TokenTransformer { label_stripper: None, hint }
    }

    /// A transformer for a group of commands: the label is stripped with
    /// `label_stripper` and selected under `hint`.
    pub fn command_group(label_stripper: F, hint: TransformHint) -> (r: Self)
        ensures
            r.stripper() == Some(label_stripper),
            r.spec_hint() == hint,
    {
        TokenTransformer { label_stripper: Some(label_stripper), hint }
    }

    /// Starts transforming what `lexer` yields, under a hint whose maps have
    /// distinct names. The fragments come one at a time from the handle's
    /// `next`: zero or more `Select`, then one `Execute`, or a failure that
    /// ends the sequence.
    pub fn transform<'t, 'a>(&'t self, lexer: CommandLexer<'a>) -> (r: TokenTransformerHandle<'t, 'a, F>)
        requires
            lexer.wf(),
            hint_wf(self.spec_hint()),
            self.stripper() matches Some(f) ==> forall|x: &str| call_requires(f, (x,)),
        ensures
            r.wf(),
            r.text() == lexer.text(),
            r.rest() == lexer.rest(),
            r.stripper() == self.stripper(),
            r.spec_hint() == self.spec_hint(),
            r.labelling() == self.stripper() is Some,
            !r.labelling() ==> r.pending() == stream_from(lexer.text(), Some(self.spec_hint()), lexer.rest()),
    {
        TokenTransformerHandle {
            transformer: self,
            stage: if self.label_stripper.is_some() {
                Stage::Label
            } else {
                Stage::Subcommand
            },
            lexer,
            hint: Some(&self.hint),
        }
    }
}

#[derive(Clone, Copy, PartialEq, Eq, Structural)]
enum Stage {
    Label,
    Subcommand,
    Done,
}

/// A transformation under way: yields the fragments one at a time.
pub struct TokenTransformerHandle<'t, 'a, F> where F: Fn(&str) -> Result<&str, TokenTransformError> {
    transformer: &'t TokenTransformer<F>,
    stage: Stage,
    lexer: CommandLexer<'a>,
    hint: Option<&'t TransformHint>,
}

/// Item `r` that the handle yields agrees with model `m` over source `s`.
pub open spec fn item_matches<'a>(
    s: Seq<char>,
    r: Result<CommandFragment, TokenTransformError<'a>>,
    m: Result<FragmentModel, TransformFault>,
) -> bool {
    match (r, m) {
        (Ok(x), Ok(y)) => x@ == y,
        (Err(e), Err(f)) => e.reports(s, f),
        _ => false,
    }
}

/// The first step when a label stripper `f` is set: white space is skipped;
/// the label must be a word, which `f` strips; the stripped label is
/// selected, and `after` is what remains to be yielded. Input with no label
/// at all is an invalid label.
pub open spec fn label_step<'a, F: Fn(&str) -> Result<&str, TokenTransformError>>(
    f: F,
    s: Seq<char>,
    hint: TransformHint,
    xs: Seq<Result<TokenModel, LexFault>>,
    r: Option<Result<CommandFragment, TokenTransformError<'a>>>,
    after: Seq<Result<FragmentModel, TransformFault>>,
) -> bool {
    let k = first_non_space(xs);
    if k >= xs.len() {
        r == Some(
            Err::<CommandFragment, TokenTransformError<'a>>(
                TokenTransformError::InvalidCommandLabel,
            ),
        ) && after.len() == 0
    } else {
        match xs[k] {
            Err(e) => r matches Some(x) && item_matches(s, x, Err(TransformFault::Lex(e)))
                && after.len() == 0,
            Ok(TokenModel::Raw(label, _)) => exists|x: &'a str, out: Result<&'a str, TokenTransformError<'a>>|
                x@ == label && #[trigger] call_ensures(f, (x,), out) && match out {
                    Ok(st) => r matches Some(Ok(fr)) && fr@ == FragmentModel::Select(st@) && after
                        == stream_from(s, child(Some(hint), st@), xs.subrange(k + 1, xs.len() as int)),
                    Err(_) => r == Some(
                        Err::<CommandFragment, TokenTransformError<'a>>(
                            TokenTransformError::InvalidCommandLabel,
                        ),
                    ) && after.len() == 0,
                },
            Ok(_) => r == Some(
                Err::<CommandFragment, TokenTransformError<'a>>(
                    TokenTransformError::InvalidCommandLabel,
                ),
            ) && after.len() == 0,
        }
    }
}

impl<'t, 'a, F> TokenTransformerHandle<'t, 'a, F> where F: Fn(&str) -> Result<&str, TokenTransformError> {
    /// The source being transformed.
    pub closed spec fn text(&self) -> Seq<char> {
        self.lexer.text()
    }

    /// What the lexer has yet to yield.
    pub closed spec fn rest(&self) -> Seq<Result<TokenModel, LexFault>> {
        self.lexer.rest()
    }

    /// Whether the label is still to be stripped.
    pub closed spec fn labelling(&self) -> bool {
        self.stage == Stage::Label
    }

    /// The transformer's label stripper.
    pub closed spec fn stripper(&self) -> Option<F> {
        self.transformer.stripper()
    }

    /// The transformer's hint.
    pub closed spec fn spec_hint(&self) -> TransformHint {
        self.transformer.spec_hint()
    }

    /// What is still to be yielded, once the label is behind.
    pub closed spec fn pending(&self) -> Seq<Result<FragmentModel, TransformFault>> {
        if self.stage == Stage::Subcommand {
            stream_from(self.lexer.text(), opt_hint(self.hint), self.lexer.rest())
        } else {
            Seq::empty()
        }
    }

    /// The handle's own bookkeeping is consistent.
    pub closed spec fn wf(&self) -> bool {
        &&& self.lexer.wf()
        &&& self.stage == Stage::Label ==> self.transformer.stripper() is Some && opt_hint(
            self.hint,
        ) == Some(self.transformer.spec_hint())
        &&& self.transformer.stripper() matches Some(f) ==> forall|x: &str| call_requires(f, (x,))
    }

    /// Yields the next fragment, or the failure that ends the sequence.
    pub fn next(&mut self) -> (r: Option<Result<CommandFragment, TokenTransformError<'a>>>)
        requires
            old(self).wf(),
        ensures
            final(self).wf(),
            final(self).text() == old(self).text(),
            final(self).stripper() == old(self).stripper(),
            final(self).spec_hint() == old(self).spec_hint(),
            !final(self).labelling(),
            old(self).labelling() ==> (old(self).stripper() matches Some(f) && label_step(
                f,
                old(self).text(),
                old(self).spec_hint(),
                old(self).rest(),
                r,
                final(self).pending(),
            )),
            !old(self).labelling() && old(self).pending().len() == 0 ==> r is None
                && final(self).pending().len() == 0,
            !old(self).labelling() && old(self).pending().len() > 0 ==> (r matches Some(x)
                && item_matches(old(self).text(), x, old(self).pending()[0]) && final(self).pending()
                == old(self).pending().drop_first()),
    {
        match self.stage {
            Stage::Done => None,
            Stage::Label => self.next_label(),
            Stage::Subcommand => self.next_subcommand_or_args(),
        }
    }

    fn finish(&mut self, args: Result<Vec<CommandArgument>, TokenTransformError<'a>>) -> (r: Option<
        Result<CommandFragment, TokenTransformError<'a>>,
    >)
        requires
            old(self).wf(),
        ensures
            final(self).wf(),
            final(self).lexer == old(self).lexer,
            final(self).transformer == old(self).transformer,
            final(self).stage == Stage::Done,
            r matches Some(x) && match (x, args) {
                (Ok(CommandFragment::Execute(a)), Ok(b)) => a == b,
                (Err(e), Err(g)) => e == g,
                _ => false,
            },
    {
        self.stage = Stage::Done;
        match args {
            Ok(a) => Some(Ok(CommandFragment::Execute(a))),
            Err(e) => Some(Err(e)),
        }
    }

    /// Selects subcommands: skips white space, selects a word under the
    /// current hint, and builds the `Execute` fragment from anything else,
    /// from an `Execute` hint, or at the end of the input.
    fn next_subcommand_or_args(&mut self) -> (r: Option<Result<CommandFragment, TokenTransformError<'a>>>)
        requires
            old(self).wf(),
            old(self).stage == Stage::Subcommand,
        ensures
            final(self).wf(),
            final(self).text() == old(self).text(),
            final(self).transformer == old(self).transformer,
            final(self).stage != Stage::Label,
            old(self).pending().len() > 0,
            r matches Some(x) && item_matches(old(self).text(), x, old(self).pending()[0]),
            final(self).pending() == old(self).pending().drop_first(),
    {
        let ghost s = self.lexer.text();
        let ghost goal = self.pending();
        let h = self.hint;
        if let Some(TransformHint::Execute(parts)) = h {
            let ghost ys = self.lexer.rest();
            let current = self.lexer.next();
            let args = next_args(Some(parts), current, &mut self.lexer, Ghost(ys));
            let r = self.finish(args);
            assert(goal.drop_first() =~= Seq::<Result<FragmentModel, TransformFault>>::empty());
            return r;
        }
        let parts = match h {
            Some(TransformHint::Execute(p)) => Some(p),
            _ => None,
        };
        assert(parts_view(parts) == slots(opt_hint(h)));
        loop
            invariant
                self.wf(),
                self.lexer.text() == s,
                s == old(self).text(),
                self.transformer == old(self).transformer,
                self.stage == Stage::Subcommand,
                self.hint == h,
                parts_view(parts) == slots(opt_hint(h)),
                !(opt_hint(h) matches Some(TransformHint::Execute(_))),
                goal == old(self).pending(),
                goal == stream_from(s, opt_hint(h), self.lexer.rest()),
            decreases self.lexer.rest().len(),
        {
            let ghost ys = self.lexer.rest();
            match self.lexer.next() {
                None => {
                    let args = next_args(parts, None, &mut self.lexer, Ghost(ys));
                    let r = self.finish(args);
                    assert(goal.drop_first() =~= Seq::<Result<FragmentModel, TransformFault>>::empty());
                    return r;
                },
                Some(Ok(CommandToken::Whitespace(_))) => {},
                Some(Ok(CommandToken::RawString(name, _))) => {
                    self.hint = select_child(h, name);
                    let r = Some(Ok(CommandFragment::Select(name.to_owned())));
                    assert(goal.drop_first() =~= self.pending());
                    return r;
                },
                Some(Ok(t)) => {
                    let args = next_args(parts, Some(Ok(t)), &mut self.lexer, Ghost(ys));
                    let r = self.finish(args);
                    assert(goal.drop_first() =~= Seq::<Result<FragmentModel, TransformFault>>::empty());
                    return r;
                },
                Some(Err(e)) => {
                    self.stage = Stage::Done;
                    assert(goal.drop_first() =~= Seq::<Result<FragmentModel, TransformFault>>::empty());
                    return Some(Err(TokenTransformError::LexError(e)));
                },
            }
        }
    }

    /// Skips white space, strips the label and selects it.
    fn next_label(&mut self) -> (r: Option<Result<CommandFragment, TokenTransformError<'a>>>)
        requires
            old(self).wf(),
            old(self).stage == Stage::Label,
        ensures
            final(self).wf(),
            final(self).text() == old(self).text(),
            final(self).transformer == old(self).transformer,
            final(self).stage != Stage::Label,
            old(self).stripper() matches Some(f) && label_step(
                f,
                old(self).text(),
                old(self).spec_hint(),
                old(self).rest(),
                r,
                final(self).pending(),
            ),
    {
        let f = match &self.transformer.label_stripper {
            Some(f) => f,
            None => {
                self.stage = Stage::Done;
                return None;
            },
        };
        let ghost xs = self.lexer.rest();
        let ghost s = self.lexer.text();
        let ghost mut c: int = 0;
        assert(xs.subrange(0, xs.len() as int) =~= xs);
        loop
            invariant
                self.wf(),
                self.lexer.text() == s,
                s == old(self).text(),
                xs == old(self).rest(),
                self.transformer == old(self).transformer,
                self.stage == Stage::Label,
                self.transformer.stripper() == Some(*f),
                forall|x: &str| call_requires(*f, (x,)),
                0 <= c <= xs.len(),
                self.lexer.rest() == xs.subrange(c, xs.len() as int),
                first_non_space(xs) == c + first_non_space(self.lexer.rest()),
            decreases self.lexer.rest().len(),
        {
            match self.lexer.next() {
                None => {
                    self.stage = Stage::Done;
                    return Some(Err(TokenTransformError::InvalidCommandLabel));
                },
                Some(Ok(CommandToken::Whitespace(_))) => {
                    proof {
                        assert(self.lexer.rest() =~= xs.subrange(c + 1, xs.len() as int));
                        c = c + 1;
                    }
                },
                Some(Ok(CommandToken::RawString(label, _))) => {
                    let out = f(label);
                    match out {
                        Ok(st) => {
                            assert(self.lexer.rest() =~= xs.subrange(c + 1, xs.len() as int));
                            self.hint = select_child(Some(&self.transformer.hint), st);
                            self.stage = Stage::Subcommand;
                            return Some(Ok(CommandFragment::Select(st.to_owned())));
                        },
                        Err(_) => {
                            self.stage = Stage::Done;
                            return Some(Err(TokenTransformError::InvalidCommandLabel));
                        },
                    }
                },
                Some(Ok(_)) => {
                    self.stage = Stage::Done;
                    return Some(Err(TokenTransformError::InvalidCommandLabel));
                },
                Some(Err(e)) => {
                    self.stage = Stage::Done;
                    return Some(Err(TokenTransformError::LexError(e)));
                },
            }
        }
    }

    /// Yields everything that is left, after the fragments `frags`.
    fn drain(&mut self, frags: Vec<CommandFragment>, Ghost(f0): Ghost<Seq<FragmentModel>>) -> (r: Result<
        Vec<CommandFragment>,
        TokenTransformError<'a>,
    >)
        requires
            old(self).wf(),
            !old(self).labelling(),
            f0 == fragments_view(frags@),
        ensures
            transformed(old(self).text(), r, collect_stream(f0, old(self).pending())),
    {
        let ghost s = self.text();
        let ghost goal = collect_stream(f0, self.pending());
        let mut frags = frags;
        loop
            invariant
                self.wf(),
                !self.labelling(),
                self.text() == s,
                s == old(self).text(),
                goal == collect_stream(f0, old(self).pending()),
                goal == collect_stream(fragments_view(frags@), self.pending()),
            decreases self.pending().len(),
        {
            let ghost st = self.pending();
            match self.next() {
                None => {
                    return Ok(frags);
                },
                Some(Ok(x)) => {
                    let ghost before = frags@;
                    frags.push(x);
                    assert(fragments_view(frags@) =~= fragments_view(before).push(x@));
                },
                Some(Err(e)) => {
                    return Err(e);
                },
            }
        }
    }

    /// Yields everything: zero or more `Select` and one `Execute`, or the
    /// first failure.
    pub fn collect_fragments(self) -> (r: Result<Vec<CommandFragment>, TokenTransformError<'a>>)
        requires
            self.wf(),
        ensures
            !self.labelling() ==> transformed(self.text(), r, collect_stream(Seq::empty(), self.pending())),
            self.labelling() ==> (self.stripper() matches Some(f) && labelled(
                f,
                self.text(),
                self.spec_hint(),
                self.rest(),
                r,
            )),
    {
        let mut handle = self;
        handle.collect_all()
    }

    fn collect_all(&mut self) -> (r: Result<Vec<CommandFragment>, TokenTransformError<'a>>)
        requires
            old(self).wf(),
        ensures
            !old(self).labelling() ==> transformed(
                old(self).text(),
                r,
                collect_stream(Seq::empty(), old(self).pending()),
            ),
            old(self).labelling() ==> (old(self).stripper() matches Some(f) && labelled(
                f,
                old(self).text(),
                old(self).spec_hint(),
                old(self).rest(),
                r,
            )),
    {
        let empty: Vec<CommandFragment> = Vec::new();
        assert(fragments_view(empty@) =~= Seq::<FragmentModel>::empty());
        if self.stage != Stage::Label {
            return self.drain(empty, Ghost(Seq::empty()));
        }
        let ghost s = self.text();
        let ghost hint = self.spec_hint();
        let ghost xs = self.rest();
        let ghost f = self.stripper()->0;
        let first = self.next();
        let ghost after = self.pending();
        let ghost yielded = first;
        let r = match first {
            None => Ok(empty),
            Some(Err(e)) => Err(e),
            Some(Ok(x)) => {
                let mut frags = empty;
                frags.push(x);
                let ghost f0 = fragments_view(frags@);
                assert(f0 =~= seq![x@]);
                self.drain(frags, Ghost(f0))
            },
        };
        proof {
            let k = first_non_space(xs);
            if k < xs.len() {
                if let Ok(TokenModel::Raw(label, _)) = xs[k] {
                    let ys = xs.subrange(k + 1, xs.len() as int);
                    let (w, out) = choose|w: &'a str, out: Result<&'a str, TokenTransformError<'a>>|
                        w@ == label && #[trigger] call_ensures(f, (w,), out) && match out {
                            Ok(st) => yielded matches Some(Ok(fr)) && fr@ == FragmentModel::Select(st@)
                                && after == stream_from(s, child(Some(hint), st@), ys),
                            Err(_) => yielded == Some(
                                Err::<CommandFragment, TokenTransformError<'a>>(
                                    TokenTransformError::InvalidCommandLabel,
                                ),
                            ) && after.len() == 0,
                        };
                    if let Ok(st) = out {
                        lemma_stream_collects(s, child(Some(hint), st@), ys, seq![FragmentModel::Select(st@)]);
                    }
                    assert(stripped_then(s, hint, ys, out, r));
                }
            }
        }
        r
    }
}

} // verus!
