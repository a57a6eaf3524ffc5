//! Converting argument values into the types that commands declare, strictly
//! or leniently.
use vstd::prelude::*;
use vstd::string::*;

use crate::command_fragment::{
    float_literal, CommandArgumentValue, CommandArgumentValueType, FloatValue, ValueModel,
};
use crate::lex::chars::{char_is_space, chars_of, is_space};
use crate::lex::lexer::space_end;
use crate::text::{decimal, decimal_string};
use crate::command_fragment::{type_of, value_type_name};
use crate::lex::transformer::{int_literal, parse_i64};

verus! {

/// A value that could not be converted to the type expected.
#[derive(Clone, Debug, PartialEq)]
pub struct TryFromArgumentValueError {
    /// The type expected.
    pub expected_type: CommandArgumentValueType,
    /// The value given.
    pub actual_value: CommandArgumentValue,
}

/// A value written out: a string as it is, an integer in decimal, a float as
/// its literal.
pub open spec fn value_text(v: ValueModel) -> Seq<char> {
    match v {
        ValueModel::Str(s) => s,
        ValueModel::Int(i) => decimal(i),
        ValueModel::Float(f) => f,
    }
}

impl TryFromArgumentValueError {
    /// The text that `message` gives.
    pub open spec fn spec_message(&self) -> Seq<char> {
        "Expected type "@ + value_type_name(self.expected_type) + " but actual type is "@
            + value_type_name(type_of(self.actual_value@)) + " with value "@ + value_text(
            self.actual_value@,
        )
    }

    /// A description of the failure for a person to read.
    pub fn message(&self) -> (r: String)
        ensures
            r@ == self.spec_message(),
    {
        let mut out = String::new();
        out.append("Expected type ");
        out.append(self.expected_type.name());
        out.append(" but actual type is ");
        out.append(CommandArgumentValueType::from(&self.actual_value).name());
        out.append(" with value ");
        match &self.actual_value {
            CommandArgumentValue::String(s) => out.append(s.as_str()),
            CommandArgumentValue::I64(i) => {
                let d = decimal_string(*i);
                out.append(d.as_str());
            },
            CommandArgumentValue::F64(f) => out.append(f.literal()),
        }
        assert(out@ =~= self.spec_message());
        out
    }
}

/// Conversion of an argument value into a declared type. In strict mode the
/// value must already have the type; in lenient mode strings are parsed and
/// numbers are written out.
pub trait TryFromArgumentValue: Sized {
    /// `out` is what `value` converts to.
    spec fn spec_converts(value: ValueModel, strict: bool, out: Self) -> bool;

    /// `value` does not convert.
    spec fn spec_rejects(value: ValueModel, strict: bool) -> bool;

    /// The type and value that a failed conversion of `value` reports.
    spec fn spec_fault(value: ValueModel, strict: bool) -> (CommandArgumentValueType, ValueModel);

    /// Converts `value`.
    fn try_from_argument_value(value: CommandArgumentValue, strict: bool) -> (r: Result<
        Self,
        TryFromArgumentValueError,
    >)
        ensures
            r matches Ok(x) ==> Self::spec_converts(value@, strict, x),
            r is Err <==> Self::spec_rejects(value@, strict),
            r matches Err(e) ==> (e.expected_type, e.actual_value@) == Self::spec_fault(
                value@,
                strict,
            ),
    ;
}

impl TryFromArgumentValue for String {
    open spec fn spec_converts(value: ValueModel, strict: bool, out: String) -> bool {
        match value {
            ValueModel::Str(s) => out@ == s,
            ValueModel::Int(i) => !strict && out@ == decimal(i),
            ValueModel::Float(f) => !strict && out@ == f,
        }
    }

    open spec fn spec_rejects(value: ValueModel, strict: bool) -> bool {
        strict && !(value is Str)
    }

    open spec fn spec_fault(value: ValueModel, strict: bool) -> (CommandArgumentValueType, ValueModel) {
        (CommandArgumentValueType::String, value)
    }

    fn try_from_argument_value(value: CommandArgumentValue, strict: bool) -> (r: Result<
        String,
        TryFromArgumentValueError,
    >) {
        match value {
            CommandArgumentValue::String(v) => Ok(v),
            CommandArgumentValue::I64(i) => if strict {
                Err(
                    TryFromArgumentValueError {
                        expected_type: CommandArgumentValueType::String,
                        actual_value: CommandArgumentValue::I64(i),
                    },
                )
            } else {
                Ok(decimal_string(i))
            },
            CommandArgumentValue::F64(f) => if strict {
                Err(
                    TryFromArgumentValueError {
                        expected_type: CommandArgumentValueType::String,
                        actual_value: CommandArgumentValue::F64(f),
                    },
                )
            } else {
                Ok(f.literal().to_owned())
            },
        }
    }
}

impl TryFromArgumentValue for i64 {
    open spec fn spec_converts(value: ValueModel, strict: bool, out: i64) -> bool {
        match value {
            ValueModel::Int(i) => out as int == i,
            ValueModel::Str(s) => !strict && int_literal(s) == Some(out as int),
            ValueModel::Float(_) => false,
        }
    }

    open spec fn spec_rejects(value: ValueModel, strict: bool) -> bool {
        match value {
            ValueModel::Int(_) => false,
            ValueModel::Str(s) => strict || int_literal(s) is None,
            ValueModel::Float(_) => true,
        }
    }

    open spec fn spec_fault(value: ValueModel, strict: bool) -> (CommandArgumentValueType, ValueModel) {
        (CommandArgumentValueType::I64, value)
    }

    fn try_from_argument_value(value: CommandArgumentValue, strict: bool) -> (r: Result<
        i64,
        TryFromArgumentValueError,
    >) {
        match value {
            CommandArgumentValue::I64(v) => Ok(v),
            CommandArgumentValue::String(s) => {
                let parsed = if strict {
                    None
                } else {
                    parse_i64(s.as_str())
                };
                match parsed {
                    Some(v) => Ok(v),
                    None => Err(
                        TryFromArgumentValueError {
                            expected_type: CommandArgumentValueType::I64,
                            actual_value: CommandArgumentValue::String(s),
                        },
                    ),
                }
            },
            CommandArgumentValue::F64(f) => Err(
                TryFromArgumentValueError {
                    expected_type: CommandArgumentValueType::I64,
                    actual_value: CommandArgumentValue::F64(f),
                },
            ),
        }
    }
}

impl TryFromArgumentValue for FloatValue {
    open spec fn spec_converts(value: ValueModel, strict: bool, out: FloatValue) -> bool {
        match value {
            ValueModel::Float(f) => out.spec_literal() == f,
            ValueModel::Str(s) => !strict && float_literal(s)
                && out.spec_literal() == s,
            ValueModel::Int(_) => false,
        }
    }

    open spec fn spec_rejects(value: ValueModel, strict: bool) -> bool {
        match value {
            ValueModel::Float(_) => false,
            ValueModel::Str(s) => strict || !float_literal(s),
            ValueModel::Int(_) => true,
        }
    }

    open spec fn spec_fault(value: ValueModel, strict: bool) -> (CommandArgumentValueType, ValueModel) {
        (CommandArgumentValueType::F64, value)
    }

    fn try_from_argument_value(value: CommandArgumentValue, strict: bool) -> (r: Result<
        FloatValue,
        TryFromArgumentValueError,
    >) {
        match value {
            CommandArgumentValue::F64(f) => Ok(f),
            CommandArgumentValue::String(s) => {
                let parsed = if strict {
                    None
                } else {
                    FloatValue::parse(s.as_str())
                };
                match parsed {
                    Some(f) => Ok(f),
                    None => Err(
                        TryFromArgumentValueError {
                            expected_type: CommandArgumentValueType::F64,
                            actual_value: CommandArgumentValue::String(s),
                        },
                    ),
                }
            },
            CommandArgumentValue::I64(i) => Err(
                TryFromArgumentValueError {
                    expected_type: CommandArgumentValueType::F64,
                    actual_value: CommandArgumentValue::I64(i),
                },
            ),
        }
    }
}

impl<T: TryFromArgumentValue> TryFromArgumentValue for Option<T> {
    open spec fn spec_converts(value: ValueModel, strict: bool, out: Option<T>) -> bool {
        match out {
            Some(x) => T::spec_converts(value, strict, x) && !T::spec_rejects(value, strict),
            None => T::spec_rejects(value, strict),
        }
    }

    open spec fn spec_rejects(value: ValueModel, strict: bool) -> bool {
        false
    }

    open spec fn spec_fault(value: ValueModel, strict: bool) -> (CommandArgumentValueType, ValueModel) {
        T::spec_fault(value, strict)
    }

    fn try_from_argument_value(value: CommandArgumentValue, strict: bool) -> (r: Result<
        Option<T>,
        TryFromArgumentValueError,
    >) {
        match T::try_from_argument_value(value, strict) {
            Ok(x) => Ok(Some(x)),
            Err(_) => Ok(None),
        }
    }
}


/// A list written as the pieces of a string separated by ASCII white space.
#[derive(Clone, Debug, Default, PartialEq, Eq, Hash, PartialOrd, Ord)]
pub struct SpaceSeparated<T>(pub Vec<T>);

/// A list written as the pieces of a string separated by commas.
#[derive(Clone, Debug, Default, PartialEq, Eq, Hash, PartialOrd, Ord)]
pub struct CommaSeparated<T>(pub Vec<T>);

/// The white space that `str::split_ascii_whitespace` splits at.
pub open spec fn is_ascii_space(c: char) -> bool {
    c == ' ' || c == '\t' || c == '\n' || c == '\x0C' || c == '\r'
}

fn char_is_ascii_space(c: char) -> (r: bool)
    ensures
        r == is_ascii_space(c),
{
    c == ' ' || c == '\t' || c == '\n' || c == '\x0C' || c == '\r'
}

/// The maximal runs of characters other than ASCII white space, from index
/// `i` on; `start` is where the run under way began.
pub open spec fn words_from(s: Seq<char>, i: int, start: Option<int>) -> Seq<Seq<char>>
    decreases s.len() - i,
{
    if i < 0 || i >= s.len() {
        match start {
            Some(a) => seq![s.subrange(a, s.len() as int)],
            None => Seq::empty(),
        }
    } else if is_ascii_space(s[i]) {
        match start {
            Some(a) => seq![s.subrange(a, i)] + words_from(s, i + 1, None),
            None => words_from(s, i + 1, None),
        }
    } else {
        words_from(
            s,
            i + 1,
            if start is Some {
                start
            } else {
                Some(i)
            },
        )
    }
}

/// The pieces of `s` between runs of ASCII white space.
pub open spec fn words(s: Seq<char>) -> Seq<Seq<char>> {
    words_from(s, 0, None)
}

/// The pieces between commas, from index `i` on; the piece under way began
/// at `start`.
pub open spec fn fields_from(s: Seq<char>, i: int, start: int) -> Seq<Seq<char>>
    decreases s.len() - i,
{
    if i < 0 || i >= s.len() {
        seq![s.subrange(start, s.len() as int)]
    } else if s[i] == ',' {
        seq![s.subrange(start, i)] + fields_from(s, i + 1, i + 1)
    } else {
        fields_from(s, i + 1, start)
    }
}

/// The pieces of `s` between commas; there is always at least one.
pub open spec fn fields(s: Seq<char>) -> Seq<Seq<char>> {
    fields_from(s, 0, 0)
}

/// End of `w[..j]` once trailing white space is taken off.
pub open spec fn trim_end(w: Seq<char>, j: int) -> int
    decreases j,
{
    if 0 < j <= w.len() && is_space(w[j - 1]) {
        trim_end(w, j - 1)
    } else {
        j
    }
}

/// `w` without leading and trailing white space, as `str::trim` gives it.
pub open spec fn trimmed(w: Seq<char>) -> Seq<char> {
    let a = space_end(w, 0);
    let b = trim_end(w, w.len() as int);
    if a < b {
        w.subrange(a, b)
    } else {
        Seq::empty()
    }
}

pub open spec fn trim_all(ps: Seq<Seq<char>>) -> Seq<Seq<char>> {
    ps.map_values(|p: Seq<char>| trimmed(p))
}

pub open spec fn strings_view(v: Seq<String>) -> Seq<Seq<char>> {
    v.map_values(|p: String| p@)
}

/// Index of the first piece that does not convert leniently to `T`, or the
/// number of pieces when all do.
pub open spec fn first_rejected<T: TryFromArgumentValue>(ps: Seq<Seq<char>>) -> int
    decreases ps.len(),
{
    if ps.len() == 0 {
        0
    } else if T::spec_rejects(ValueModel::Str(ps[0]), false) {
        0
    } else {
        1 + first_rejected::<T>(ps.drop_first())
    }
}

/// A list read from `value`: a string gives one lenient conversion per piece
/// of `pieces`; any other value gives a single element.
pub open spec fn list_converts<T: TryFromArgumentValue>(
    value: ValueModel,
    strict: bool,
    pieces: Seq<Seq<char>>,
    out: Seq<T>,
) -> bool {
    match value {
        ValueModel::Str(_) => out.len() == pieces.len() && forall|k: int|
            0 <= k < pieces.len() ==> T::spec_converts(
                ValueModel::Str(#[trigger] pieces[k]),
                false,
                out[k],
            ),
        _ => out.len() == 1 && T::spec_converts(value, strict, out[0]),
    }
}

pub open spec fn list_rejects<T: TryFromArgumentValue>(
    value: ValueModel,
    strict: bool,
    pieces: Seq<Seq<char>>,
) -> bool {
    match value {
        ValueModel::Str(_) => first_rejected::<T>(pieces) < pieces.len(),
        _ => T::spec_rejects(value, strict),
    }
}

pub open spec fn list_fault<T: TryFromArgumentValue>(
    value: ValueModel,
    strict: bool,
    pieces: Seq<Seq<char>>,
) -> (CommandArgumentValueType, ValueModel) {
    match value {
        ValueModel::Str(_) => T::spec_fault(
            ValueModel::Str(pieces[first_rejected::<T>(pieces)]),
            false,
        ),
        _ => T::spec_fault(value, strict),
    }
}

/// The pieces of `s` between runs of ASCII white space.
fn ascii_words(s: &str) -> (r: Vec<&str>)
    ensures
        r@.map_values(|p: &str| p@) == words(s@),
{
    let chars = chars_of(s);
    let n = chars.len();
    let mut r: Vec<&str> = Vec::new();
    let mut start: Option<usize> = None;
    let mut i: usize = 0;
    loop
        invariant
            chars@ == s@,
            n == chars.len(),
            i <= n,
            start matches Some(a) ==> a < i,
            words(s@) == r@.map_values(|p: &str| p@) + words_from(
                s@,
                i as int,
                match start {
                    Some(a) => Some(a as int),
                    None => None,
                },
            ),
        decreases n - i,
    {
        let ghost before = r@;
        if i >= n {
            if let Some(a) = start {
                r.push(s.substring_char(a, n));
                assert(r@.map_values(|p: &str| p@) =~= before.map_values(|p: &str| p@).push(
                    s@.subrange(a as int, n as int),
                ));
            }
            assert(r@.map_values(|p: &str| p@) =~= words(s@));
            return r;
        }
        if char_is_ascii_space(chars[i]) {
            if let Some(a) = start {
                r.push(s.substring_char(a, i));
                assert(r@.map_values(|p: &str| p@) =~= before.map_values(|p: &str| p@).push(
                    s@.subrange(a as int, i as int),
                ));
            }
            start = None;
        } else if start.is_none() {
            start = Some(i);
        }
        i = i + 1;
    }
}

/// The pieces of `s` between commas.
fn comma_fields(s: &str) -> (r: Vec<&str>)
    ensures
        r@.map_values(|p: &str| p@) == fields(s@),
{
    let chars = chars_of(s);
    let n = chars.len();
    let mut r: Vec<&str> = Vec::new();
    let mut start: usize = 0;
    let mut i: usize = 0;
    loop
        invariant
            chars@ == s@,
            n == chars.len(),
            start <= i <= n,
            fields(s@) == r@.map_values(|p: &str| p@) + fields_from(s@, i as int, start as int),
        decreases n - i,
    {
        let ghost before = r@;
        if i >= n {
            r.push(s.substring_char(start, n));
            assert(r@.map_values(|p: &str| p@) =~= before.map_values(|p: &str| p@).push(
                s@.subrange(start as int, n as int),
            ));
            assert(r@.map_values(|p: &str| p@) =~= fields(s@));
            return r;
        }
        if chars[i] == ',' {
            r.push(s.substring_char(start, i));
            assert(r@.map_values(|p: &str| p@) =~= before.map_values(|p: &str| p@).push(
                s@.subrange(start as int, i as int),
            ));
            start = i + 1;
        }
        i = i + 1;
    }
}

/// `w` without leading and trailing white space.
fn trim_str(w: &str) -> (r: &str)
    ensures
        r@ == trimmed(w@),
{
    let chars = chars_of(w);
    let n = chars.len();
    let mut a: usize = 0;
    while a < n && char_is_space(chars[a])
        invariant
            chars@ == w@,
            n == chars.len(),
            a <= n,
            space_end(w@, 0) == space_end(w@, a as int),
        decreases n - a,
    {
        a = a + 1;
    }
    if a == n {
        assert(trim_end(w@, n as int) <= n) by {
            lemma_trim_end_bound(w@, n as int);
        }
        return w.substring_char(n, n);
    }
    let mut b: usize = n;
    while b > a && char_is_space(chars[b - 1])
        invariant
            chars@ == w@,
            n == chars.len(),
            a < b <= n,
            !is_space(w@[a as int]),
            trim_end(w@, n as int) == trim_end(w@, b as int),
        decreases b,
    {
        b = b - 1;
    }
    w.substring_char(a, b)
}

proof fn lemma_trim_end_bound(w: Seq<char>, j: int)
    requires
        0 <= j <= w.len(),
    ensures
        0 <= trim_end(w, j) <= j,
    decreases j,
{
    if 0 < j && is_space(w[j - 1]) {
        lemma_trim_end_bound(w, j - 1);
    }
}

/// Converts each piece leniently to `T`, stopping at the first that fails.
fn convert_pieces<T: TryFromArgumentValue>(pieces: Vec<String>) -> (r: Result<
    Vec<T>,
    TryFromArgumentValueError,
>)
    ensures
        r matches Ok(v) ==> list_converts::<T>(
            ValueModel::Str(Seq::empty()),
            false,
            strings_view(pieces@),
            v@,
        ),
        r is Err <==> first_rejected::<T>(strings_view(pieces@)) < pieces@.len(),
        r matches Err(e) ==> (e.expected_type, e.actual_value@) == T::spec_fault(
            ValueModel::Str(strings_view(pieces@)[first_rejected::<T>(strings_view(pieces@))]),
            false,
        ),
{
    let ghost ps = strings_view(pieces@);
    let n = pieces.len();
    let mut out: Vec<T> = Vec::new();
    let mut i: usize = 0;
    assert(ps.subrange(0, n as int) =~= ps);
    while i < n
        invariant
            n == pieces.len(),
            ps == strings_view(pieces@),
            i <= n,
            out@.len() == i,
            forall|k: int|
                0 <= k < i ==> T::spec_converts(ValueModel::Str(#[trigger] ps[k]), false, out@[k]),
            first_rejected::<T>(ps) == i + first_rejected::<T>(ps.subrange(i as int, n as int)),
        decreases n - i,
    {
        let piece = pieces[i].clone();
        assert(piece@ == ps[i as int]);
        let ghost rest = ps.subrange(i as int, n as int);
        assert(rest[0] == ps[i as int]);
        match T::try_from_argument_value(CommandArgumentValue::String(piece), false) {
            Ok(x) => {
                assert(rest.drop_first() =~= ps.subrange(i + 1, n as int));
                out.push(x);
                i = i + 1;
            },
            Err(e) => {
                return Err(e);
            },
        }
    }
    assert(ps.subrange(n as int, n as int) =~= Seq::<Seq<char>>::empty());
    Ok(out)
}

/// The trimmed pieces, as owned strings.
fn owned_trimmed(pieces: Vec<&str>, trim: bool) -> (r: Vec<String>)
    ensures
        strings_view(r@) == if trim {
            trim_all(pieces@.map_values(|p: &str| p@))
        } else {
            pieces@.map_values(|p: &str| p@)
        },
{
    let n = pieces.len();
    let mut r: Vec<String> = Vec::new();
    let mut i: usize = 0;
    while i < n
        invariant
            n == pieces.len(),
            i <= n,
            r@.len() == i,
            forall|k: int|
                0 <= k < i ==> (#[trigger] r@[k])@ == if trim {
                    trimmed(pieces@[k]@)
                } else {
                    pieces@[k]@
                },
        decreases n - i,
    {
        let p = pieces[i];
        let piece = if trim {
            trim_str(p)
        } else {
            p
        };
        r.push(piece.to_owned());
        i = i + 1;
    }
    assert(strings_view(r@) =~= if trim {
        trim_all(pieces@.map_values(|p: &str| p@))
    } else {
        pieces@.map_values(|p: &str| p@)
    });
    r
}

/// The pieces a string value is cut into: at commas or at ASCII white
/// space, each trimmed when `trim`. A blank string, and any other value, has
/// none.
pub open spec fn list_pieces(value: ValueModel, commas: bool, trim: bool) -> Seq<Seq<char>> {
    match value {
        ValueModel::Str(s) => if trimmed(s).len() == 0 {
            Seq::empty()
        } else {
            let raw = if commas {
                fields(s)
            } else {
                words(s)
            };
            if trim {
                trim_all(raw)
            } else {
                raw
            }
        },
        _ => Seq::empty(),
    }
}

/// Reads a list from `value`: a string is cut into its pieces, each
/// converted leniently; any other value is one element, converted with
/// `strict`.
fn list_from<T: TryFromArgumentValue>(value: CommandArgumentValue, strict: bool, commas: bool, trim: bool) -> (r: Result<
    Vec<T>,
    TryFromArgumentValueError,
>)
    ensures
        r matches Ok(v) ==> list_converts::<T>(value@, strict, list_pieces(value@, commas, trim), v@),
        r is Err <==> list_rejects::<T>(value@, strict, list_pieces(value@, commas, trim)),
        r matches Err(e) ==> (e.expected_type, e.actual_value@) == list_fault::<T>(
            value@,
            strict,
            list_pieces(value@, commas, trim),
        ),
{
    match value {
        CommandArgumentValue::String(s) => {
            if trim_str(s.as_str()).is_empty() {
                let none: Vec<T> = Vec::new();
                return Ok(none);
            }
            let pieces = if commas {
                comma_fields(s.as_str())
            } else {
                ascii_words(s.as_str())
            };
            convert_pieces(owned_trimmed(pieces, trim))
        },
        other => {
            match T::try_from_argument_value(other, strict) {
                Ok(x) => {
                    let mut out: Vec<T> = Vec::new();
                    out.push(x);
                    Ok(out)
                },
                Err(e) => Err(e),
            }
        },
    }
}

impl<T: TryFromArgumentValue> TryFromArgumentValue for Vec<T> {
    open spec fn spec_converts(value: ValueModel, strict: bool, out: Vec<T>) -> bool {
        list_converts::<T>(value, strict, list_pieces(value, false, false), out@)
    }

    open spec fn spec_rejects(value: ValueModel, strict: bool) -> bool {
        list_rejects::<T>(value, strict, list_pieces(value, false, false))
    }

    open spec fn spec_fault(value: ValueModel, strict: bool) -> (CommandArgumentValueType, ValueModel) {
        list_fault::<T>(value, strict, list_pieces(value, false, false))
    }

    fn try_from_argument_value(value: CommandArgumentValue, strict: bool) -> (r: Result<
        Vec<T>,
        TryFromArgumentValueError,
    >) {
        list_from(value, strict, false, false)
    }
}

impl<T: TryFromArgumentValue> TryFromArgumentValue for SpaceSeparated<T> {
    open spec fn spec_converts(value: ValueModel, strict: bool, out: SpaceSeparated<T>) -> bool {
        list_converts::<T>(value, strict, list_pieces(value, false, true), out.0@)
    }

    open spec fn spec_rejects(value: ValueModel, strict: bool) -> bool {
        list_rejects::<T>(value, strict, list_pieces(value, false, true))
    }

    open spec fn spec_fault(value: ValueModel, strict: bool) -> (CommandArgumentValueType, ValueModel) {
        list_fault::<T>(value, strict, list_pieces(value, false, true))
    }

    fn try_from_argument_value(value: CommandArgumentValue, strict: bool) -> (r: Result<
        SpaceSeparated<T>,
        TryFromArgumentValueError,
    >) {
        match list_from(value, strict, false, true) {
            Ok(v) => Ok(SpaceSeparated(v)),
            Err(e) => Err(e),
        }
    }
}

impl<T: TryFromArgumentValue> TryFromArgumentValue for CommaSeparated<T> {
    open spec fn spec_converts(value: ValueModel, strict: bool, out: CommaSeparated<T>) -> bool {
        list_converts::<T>(value, strict, list_pieces(value, true, true), out.0@)
    }

    open spec fn spec_rejects(value: ValueModel, strict: bool) -> bool {
        list_rejects::<T>(value, strict, list_pieces(value, true, true))
    }

    open spec fn spec_fault(value: ValueModel, strict: bool) -> (CommandArgumentValueType, ValueModel) {
        list_fault::<T>(value, strict, list_pieces(value, true, true))
    }

    fn try_from_argument_value(value: CommandArgumentValue, strict: bool) -> (r: Result<
        CommaSeparated<T>,
        TryFromArgumentValueError,
    >) {
        match list_from(value, strict, true, true) {
            Ok(v) => Ok(CommaSeparated(v)),
            Err(e) => Err(e),
        }
    }
}

} // verus!
