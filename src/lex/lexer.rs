//! The lexer: splits a command string into tokens, failing fast on the first
//! malformed one.
use vstd::prelude::*;
use vstd::string::*;
use vstd::utf8::encode_utf8;

use super::chars::{char_is_space, chars_of, is_digit, is_space};
use crate::text::{digits_of, usize_string};
use super::token::{CommandToken, RawStringPattern, TokenModel};

verus! {

/// A lexing failure. Each carries the byte offset where the offending token
/// starts and the source from there to its end.
#[derive(Debug, PartialEq, Eq)]
pub enum CommandLexError<'a> {
    /// A quote that is never closed.
    UnclosedQuote(usize, &'a str),
    /// A name followed by `=` and then white space, or nothing.
    NamedProhibitsWhitespace(usize, &'a str),
    /// A named token whose value is itself named.
    NamedCannotContainNamed(usize, &'a str),
}

/// A lexing failure at a character index of the source.
pub enum LexFault {
    UnclosedQuote(int),
    NamedProhibitsWhitespace(int),
    NamedCannotContainNamed(int),
}

/// End of the white-space run that starts at `i`.
pub open spec fn space_end(s: Seq<char>, i: int) -> int
    decreases s.len() - i,
{
    if 0 <= i < s.len() && is_space(s[i]) {
        space_end(s, i + 1)
    } else {
        i
    }
}

/// End of the word that starts at `i`: the first white space, `=`, or the end.
pub open spec fn word_end(s: Seq<char>, i: int) -> int
    decreases s.len() - i,
{
    if 0 <= i < s.len() && !is_space(s[i]) && s[i] != '=' {
        word_end(s, i + 1)
    } else {
        i
    }
}

pub open spec fn count_dots(w: Seq<char>) -> nat
    decreases w.len(),
{
    if w.len() == 0 {
        0
    } else {
        count_dots(w.drop_last()) + if w.last() == '.' {
            1nat
        } else {
            0nat
        }
    }
}

/// The word without one leading `+` or `-`.
pub open spec fn unsigned_part(w: Seq<char>) -> Seq<char> {
    if w.len() > 0 && (w[0] == '+' || w[0] == '-') {
        w.drop_first()
    } else {
        w
    }
}

pub open spec fn digits_and_dots(w: Seq<char>) -> bool {
    forall|k: int| 0 <= k < w.len() ==> is_digit(#[trigger] w[k]) || w[k] == '.'
}

pub open spec fn has_digit(w: Seq<char>) -> bool {
    exists|k: int| 0 <= k < w.len() && is_digit(#[trigger] w[k])
}

pub open spec fn has_sign(w: Seq<char>) -> bool {
    w.len() > 0 && (w[0] == '+' || w[0] == '-')
}

/// Numeric classification of a word: an optional sign then digits is an
/// integer; digits with exactly one dot among them, and no sign, is a float.
pub open spec fn classify(w: Seq<char>) -> RawStringPattern {
    let b = unsigned_part(w);
    if digits_and_dots(b) && has_digit(b) && count_dots(b) == 0 {
        RawStringPattern::Integer
    } else if !has_sign(w) && digits_and_dots(w) && has_digit(w) && count_dots(w) == 1 {
        RawStringPattern::Float
    } else {
        RawStringPattern::Unrecognized
    }
}

/// Scans a quoted body from `i` for the closing `q`: the unescaped value and
/// the index of the closing quote. A backslash escapes `q` or a backslash;
/// before any other character it is kept as it is.
pub open spec fn quote_scan(s: Seq<char>, i: int, q: char) -> Option<(Seq<char>, int)>
    decreases s.len() - i,
{
    if i < 0 || i >= s.len() {
        None
    } else if s[i] == q {
        Some((Seq::empty(), i))
    } else if s[i] == '\\' && i + 1 < s.len() && (s[i + 1] == q || s[i + 1] == '\\') {
        prefixed(seq![s[i + 1]], quote_scan(s, i + 2, q))
    } else {
        prefixed(seq![s[i]], quote_scan(s, i + 1, q))
    }
}

pub open spec fn prefixed(p: Seq<char>, o: Option<(Seq<char>, int)>) -> Option<(Seq<char>, int)> {
    match o {
        Some((v, e)) => Some((p + v, e)),
        None => None,
    }
}

pub open spec fn is_quote(c: char) -> bool {
    c == '"' || c == '\''
}

/// The token (or failure) that starts at index `i`, with the index after it.
pub open spec fn lex_one(s: Seq<char>, i: int) -> Option<(Result<TokenModel, LexFault>, int)>
    decreases s.len() - i,
{
    if i < 0 || i >= s.len() {
        None
    } else if is_space(s[i]) {
        let e = space_end(s, i);
        Some((Ok(TokenModel::Space(s.subrange(i, e))), e))
    } else if is_quote(s[i]) {
        match quote_scan(s, i + 1, s[i]) {
            None => Some((Err(LexFault::UnclosedQuote(i)), s.len() as int)),
            Some((v, e)) => Some(
                (Ok(TokenModel::Quoted(s.subrange(i, i + 1), v, s.subrange(e, e + 1))), e + 1),
            ),
        }
    } else {
        let e = word_end(s, i);
        if e < s.len() && s[e] == '=' {
            if e <= i {
                Some((Err(LexFault::NamedProhibitsWhitespace(i)), s.len() as int))
            } else {
                match lex_one(s, e + 1) {
                    None => Some((Err(LexFault::NamedProhibitsWhitespace(i)), s.len() as int)),
                    Some((Ok(TokenModel::Space(_)), _)) => Some(
                        (Err(LexFault::NamedProhibitsWhitespace(i)), s.len() as int),
                    ),
                    Some((Ok(TokenModel::Named(_, _)), _)) => Some(
                        (Err(LexFault::NamedCannotContainNamed(i)), s.len() as int),
                    ),
                    Some((Ok(t), n)) => Some(
                        (Ok(TokenModel::Named(s.subrange(i, e), Box::new(t))), n),
                    ),
                    Some((Err(f), n)) => Some((Err(f), n)),
                }
            }
        } else {
            Some((Ok(TokenModel::Raw(s.subrange(i, e), classify(s.subrange(i, e)))), e))
        }
    }
}

/// Everything the lexer yields from index `i` on: tokens, then at most one
/// failure, after which it yields nothing.
pub open spec fn lex_items(s: Seq<char>, i: int) -> Seq<Result<TokenModel, LexFault>>
    decreases s.len() - i,
{
    match lex_one(s, i) {
        None => Seq::empty(),
        Some((Ok(t), n)) => if i < n <= s.len() {
            seq![Ok(t)] + lex_items(s, n)
        } else {
            seq![Ok(t)]
        },
        Some((Err(f), _)) => seq![Err(f)],
    }
}

/// Number of bytes that the first `i` characters take in UTF-8.
pub open spec fn byte_offset(s: Seq<char>, i: int) -> usize {
    encode_utf8(s.subrange(0, i)).len() as usize
}

impl<'a> CommandLexError<'a> {
    /// This error reports fault `f` of source `s`.
    pub open spec fn reports(&self, s: Seq<char>, f: LexFault) -> bool {
        match (*self, f) {
            (CommandLexError::UnclosedQuote(o, r), LexFault::UnclosedQuote(p)) => o
                == byte_offset(s, p) && r@ == s.subrange(p, s.len() as int),
            (
                CommandLexError::NamedProhibitsWhitespace(o, r),
                LexFault::NamedProhibitsWhitespace(p),
            ) => o == byte_offset(s, p) && r@ == s.subrange(p, s.len() as int),
            (
                CommandLexError::NamedCannotContainNamed(o, r),
                LexFault::NamedCannotContainNamed(p),
            ) => o == byte_offset(s, p) && r@ == s.subrange(p, s.len() as int),
            _ => false,
        }
    }

    /// The text that `message` gives.
    pub open spec fn spec_message(&self) -> Seq<char> {
        match *self {
            CommandLexError::UnclosedQuote(pos, rest) => "Unclosed quote at position "@ + digits_of(
                pos as nat,
            ) + " in command: "@ + rest@,
            CommandLexError::NamedProhibitsWhitespace(pos, rest) =>
                "Named argument prohibits whitespace at position "@ + digits_of(pos as nat)
                + " in command: "@ + rest@,
            CommandLexError::NamedCannotContainNamed(pos, rest) =>
                "Named argument cannot contain named argument at position "@ + digits_of(
                pos as nat,
            ) + " in command: "@ + rest@,
        }
    }

    /// A description of the failure for a person to read.
    pub fn message(&self) -> (r: String)
        ensures
            r@ == self.spec_message(),
    {
        let (head, pos, rest) = match self {
            CommandLexError::UnclosedQuote(pos, rest) => ("Unclosed quote at position ", *pos, *rest),
            CommandLexError::NamedProhibitsWhitespace(pos, rest) => (
                "Named argument prohibits whitespace at position ",
                *pos,
                *rest,
            ),
            CommandLexError::NamedCannotContainNamed(pos, rest) => (
                "Named argument cannot contain named argument at position ",
                *pos,
                *rest,
            ),
        };
        let mut out = String::new();
        out.append(head);
        let digits = usize_string(pos);
        out.append(digits.as_str());
        out.append(" in command: ");
        out.append(rest);
        assert(out@ =~= self.spec_message());
        out
    }
}

/// An outcome of the lexer agrees with its model over source `s`.
pub open spec fn outcome_matches<'a>(
    s: Seq<char>,
    r: Result<CommandToken<'a>, CommandLexError<'a>>,
    m: Result<TokenModel, LexFault>,
) -> bool {
    match (r, m) {
        (Ok(t), Ok(tm)) => t.model() == tm,
        (Err(e), Err(f)) => e.reports(s, f),
        _ => false,
    }
}


pub proof fn lemma_space_end(s: Seq<char>, i: int)
    requires
        0 <= i <= s.len(),
    ensures
        i <= space_end(s, i) <= s.len(),
    decreases s.len() - i,
{
    if i < s.len() && is_space(s[i]) {
        lemma_space_end(s, i + 1);
    }
}

pub proof fn lemma_word_end(s: Seq<char>, i: int)
    requires
        0 <= i <= s.len(),
    ensures
        i <= word_end(s, i) <= s.len(),
    decreases s.len() - i,
{
    if i < s.len() && !is_space(s[i]) && s[i] != '=' {
        lemma_word_end(s, i + 1);
    }
}

pub proof fn lemma_quote_scan(s: Seq<char>, i: int, q: char)
    ensures
        quote_scan(s, i, q) matches Some((v, e)) ==> i <= e < s.len() && s[e] == q,
    decreases s.len() - i,
{
    if i < 0 || i >= s.len() {
    } else if s[i] == q {
    } else if s[i] == '\\' && i + 1 < s.len() && (s[i + 1] == q || s[i + 1] == '\\') {
        lemma_quote_scan(s, i + 2, q);
    } else {
        lemma_quote_scan(s, i + 1, q);
    }
}

pub proof fn lemma_prefixed_twice(a: Seq<char>, b: Seq<char>, o: Option<(Seq<char>, int)>)
    ensures
        prefixed(a, prefixed(b, o)) == prefixed(a + b, o),
{
    if let Some((v, e)) = o {
        assert(a + (b + v) =~= (a + b) + v);
    }
}

/// A token always moves the lexer forward, and never past the end.
pub proof fn lemma_lex_one_progress(s: Seq<char>, i: int)
    ensures
        lex_one(s, i) matches Some((Ok(_), n)) ==> i < n <= s.len(),
    decreases s.len() - i,
{
    if 0 <= i < s.len() {
        if is_space(s[i]) {
            lemma_space_end(s, i + 1);
        } else if is_quote(s[i]) {
            lemma_quote_scan(s, i + 1, s[i]);
        } else {
            lemma_word_end(s, i);
            if s[i] != '=' {
                lemma_word_end(s, i + 1);
            }
            let e = word_end(s, i);
            if e < s.len() && s[e] == '=' && e > i {
                lemma_lex_one_progress(s, e + 1);
            }
        }
    }
}

/// A quoted value written back: a backslash before each quote `q` and each
/// backslash.
pub open spec fn escaped(v: Seq<char>, q: char) -> Seq<char>
    decreases v.len(),
{
    if v.len() == 0 {
        Seq::empty()
    } else {
        (if v[0] == q || v[0] == '\\' {
            seq!['\\', v[0]]
        } else {
            seq![v[0]]
        }) + escaped(v.drop_first(), q)
    }
}

/// A token as it is written in the source.
pub open spec fn written(t: TokenModel) -> Seq<char>
    decreases t,
{
    match t {
        TokenModel::Raw(s, _) => s,
        TokenModel::Space(s) => s,
        TokenModel::Quoted(o, v, c) => o + escaped(
            v,
            if o.len() > 0 {
                o[0]
            } else {
                '"'
            },
        ) + c,
        TokenModel::Named(n, inner) => n + seq!['='] + written(*inner),
    }
}

/// In the quoted body from `i` to its closing `q`, every backslash escapes a
/// `q` or a backslash.
pub open spec fn quote_clean(s: Seq<char>, i: int, q: char) -> bool
    decreases s.len() - i,
{
    if i < 0 || i >= s.len() || s[i] == q {
        true
    } else if s[i] == '\\' && i + 1 < s.len() && (s[i + 1] == q || s[i + 1] == '\\') {
        quote_clean(s, i + 2, q)
    } else if s[i] == '\\' {
        false
    } else {
        quote_clean(s, i + 1, q)
    }
}

/// The token at `i` has escape-correct quotes, if it is quoted or a name
/// with a quoted value.
pub open spec fn token_clean(s: Seq<char>, i: int) -> bool
    decreases s.len() - i,
{
    if i < 0 || i >= s.len() || is_space(s[i]) {
        true
    } else if is_quote(s[i]) {
        quote_clean(s, i + 1, s[i])
    } else {
        let e = word_end(s, i);
        if e < s.len() && s[e] == '=' && e > i {
            token_clean(s, e + 1)
        } else {
            true
        }
    }
}

/// Every token from `i` on has escape-correct quotes.
pub open spec fn items_clean(s: Seq<char>, i: int) -> bool
    decreases s.len() - i,
{
    match lex_one(s, i) {
        Some((Ok(_), n)) => token_clean(s, i) && if i < n <= s.len() {
            items_clean(s, n)
        } else {
            true
        },
        _ => true,
    }
}

/// The items written back one after another; a failure writes nothing.
pub open spec fn concat_written(xs: Seq<Result<TokenModel, LexFault>>) -> Seq<char>
    decreases xs.len(),
{
    if xs.len() == 0 {
        Seq::empty()
    } else {
        (match xs[0] {
            Ok(t) => written(t),
            Err(_) => Seq::empty(),
        }) + concat_written(xs.drop_first())
    }
}

proof fn lemma_quote_written(s: Seq<char>, i: int, q: char)
    requires
        0 <= i,
        quote_clean(s, i, q),
        quote_scan(s, i, q) is Some,
    ensures
        quote_scan(s, i, q) matches Some((v, e)) && escaped(v, q) == s.subrange(i, e),
    decreases s.len() - i,
{
    lemma_quote_scan(s, i, q);
    if s[i] == q {
        assert(s.subrange(i, i) =~= Seq::<char>::empty());
    } else if s[i] == '\\' && i + 1 < s.len() && (s[i + 1] == q || s[i + 1] == '\\') {
        lemma_quote_written(s, i + 2, q);
        lemma_quote_scan(s, i + 2, q);
        let (v, e) = quote_scan(s, i + 2, q)->0;
        let w = seq![s[i + 1]] + v;
        assert(w.drop_first() =~= v);
        assert(escaped(w, q) == seq!['\\', s[i + 1]] + escaped(v, q));
        assert(s.subrange(i, e) =~= seq!['\\', s[i + 1]] + s.subrange(i + 2, e));
    } else {
        lemma_quote_written(s, i + 1, q);
        lemma_quote_scan(s, i + 1, q);
        let (v, e) = quote_scan(s, i + 1, q)->0;
        let w = seq![s[i]] + v;
        assert(w.drop_first() =~= v);
        assert(escaped(w, q) == seq![s[i]] + escaped(v, q));
        assert(s.subrange(i, e) =~= seq![s[i]] + s.subrange(i + 1, e));
    }
}

proof fn lemma_token_written(s: Seq<char>, i: int)
    requires
        token_clean(s, i),
        lex_one(s, i) matches Some((Ok(_), _)),
    ensures
        lex_one(s, i) matches Some((Ok(t), n)) && written(t) == s.subrange(i, n),
    decreases s.len() - i,
{
    if is_space(s[i]) {
    } else if is_quote(s[i]) {
        lemma_quote_written(s, i + 1, s[i]);
        let (v, e) = quote_scan(s, i + 1, s[i])->0;
        lemma_quote_scan(s, i + 1, s[i]);
        assert(s.subrange(i, e + 1) =~= s.subrange(i, i + 1) + s.subrange(i + 1, e) + s.subrange(
            e,
            e + 1,
        ));
    } else {
        let e = word_end(s, i);
        lemma_word_end(s, i);
        if e < s.len() && s[e] == '=' && e > i {
            lemma_token_written(s, e + 1);
            lemma_lex_one_progress(s, e + 1);
            let (_, n) = lex_one(s, e + 1)->0;
            assert(s.subrange(i, n) =~= s.subrange(i, e) + seq!['='] + s.subrange(e + 1, n));
        }
    }
}

proof fn lemma_lossless_from(s: Seq<char>, i: int)
    requires
        0 <= i <= s.len(),
        items_clean(s, i),
        forall|k: int| 0 <= k < lex_items(s, i).len() ==> #[trigger] lex_items(s, i)[k] is Ok,
    ensures
        concat_written(lex_items(s, i)) == s.subrange(i, s.len() as int),
    decreases s.len() - i,
{
    if i == s.len() {
        assert(s.subrange(i, i) =~= Seq::<char>::empty());
    } else {
        lemma_lex_one_progress(s, i);
        let xs = lex_items(s, i);
        if let Some((Ok(t), n)) = lex_one(s, i) {
            lemma_token_written(s, i);
            let rest = lex_items(s, n);
            assert(xs == seq![Ok::<TokenModel, LexFault>(t)] + rest);
            assert(xs.drop_first() =~= rest);
            assert forall|k: int| 0 <= k < rest.len() implies #[trigger] rest[k] is Ok by {
                assert(rest[k] == xs[k + 1]);
            }
            lemma_lossless_from(s, n);
            assert(s.subrange(i, s.len() as int) =~= s.subrange(i, n) + s.subrange(n, s.len() as int));
        } else {
            assert(xs[0] is Err);
        }
    }
}

/// Lexing is lossless: when every token lexes and every quote is
/// escape-correct, the tokens written back one after another give the
/// source.
pub proof fn lemma_lossless(s: Seq<char>)
    requires
        items_clean(s, 0),
        forall|k: int| 0 <= k < lex_items(s, 0).len() ==> #[trigger] lex_items(s, 0)[k] is Ok,
    ensures
        concat_written(lex_items(s, 0)) == s,
{
    lemma_lossless_from(s, 0);
    assert(s.subrange(0, s.len() as int) =~= s);
}

proof fn lemma_plain_body(s: Seq<char>, i: int, j: int, k: int, q: char)
    requires
        0 <= i < k <= j < s.len(),
        s[j] == q,
        forall|m: int| i < m < j ==> (#[trigger] s[m]) != q && s[m] != '\\',
    ensures
        quote_scan(s, k, q) == Some((s.subrange(k, j), j)),
    decreases j - k,
{
    if k == j {
        assert(s.subrange(j, j) =~= Seq::<char>::empty());
    } else {
        lemma_plain_body(s, i, j, k + 1, q);
        assert(seq![s[k]] + s.subrange(k + 1, j) =~= s.subrange(k, j));
    }
}

/// A quoted string whose body holds neither its quote nor a backslash lexes
/// to its opening quote, the body as it is, and its closing quote; the next
/// token starts right after the closing quote.
pub proof fn lemma_plain_quote(s: Seq<char>, i: int, j: int)
    requires
        0 <= i < j < s.len(),
        is_quote(s[i]),
        s[j] == s[i],
        forall|m: int| i < m < j ==> (#[trigger] s[m]) != s[i] && s[m] != '\\',
    ensures
        lex_one(s, i) == Some(
            (
                Ok::<TokenModel, LexFault>(
                    TokenModel::Quoted(s.subrange(i, i + 1), s.subrange(i + 1, j), s.subrange(j, j + 1)),
                ),
                j + 1,
            ),
        ),
{
    assert(!is_space(s[i]));
    lemma_plain_body(s, i, j, i + 1, s[i]);
}

/// Numeric classification of `chars[a..e]`.
pub fn classify_span(chars: &Vec<char>, a: usize, e: usize) -> (r: RawStringPattern)
    requires
        a <= e <= chars.len(),
    ensures
        r == classify(chars@.subrange(a as int, e as int)),
{
    let ghost w = chars@.subrange(a as int, e as int);
    let mut k = a;
    let signed = k < e && (chars[k] == '+' || chars[k] == '-');
    if signed {
        k = k + 1;
    }
    assert(signed == has_sign(w));
    assert(unsigned_part(w) =~= chars@.subrange(k as int, e as int));
    let mut all = true;
    let mut digit = false;
    let mut dots: usize = 0;
    let mut j = k;
    while j < e
        invariant
            a <= k <= j <= e <= chars.len(),
            dots <= j - k,
            all == digits_and_dots(chars@.subrange(k as int, j as int)),
            digit == has_digit(chars@.subrange(k as int, j as int)),
            dots == count_dots(chars@.subrange(k as int, j as int)),
        decreases e - j,
    {
        let c = chars[j];
        let ghost prev = chars@.subrange(k as int, j as int);
        let ghost next = chars@.subrange(k as int, j + 1);
        proof {
            assert(next.drop_last() =~= prev);
            assert(next.last() == c);
            assert(next =~= prev.push(c));
            assert(forall|m: int| 0 <= m < prev.len() ==> next[m] == prev[m]);
            if digits_and_dots(prev) && (is_digit(c) || c == '.') {
                assert(digits_and_dots(next));
            }
            if !(is_digit(c) || c == '.') {
                assert(!(is_digit(next[next.len() - 1]) || next[next.len() - 1] == '.'));
            }
            if has_digit(prev) {
                let m = choose|m: int| 0 <= m < prev.len() && is_digit(#[trigger] prev[m]);
                assert(is_digit(next[m]));
            }
            if is_digit(c) {
                assert(is_digit(next[next.len() - 1]));
            }
            if has_digit(next) && !is_digit(c) {
                let m = choose|m: int| 0 <= m < next.len() && is_digit(#[trigger] next[m]);
                assert(m < prev.len());
                assert(is_digit(prev[m]));
            }
        }
        if c == '.' {
            dots = dots + 1;
        } else if !('0' <= c && c <= '9') {
            all = false;
        }
        if '0' <= c && c <= '9' {
            digit = true;
        }
        j = j + 1;
    }
    if all && digit && dots == 0 {
        RawStringPattern::Integer
    } else if !signed && all && digit && dots == 1 {
        RawStringPattern::Float
    } else {
        RawStringPattern::Unrecognized
    }
}

/// A lexer over one command string. It yields tokens one at a time and,
/// after the first failure, nothing more.
pub struct CommandLexer<'a> {
    source: &'a str,
    chars: Vec<char>,
    pos: usize,
    failed: bool,
}

/// The agreement of `r` (an outcome and the index after it) with `lex_one`.
pub open spec fn step_matches<'a>(
    s: Seq<char>,
    r: (Result<CommandToken<'a>, CommandLexError<'a>>, usize),
    m: Option<(Result<TokenModel, LexFault>, int)>,
) -> bool {
    match m {
        Some((o, e)) => outcome_matches(s, r.0, o) && (o is Ok ==> r.1 == e) && r.1 <= s.len(),
        None => false,
    }
}

impl<'a> CommandLexer<'a> {
    /// The source being lexed.
    pub closed spec fn text(&self) -> Seq<char> {
        self.source@
    }

    /// What the lexer has yet to yield.
    pub closed spec fn rest(&self) -> Seq<Result<TokenModel, LexFault>> {
        if self.failed {
            Seq::empty()
        } else {
            lex_items(self.source@, self.pos as int)
        }
    }

    /// The lexer's own bookkeeping is consistent.
    pub closed spec fn wf(&self) -> bool {
        self.chars@ == self.source@ && self.pos <= self.chars.len()
    }

    /// A lexer at the start of `source`.
    pub fn new(source: &'a str) -> (r: Self)
        ensures
            r.wf(),
            r.text() == source@,
            r.rest() == lex_items(source@, 0),
    {
        CommandLexer { source, chars: chars_of(source), pos: 0, failed: false }
    }

    /// Byte offset of character index `p`, and the source from there on.
    fn located(&self, p: usize) -> (r: (usize, &'a str))
        requires
            self.wf(),
            p <= self.chars.len(),
        ensures
            r.0 == byte_offset(self.source@, p as int),
            r.1@ == self.source@.subrange(p as int, self.source@.len() as int),
    {
        let n = self.chars.len();
        let head = self.source.substring_char(0, p);
        (head.len(), self.source.substring_char(p, n))
    }

    fn next_whitespace(&self, i: usize) -> (r: (CommandToken<'a>, usize))
        requires
            self.wf(),
            i < self.chars.len(),
            is_space(self.chars@[i as int]),
        ensures
            lex_one(self.source@, i as int) == Some((Ok::<TokenModel, LexFault>(r.0.model()), r.1 as int)),
            r.1 <= self.chars.len(),
    {
        let n = self.chars.len();
        let mut j = i;
        while j < n && char_is_space(self.chars[j])
            invariant
                self.wf(),
                n == self.chars.len(),
                i <= j <= n,
                space_end(self.chars@, i as int) == space_end(self.chars@, j as int),
            decreases n - j,
        {
            j = j + 1;
        }
        (CommandToken::Whitespace(self.source.substring_char(i, j)), j)
    }

    fn next_quote(&self, i: usize) -> (r: (Result<CommandToken<'a>, CommandLexError<'a>>, usize))
        requires
            self.wf(),
            i < self.chars.len(),
            is_quote(self.chars@[i as int]),
        ensures
            step_matches(self.source@, r, lex_one(self.source@, i as int)),
    {
        let ghost s = self.chars@;
        let n = self.chars.len();
        let q = self.chars[i];
        let mut value = String::new();
        let mut j = i + 1;
        while j < n && self.chars[j] != q
            invariant
                self.wf(),
                s == self.chars@,
                n == self.chars.len(),
                q == s[i as int],
                i < j <= n,
                quote_scan(s, i + 1, q) == prefixed(value@, quote_scan(s, j as int, q)),
            decreases n - j,
        {
            let c = self.chars[j];
            if c == '\\' && j + 1 < n && (self.chars[j + 1] == q || self.chars[j + 1] == '\\') {
                let piece = self.source.substring_char(j + 1, j + 2);
                proof {
                    assert(piece@ =~= seq![s[j + 1]]);
                    lemma_prefixed_twice(value@, piece@, quote_scan(s, j + 2, q));
                }
                value.append(piece);
                j = j + 2;
            } else {
                let piece = self.source.substring_char(j, j + 1);
                proof {
                    assert(piece@ =~= seq![s[j as int]]);
                    lemma_prefixed_twice(value@, piece@, quote_scan(s, j + 1, q));
                }
                value.append(piece);
                j = j + 1;
            }
        }
        if j >= n {
            let (o, rest) = self.located(i);
            return (Err(CommandLexError::UnclosedQuote(o, rest)), n);
        }
        assert(value@ + Seq::<char>::empty() =~= value@);
        let open = self.source.substring_char(i, i + 1);
        let close = self.source.substring_char(j, j + 1);
        (Ok(CommandToken::QuotedString(open, value, close)), j + 1)
    }

    fn next_raw_string_or_named(&self, i: usize) -> (r: (
        Result<CommandToken<'a>, CommandLexError<'a>>,
        usize,
    ))
        requires
            self.wf(),
            i < self.chars.len(),
            !is_space(self.chars@[i as int]),
            !is_quote(self.chars@[i as int]),
        ensures
            step_matches(self.source@, r, lex_one(self.source@, i as int)),
        decreases self.chars@.len() - i, 0nat,
    {
        let n = self.chars.len();
        let mut j = i;
        while j < n && !char_is_space(self.chars[j]) && self.chars[j] != '='
            invariant
                self.wf(),
                n == self.chars.len(),
                i <= j <= n,
                word_end(self.chars@, i as int) == word_end(self.chars@, j as int),
            decreases n - j,
        {
            j = j + 1;
        }
        if j < n && self.chars[j] == '=' {
            if j == i {
                let (o, rest) = self.located(i);
                return (Err(CommandLexError::NamedProhibitsWhitespace(o, rest)), n);
            }
            match self.lex_at(j + 1) {
                None => {
                    let (o, rest) = self.located(i);
                    (Err(CommandLexError::NamedProhibitsWhitespace(o, rest)), n)
                },
                Some((Ok(CommandToken::Whitespace(_)), _)) => {
                    let (o, rest) = self.located(i);
                    (Err(CommandLexError::NamedProhibitsWhitespace(o, rest)), n)
                },
                Some((Ok(CommandToken::Named(_, _)), _)) => {
                    let (o, rest) = self.located(i);
                    (Err(CommandLexError::NamedCannotContainNamed(o, rest)), n)
                },
                Some((Ok(t), m)) => {
                    let name = self.source.substring_char(i, j);
                    (Ok(CommandToken::Named(name, Box::new(t))), m)
                },
                Some((Err(e), m)) => (Err(e), m),
            }
        } else {
            let pattern = classify_span(&self.chars, i, j);
            (Ok(CommandToken::RawString(self.source.substring_char(i, j), pattern)), j)
        }
    }

    /// The token or failure that starts at index `i`, with the index after it.
    fn lex_at(&self, i: usize) -> (r: Option<(Result<CommandToken<'a>, CommandLexError<'a>>, usize)>)
        requires
            self.wf(),
            i <= self.chars.len(),
        ensures
            match r {
                None => lex_one(self.source@, i as int) is None,
                Some(x) => step_matches(self.source@, x, lex_one(self.source@, i as int)),
            },
        decreases self.chars@.len() - i, 1nat,
    {
        if i >= self.chars.len() {
            return None;
        }
        let c = self.chars[i];
        if char_is_space(c) {
            let (t, e) = self.next_whitespace(i);
            Some((Ok(t), e))
        } else if c == '"' || c == '\'' {
            Some(self.next_quote(i))
        } else {
            Some(self.next_raw_string_or_named(i))
        }
    }

    /// Yields the next token, or the failure that ends the sequence.
    pub fn next(&mut self) -> (r: Option<Result<CommandToken<'a>, CommandLexError<'a>>>)
        requires
            old(self).wf(),
        ensures
            final(self).wf(),
            final(self).text() == old(self).text(),
            old(self).rest().len() == 0 ==> r is None && final(self).rest() == old(self).rest(),
            old(self).rest().len() > 0 ==> r is Some && outcome_matches(
                old(self).text(),
                r->0,
                old(self).rest()[0],
            ) && final(self).rest() == old(self).rest().drop_first(),
            r matches Some(Err(_)) ==> final(self).rest().len() == 0,
    {
        if self.failed {
            return None;
        }
        proof {
            lemma_lex_one_progress(self.source@, self.pos as int);
        }
        match self.lex_at(self.pos) {
            None => None,
            Some((Ok(t), e)) => {
                let ghost before = self.rest();
                self.pos = e;
                proof {
                    assert(before.drop_first() =~= self.rest());
                }
                Some(Ok(t))
            },
            Some((Err(err), _)) => {
                self.failed = true;
                Some(Err(err))
            },
        }
    }

    /// Lexes the whole rest of the source: every token, or the first failure.
    pub fn collect_tokens(self) -> (r: Result<Vec<CommandToken<'a>>, CommandLexError<'a>>)
        requires
            self.wf(),
        ensures
            collected(self.text(), self.rest(), r),
    {
        let mut lexer = self;
        lexer.drain()
    }

    /// Yields everything that is left: every token, or the first failure.
    pub fn drain(&mut self) -> (r: Result<Vec<CommandToken<'a>>, CommandLexError<'a>>)
        requires
            old(self).wf(),
        ensures
            final(self).wf(),
            collected(old(self).text(), old(self).rest(), r),
    {
        let ghost xs = self.rest();
        let ghost s = self.text();
        let mut v: Vec<CommandToken<'a>> = Vec::new();
        loop
            invariant
                self.wf(),
                self.text() == s,
                xs == old(self).rest(),
                s == old(self).text(),
                v.len() <= xs.len(),
                self.rest() == xs.subrange(v.len() as int, xs.len() as int),
                forall|k: int| 0 <= k < v.len() ==> xs[k] == Ok::<TokenModel, LexFault>(#[trigger] v@[k].model()),
            decreases xs.len() - v.len(),
        {
            let ghost before = self.rest();
            match self.next() {
                None => {
                    assert(before.len() == 0);
                    assert(v.len() == xs.len());
                    return Ok(v);
                },
                Some(Ok(t)) => {
                    v.push(t);
                    assert(self.rest() =~= xs.subrange(v.len() as int, xs.len() as int));
                },
                Some(Err(e)) => {
                    assert(xs.len() == v.len() + 1);
                    assert(before[0] == xs.last());
                    assert forall|j: int| 0 <= j < xs.len() - 1 implies (#[trigger] xs[j]) is Ok by {
                        assert(xs[j] == Ok::<TokenModel, LexFault>(v@[j].model()));
                    }
                    return Err(e);
                },
            }
        }
    }
}

/// `r` is what collecting the lexer's items `xs` gives: every token when none
/// failed, else the first failure.
pub open spec fn collected<'a>(
    s: Seq<char>,
    xs: Seq<Result<TokenModel, LexFault>>,
    r: Result<Vec<CommandToken<'a>>, CommandLexError<'a>>,
) -> bool {
    match r {
        Ok(v) => v.len() == xs.len() && forall|k: int|
            0 <= k < xs.len() ==> xs[k] == Ok::<TokenModel, LexFault>(#[trigger] v@[k].model()),
        Err(e) => xs.len() > 0 && (forall|j: int| 0 <= j < xs.len() - 1 ==> (#[trigger] xs[j]) is Ok)
            && match xs.last() {
            Err(f) => e.reports(s, f),
            Ok(_) => false,
        },
    }
}

} // verus!
