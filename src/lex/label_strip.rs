//! Stripping a constant prefix or suffix off a command label.
use vstd::prelude::*;
use vstd::string::*;

use super::chars::str_equal;
use super::transformer::TokenTransformError;

verus! {

/// `s` without its leading `leading`, when `leading` is a proper prefix of it.
pub fn remove_leading<'a, 'b: 'a>(leading: &'a str, s: &'b str) -> (r: Result<
    &'b str,
    TokenTransformError<'b>,
>)
    ensures
        r matches Ok(x) ==> x@ == s@.subrange(leading@.len() as int, s@.len() as int),
        r is Ok <==> leading@.len() < s@.len() && s@.subrange(0, leading@.len() as int) == leading@,
        r is Err ==> r == Err::<&'b str, TokenTransformError<'b>>(
            TokenTransformError::InvalidCommandLabel,
        ),
{
    let n = s.unicode_len();
    let m = leading.unicode_len();
    if m < n && str_equal(s.substring_char(0, m), leading) {
        Ok(s.substring_char(m, n))
    } else {
        Err(TokenTransformError::InvalidCommandLabel)
    }
}

/// `s` without its trailing `trailing`, when `trailing` is a proper suffix of it.
pub fn remove_trailing<'a, 'b: 'a>(trailing: &'a str, s: &'b str) -> (r: Result<
    &'b str,
    TokenTransformError<'b>,
>)
    ensures
        r matches Ok(x) ==> x@ == s@.subrange(0, s@.len() - trailing@.len()),
        r is Ok <==> trailing@.len() < s@.len() && s@.subrange(
            s@.len() - trailing@.len(),
            s@.len() as int,
        ) == trailing@,
        r is Err ==> r == Err::<&'b str, TokenTransformError<'b>>(
            TokenTransformError::InvalidCommandLabel,
        ),
{
    let n = s.unicode_len();
    let m = trailing.unicode_len();
    if m < n && str_equal(s.substring_char(n - m, n), trailing) {
        Ok(s.substring_char(0, n - m))
    } else {
        Err(TokenTransformError::InvalidCommandLabel)
    }
}

} // verus!
