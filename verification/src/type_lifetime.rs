//! A type that holds references carries their lifetime: the two parts of a
//! split string borrow from the text, not from the token.

use vstd::prelude::*;

verus! {

/// The parts of a text before and after a token.
#[derive(Debug)]
pub struct SplitStr<'a> {
    pub start: &'a str,
    pub end: &'a str,
}

/// `token` stands in `text` at index `at`.
pub open spec fn occurs_at(text: Seq<char>, token: Seq<char>, at: int) -> bool {
    &&& 0 <= at <= text.len() - token.len()
    &&& text.subrange(at, at + token.len()) == token
}

/// `token` stands somewhere in `text`.
pub open spec fn occurs(text: Seq<char>, token: Seq<char>) -> bool {
    exists|at: int| occurs_at(text, token, at)
}

/// `start` and `end` are what surrounds the first occurrence of `token` in
/// `text`.
pub open spec fn split_at_first(
    text: Seq<char>,
    token: Seq<char>,
    start: Seq<char>,
    end: Seq<char>,
) -> bool {
    &&& text == start + token + end
    &&& forall|at: int| 0 <= at < start.len() ==> !occurs_at(text, token, at)
}

/// `str::split_once` with a string as the delimiter. Its documentation says
/// that it splits on the first occurrence of the delimiter and returns the
/// prefix before it and the suffix after it, and that it returns `None`
/// where the delimiter does not occur; the contract says this over the
/// characters of the three strings.
#[verifier::external_body]
fn split_once<'m>(text: &'m str, token: &str) -> (r: Option<(&'m str, &'m str)>)
    ensures
        match r {
            Some((start, end)) => split_at_first(text@, token@, start@, end@),
            None => !occurs(text@, token@),
        },
{
    text.split_once(token)
}

/// Splits `text` around the first occurrence of `token`, if there is one.
pub fn split<'m, 'n>(text: &'m str, token: &'n str) -> (r: Option<SplitStr<'m>>)
    ensures
        match r {
            Some(parts) => split_at_first(text@, token@, parts.start@, parts.end@),
            None => !occurs(text@, token@),
        },
{
    let (start, end) = split_once(text, token)?;
    Some(SplitStr { start, end })
}

} // verus!
