//! Structural comparison of two source texts: each is parsed, the tree is rendered
//! back as a flat string of tokens, and the two strings are compared.
//!
//! Equal renderings mean equal structure.  The converse is not promised: two texts
//! that a reader takes to be the same program may render differently, so a verdict
//! of `false` is a hint to look, not a proof of a difference.

use quote::ToTokens;
use vstd::prelude::*;

verus! {

/// A source text that the parser refused, with the parser's message.
#[derive(Debug)]
pub struct ParseError {
    pub message: String,
}

/// What parsing `text` as a source file and rendering the tree as tokens gives: the
/// rendering, or the parser's message where `text` does not parse.
pub uninterp spec fn token_rendering(text: Seq<char>) -> Result<Seq<char>, Seq<char>>;

/// `syn::parse_file` followed by `ToTokens::into_token_stream` and the token stream's
/// `to_string`; on a parse error, the error's `to_string`.  The outcome is the one
/// that `token_rendering` names for the text.
#[verifier::external_body]
fn render_tokens(text: &str) -> (rendering: Result<String, ParseError>)
    ensures
        match rendering {
            Ok(tokens) => token_rendering(text@) == Ok::<Seq<char>, Seq<char>>(tokens@),
            Err(error) => token_rendering(text@) == Err::<Seq<char>, Seq<char>>(error.message@),
        },
{
    match syn::parse_file(text) {
        Ok(file) => Ok(file.into_token_stream().to_string()),
        Err(error) => Err(ParseError { message: error.to_string() }),
    }
}

/// The verdict on two renderings: the first failure if there is one, else whether
/// the renderings are the same string.
pub open spec fn compared(
    first: Result<Seq<char>, Seq<char>>,
    second: Result<Seq<char>, Seq<char>>,
) -> Result<bool, Seq<char>> {
    match first {
        Err(message) => Err(message),
        Ok(left) => match second {
            Err(message) => Err(message),
            Ok(right) => Ok(left == right),
        },
    }
}

/// A verdict as a plain value: the boolean, or the message of the error.
pub open spec fn verdict_of(verdict: Result<bool, ParseError>) -> Result<bool, Seq<char>> {
    match verdict {
        Ok(equal) => Ok(equal),
        Err(error) => Err(error.message@),
    }
}

/// A rendering as a plain value.
pub open spec fn rendering_of(rendering: Result<String, ParseError>) -> Result<
    Seq<char>,
    Seq<char>,
> {
    match rendering {
        Ok(tokens) => Ok(tokens@),
        Err(error) => Err(error.message@),
    }
}

/// Compares two renderings: an error of the first comes before an error of the
/// second, and two renderings are equal when they are the same string.
pub fn compare_renderings(
    first: Result<String, ParseError>,
    second: Result<String, ParseError>,
) -> (verdict: Result<bool, ParseError>)
    ensures
        verdict_of(verdict) == compared(rendering_of(first), rendering_of(second)),
{
    match first {
        Err(error) => Err(error),
        Ok(left) => match second {
            Err(error) => Err(error),
            Ok(right) => Ok(left == right),
        },
    }
}

/// Parses two texts and compares their token renderings.  A text that does not parse
/// gives its parse error, the first text's before the second's.
pub fn parse_and_compare_ast(first: &String, second: &String) -> (verdict: Result<
    bool,
    ParseError,
>)
    ensures
        verdict_of(verdict) == compared(token_rendering(first@), token_rendering(second@)),
{
    match render_tokens(first.as_str()) {
        Err(error) => Err(error),
        Ok(left) => compare_renderings(Ok(left), render_tokens(second.as_str())),
    }
}

/// A text that parses is equal to itself.
pub proof fn lemma_compared_with_itself(text: Seq<char>)
    requires
        token_rendering(text) is Ok,
    ensures
        compared(token_rendering(text), token_rendering(text)) == Ok::<bool, Seq<char>>(true),
{
}

} // verus!
