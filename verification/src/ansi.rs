//! Removing terminal colour codes from a text, so that coloured and plain output can
//! be compared.

use regex::Regex;
use vstd::prelude::*;

verus! {

/// The pattern of one colour code: escape, `[`, one or two digits, any number of
/// groups of `;` and up to two digits, and `m`.
pub const ANSI_PATTERN: &'static str = r"\x1b\[([0-9]{1,2}(;[0-9]{0,2})*)m";

/// What the regex engine makes of replacing every match of `pattern` in `haystack`
/// by `replacement`, matches taken from left to right without overlap; `None` where
/// `pattern` is not a regular expression that the engine accepts.
pub uninterp spec fn regex_replace_all(
    pattern: Seq<char>,
    haystack: Seq<char>,
    replacement: Seq<char>,
) -> Option<Seq<char>>;

/// `Regex::new` on `pattern`, then `Regex::replace_all` on `haystack`.  The outcome is
/// the one that `regex_replace_all` names for the three texts.
#[verifier::external_body]
fn replace_all(pattern: &str, haystack: &str, replacement: &str) -> (replaced: Option<String>)
    ensures
        match replaced {
            Some(text) => regex_replace_all(pattern@, haystack@, replacement@) == Some(text@),
            None => regex_replace_all(pattern@, haystack@, replacement@) is None,
        },
{
    match Regex::new(pattern) {
        Ok(regex) => Some(regex.replace_all(haystack, replacement).into_owned()),
        Err(_) => None,
    }
}

/// The text after a replacement, or the text as it was where none took place.
pub open spec fn replaced_or_same(replaced: Option<Seq<char>>, haystack: Seq<char>) -> Seq<char> {
    match replaced {
        Some(text) => text,
        None => haystack,
    }
}

/// Takes the replaced text where there is one, and a copy of `haystack` otherwise.
pub fn replaced_or_unchanged(replaced: Option<String>, haystack: &str) -> (text: String)
    ensures
        text@ == replaced_or_same(
            match replaced {
                Some(changed) => Some(changed@),
                None => None,
            },
            haystack@,
        ),
{
    match replaced {
        Some(changed) => changed,
        None => haystack.to_owned(),
    }
}

/// Strips the colour codes from `s`: every match of [`ANSI_PATTERN`] is removed.
/// Should the engine refuse the pattern, `s` comes back unchanged.
pub fn strip_ansi_codes(s: &str) -> (stripped: String)
    ensures
        stripped@ == replaced_or_same(
            regex_replace_all(ANSI_PATTERN@, s@, Seq::<char>::empty()),
            s@,
        ),
{
    proof {
        reveal_strlit("");
        assert(""@ =~= Seq::<char>::empty());
    }
    let replaced = replace_all(ANSI_PATTERN, s, "");
    replaced_or_unchanged(replaced, s)
}

} // verus!
