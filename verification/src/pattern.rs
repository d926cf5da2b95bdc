//! The compiled pattern.
//!
//! Patterns are regular expressions of the `regex` crate. What that crate
//! answers is taken on trust: which patterns compile, and which texts a compiled
//! pattern matches. The search is proved for whatever it answers.

use regex::Regex;
use vstd::prelude::*;

verus! {

/// `regex::Regex`, a compiled regular expression. Nothing inside it is visible
/// to the proofs; it is handed through to the search.
#[verifier::external_type_specification]
#[verifier::external_body]
pub struct ExRegex(regex::Regex);

/// `regex::Error`, the reason why a pattern did not compile.
#[verifier::external_type_specification]
#[verifier::external_body]
pub struct ExRegexError(regex::Error);

/// Whether `regex` finds a match anywhere in `haystack`: the answer of
/// `Regex::is_match`, which depends on the two alone.
pub uninterp spec fn regex_matches(regex: Regex, haystack: Seq<char>) -> bool;

/// Whether a pattern compiles: whether `Regex::new` accepts it, which depends
/// on the pattern alone.
pub uninterp spec fn regex_compiles(pattern: Seq<char>) -> bool;

/// The pattern that a compiled regex was made from: the text that `Regex::new`
/// was given, which the regex keeps and `Regex::as_str` gives back.
pub uninterp spec fn regex_source(regex: Regex) -> Seq<char>;

/// `Regex::is_match` returns true if and only if the regex matches somewhere in
/// the haystack. It never panics. The answer is taken as given and called
/// `regex_matches`.
pub assume_specification[ regex::Regex::is_match ](regex: &Regex, haystack: &str) -> (found: bool)
    ensures
        found == regex_matches(*regex, haystack@),
;

/// `Regex::new` compiles a pattern, or says why it cannot: the syntax is wrong
/// or the compiled program would be too big. Its configuration is fixed, so
/// whether it accepts a pattern depends on the pattern alone; the answer is
/// taken as given and called `regex_compiles`. A regex that it returns holds
/// the pattern that it was given, here called `regex_source`.
pub assume_specification[ regex::Regex::new ](re: &str) -> (made: Result<Regex, regex::Error>)
    ensures
        made is Ok == regex_compiles(re@),
        made matches Ok(regex) ==> regex_source(regex) == re@,
;

/// A pattern that is no regular expression, or one too big to compile.
#[derive(Debug, Clone, PartialEq, Eq)]
pub struct InvalidPattern {
    /// The pattern as it was given.
    pub pattern: String,
    /// What the compiler said of it.
    pub message: String,
}

/// Whether `message` is what a compile error displays.
pub open spec fn displays(error: regex::Error, message: String) -> bool {
    vstd::string::to_string_from_display_ensures::<regex::Error>(&error, message)
}

/// Whether `outcome` is what the compiler's answer on a pattern comes to: the
/// compiled pattern as it is, or a refusal that holds the pattern and the
/// message of the compiler's error.
pub open spec fn settled(
    pattern: Seq<char>,
    made: Result<Regex, regex::Error>,
    outcome: Result<Regex, InvalidPattern>,
) -> bool {
    match made {
        Ok(regex) => outcome == Ok::<Regex, InvalidPattern>(regex),
        Err(error) => outcome matches Err(refusal) && refusal.pattern@ == pattern
            && displays(error, refusal.message),
    }
}

/// Turns the compiler's answer on `pattern` into the search's own: the compiled
/// pattern as it is, or the pattern with the compiler's message.
pub fn settle(pattern: &str, made: Result<Regex, regex::Error>) -> (outcome: Result<
    Regex,
    InvalidPattern,
>)
    ensures
        settled(pattern@, made, outcome),
{
    match made {
        Ok(regex) => Ok(regex),
        Err(error) => Err(
            InvalidPattern { pattern: String::from_str(pattern), message: error.to_string() },
        ),
    }
}

/// Compiles `pattern`. It succeeds exactly on the patterns that the compiler
/// accepts, with the regex that was made from `pattern`; on any other it
/// refuses, and the refusal holds `pattern` and the message of the compiler's
/// error.
pub fn compile(pattern: &str) -> (outcome: Result<Regex, InvalidPattern>)
    ensures
        outcome is Ok == regex_compiles(pattern@),
        match outcome {
            Ok(regex) => regex_source(regex) == pattern@,
            Err(refusal) => refusal.pattern@ == pattern@ && exists|error: regex::Error| #[trigger]
                displays(error, refusal.message),
        },
{
    settle(pattern, Regex::new(pattern))
}

} // verus!
