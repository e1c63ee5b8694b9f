//! Bounded regular expressions through the `regex` crate.

use vstd::prelude::*;

verus! {

/// Whether `regex::Regex::new` (default limits) accepts a pattern.
pub uninterp spec fn regex_compiles(pattern: Seq<char>) -> bool;

/// Whether `regex::RegexBuilder` accepts a pattern with the given
/// case-insensitivity and compiled-size limits.
pub uninterp spec fn regex_builds(
    pattern: Seq<char>,
    case_insensitive: bool,
    size_limit: usize,
    dfa_size_limit: usize,
) -> bool;

/// Whether a pattern, compiled with the given case-insensitivity, matches
/// somewhere in a text.
pub uninterp spec fn regex_finds(pattern: Seq<char>, case_insensitive: bool, text: Seq<char>) -> bool;

#[verifier::external_type_specification]
#[verifier::external_body]
pub struct ExRegex(regex::Regex);

/// Calls `regex::Regex::new`. Claimed: it succeeds exactly when
/// `regex_compiles` holds of the pattern; on failure the error's text is
/// returned, of which nothing is claimed.
#[verifier::external_body]
pub(crate) fn check_syntax(pattern: &str) -> (r: Result<(), String>)
    ensures
        r is Ok <==> regex_compiles(pattern@),
{
    match regex::Regex::new(pattern) {
        Ok(_) => Ok(()),
        Err(error) => Err(error.to_string()),
    }
}

/// Builds a regex with `regex::RegexBuilder` (`case_insensitive`,
/// `size_limit`, `dfa_size_limit`, `build`). Claimed: it succeeds exactly
/// when `regex_builds` holds; on failure the error's text is returned.
#[verifier::external_body]
fn build_bounded(
    pattern: &str,
    case_insensitive: bool,
    size_limit: usize,
    dfa_size_limit: usize,
) -> (r: Result<regex::Regex, String>)
    ensures
        r is Ok <==> regex_builds(pattern@, case_insensitive, size_limit, dfa_size_limit),
{
    match regex::RegexBuilder::new(pattern).case_insensitive(case_insensitive).size_limit(
        size_limit,
    ).dfa_size_limit(dfa_size_limit).build() {
        Ok(regex) => Ok(regex),
        Err(error) => Err(error.to_string()),
    }
}

/// A compiled regex together with the pattern and case policy it was built from.
pub struct CompiledPattern {
    regex: regex::Regex,
    source: Ghost<Seq<char>>,
    case_insensitive: Ghost<bool>,
}

impl CompiledPattern {
    /// The pattern this regex was compiled from.
    pub closed spec fn source(&self) -> Seq<char> {
        self.source@
    }

    /// Whether this regex ignores case.
    pub closed spec fn ignores_case(&self) -> bool {
        self.case_insensitive@
    }

    /// Compiles a pattern with bounded program sizes.
    pub fn build(pattern: &str, case_insensitive: bool, size_limit: usize, dfa_size_limit: usize) -> (r: Result<Self, String>)
        ensures
            r is Ok <==> regex_builds(pattern@, case_insensitive, size_limit, dfa_size_limit),
            r matches Ok(compiled) ==> compiled.source() == pattern@ && compiled.ignores_case()
                == case_insensitive,
    {
        match build_bounded(pattern, case_insensitive, size_limit, dfa_size_limit) {
            Ok(regex) => Ok(
                CompiledPattern {
                    regex,
                    source: Ghost(pattern@),
                    case_insensitive: Ghost(case_insensitive),
                },
            ),
            Err(error) => Err(error),
        }
    }

    /// Calls `regex::Regex::is_match`. Claimed: the answer is `regex_finds`
    /// of the pattern and case policy the regex was built from; `build`,
    /// the only constructor, records both beside the compiled regex.
    #[verifier::external_body]
    pub fn is_match(&self, text: &str) -> (found: bool)
        ensures
            found == regex_finds(self.source(), self.ignores_case(), text@),
    {
        self.regex.is_match(text)
    }
}

} // verus!
