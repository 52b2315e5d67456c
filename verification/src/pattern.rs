use vstd::prelude::*;

verus! {

/// A compiled regular expression of the `regex` crate.
#[verifier::external_type_specification]
#[verifier::external_body]
pub struct ExRegex(regex::Regex);

/// The error of the `regex` crate for a pattern that it does not compile.
#[verifier::external_type_specification]
#[verifier::external_body]
pub struct ExRegexError(regex::Error);

/// Whether `regex::Regex::new` accepts `pattern`.
pub uninterp spec fn pattern_compiles(pattern: Seq<char>) -> bool;

/// Whether the expression that `regex::Regex::new` makes of `pattern` has a
/// match anywhere in `text`.
pub uninterp spec fn pattern_matches(pattern: Seq<char>, text: Seq<char>) -> bool;

/// Whether a compiled expression has a match anywhere in `text`: what
/// `regex::Regex::is_match` returns. It goes by the expression as it was
/// built, options included, not by the text of its pattern.
pub uninterp spec fn regex_accepts(re: regex::Regex, text: Seq<char>) -> bool;

/// `regex::Regex::new` compiles a pattern, always with the same options. In
/// one build of the crate, whether it succeeds depends on the pattern alone,
/// and so does what the compiled expression matches. Nothing is claimed
/// about which patterns are accepted, nor about which texts they match.
pub assume_specification[ regex::Regex::new ](re: &str) -> (compiled: Result<
    regex::Regex,
    regex::Error,
>)
    ensures
        compiled is Ok == pattern_compiles(re@),
        compiled is Ok ==> forall|text: Seq<char>| #[trigger]
            regex_accepts(compiled->Ok_0, text) == pattern_matches(re@, text),
;

/// `regex::Regex::is_match` searches `haystack` for a match. The answer
/// depends on the compiled expression and on the haystack alone.
pub assume_specification[ regex::Regex::is_match ](re: &regex::Regex, haystack: &str) -> (found:
    bool)
    ensures
        found == regex_accepts(*re, haystack@),
;

/// The test that a compiled expression makes on texts.
pub open spec fn regex_test(re: regex::Regex) -> spec_fn(Seq<char>) -> bool {
    |text: Seq<char>| regex_accepts(re, text)
}

/// The test that a pattern makes on texts, once compiled.
pub open spec fn pattern_test(pattern: Seq<char>) -> spec_fn(Seq<char>) -> bool {
    |text: Seq<char>| pattern_matches(pattern, text)
}

} // verus!
