//! File-name patterns: regular expressions, compiled by the `regex` crate.
use vstd::prelude::*;

verus! {

#[verifier::external_type_specification]
#[verifier::external_body]
pub struct ExRegex(regex::Regex);

#[verifier::external_type_specification]
#[verifier::external_body]
pub struct ExRegexError(regex::Error);

/// Whether `Regex::new` accepts this pattern (with the default limits).
pub uninterp spec fn regex_valid(pattern: Seq<char>) -> bool;

/// Whether the regular expression `pattern` has a match anywhere in `text`.
pub uninterp spec fn regex_finds(pattern: Seq<char>, text: Seq<char>) -> bool;

/// Relies on `regex::Regex::new`: it succeeds exactly when the pattern is a
/// valid regular expression within the default size limits, which depends on
/// the pattern alone.
#[verifier::external_body]
fn build_regex(pattern: &str) -> (r: Result<regex::Regex, regex::Error>)
    ensures
        r is Ok <==> regex_valid(pattern@),
{
    regex::Regex::new(pattern)
}

/// Whether `pattern` compiles as a regular expression.
pub fn regex_builds(pattern: &str) -> (r: bool)
    ensures
        r == regex_valid(pattern@),
{
    build_regex(pattern).is_ok()
}

/// A pattern together with the regular expression compiled from it.
///
/// The only constructor is [`CompiledPattern::compile`], so `re` is always
/// the result of `Regex::new(&source)`.
pub struct CompiledPattern {
    source: String,
    re: regex::Regex,
}

impl CompiledPattern {
    pub closed spec fn source_view(&self) -> Seq<char> {
        self.source@
    }

    /// Compiles `source`; `None` when it is not a valid regular expression.
    pub fn compile(source: &str) -> (r: Option<CompiledPattern>)
        ensures
            r is Some <==> regex_valid(source@),
            r matches Some(p) ==> p.source_view() == source@,
    {
        match build_regex(source) {
            Ok(re) => Some(CompiledPattern { source: source.to_string(), re }),
            Err(_) => None,
        }
    }

    /// The pattern text this was compiled from.
    pub fn source(&self) -> (r: &str)
        ensures
            r@ == self.source_view(),
    {
        self.source.as_str()
    }

    /// Relies on `regex::Regex::is_match`: true iff the regex compiled from
    /// `source` matches somewhere in `text` (no anchoring).
    #[verifier::external_body]
    pub(crate) fn finds(&self, text: &str) -> (r: bool)
        ensures
            r == regex_finds(self.source_view(), text@),
    {
        self.re.is_match(text)
    }
}

} // verus!
