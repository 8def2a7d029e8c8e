//! Case-insensitive regular expressions, compiled once from their source text.
use vstd::prelude::*;

verus! {

#[verifier::external_type_specification]
#[verifier::external_body]
pub struct ExRegex(regex::Regex);

/// Whether `regex::RegexBuilder` with case-insensitive matching accepts a pattern.
pub uninterp spec fn regex_compiles(pattern: Seq<char>) -> bool;

/// Whether the case-insensitive regex built from `pattern` matches somewhere in `text`.
pub uninterp spec fn regex_matches(pattern: Seq<char>, text: Seq<char>) -> bool;

/// Relies on `regex::RegexBuilder::new(p).case_insensitive(true).build()`: it
/// succeeds exactly for the patterns it accepts.
#[verifier::external_body]
fn build_case_insensitive(pattern: &str) -> (r: Option<regex::Regex>)
    ensures
        r.is_some() == regex_compiles(pattern@),
{
    regex::RegexBuilder::new(pattern).case_insensitive(true).build().ok()
}

/// A compiled case-insensitive regular expression, kept with the text it was built from.
pub struct CompiledPattern {
    source: String,
    re: regex::Regex,
}

/// Relies on `regex::Regex::is_match` of a regex that `compile` built from `p.source`.
#[verifier::external_body]
fn regex_is_match(p: &CompiledPattern, text: &str) -> (r: bool)
    ensures
        r == regex_matches(p.source@, text@),
{
    p.re.is_match(text)
}

impl CompiledPattern {
    /// The pattern text this was compiled from.
    pub closed spec fn source(&self) -> Seq<char> {
        self.source@
    }

    /// Compile `pattern` for case-insensitive matching; `None` when it is not a valid regex.
    pub fn compile(pattern: &str) -> (r: Option<CompiledPattern>)
        ensures
            r.is_some() == regex_compiles(pattern@),
            r matches Some(c) ==> c.source() == pattern@,
    {
        match build_case_insensitive(pattern) {
            Some(re) => Some(CompiledPattern { source: pattern.to_owned(), re }),
            None => None,
        }
    }

    /// Whether the expression matches somewhere in `text`, ignoring case.
    pub fn is_match(&self, text: &str) -> (r: bool)
        ensures
            r == regex_matches(self.source(), text@),
    {
        regex_is_match(self, text)
    }
}

} // verus!
