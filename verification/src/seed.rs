//! The selection seed: a compiled regular expression used once, at
//! construction time, to place the cursor on the first matching record.
//! Compilation and matching are done by the regex crate behind trusted
//! wrappers; everything that depends on the outcome is verified over the
//! names given to their results.
use vstd::prelude::*;

verus! {

#[verifier::external_type_specification]
#[verifier::external_body]
pub struct ExRegex(regex::Regex);

/// Whether `regex::Regex::new` accepts this pattern. Compilation is a
/// function of the pattern text alone.
pub uninterp spec fn regex_compiles(pattern: Seq<char>) -> bool;

/// Whether the regular expression denoted by `pattern` matches anywhere in
/// `text`. Matching is a function of the pattern and the haystack alone.
pub uninterp spec fn regex_matches(pattern: Seq<char>, text: Seq<char>) -> bool;

/// A pattern together with its compiled form. The two fields are private
/// and only ever built in step with each other, so contracts may speak of
/// the compiled regex through the pattern text.
pub struct SeedMatcher {
    pattern: String,
    re: regex::Regex,
}

impl SeedMatcher {
    /// The pattern the matcher was compiled from.
    pub closed spec fn pattern_view(self) -> Seq<char> {
        self.pattern@
    }

    /// Relies on regex::Regex::new: it returns Ok exactly on the patterns
    /// it accepts, compiling deterministically from the pattern text.
    #[verifier::external_body]
    pub fn compile(pattern: &String) -> (r: Option<SeedMatcher>)
        ensures
            r is Some <==> regex_compiles(pattern@),
            r is Some ==> r->0.pattern_view() == pattern@,
    {
        match regex::Regex::new(pattern.as_str()) {
            Ok(re) => Some(SeedMatcher { pattern: pattern.clone(), re }),
            Err(_) => None,
        }
    }

    /// Relies on regex::Regex::is_match: true exactly when the compiled
    /// pattern matches anywhere in the haystack, a function of the pattern
    /// and the haystack alone.
    #[verifier::external_body]
    pub(crate) fn is_match(&self, text: &String) -> (r: bool)
        ensures
            r == regex_matches(self.pattern_view(), text@),
    {
        self.re.is_match(text.as_str())
    }
}

} // verus!
