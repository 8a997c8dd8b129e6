//! Regular expressions, compiled and run by the `regex` crate.

use vstd::prelude::*;

verus! {

/// The `regex` crate's compiled regular expression, held opaque.
#[verifier::external_type_specification]
#[verifier::external_body]
pub struct ExRegex(regex::Regex);

/// The `regex` crate's compile error, held opaque.
#[verifier::external_type_specification]
#[verifier::external_body]
pub struct ExRegexError(regex::Error);

/// Whether `regex::Regex::new` accepts `pattern`.
pub uninterp spec fn regex_compiles(pattern: Seq<char>) -> bool;

/// What `Regex::replace_all` returns for the expression compiled from
/// `pattern`, run on `haystack` with the replacement string `replacement`.
pub uninterp spec fn regex_replace_all(
    pattern: Seq<char>,
    haystack: Seq<char>,
    replacement: Seq<char>,
) -> Seq<char>;

/// The text of the whole first match (capture group 0 of `Regex::captures`)
/// of the expression compiled from `pattern` in `haystack`, if it matches.
pub uninterp spec fn regex_first_match(pattern: Seq<char>, haystack: Seq<char>) -> Option<
    Seq<char>,
>;

/// A regular expression together with the pattern it was compiled from.
/// Values are made only by `Pattern::compile`.
pub(crate) struct Pattern {
    source: String,
    compiled: regex::Regex,
}

impl Pattern {
    /// The pattern this expression was compiled from.
    pub(crate) closed spec fn source(&self) -> Seq<char> {
        self.source@
    }

    /// `regex::Regex::new`: compiles `source`. It fails exactly on the
    /// patterns that the crate rejects; the contract names that set.
    #[verifier::external_body]
    pub(crate) fn compile(source: &str) -> (res: Result<Pattern, regex::Error>)
        ensures
            res is Ok <==> regex_compiles(source@),
            res matches Ok(p) ==> p.source() == source@,
    {
        match regex::Regex::new(source) {
            Ok(compiled) => Ok(Pattern { source: source.to_string(), compiled }),
            Err(e) => Err(e),
        }
    }

    /// `Regex::replace_all`: every non-overlapping match in `haystack`
    /// replaced by `replacement`. The result is named, not spelled out.
    #[verifier::external_body]
    pub(crate) fn replace_all(&self, haystack: &str, replacement: &str) -> (res: String)
        ensures
            res@ == regex_replace_all(self.source(), haystack@, replacement@),
    {
        self.compiled.replace_all(haystack, replacement).into_owned()
    }

    /// `Regex::captures`, keeping the text of capture group 0 (the whole
    /// first match). The result is named, not spelled out.
    #[verifier::external_body]
    pub(crate) fn first_match(&self, haystack: &str) -> (res: Option<String>)
        ensures
            res is Some <==> regex_first_match(self.source(), haystack@) is Some,
            res matches Some(m) ==> regex_first_match(self.source(), haystack@) == Some(m@),
    {
        match self.compiled.captures(haystack) {
            Some(caps) => match caps.get(0) {
                Some(m) => Some(m.as_str().to_string()),
                None => None,
            },
            None => None,
        }
    }
}

} // verus!
