//! Already-compiled text matchers.
//!
//! The engine receives its pod-name matcher and the optional line
//! filter/replace rules as compiled regular expressions. Compilation and
//! matching are done by the `regex` crate; what they return is named by the
//! spec functions below, so every caller's contract is exact in terms of
//! those names.

use vstd::prelude::*;

use crate::error::Errors;

verus! {

#[verifier::external_type_specification]
#[verifier::external_body]
pub struct ExRegex(regex::Regex);

/// Whether `regex::Regex::new` accepts the pattern.
pub uninterp spec fn regex_valid(pattern: Seq<char>) -> bool;

/// What `regex::Regex::is_match` returns on a haystack, for a regex compiled
/// from the given pattern. The result depends on pattern and haystack alone.
pub uninterp spec fn regex_match(pattern: Seq<char>, text: Seq<char>) -> bool;

/// What `regex::Regex::replace_all` returns, for a regex compiled from the
/// given pattern, a haystack and a replacement string. The result depends on
/// those three values alone.
pub uninterp spec fn regex_replaced(pattern: Seq<char>, text: Seq<char>, rep: Seq<char>) -> Seq<
    char,
>;

/// A compiled matcher, remembering the pattern it was built from.
pub struct Matcher {
    regex: regex::Regex,
    pattern: String,
}

impl Matcher {
    /// The pattern this matcher was compiled from.
    pub closed spec fn pattern(&self) -> Seq<char> {
        self.pattern@
    }

    /// Relies on `regex::Regex::new`: it returns `Ok` exactly for the
    /// patterns it accepts (`regex_valid` names that set), and the returned
    /// regex behaves as a compilation of the given pattern.
    #[verifier::external_body]
    pub fn compile(pattern: &str) -> (r: Result<Matcher, Errors>)
        ensures
            r is Ok <==> regex_valid(pattern@),
            r matches Ok(m) ==> m.pattern() == pattern@,
            r matches Err(e) ==> e is Validation,
    {
        match regex::Regex::new(pattern) {
            Ok(regex) => Ok(Matcher { regex, pattern: pattern.to_string() }),
            Err(err) => Err(Errors::Validation(err.to_string())),
        }
    }

    /// Relies on `regex::Regex::is_match`: true iff the regex matches
    /// anywhere in the text.
    #[verifier::external_body]
    pub fn is_match(&self, text: &str) -> (b: bool)
        ensures
            b == regex_match(self.pattern(), text@),
    {
        self.regex.is_match(text)
    }

    /// Relies on `regex::Regex::replace_all`: every non-overlapping match is
    /// replaced by the replacement string (with its `$` capture expansions);
    /// a text without a match comes back unchanged.
    #[verifier::external_body]
    pub fn replace_all(&self, text: &str, rep: &str) -> (r: String)
        ensures
            r@ == regex_replaced(self.pattern(), text@, rep@),
    {
        self.regex.replace_all(text, rep).to_string()
    }
}

} // verus!
