//! Regular expressions, through the `regex` crate.
use vstd::prelude::*;

use crate::text::join_chars;

verus! {

#[verifier::external_type_specification]
#[verifier::external_body]
pub struct ExRegex(regex::Regex);

#[verifier::external_type_specification]
#[verifier::external_body]
pub struct ExRegexError(regex::Error);

/// Whether `regex::Regex::new` accepts `pattern` (valid syntax, and within
/// the crate's default size limit).
pub uninterp spec fn regex_compiles(pattern: Seq<char>) -> bool;

/// Whether the regex compiled from `pattern` matches somewhere in `haystack`.
pub uninterp spec fn regex_matches(pattern: Seq<char>, haystack: Seq<char>) -> bool;

/// The regex `\.(a|b|...)$` built from the alternatives `a`, `b`, ...: a
/// dot and one of the alternatives at the end of the haystack.
pub open spec fn suffix_pattern(alternatives: Seq<Seq<char>>) -> Seq<char> {
    "\\.("@ + join_chars(alternatives, "|"@) + ")$"@
}

/// A character that stands for itself in a regex: ASCII letter, digit or `_`.
pub open spec fn is_word_char(c: char) -> bool {
    ||| 'a' <= c <= 'z'
    ||| 'A' <= c <= 'Z'
    ||| '0' <= c <= '9'
    ||| c == '_'
}

/// A non-empty text of word characters: a regex that matches just itself.
pub open spec fn is_word(s: Seq<char>) -> bool {
    &&& s.len() > 0
    &&& forall|i: int| 0 <= i < s.len() ==> is_word_char(#[trigger] s[i])
}

/// Every alternative is a word.
pub open spec fn all_words(alternatives: Seq<Seq<char>>) -> bool {
    forall|k: int| 0 <= k < alternatives.len() ==> is_word(#[trigger] alternatives[k])
}

/// What `suffix_pattern(alternatives)` matches when the alternatives are
/// words (at least one): text ending in a dot followed by one of them.
pub open spec fn ends_with_alternative(haystack: Seq<char>, alternatives: Seq<Seq<char>>) -> bool {
    exists|k: int|
        0 <= k < alternatives.len() && (seq!['.'] + #[trigger] alternatives[k]).is_suffix_of(
            haystack,
        )
}

/// The regex `(a|b|...)$` built from the alternatives `a`, `b`, ...: one of
/// the alternatives at the end of the haystack.
pub open spec fn ending_pattern(alternatives: Seq<Seq<char>>) -> Seq<char> {
    "("@ + join_chars(alternatives, "|"@) + ")$"@
}

/// What `ending_pattern(alternatives)` matches when the alternatives are
/// words (at least one): text ending in one of them.
pub open spec fn ends_with_entry(haystack: Seq<char>, alternatives: Seq<Seq<char>>) -> bool {
    exists|k: int| 0 <= k < alternatives.len() && (#[trigger] alternatives[k]).is_suffix_of(haystack)
}

/// A compiled regular expression, together with the pattern it came from.
pub struct Pattern {
    regex: regex::Regex,
    source: String,
}

impl Pattern {
    /// The pattern this regex was compiled from.
    pub closed spec fn source(&self) -> Seq<char> {
        self.source@
    }

    /// Calls `regex::Regex::is_match`: whether the regex matches anywhere in
    /// `haystack`.  Besides the name, this states what the crate's syntax
    /// documentation gives for the two fixed patterns that this library
    /// uses: without the multi-line flag `^` is the start and `$` the end of
    /// the haystack.  The same syntax rules fix what `\.(a|b|...)$` and
    /// `(a|b|...)$` match when `a`, `b`, ... are words (escaped dot, group of
    /// literal alternatives, end of haystack).
    #[verifier::external_body]
    pub(crate) fn is_match(&self, haystack: &str) -> (res: bool)
        ensures
            res == regex_matches(self.source(), haystack@),
            self.source() == "^//"@ ==> (res <==> "//"@.is_prefix_of(haystack@)),
            self.source() == "^(\\{|\\}|};)$"@ ==> (res <==> (haystack@ == "{"@ || haystack@
                == "}"@ || haystack@ == "};"@)),
            forall|alternatives: Seq<Seq<char>>|
                #[trigger] suffix_pattern(alternatives) == self.source() && alternatives.len() > 0
                    && all_words(alternatives) ==> (res <==> ends_with_alternative(
                    haystack@,
                    alternatives,
                )),
            forall|alternatives: Seq<Seq<char>>|
                #[trigger] ending_pattern(alternatives) == self.source() && alternatives.len() > 0
                    && all_words(alternatives) ==> (res <==> ends_with_entry(
                    haystack@,
                    alternatives,
                )),
    {
        self.regex.is_match(haystack)
    }
}

/// Calls `regex::Regex::new`.  It succeeds exactly on the patterns named
/// by `regex_compiles`; the two fixed patterns of this library are valid
/// and small, so they compile.  On success the result remembers `pattern`.
#[verifier::external_body]
pub(crate) fn compile(pattern: &str) -> (res: Result<Pattern, regex::Error>)
    ensures
        res is Ok <==> regex_compiles(pattern@),
        res matches Ok(p) ==> p.source() == pattern@,
        pattern@ == "^//"@ ==> res is Ok,
        pattern@ == "^(\\{|\\}|};)$"@ ==> res is Ok,
{
    match regex::Regex::new(pattern) {
        Ok(regex) => Ok(Pattern { regex, source: pattern.to_string() }),
        Err(e) => Err(e),
    }
}

} // verus!
