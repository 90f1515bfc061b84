//! Patterns: regular expressions, compiled once and matched against text.
//!
//! The matching itself is the work of the `regex` crate. What a pattern
//! matches is a function of its text and of the text searched, and the
//! contracts here speak of it under the names `regex_compiles` and
//! `regex_captures`.

use vstd::prelude::*;
use vstd::string::*;

verus! {

/// `regex::Regex`, a compiled regular expression; nothing is said of what is
/// inside.
#[verifier::external_type_specification]
#[verifier::external_body]
pub struct ExRegex(regex::Regex);

/// `regex::Error`, the reason a regular expression was not compiled; nothing
/// is said of what is inside.
#[verifier::external_type_specification]
#[verifier::external_body]
pub struct ExRegexError(regex::Error);

/// Whether `regex::Regex::new` takes `pattern`.
pub uninterp spec fn regex_compiles(pattern: Seq<char>) -> bool;

/// What `regex::Regex::captures` finds for the regular expression compiled
/// from `pattern` in `text`: nothing where `text` has no match, else the
/// groups of the first match, the whole match first, each with the text it
/// matched if it took part.
pub uninterp spec fn regex_captures(pattern: Seq<char>, text: Seq<char>) -> Option<
    Seq<Option<Seq<char>>>,
>;

/// Whether the regular expression `pattern` matches somewhere in `text`.
pub open spec fn regex_matches(pattern: Seq<char>, text: Seq<char>) -> bool {
    regex_captures(pattern, text) is Some
}

/// Calls `regex::Regex::new`, which compiles `pattern` or says why it cannot:
/// it succeeds on the patterns that `regex_compiles` holds of, and only on
/// them.
#[verifier::external_body]
fn compile_regex(pattern: &str) -> (r: Result<regex::Regex, regex::Error>)
    ensures
        r is Ok == regex_compiles(pattern@),
{
    regex::Regex::new(pattern)
}

/// A pattern that was not taken: it is no regular expression, or one too big
/// to compile.
#[derive(Debug)]
pub struct InvalidPattern {
    /// The text that was not taken.
    pub pattern: String,
}

/// A compiled pattern, with the text it was compiled from.
///
/// The two belong together: a `Pattern` is built by `Pattern::compile` and
/// nowhere else, which stores the matcher beside the very text it was
/// compiled from, and neither is changed afterwards.
#[derive(Debug)]
pub struct Pattern {
    source: String,
    matcher: regex::Regex,
}

impl View for Pattern {
    type V = Seq<char>;

    /// The text the pattern was compiled from.
    closed spec fn view(&self) -> Seq<char> {
        self.source@
    }
}

/// Calls `regex::Regex::captures` on the matcher of `pattern`, and hands out
/// the groups of the match as text. The matcher is the one compiled from the
/// text of `pattern`, so what comes back is what `regex_captures` names for
/// that text and `text`.
#[verifier::external_body]
fn find_captures(pattern: &Pattern, text: &str) -> (r: Option<Vec<Option<String>>>)
    ensures
        r.deep_view() == regex_captures(pattern@, text@),
{
    pattern.matcher.captures(text).map(
        |found| found.iter().map(|group| group.map(|m| m.as_str().to_owned())).collect(),
    )
}

impl Pattern {
    /// Compiles `source`. It is taken if and only if it is a regular
    /// expression that `regex` compiles.
    pub fn compile(source: &str) -> (r: Result<Pattern, InvalidPattern>)
        ensures
            r is Ok == regex_compiles(source@),
            r matches Ok(p) ==> p@ == source@,
            r matches Err(e) ==> e.pattern@ == source@,
    {
        match compile_regex(source) {
            Ok(matcher) => Ok(Pattern { source: source.to_owned(), matcher }),
            Err(_) => Err(InvalidPattern { pattern: source.to_owned() }),
        }
    }

    /// The text the pattern was compiled from.
    pub fn source(&self) -> (text: &str)
        ensures
            text@ == self@,
    {
        self.source.as_str()
    }

    /// The groups of the first match of the pattern in `text`, if there is
    /// one: the whole match first.
    pub fn captures(&self, text: &str) -> (r: Option<Vec<Option<String>>>)
        ensures
            r.deep_view() == regex_captures(self@, text@),
    {
        find_captures(self, text)
    }
}

} // verus!
