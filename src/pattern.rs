use vstd::prelude::*;
use vstd::string::StringExecFns;

verus! {

#[verifier::external_type_specification]
#[verifier::external_body]
pub struct ExRegex(regex::Regex);

#[verifier::external_type_specification]
#[verifier::external_body]
pub struct ExRegexError(regex::Error);

/// Whether `pattern` is a regular expression that the regex engine accepts.
pub uninterp spec fn regex_compiles(pattern: Seq<char>) -> bool;

/// Whether the regular expression `pattern` matches somewhere in `text`.
pub uninterp spec fn regex_matches(pattern: Seq<char>, text: Seq<char>) -> bool;

/// Relies on regex::Regex::new: it accepts or rejects a pattern according to
/// the pattern's text alone.
#[verifier::external_body]
fn compile_regex(pattern: &str) -> (r: Result<regex::Regex, regex::Error>)
    ensures
        r is Ok <==> regex_compiles(pattern@),
{
    regex::Regex::new(pattern)
}

/// A filter argument was rejected.
#[derive(Clone, Copy, Debug, PartialEq, Eq, Structural)]
pub enum FilterError {
    /// The text given as a regular expression does not compile.
    InvalidRegex,
    /// A completion percentage above 100.
    CompletionOutOfRange,
}

/// The completion threshold `percent`, when it is a percentage (at most 100).
pub fn completion_threshold(percent: u8) -> (r: Result<u8, FilterError>)
    ensures
        percent <= 100 ==> r == Ok::<u8, FilterError>(percent),
        percent > 100 ==> r == Err::<u8, FilterError>(FilterError::CompletionOutOfRange),
{
    if percent <= 100 {
        Ok(percent)
    } else {
        Err(FilterError::CompletionOutOfRange)
    }
}

/// A compiled regular expression over mirror URLs, together with its source text.
///
/// The compiled form is only ever built from `pattern` by `UrlPattern::new`.
#[derive(Debug)]
pub struct UrlPattern {
    pattern: String,
    re: regex::Regex,
}

impl UrlPattern {
    /// The source text of the expression.
    pub closed spec fn view(&self) -> Seq<char> {
        self.pattern@
    }

    /// Compiles `pattern`; fails exactly when the engine rejects it.
    pub fn new(pattern: &str) -> (r: Result<UrlPattern, FilterError>)
        ensures
            r is Ok <==> regex_compiles(pattern@),
            r matches Ok(p) ==> p.view() == pattern@,
            r matches Err(e) ==> e == FilterError::InvalidRegex,
    {
        match compile_regex(pattern) {
            Ok(re) => Ok(UrlPattern { pattern: String::from_str(pattern), re }),
            Err(_) => Err(FilterError::InvalidRegex),
        }
    }

    /// The source text of the expression.
    pub fn as_str(&self) -> (r: &str)
        ensures
            r@ == self.view(),
    {
        self.pattern.as_str()
    }

    /// Whether the expression matches somewhere in `text`.
    pub fn is_match(&self, text: &str) -> (r: bool)
        ensures
            r == regex_matches(self.view(), text@),
    {
        regex_is_match(self, text)
    }
}

/// Relies on regex::Regex::is_match: true exactly when the expression compiled
/// from `p`'s source text matches somewhere in `text`, a function of the two
/// texts alone.
#[verifier::external_body]
fn regex_is_match(p: &UrlPattern, text: &str) -> (r: bool)
    ensures
        r == regex_matches(p@, text@),
{
    p.re.is_match(text)
}

} // verus!
