//! The filter pattern: a regular expression compiled by the `regex` crate,
//! kept together with the text it was compiled from.
use vstd::prelude::*;

verus! {

#[verifier::external_type_specification]
#[verifier::external_body]
pub struct ExRegex(regex::Regex);

#[verifier::external_type_specification]
#[verifier::external_body]
pub struct ExRegexError(regex::Error);

/// Whether `pattern` is accepted by `regex::Regex::new`.
pub uninterp spec fn regex_compiles(pattern: Seq<char>) -> bool;

/// Whether the regular expression `pattern` matches somewhere in `text`
/// (a search, not an anchored match), as `regex::Regex::is_match` decides.
pub uninterp spec fn regex_matches(pattern: Seq<char>, text: Seq<char>) -> bool;

/// A compiled filter pattern. The compiled form is always the compilation of
/// `source`: `compile` is the only place that builds a `Pattern`.
pub struct Pattern {
    source: String,
    regex: regex::Regex,
}

/// Relies on regex::Regex::new: it succeeds exactly on the patterns it
/// accepts, and the compiled regex is stored beside its source text.
#[verifier::external_body]
fn compile(source: &str) -> (r: Result<Pattern, regex::Error>)
    ensures
        r.is_ok() == regex_compiles(source@),
        r matches Ok(p) ==> p.source@ == source@,
{
    match regex::Regex::new(source) {
        Ok(regex) => Ok(Pattern { source: source.to_string(), regex }),
        Err(e) => Err(e),
    }
}

impl View for Pattern {
    type V = Seq<char>;

    /// The text the pattern was compiled from.
    closed spec fn view(&self) -> Seq<char> {
        self.source@
    }
}

impl Pattern {
    /// Compiles `source`; `None` when it is not a valid regular expression.
    pub fn new(source: &str) -> (r: Option<Pattern>)
        ensures
            r is Some <==> regex_compiles(source@),
            r matches Some(p) ==> p@ == source@,
    {
        match compile(source) {
            Ok(p) => Some(p),
            Err(_) => None,
        }
    }

    /// The text the pattern was compiled from.
    pub fn source(&self) -> (r: &str)
        ensures
            r@ == self@,
    {
        self.source.as_str()
    }

    /// Relies on regex::Regex::is_match: whether the pattern matches anywhere
    /// in `text`.
    #[verifier::external_body]
    pub(crate) fn matches_text(&self, text: &str) -> (r: bool)
        ensures
            r == regex_matches(self@, text@),
    {
        self.regex.is_match(text)
    }
}

} // verus!
