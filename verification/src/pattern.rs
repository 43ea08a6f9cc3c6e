//! Regular expressions: the one place where the `regex` crate is called. What is
//! promised of its results is taken on trust from the crate's documentation.
use regex::Regex;
use vstd::prelude::*;

verus! {

/// The type `regex::Regex`: a compiled expression, of which nothing is known here
/// but what [`Pattern`] carries along.
#[verifier::external_type_specification]
#[verifier::external_body]
pub struct ExRegex(regex::Regex);

/// What `Regex::is_match` returns for the expression that `Regex::new` makes of
/// `pattern`: whether it matches anywhere in `text`.
pub uninterp spec fn regex_found(pattern: Seq<char>, text: Seq<char>) -> bool;

/// What group 1 of `Regex::captures` holds for the expression that `Regex::new`
/// makes of `pattern`: its text in the leftmost match in `text`, none where there
/// is no match, no such group, or the group takes no part in the match.
pub uninterp spec fn regex_first_group(pattern: Seq<char>, text: Seq<char>) -> Option<Seq<char>>;

/// The syntax error for which `Regex::new` refuses `pattern`, as the text that
/// `regex::Error` shows; none where the pattern parses.
pub uninterp spec fn regex_syntax_error(pattern: Seq<char>) -> Option<Seq<char>>;

/// A regular expression with its text. [`Pattern::compile`] alone makes one, so
/// `compiled` is always what `Regex::new` made of `text`.
pub struct Pattern {
    text: String,
    compiled: Regex,
}

impl Pattern {
    /// The text that the expression was made of.
    pub closed spec fn pattern(&self) -> Seq<char> {
        self.text@
    }

    /// `Regex::new`. A pattern with a syntax error is refused with the text of that
    /// error, before anything is compiled; an expression that is accepted parses,
    /// and is the one of the given text. A pattern that parses may still be refused
    /// for the size of its compiled form. That size depends on the machine, so
    /// nothing is promised of when this happens.
    #[verifier::external_body]
    pub(crate) fn compile(text: &str) -> (r: Result<Pattern, String>)
        ensures
            match r {
                Ok(p) => p.pattern() == text@ && regex_syntax_error(text@) is None,
                Err(why) => regex_syntax_error(text@) matches Some(s) ==> why@ == s,
            },
    {
        match Regex::new(text) {
            Ok(compiled) => Ok(Pattern { text: text.to_string(), compiled }),
            Err(e) => Err(e.to_string()),
        }
    }

    /// `Regex::is_match`.
    #[verifier::external_body]
    pub(crate) fn is_match(&self, text: &str) -> (r: bool)
        ensures
            r == regex_found(self.pattern(), text@),
    {
        self.compiled.is_match(text)
    }

    /// `Regex::captures`, with `Captures::get(1)` and `Match::as_str` of what it
    /// finds.
    #[verifier::external_body]
    pub(crate) fn first_group(&self, text: &str) -> (r: Option<String>)
        ensures
            match r {
                Some(s) => regex_first_group(self.pattern(), text@) == Some(s@),
                None => regex_first_group(self.pattern(), text@) is None,
            },
    {
        self.compiled.captures(text).and_then(|c| c.get(1)).map(|m| m.as_str().to_string())
    }
}

} // verus!
