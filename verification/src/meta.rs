//! Call metadata (source id, talkgroup, end of call) from the decoder's console
//! output.
//!
//! The decoder prints free text whose shape varies by build, so the patterns are
//! configurable. Group 1 of a pattern is the number of interest.
use crate::pattern::{regex_first_group, regex_found, regex_syntax_error, Pattern};
use crate::text::{decimal, law_numbers_are_read_up_to_the_limit, parse_u32, parsed_up_to};
use vstd::prelude::*;

verus! {

/// What one console line says.
#[derive(Debug, Clone, Copy, PartialEq, Eq, Structural)]
pub struct MetaLine {
    pub source: Option<u32>,
    pub talkgroup: Option<u32>,
    pub call_end: bool,
}

impl Default for MetaLine {
    fn default() -> (r: Self)
        ensures
            r == (MetaLine { source: None, talkgroup: None, call_end: false }),
    {
        MetaLine { source: None, talkgroup: None, call_end: false }
    }
}

impl MetaLine {
    /// Whether the line says nothing.
    pub fn is_empty(&self) -> (r: bool)
        ensures
            r == (self.source is None && self.talkgroup is None && !self.call_end),
    {
        self.source.is_none() && self.talkgroup.is_none() && !self.call_end
    }
}

/// The number that a group holds, if it holds one of 32 bits.
pub open spec fn group_number(group: Option<Seq<char>>) -> Option<u32> {
    match group {
        Some(s) => match parsed_up_to(s, u32::MAX as nat) {
            Some(n) => Some(n as u32),
            None => None,
        },
        None => None,
    }
}

/// What a line says, given what the patterns find in it.
pub open spec fn meta_of(
    source: Option<Seq<char>>,
    talkgroup: Option<Seq<char>>,
    call_end: bool,
) -> MetaLine {
    MetaLine { source: group_number(source), talkgroup: group_number(talkgroup), call_end }
}

/// The text behind an optional string.
pub open spec fn text_of(s: Option<String>) -> Option<Seq<char>> {
    match s {
        Some(s) => Some(s@),
        None => None,
    }
}

fn number_in(group: Option<String>) -> (r: Option<u32>)
    ensures
        r == group_number(text_of(group)),
{
    match group {
        Some(s) => parse_u32(s.as_str()),
        None => None,
    }
}

/// What a line says, given group 1 of the source pattern and of the talkgroup
/// pattern, and whether the pattern for the end of a call matches.
pub fn meta_line(source: Option<String>, talkgroup: Option<String>, call_end: bool) -> (r: MetaLine)
    ensures
        r == meta_of(text_of(source), text_of(talkgroup), call_end),
{
    MetaLine { source: number_in(source), talkgroup: number_in(talkgroup), call_end }
}

/// A pattern that was refused, with the reason.
#[derive(Debug)]
pub enum MetaError {
    Source(String),
    Talkgroup(String),
    CallEnd(String),
}

/// Mathematical value of a [`MetaError`].
pub enum ErrorView {
    Source(Seq<char>),
    Talkgroup(Seq<char>),
    CallEnd(Seq<char>),
}

impl View for MetaError {
    type V = ErrorView;

    open spec fn view(&self) -> ErrorView {
        match *self {
            MetaError::Source(s) => ErrorView::Source(s@),
            MetaError::Talkgroup(s) => ErrorView::Talkgroup(s@),
            MetaError::CallEnd(s) => ErrorView::CallEnd(s@),
        }
    }
}

impl MetaError {
    /// The reason.
    pub fn message(&self) -> (r: String)
        ensures
            r@ == (match self@ {
                ErrorView::Source(s) => s,
                ErrorView::Talkgroup(s) => s,
                ErrorView::CallEnd(s) => s,
            }),
    {
        match self {
            MetaError::Source(s) => s.clone(),
            MetaError::Talkgroup(s) => s.clone(),
            MetaError::CallEnd(s) => s.clone(),
        }
    }
}

/// Whether a pattern has no syntax error.
pub open spec fn parses(pattern: Seq<char>) -> bool {
    regex_syntax_error(pattern) is None
}

/// Whether `why` can be the reason for which a pattern is refused: its syntax
/// error, if it has one.
pub open spec fn is_reason(why: Seq<char>, pattern: Seq<char>) -> bool {
    regex_syntax_error(pattern) matches Some(s) ==> why == s
}

/// Compiled metadata patterns.
pub struct MetaParser {
    re_source: Pattern,
    re_talkgroup: Pattern,
    re_call_end: Pattern,
}

/// The texts of the three patterns.
pub struct ParserView {
    pub source: Seq<char>,
    pub talkgroup: Seq<char>,
    pub call_end: Seq<char>,
}

impl View for MetaParser {
    type V = ParserView;

    closed spec fn view(&self) -> ParserView {
        ParserView {
            source: self.re_source.pattern(),
            talkgroup: self.re_talkgroup.pattern(),
            call_end: self.re_call_end.pattern(),
        }
    }
}

impl ParserView {
    /// What a line says to these patterns.
    pub open spec fn meta(self, line: Seq<char>) -> MetaLine {
        meta_of(
            regex_first_group(self.source, line),
            regex_first_group(self.talkgroup, line),
            regex_found(self.call_end, line),
        )
    }
}

impl MetaParser {
    /// Compiles the patterns. A parser has the patterns that were asked for, and all
    /// of them parse. The error is about the first pattern that is refused; for one
    /// with a syntax error it holds the text of that error.
    pub fn new(re_source: &str, re_talkgroup: &str, re_call_end: &str) -> (r: Result<
        Self,
        MetaError,
    >)
        ensures
            match r {
                Ok(p) => {
                    &&& p@ == (ParserView {
                        source: re_source@,
                        talkgroup: re_talkgroup@,
                        call_end: re_call_end@,
                    })
                    &&& parses(re_source@)
                    &&& parses(re_talkgroup@)
                    &&& parses(re_call_end@)
                },
                Err(e) => match e@ {
                    ErrorView::Source(why) => is_reason(why, re_source@),
                    ErrorView::Talkgroup(why) => {
                        &&& parses(re_source@)
                        &&& is_reason(why, re_talkgroup@)
                    },
                    ErrorView::CallEnd(why) => {
                        &&& parses(re_source@)
                        &&& parses(re_talkgroup@)
                        &&& is_reason(why, re_call_end@)
                    },
                },
            },
    {
        Self::assemble(
            Pattern::compile(re_source),
            Pattern::compile(re_talkgroup),
            Pattern::compile(re_call_end),
        )
    }

    /// The parser of three patterns, each compiled or refused for a reason.
    pub fn assemble(
        source: Result<Pattern, String>,
        talkgroup: Result<Pattern, String>,
        call_end: Result<Pattern, String>,
    ) -> (r: Result<Self, MetaError>)
        ensures
            match (source, talkgroup, call_end) {
                (Ok(s), Ok(t), Ok(e)) => r matches Ok(p) && p@ == (ParserView {
                    source: s.pattern(),
                    talkgroup: t.pattern(),
                    call_end: e.pattern(),
                }),
                (Err(why), _, _) => r matches Err(e) && e@ == ErrorView::Source(why@),
                (Ok(_), Err(why), _) => r matches Err(e) && e@ == ErrorView::Talkgroup(why@),
                (Ok(_), Ok(_), Err(why)) => r matches Err(e) && e@ == ErrorView::CallEnd(why@),
            },
    {
        let re_source = match source {
            Ok(p) => p,
            Err(why) => return Err(MetaError::Source(why)),
        };
        let re_talkgroup = match talkgroup {
            Ok(p) => p,
            Err(why) => return Err(MetaError::Talkgroup(why)),
        };
        let re_call_end = match call_end {
            Ok(p) => p,
            Err(why) => return Err(MetaError::CallEnd(why)),
        };
        Ok(MetaParser { re_source, re_talkgroup, re_call_end })
    }

    /// What a console line says.
    pub fn parse_line(&self, line: &str) -> (r: MetaLine)
        ensures
            r == self@.meta(line@),
    {
        meta_line(
            self.re_source.first_group(line),
            self.re_talkgroup.first_group(line),
            self.re_call_end.is_match(line),
        )
    }
}

/// Numbers in the groups are read, each for itself; one that takes more than 32 bits,
/// or no group, is no number.
pub proof fn law_groups_are_read_as_numbers(x: nat, y: nat, call_end: bool)
    ensures
        ({
            let m = meta_of(Some(decimal(x)), Some(decimal(y)), call_end);
            &&& m.source == (if x <= u32::MAX {
                Some(x as u32)
            } else {
                None
            })
            &&& m.talkgroup == (if y <= u32::MAX {
                Some(y as u32)
            } else {
                None
            })
            &&& m.call_end == call_end
        }),
        meta_of(None, Some(decimal(y)), call_end).source is None,
        meta_of(Some(decimal(x)), None, call_end).talkgroup is None,
{
    law_numbers_are_read_up_to_the_limit(x, u32::MAX as nat);
    law_numbers_are_read_up_to_the_limit(y, u32::MAX as nat);
}

} // verus!
