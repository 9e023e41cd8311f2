//! Parse failures: the grammar could not match any of the constructs it was
//! attempting at some position of the input.

use vstd::prelude::*;
use vstd::string::StringExecFns;

verus! {

/// The alternative constructs the grammar was attempting where it failed.
#[derive(Debug, PartialEq, Eq, Clone, Copy, Structural)]
pub enum Expected {
    /// The entity-table grammar wanted a comment or an entity declaration.
    CommentOrEntity,
    /// The line-table grammar wanted a comment block or a `key = value` line.
    CommentOrMessage,
}

/// A syntax error: the byte offset of the unmatched input and the
/// alternatives that were attempted there.  The whole file's conversion
/// fails on such an error.
#[derive(Debug, PartialEq, Eq, Clone, Copy, Structural)]
pub struct ParseError {
    pub offset: usize,
    pub expected: Expected,
}

/// Mathematical model of a parse error; the offset is the exact byte count,
/// unbounded.
pub struct GParseError {
    pub offset: int,
    pub expected: Expected,
}

impl View for ParseError {
    type V = GParseError;

    open spec fn view(&self) -> GParseError {
        GParseError { offset: self.offset as int, expected: self.expected }
    }
}

/// The text `describe` renders for a parse error.
pub open spec fn describe_view(e: ParseError) -> Seq<char> {
    (match e.expected {
        Expected::CommentOrEntity => "expected a comment or an entity declaration at byte offset "@,
        Expected::CommentOrMessage => "expected a comment or a message line at byte offset "@,
    }) + crate::text::dec_digits(e.offset as int)
}

impl ParseError {
    /// A human-readable account of the failure, for the caller to report.
    pub fn describe(&self) -> (r: String)
        ensures
            r@ == describe_view(*self),
    {
        let prefix: &str = match self.expected {
            Expected::CommentOrEntity => "expected a comment or an entity declaration at byte offset ",
            Expected::CommentOrMessage => "expected a comment or a message line at byte offset ",
        };
        let mut r = String::from_str(prefix);
        let digits = crate::text::usize_digits(self.offset);
        let tail = crate::text::chars_string(&digits);
        r.append(tail.as_str());
        r
    }
}

} // verus!
