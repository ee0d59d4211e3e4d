//! Regular expressions, compiled once and matched many times.
//!
//! Compiling and matching are the work of the `regex` crate. What this module
//! adds is the bookkeeping around it: a text that is no expression comes back
//! as an error of this library, and a match is reported in characters, like
//! every other position in this library.

pub use crate::engine::{compiles, first_match, Pattern};

use crate::engine::{compile, duplicate, search};
use crate::text::{ints, lemma_boundary_is_char_index, span_in_chars, spec_span_in_chars};
use vstd::prelude::*;

verus! {

/// A text that is no regular expression, or one that compiles to more than
/// the `regex` crate allows.
#[derive(Debug)]
pub struct PatternError {
    /// What the `regex` crate said of it.
    pub cause: regex::Error,
}

impl Pattern {
    /// Compiles `source`, once and for all the matching that follows.
    ///
    /// Succeeds on exactly the texts that the `regex` crate takes; the
    /// pattern that comes back stands for `source`.
    pub fn new(source: &str) -> (outcome: Result<Pattern, PatternError>)
        ensures
            outcome is Ok <==> compiles(source@),
            outcome matches Ok(pattern) ==> pattern@ == source@,
    {
        Pattern::from_outcome(compile(source))
    }

    /// What compiling came to, in this library's terms: a pattern stays the
    /// pattern it is, and a refusal is handed on with its cause.
    pub fn from_outcome(compiled: Result<Pattern, regex::Error>) -> (outcome: Result<
        Pattern,
        PatternError,
    >)
        ensures
            outcome == match compiled {
                Ok(pattern) => Ok::<Pattern, PatternError>(pattern),
                Err(cause) => Err::<Pattern, PatternError>(PatternError { cause }),
            },
    {
        match compiled {
            Ok(pattern) => Ok(pattern),
            Err(cause) => Err(PatternError { cause }),
        }
    }

    /// The first match of the pattern in `text`, as a span of characters.
    ///
    /// A match always comes back as a span: its ends lie on character
    /// boundaries, so both have a character index.
    pub fn find_in(&self, text: &str) -> (span: Option<(usize, usize)>)
        ensures
            ints(span) == spec_span_in_chars(text@, first_match(self@, text@)),
            span is Some <==> first_match(self@, text@) is Some,
            span matches Some((i, j)) ==> i <= j <= text@.len(),
    {
        let bytes = search(self, text);
        proof {
            if let Some((start, end)) = bytes {
                lemma_boundary_is_char_index(text@, start as int);
                lemma_boundary_is_char_index(text@, end as int);
            }
        }
        span_in_chars(text, bytes)
    }
}

impl Clone for Pattern {
    fn clone(&self) -> (copy: Self)
        ensures
            copy@ == self@,
    {
        duplicate(self)
    }
}

} // verus!
