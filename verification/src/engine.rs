//! The `regex` crate, as far as this library relies on it.
//!
//! A [`Pattern`] keeps a text beside the expression that `Regex::new` made of
//! it. Its fields are private to this module, and in this module only the
//! functions that call the `regex` crate write them: [`compile`] and
//! [`duplicate`]. So the two always belong together, and what [`search`]
//! finds can be said of the text alone.

use crate::text::ints;
use regex::Regex;
use vstd::prelude::*;
use vstd::utf8::{encode_utf8, is_char_boundary};

verus! {

/// `regex::Regex`, a compiled regular expression. Nothing of its inside is
/// known here.
#[verifier::external_type_specification]
#[verifier::external_body]
pub struct ExRegex(regex::Regex);

/// `regex::Error`, what `Regex::new` returns for a text it does not take.
/// Nothing of its inside is known here.
#[verifier::external_type_specification]
#[verifier::external_body]
pub struct ExRegexError(regex::Error);

/// Whether `Regex::new` takes `source`: it is a regular expression in the
/// syntax of the `regex` crate, and what it compiles to stays within the
/// crate's default size limit. The answer is that of the `regex` crate as it
/// is built with this library.
pub uninterp spec fn compiles(source: Seq<char>) -> bool;

/// The span of the first match of the regular expression written as `source`
/// in `haystack`, in byte offsets into the UTF-8 encoding of `haystack`; `None`
/// where the expression matches nowhere. This is what `Regex::find` returns
/// for an expression that `Regex::new` compiled from `source`.
pub uninterp spec fn first_match(source: Seq<char>, haystack: Seq<char>) -> Option<(int, int)>;

/// A compiled regular expression, and the text it was compiled from.
#[derive(Debug)]
pub struct Pattern {
    source: String,
    compiled: Regex,
}

impl View for Pattern {
    type V = Seq<char>;

    /// The text the pattern was compiled from. The compiled expression adds
    /// nothing to it: it is what `Regex::new` makes of that text.
    closed spec fn view(&self) -> Seq<char> {
        self.source@
    }
}

impl Pattern {
    /// The text the pattern was compiled from.
    pub fn as_str(&self) -> (source: &str)
        ensures
            source@ == self@,
    {
        self.source.as_str()
    }
}

/// `Regex::new`: compiles `source` with the crate's default options, and on
/// success keeps `source` beside what it compiled to. It succeeds exactly on
/// the texts that the crate takes; an error is returned for the others, never
/// a panic.
#[verifier::external_body]
pub(crate) fn compile(source: &str) -> (outcome: Result<Pattern, regex::Error>)
    ensures
        outcome is Ok <==> compiles(source@),
        outcome matches Ok(pattern) ==> pattern@ == source@,
{
    match Regex::new(source) {
        Ok(compiled) => Ok(Pattern { source: source.to_owned(), compiled }),
        Err(cause) => Err(cause),
    }
}

/// `Regex::find`, with the match taken apart by `Match::start` and
/// `Match::end`. The crate documents the result as the first match in the
/// haystack, with `start <= end` and both offsets on character boundaries of
/// the haystack, so that the haystack can be sliced at them.
#[verifier::external_body]
pub(crate) fn search(pattern: &Pattern, haystack: &str) -> (span: Option<(usize, usize)>)
    ensures
        ints(span) == first_match(pattern@, haystack@),
        span matches Some((start, end)) ==> start <= end
            && is_char_boundary(encode_utf8(haystack@), start as int)
            && is_char_boundary(encode_utf8(haystack@), end as int),
{
    match pattern.compiled.find(haystack) {
        Some(m) => Some((m.start(), m.end())),
        None => None,
    }
}

/// `Regex::clone`: a second handle on the same compiled expression, kept
/// beside a copy of the same text.
#[verifier::external_body]
pub(crate) fn duplicate(pattern: &Pattern) -> (copy: Pattern)
    ensures
        copy@ == pattern@,
{
    Pattern { source: pattern.source.clone(), compiled: pattern.compiled.clone() }
}

} // verus!
