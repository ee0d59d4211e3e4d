//! What to wait for, and where it lies in the text read so far.
//!
//! A [`ReadUntil`] says what a session waits for; its view, a [`MatchSpec`],
//! is the same thing without the machinery. [`find`] looks for it in a buffer
//! and reports the span it found, counted in characters, end exclusive;
//! [`find_spec`] says which span that is.

use crate::literal::{
    find_first, first_occurrence, is_first_occurrence, lemma_empty_needle,
    lemma_first_occurrence_none, lemma_first_occurrence_unique, occurs_at,
};
use crate::pattern::{first_match, Pattern};
use crate::text::{char_index_of, ints, lemma_char_index_ordered, spec_span_in_chars, to_chars};
use vstd::prelude::*;

verus! {

/// What a session waits for.
#[derive(Debug)]
pub enum ReadUntil {
    /// This exact text.
    String(String),
    /// A match of this regular expression.
    Regex(Pattern),
    /// The end of the stream.
    EOF,
    /// This many characters.
    NBytes(usize),
    /// Whichever of these comes first.
    Any(Vec<ReadUntil>),
}

/// What a [`ReadUntil`] stands for.
pub enum MatchSpec {
    /// An exact text.
    Literal(Seq<char>),
    /// A regular expression, by the text it was compiled from.
    Pattern(Seq<char>),
    /// The end of the stream.
    EndOfStream,
    /// A number of characters.
    ByteCount(nat),
    /// The earliest of several.
    Alternatives(Seq<MatchSpec>),
}

/// What `needle` stands for: the texts in place of the strings, the members'
/// specifications in place of the members.
pub open spec fn spec_of(needle: ReadUntil) -> MatchSpec
    decreases needle,
{
    match needle {
        ReadUntil::String(text) => MatchSpec::Literal(text@),
        ReadUntil::Regex(pattern) => MatchSpec::Pattern(pattern@),
        ReadUntil::EOF => MatchSpec::EndOfStream,
        ReadUntil::NBytes(n) => MatchSpec::ByteCount(n as nat),
        ReadUntil::Any(members) => MatchSpec::Alternatives(
            Seq::new(
                members.len() as nat,
                |i: int|
                    if 0 <= i < members.len() {
                        spec_of(members[i])
                    } else {
                        MatchSpec::EndOfStream
                    },
            ),
        ),
    }
}

impl View for ReadUntil {
    type V = MatchSpec;

    open spec fn view(&self) -> MatchSpec {
        spec_of(*self)
    }
}

impl Clone for ReadUntil {
    fn clone(&self) -> (copy: Self)
        ensures
            copy@ == self@,
        decreases self,
    {
        match self {
            ReadUntil::String(text) => ReadUntil::String(text.clone()),
            ReadUntil::Regex(pattern) => ReadUntil::Regex(pattern.clone()),
            ReadUntil::EOF => ReadUntil::EOF,
            ReadUntil::NBytes(n) => ReadUntil::NBytes(*n),
            ReadUntil::Any(members) => {
                let mut copies: Vec<ReadUntil> = Vec::new();
                let mut i: usize = 0;
                while i < members.len()
                    invariant
                        *self == ReadUntil::Any(*members),
                        i <= members.len(),
                        copies.len() == i,
                        forall|j: int| 0 <= j < i ==> copies[j]@ == members[j]@,
                    decreases members.len() - i,
                {
                    assert(decreases_to!(*self => self->Any_0));
                    copies.push(members[i].clone());
                    i = i + 1;
                }
                assert(ReadUntil::Any(copies)@->Alternatives_0 =~= self@->Alternatives_0);
                ReadUntil::Any(copies)
            },
        }
    }
}

/// `a` lies at least as far left as `b`, and where both start at the same
/// place, `a` is at least as short.
pub open spec fn span_before(a: (int, int), b: (int, int)) -> bool {
    a.0 < b.0 || (a.0 == b.0 && a.1 <= b.1)
}

/// `best` is one of the matches among `candidates`, and none of them lies
/// further left or, from the same start, ends earlier.
pub open spec fn is_leftmost(candidates: Seq<Option<(int, int)>>, best: (int, int)) -> bool {
    &&& exists|i: int| 0 <= i < candidates.len() && #[trigger] candidates[i] == Some(best)
    &&& forall|i: int|
        0 <= i < candidates.len() && (#[trigger] candidates[i]) is Some ==> span_before(
            best,
            candidates[i]->0,
        )
}

/// The leftmost match among `candidates`, the shortest of those that start
/// there; `None` where no candidate is a match.
pub open spec fn leftmost(candidates: Seq<Option<(int, int)>>) -> Option<(int, int)> {
    if exists|i: int| 0 <= i < candidates.len() && (#[trigger] candidates[i]) is Some {
        Some(choose|best: (int, int)| is_leftmost(candidates, best))
    } else {
        None
    }
}

/// What each member of `members` finds in `buffer`, in the members' order.
pub open spec fn candidates_of(members: Seq<MatchSpec>, buffer: Seq<char>, eof: bool) -> Seq<
    Option<(int, int)>,
>
    decreases members, 0nat,
{
    Seq::new(
        members.len(),
        |i: int|
            if 0 <= i < members.len() {
                find_spec(members[i], buffer, eof)
            } else {
                None
            },
    )
}

/// The span of `buffer` that `needle` matches, counted in characters, end
/// exclusive; `None` where it matches nothing yet. `eof` says that the stream
/// has ended and `buffer` will not grow.
pub open spec fn find_spec(needle: MatchSpec, buffer: Seq<char>, eof: bool) -> Option<(int, int)>
    decreases needle, 1nat,
{
    match needle {
        MatchSpec::Literal(text) => match first_occurrence(buffer, text) {
            Some(k) => Some((k, k + text.len())),
            None => None,
        },
        MatchSpec::Pattern(source) => spec_span_in_chars(buffer, first_match(source, buffer)),
        MatchSpec::EndOfStream => if eof {
            Some((0, buffer.len() as int))
        } else {
            None
        },
        MatchSpec::ByteCount(n) => if n <= buffer.len() {
            Some((0, n as int))
        } else if eof && buffer.len() > 0 {
            Some((0, buffer.len() as int))
        } else {
            None
        },
        MatchSpec::Alternatives(members) => leftmost(candidates_of(members, buffer, eof)),
    }
}

/// There is only one leftmost match.
pub proof fn lemma_leftmost_unique(candidates: Seq<Option<(int, int)>>, best: (int, int))
    requires
        is_leftmost(candidates, best),
    ensures
        leftmost(candidates) == Some(best),
{
    // Both are among the candidates, so each lies before the other.
    let chosen = choose|b: (int, int)| is_leftmost(candidates, b);
    let i = choose|i: int| 0 <= i < candidates.len() && #[trigger] candidates[i] == Some(best);
    let j = choose|j: int| 0 <= j < candidates.len() && #[trigger] candidates[j] == Some(chosen);
    assert(span_before(best, chosen) && span_before(chosen, best));
}

/// Where there is any match among the candidates, one of them is leftmost.
pub proof fn lemma_leftmost_exists(candidates: Seq<Option<(int, int)>>) -> (best: (int, int))
    requires
        exists|i: int| 0 <= i < candidates.len() && (#[trigger] candidates[i]) is Some,
    ensures
        is_leftmost(candidates, best),
    decreases candidates.len(),
{
    let n = candidates.len() as int;
    let rest = candidates.drop_last();
    let last = candidates[n - 1];
    // The best of all but the last candidate, unless the last one beats it.
    let best = if exists|i: int| 0 <= i < rest.len() && (#[trigger] rest[i]) is Some {
        let earlier = lemma_leftmost_exists(rest);
        if last is Some && !span_before(earlier, last->0) {
            last->0
        } else {
            let at = choose|i: int| 0 <= i < rest.len() && #[trigger] rest[i] == Some(earlier);
            assert(candidates[at] == Some(earlier));
            earlier
        }
    } else {
        let at = choose|i: int| 0 <= i < n && (#[trigger] candidates[i]) is Some;
        if at < n - 1 {
            assert(rest[at] is Some);
        }
        last->0
    };
    assert forall|i: int| 0 <= i < n && (#[trigger] candidates[i]) is Some implies span_before(
        best,
        candidates[i]->0,
    ) by {
        if i < n - 1 {
            assert(rest[i] is Some);
        }
    }
    best
}

/// Looks for `needle` in `buffer`. `eof` says that the stream has ended.
///
/// The span that comes back is counted in characters, end exclusive, and lies
/// within `buffer`. A regular expression that matches is always reported: the
/// ends of its match have character indices.
pub fn find(needle: &ReadUntil, buffer: &str, eof: bool) -> (span: Option<(usize, usize)>)
    ensures
        ints(span) == find_spec(needle@, buffer@, eof),
        span matches Some((start, end)) ==> start <= end <= buffer@.len(),
        needle@ matches MatchSpec::Pattern(source) ==> (span is Some <==> first_match(
            source,
            buffer@,
        ) is Some),
{
    let chars = to_chars(buffer);
    find_in(needle, buffer, chars.as_slice(), eof)
}

/// [`find`], with the characters of `buffer` already laid out in `chars`.
fn find_in(needle: &ReadUntil, buffer: &str, chars: &[char], eof: bool) -> (span: Option<
    (usize, usize),
>)
    requires
        chars@ == buffer@,
    ensures
        ints(span) == find_spec(needle@, buffer@, eof),
        span matches Some((start, end)) ==> start <= end <= buffer@.len(),
        needle@ matches MatchSpec::Pattern(source) ==> (span is Some <==> first_match(
            source,
            buffer@,
        ) is Some),
    decreases needle,
{
    match needle {
        ReadUntil::String(text) => {
            let wanted = to_chars(text.as_str());
            match find_first(chars, wanted.as_slice()) {
                Some(k) => Some((k, k + wanted.len())),
                None => None,
            }
        },
        ReadUntil::Regex(pattern) => pattern.find_in(buffer),
        ReadUntil::EOF => {
            if eof {
                Some((0, chars.len()))
            } else {
                None
            }
        },
        ReadUntil::NBytes(n) => {
            if *n <= chars.len() {
                Some((0, *n))
            } else if eof && chars.len() > 0 {
                Some((0, chars.len()))
            } else {
                None
            }
        },
        ReadUntil::Any(members) => {
            let ghost specs = needle@->Alternatives_0;
            let ghost candidates = candidates_of(specs, buffer@, eof);
            let mut best: Option<(usize, usize)> = None;
            let mut i: usize = 0;
            while i < members.len()
                invariant
                    *needle == ReadUntil::Any(*members),
                    chars@ == buffer@,
                    needle@ == MatchSpec::Alternatives(specs),
                    specs.len() == members.len(),
                    forall|j: int| 0 <= j < members.len() ==> specs[j] == #[trigger] members[j]@,
                    candidates == candidates_of(specs, buffer@, eof),
                    candidates.len() == members.len(),
                    i <= members.len(),
                    best is None ==> forall|j: int| 0 <= j < i ==> (#[trigger] candidates[j]) is None,
                    best matches Some(b) ==> {
                        &&& b.0 <= b.1 <= buffer@.len()
                        &&& exists|j: int| 0 <= j < i && #[trigger] candidates[j] == ints(best)
                        &&& forall|j: int|
                            0 <= j < i && (#[trigger] candidates[j]) is Some ==> span_before(
                                (b.0 as int, b.1 as int),
                                candidates[j]->0,
                            )
                    },
                decreases members.len() - i,
            {
                let found = find_in(&members[i], buffer, chars, eof);
                assert(ints(found) == candidates[i as int]);
                match found {
                    Some((start, end)) => {
                        let better = match best {
                            Some((best_start, best_end)) => start < best_start || (start
                                == best_start && end < best_end),
                            None => true,
                        };
                        if better {
                            best = found;
                        }
                    },
                    None => {},
                }
                i = i + 1;
            }
            proof {
                match best {
                    Some(b) => {
                        lemma_leftmost_unique(candidates, (b.0 as int, b.1 as int));
                    },
                    None => {},
                }
            }
            best
        },
    }
}

/// A literal is found where it first stands in the buffer, whether or not the
/// stream has ended: if `text` stands at `k` and nowhere before `k`, the match
/// is `(k, k + text.len())`.
pub proof fn lemma_literal_at_first_occurrence(
    text: Seq<char>,
    buffer: Seq<char>,
    k: int,
    eof: bool,
)
    requires
        is_first_occurrence(buffer, text, k),
    ensures
        find_spec(MatchSpec::Literal(text), buffer, eof) == Some((k, k + text.len())),
{
    lemma_first_occurrence_unique(buffer, text, k);
}

/// A literal that stands nowhere in the buffer is not found.
pub proof fn lemma_literal_absent(text: Seq<char>, buffer: Seq<char>, eof: bool)
    requires
        forall|k: int| !occurs_at(buffer, text, k),
    ensures
        find_spec(MatchSpec::Literal(text), buffer, eof) is None,
{
    lemma_first_occurrence_none(buffer, text);
}

/// The empty literal matches at once, at the very beginning of the buffer.
pub proof fn lemma_empty_literal(buffer: Seq<char>, eof: bool)
    ensures
        find_spec(MatchSpec::Literal(Seq::<char>::empty()), buffer, eof) == Some((0int, 0int)),
{
    lemma_empty_needle(buffer);
}

/// Alternatives match where their leftmost member matches: the result is one
/// of the members' matches, no member's match starts before it, and none that
/// starts with it ends before it. Where no member matches, nothing does.
pub proof fn lemma_alternatives_leftmost(members: Seq<MatchSpec>, buffer: Seq<char>, eof: bool)
    ensures
        match find_spec(MatchSpec::Alternatives(members), buffer, eof) {
            Some(best) => is_leftmost(candidates_of(members, buffer, eof), best),
            None => forall|i: int|
                0 <= i < members.len() ==> (#[trigger] find_spec(members[i], buffer, eof)) is None,
        },
{
    let candidates = candidates_of(members, buffer, eof);
    if exists|i: int| 0 <= i < candidates.len() && (#[trigger] candidates[i]) is Some {
        let best = lemma_leftmost_exists(candidates);
        lemma_leftmost_unique(candidates, best);
    } else {
        assert forall|i: int| 0 <= i < members.len() implies (#[trigger] find_spec(
            members[i],
            buffer,
            eof,
        )) is None by {
            assert(candidates[i] is None);
        }
    }
}

/// Of two alternatives the one that matches further left wins; from the same
/// start the shorter match wins; a single match wins by default.
pub proof fn lemma_either_of_two(a: MatchSpec, b: MatchSpec, buffer: Seq<char>, eof: bool)
    ensures
        find_spec(MatchSpec::Alternatives(seq![a, b]), buffer, eof) == match (
            find_spec(a, buffer, eof),
            find_spec(b, buffer, eof),
        ) {
            (Some(x), Some(y)) => if span_before(x, y) {
                Some(x)
            } else {
                Some(y)
            },
            (Some(x), None) => Some(x),
            (None, Some(y)) => Some(y),
            (None, None) => None,
        },
{
    let members = seq![a, b];
    let candidates = candidates_of(members, buffer, eof);
    match (candidates[0], candidates[1]) {
        (Some(x), Some(y)) => {
            if span_before(x, y) {
                lemma_leftmost_unique(candidates, x);
            } else {
                lemma_leftmost_unique(candidates, y);
            }
        },
        (Some(x), None) => {
            lemma_leftmost_unique(candidates, x);
        },
        (None, Some(y)) => {
            lemma_leftmost_unique(candidates, y);
        },
        (None, None) => {},
    }
}

/// What alternatives match depends on which members there are, not on their
/// order or on how often one is listed: two lists with the same members match
/// the same span.
pub proof fn lemma_alternatives_order_free(
    first: Seq<MatchSpec>,
    second: Seq<MatchSpec>,
    buffer: Seq<char>,
    eof: bool,
)
    requires
        forall|i: int| 0 <= i < first.len() ==> second.contains(#[trigger] first[i]),
        forall|j: int| 0 <= j < second.len() ==> first.contains(#[trigger] second[j]),
    ensures
        find_spec(MatchSpec::Alternatives(first), buffer, eof) == find_spec(
            MatchSpec::Alternatives(second),
            buffer,
            eof,
        ),
{
    let ours = candidates_of(first, buffer, eof);
    let theirs = candidates_of(second, buffer, eof);
    assert forall|i: int| 0 <= i < ours.len() implies theirs.contains(#[trigger] ours[i]) by {
        let j = choose|j: int| 0 <= j < second.len() && second[j] == first[i];
        assert(theirs[j] == ours[i]);
    }
    assert forall|j: int| 0 <= j < theirs.len() implies ours.contains(#[trigger] theirs[j]) by {
        let i = choose|i: int| 0 <= i < first.len() && first[i] == second[j];
        assert(ours[i] == theirs[j]);
    }
    lemma_alternatives_leftmost(first, buffer, eof);
    match find_spec(MatchSpec::Alternatives(first), buffer, eof) {
        Some(best) => {
            let i = choose|i: int| 0 <= i < ours.len() && #[trigger] ours[i] == Some(best);
            let j = choose|j: int| 0 <= j < theirs.len() && theirs[j] == ours[i];
            assert(theirs[j] == Some(best));
            assert forall|j: int| 0 <= j < theirs.len() && (#[trigger] theirs[j]) is Some implies span_before(
                best,
                theirs[j]->0,
            ) by {
                let i = choose|i: int| 0 <= i < ours.len() && ours[i] == theirs[j];
                assert(ours[i] is Some);
            }
            lemma_leftmost_unique(theirs, best);
        },
        None => {
            assert forall|j: int| 0 <= j < theirs.len() implies (#[trigger] theirs[j]) is None by {
                let i = choose|i: int| 0 <= i < ours.len() && ours[i] == theirs[j];
                assert(find_spec(first[i], buffer, eof) is None);
            }
        },
    }
}

/// A count of `n` characters is met exactly when the buffer holds at least
/// `n`, and then matches the first `n`. A buffer that is short of `n` matches
/// only once the stream has ended, and only if it is not empty: then all of
/// it is taken.
pub proof fn lemma_byte_count(n: nat, buffer: Seq<char>, eof: bool)
    ensures
        find_spec(MatchSpec::ByteCount(n), buffer, false) == Some((0int, n as int))
            <==> buffer.len() >= n,
        buffer.len() >= n ==> find_spec(MatchSpec::ByteCount(n), buffer, eof) == Some(
            (0int, n as int),
        ),
        buffer.len() < n && eof && buffer.len() > 0 ==> find_spec(
            MatchSpec::ByteCount(n),
            buffer,
            eof,
        ) == Some((0int, buffer.len() as int)),
        buffer.len() < n && !(eof && buffer.len() > 0) ==> find_spec(
            MatchSpec::ByteCount(n),
            buffer,
            eof,
        ) is None,
{
}

/// The end of the stream is matched only once the stream has ended, whatever
/// the buffer holds, and then takes the whole buffer.
pub proof fn lemma_end_of_stream(buffer: Seq<char>)
    ensures
        find_spec(MatchSpec::EndOfStream, buffer, false) is None,
        find_spec(MatchSpec::EndOfStream, buffer, true) == Some((0int, buffer.len() as int)),
{
}

/// Every match lies within the buffer, its start not after its end.
pub proof fn lemma_find_within(needle: MatchSpec, buffer: Seq<char>, eof: bool)
    ensures
        find_spec(needle, buffer, eof) matches Some((start, end)) ==> 0 <= start <= end
            <= buffer.len(),
    decreases needle,
{
    match needle {
        MatchSpec::Literal(text) => {},
        MatchSpec::Pattern(source) => {
            match first_match(source, buffer) {
                Some((a, b)) => {
                    if char_index_of(buffer, a) is Some && char_index_of(buffer, b) is Some && a
                        <= b {
                        lemma_char_index_ordered(
                            buffer,
                            a,
                            b,
                            char_index_of(buffer, a)->0,
                            char_index_of(buffer, b)->0,
                        );
                    }
                },
                None => {},
            }
        },
        MatchSpec::EndOfStream => {},
        MatchSpec::ByteCount(n) => {},
        MatchSpec::Alternatives(members) => {
            lemma_alternatives_leftmost(members, buffer, eof);
            match find_spec(needle, buffer, eof) {
                Some(best) => {
                    let candidates = candidates_of(members, buffer, eof);
                    let i = choose|i: int|
                        0 <= i < candidates.len() && #[trigger] candidates[i] == Some(best);
                    lemma_find_within(members[i], buffer, eof);
                },
                None => {},
            }
        },
    }
}

} // verus!
