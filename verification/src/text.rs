//! Text as a sequence of characters, and where those characters lie among the
//! bytes of its UTF-8 encoding.
//!
//! Everything the matcher reports is counted in characters. Searches that run
//! on encoded text report byte offsets; [`char_index`] turns one into the
//! other.

use vstd::prelude::*;
use vstd::utf8::*;

verus! {

/// The number of bytes that `c` takes in UTF-8.
pub open spec fn width_of(c: char) -> int {
    encode_scalar(c as u32).len() as int
}

/// The number of bytes that `chars` takes in UTF-8.
pub open spec fn byte_len(chars: Seq<char>) -> int {
    encode_utf8(chars).len() as int
}

/// `k` characters of `chars` take exactly `offset` bytes: byte `offset` of the
/// encoded text is where character `k` begins (or, for `k == chars.len()`,
/// where the text ends).
pub open spec fn is_char_index(chars: Seq<char>, offset: int, k: int) -> bool {
    0 <= k <= chars.len() && byte_len(chars.take(k)) == offset
}

/// The character that begins at byte `offset` of the encoded text, if one
/// does.
pub open spec fn char_index_of(chars: Seq<char>, offset: int) -> Option<int> {
    if exists|k: int| is_char_index(chars, offset, k) {
        Some(choose|k: int| is_char_index(chars, offset, k))
    } else {
        None
    }
}

/// Every character takes one to four bytes, by the range its scalar value
/// falls in.
pub proof fn lemma_width_of(c: char)
    ensures
        1 <= width_of(c) <= 4,
        width_of(c) == if (c as u32) < 0x80 {
            1int
        } else if (c as u32) < 0x800 {
            2int
        } else if (c as u32) < 0x10000 {
            3int
        } else {
            4int
        },
{
}

/// Encoding distributes over concatenation.
pub proof fn lemma_encode_concat(a: Seq<char>, b: Seq<char>)
    ensures
        encode_utf8(a + b) == encode_utf8(a) + encode_utf8(b),
    decreases a.len(),
{
    if a.len() > 0 {
        lemma_encode_concat(a.drop_first(), b);
        assert((a + b).drop_first() =~= a.drop_first() + b);
    }
}

/// A single character encodes to its scalar's bytes.
pub proof fn lemma_encode_one(c: char)
    ensures
        encode_utf8(seq![c]) == encode_scalar(c as u32),
{
    assert(encode_utf8(seq![c].drop_first()) =~= Seq::<u8>::empty());
}

/// One more character makes the prefix longer by that character's width.
pub proof fn lemma_byte_len_step(chars: Seq<char>, k: int)
    requires
        0 <= k < chars.len(),
    ensures
        byte_len(chars.take(k + 1)) == byte_len(chars.take(k)) + width_of(chars[k]),
{
    assert(chars.take(k + 1) =~= chars.take(k) + seq![chars[k]]);
    lemma_encode_concat(chars.take(k), seq![chars[k]]);
    lemma_encode_one(chars[k]);
}

/// A longer prefix takes strictly more bytes, so no two characters begin at
/// the same byte.
pub proof fn lemma_byte_len_increases(chars: Seq<char>, i: int, j: int)
    requires
        0 <= i < j <= chars.len(),
    ensures
        byte_len(chars.take(i)) < byte_len(chars.take(j)),
    decreases j - i,
{
    lemma_byte_len_step(chars, j - 1);
    lemma_width_of(chars[j - 1]);
    if i < j - 1 {
        lemma_byte_len_increases(chars, i, j - 1);
    }
}

/// No prefix takes more bytes than the whole text.
pub proof fn lemma_byte_len_bounded(chars: Seq<char>, k: int)
    requires
        0 <= k <= chars.len(),
    ensures
        byte_len(chars.take(k)) <= byte_len(chars),
{
    assert(chars.take(chars.len() as int) =~= chars);
    if k < chars.len() {
        lemma_byte_len_increases(chars, k, chars.len() as int);
    }
}

/// At most one character begins at a given byte, so [`char_index_of`] is the
/// index that [`is_char_index`] describes.
pub proof fn lemma_char_index_unique(chars: Seq<char>, offset: int, k: int)
    requires
        is_char_index(chars, offset, k),
    ensures
        char_index_of(chars, offset) == Some(k),
{
    let chosen = choose|k: int| is_char_index(chars, offset, k);
    if chosen < k {
        lemma_byte_len_increases(chars, chosen, k);
    } else if k < chosen {
        lemma_byte_len_increases(chars, k, chosen);
    }
}

/// Character indices keep the order of the bytes they begin at.
pub proof fn lemma_char_index_ordered(chars: Seq<char>, a: int, b: int, i: int, j: int)
    requires
        is_char_index(chars, a, i),
        is_char_index(chars, b, j),
        a <= b,
    ensures
        i <= j,
{
    if j < i {
        lemma_byte_len_increases(chars, j, i);
    }
}

/// A byte offset that `str::is_char_boundary` accepts is where a character
/// begins (or where the text ends).
pub proof fn lemma_boundary_is_char_index(chars: Seq<char>, offset: int)
    requires
        is_char_boundary(encode_utf8(chars), offset),
    ensures
        char_index_of(chars, offset) is Some,
    decreases chars.len(),
{
    let bytes = encode_utf8(chars);
    encode_utf8_valid_utf8(chars);
    if offset == 0 {
        assert(chars.take(0) =~= Seq::<char>::empty());
        assert(is_char_index(chars, offset, 0));
    } else {
        encode_utf8_first_scalar(chars);
        let rest = chars.drop_first();
        let inner = offset - length_of_first_scalar(bytes);
        assert(pop_first_scalar(bytes) =~= encode_utf8(rest));
        lemma_boundary_is_char_index(rest, inner);
        let k = choose|k: int| is_char_index(rest, inner, k);
        assert(chars.take(k + 1) =~= seq![chars[0]] + rest.take(k));
        lemma_encode_concat(seq![chars[0]], rest.take(k));
        lemma_encode_one(chars[0]);
        assert(is_char_index(chars, offset, k + 1));
    }
}

/// The characters of `s`, one element each.
pub fn to_chars(s: &str) -> (chars: Vec<char>)
    ensures
        chars@ == s@,
{
    let mut chars: Vec<char> = Vec::new();
    for c in it: s.chars()
        invariant
            chars@ == it.seq().take(it.index() as int),
    {
        chars.push(c);
    }
    chars
}

/// The number of bytes that `c` takes in UTF-8.
pub fn utf8_width(c: char) -> (w: usize)
    ensures
        w == width_of(c),
        1 <= w <= 4,
{
    proof {
        lemma_width_of(c);
    }
    let v: u32 = c as u32;
    if v < 0x80 {
        1
    } else if v < 0x800 {
        2
    } else if v < 0x10000 {
        3
    } else {
        4
    }
}

/// Turns a byte offset into `text` into the index of the character that begins
/// there. `None` if `offset` points into the middle of a character or past the
/// end of `text`.
pub fn char_index(text: &str, offset: usize) -> (index: Option<usize>)
    ensures
        char_index_of(text@, offset as int) == match index {
            Some(k) => Some(k as int),
            None => None,
        },
        index matches Some(k) ==> is_char_index(text@, offset as int, k as int),
{
    let ghost chars = text@;
    if offset == 0 {
        proof {
            lemma_char_index_unique(chars, 0, 0);
        }
        return Some(0);
    }
    let total: usize = text.as_bytes().len();
    if offset > total {
        proof {
            assert forall|j: int| !is_char_index(chars, offset as int, j) by {
                if 0 <= j <= chars.len() {
                    lemma_byte_len_bounded(chars, j);
                }
            }
        }
        return None;
    }
    let mut pos: usize = 0;
    let mut k: usize = 0;
    for c in it: text.chars()
        invariant
            it.seq() == chars,
            chars == text@,
            total == byte_len(chars),
            k == it.index(),
            k <= pos < offset <= total,
            pos == byte_len(chars.take(k as int)),
    {
        proof {
            lemma_byte_len_step(chars, k as int);
            lemma_byte_len_bounded(chars, k + 1);
        }
        pos = pos + utf8_width(c);
        k = k + 1;
        if pos == offset {
            proof {
                lemma_char_index_unique(chars, offset as int, k as int);
            }
            return Some(k);
        }
        if pos > offset {
            proof {
                assert forall|j: int| !is_char_index(chars, offset as int, j) by {
                    if 0 <= j <= chars.len() {
                        if j < k {
                            if j < k - 1 {
                                lemma_byte_len_increases(chars, j, k - 1);
                            }
                        } else if j > k {
                            lemma_byte_len_increases(chars, k as int, j);
                        }
                    }
                }
            }
            return None;
        }
    }
    proof {
        assert(chars.take(chars.len() as int) =~= chars);
    }
    None
}

/// A span as the executable code holds it, read as a pair of integers.
pub open spec fn ints(span: Option<(usize, usize)>) -> Option<(int, int)> {
    match span {
        Some((a, b)) => Some((a as int, b as int)),
        None => None,
    }
}

/// A span of bytes of the encoded text as a span of characters: both ends
/// turned into character indices. `None` where there is no span, where an end
/// is not the beginning of a character, or where the ends are out of order.
pub open spec fn spec_span_in_chars(chars: Seq<char>, span: Option<(int, int)>) -> Option<
    (int, int),
> {
    match span {
        Some((a, b)) => match (char_index_of(chars, a), char_index_of(chars, b)) {
            (Some(i), Some(j)) => if a <= b {
                Some((i, j))
            } else {
                None
            },
            _ => None,
        },
        None => None,
    }
}

/// Turns a span of bytes of `text` into the span of characters that it covers.
pub fn span_in_chars(text: &str, span: Option<(usize, usize)>) -> (chars: Option<(usize, usize)>)
    ensures
        ints(chars) == spec_span_in_chars(text@, ints(span)),
        chars matches Some((i, j)) ==> i <= j <= text@.len(),
{
    match span {
        Some((a, b)) => {
            if a > b {
                return None;
            }
            match char_index(text, a) {
                Some(i) => match char_index(text, b) {
                    Some(j) => {
                        proof {
                            lemma_char_index_ordered(text@, a as int, b as int, i as int, j as int);
                        }
                        Some((i, j))
                    },
                    None => None,
                },
                None => None,
            }
        },
        None => None,
    }
}

/// What `String::from_utf8_lossy` makes of bytes that are not valid UTF-8: the
/// text they hold, with U+FFFD in place of each sequence that is no character.
pub uninterp spec fn lossy_decode(bytes: Seq<u8>) -> Seq<char>;

/// The text that `bytes` hold, read tolerantly: valid UTF-8 is decoded as it
/// stands, anything else as [`lossy_decode`] has it.
pub open spec fn decoded(bytes: Seq<u8>) -> Seq<char> {
    if valid_utf8(bytes) {
        decode_utf8(bytes)
    } else {
        lossy_decode(bytes)
    }
}

/// `String::from_utf8_lossy`, made into an owned `String`. Valid UTF-8 comes
/// back as the text it encodes; for other bytes the result is given a name.
#[verifier::external_body]
fn from_utf8_lossy(bytes: &[u8]) -> (text: String)
    ensures
        valid_utf8(bytes@) ==> text@ == decode_utf8(bytes@),
        !valid_utf8(bytes@) ==> text@ == lossy_decode(bytes@),
{
    String::from_utf8_lossy(bytes).into_owned()
}

/// Decodes `bytes` without ever failing: what is no UTF-8 becomes U+FFFD.
pub fn decode(bytes: &[u8]) -> (text: String)
    ensures
        text@ == decoded(bytes@),
{
    from_utf8_lossy(bytes)
}

} // verus!
