use switch_expect::literal::{find_first, matches_at};
use switch_expect::text::{char_index, decode, span_in_chars, to_chars, utf8_width};

#[test]
fn characters_are_laid_out_one_by_one() {
    assert_eq!(to_chars(""), Vec::<char>::new());
    assert_eq!(to_chars("aö€𝄞"), vec!['a', 'ö', '€', '𝄞']);
}

#[test]
fn width_is_the_length_of_the_encoding() {
    assert_eq!(utf8_width('\0'), 1);
    assert_eq!(utf8_width('a'), 1);
    assert_eq!(utf8_width('\u{7f}'), 1);
    assert_eq!(utf8_width('\u{80}'), 2);
    assert_eq!(utf8_width('ö'), 2);
    assert_eq!(utf8_width('\u{7ff}'), 2);
    assert_eq!(utf8_width('\u{800}'), 3);
    assert_eq!(utf8_width('€'), 3);
    assert_eq!(utf8_width('\u{ffff}'), 3);
    assert_eq!(utf8_width('\u{10000}'), 4);
    assert_eq!(utf8_width('𝄞'), 4);
    assert_eq!(utf8_width('\u{10ffff}'), 4);
    for c in ['a', 'ö', '€', '𝄞', '\u{d7ff}', '\u{e000}'] {
        assert_eq!(utf8_width(c), c.len_utf8());
    }
}

#[test]
fn byte_offsets_become_character_indices() {
    // a: 1 byte, ö: 2, €: 3, 𝄞: 4
    let text = "aö€𝄞";
    assert_eq!(char_index(text, 0), Some(0));
    assert_eq!(char_index(text, 1), Some(1));
    assert_eq!(char_index(text, 3), Some(2));
    assert_eq!(char_index(text, 6), Some(3));
    assert_eq!(char_index(text, 10), Some(4));
}

#[test]
fn offsets_inside_a_character_or_past_the_end_are_no_index() {
    let text = "aö€𝄞";
    for offset in [2, 4, 5, 7, 8, 9, 11, 12, 1000, usize::MAX] {
        assert_eq!(char_index(text, offset), None);
    }
    assert_eq!(char_index("", 0), Some(0));
    assert_eq!(char_index("", 1), None);
}

#[test]
fn character_index_agrees_with_the_standard_library() {
    let text = "x€y𝄞zöö";
    for offset in 0..=text.len() + 2 {
        let expected = if text.is_char_boundary(offset) {
            Some(text[..offset].chars().count())
        } else {
            None
        };
        assert_eq!(char_index(text, offset), expected);
    }
}

#[test]
fn byte_spans_become_character_spans() {
    let text = "aö€𝄞";
    assert_eq!(span_in_chars(text, Some((1, 6))), Some((1, 3)));
    assert_eq!(span_in_chars(text, Some((0, 10))), Some((0, 4)));
    assert_eq!(span_in_chars(text, Some((3, 3))), Some((2, 2)));
    assert_eq!(span_in_chars(text, None), None);
}

#[test]
fn spans_that_split_a_character_or_run_backwards_are_no_span() {
    let text = "aö€𝄞";
    assert_eq!(span_in_chars(text, Some((2, 6))), None);
    assert_eq!(span_in_chars(text, Some((1, 5))), None);
    assert_eq!(span_in_chars(text, Some((6, 1))), None);
    assert_eq!(span_in_chars(text, Some((0, 11))), None);
}

#[test]
fn valid_bytes_decode_to_their_text() {
    assert_eq!(decode(b""), "");
    assert_eq!(decode(b"PING\n"), "PING\n");
    assert_eq!(decode("aö€𝄞".as_bytes()), "aö€𝄞");
    assert_eq!(decode(&[0x1b, b'[', b'0', b'm']), "\u{1b}[0m");
}

#[test]
fn malformed_bytes_decode_to_the_replacement_character() {
    assert_eq!(decode(&[b'f', 0xff, b'o']), "f\u{fffd}o");
    assert_eq!(decode(&[0xc3]), "\u{fffd}");
    assert_eq!(decode(&[0xe2, 0x82]), "\u{fffd}");
    assert_eq!(decode(&[b'a', 0x80, 0x80, b'b']), "a\u{fffd}\u{fffd}b");
}

#[test]
fn first_occurrence_in_characters() {
    let hay = to_chars("ababc");
    assert_eq!(find_first(&hay, &to_chars("ab")), Some(0));
    assert_eq!(find_first(&hay, &to_chars("ba")), Some(1));
    assert_eq!(find_first(&hay, &to_chars("c")), Some(4));
    assert_eq!(find_first(&hay, &to_chars("ababc")), Some(0));
    assert_eq!(find_first(&hay, &to_chars("")), Some(0));
    assert_eq!(find_first(&hay, &to_chars("x")), None);
    assert_eq!(find_first(&hay, &to_chars("ababcc")), None);
    assert_eq!(find_first(&[], &to_chars("")), Some(0));
    assert_eq!(find_first(&[], &to_chars("a")), None);
}

#[test]
fn occurrence_at_a_given_place() {
    let hay = to_chars("ababc");
    let ab = to_chars("ab");
    assert!(matches_at(&hay, &ab, 0));
    assert!(!matches_at(&hay, &ab, 1));
    assert!(matches_at(&hay, &ab, 2));
    assert!(!matches_at(&hay, &ab, 3));
    assert!(!matches_at(&hay, &ab, 4));
    assert!(!matches_at(&hay, &ab, 5));
    assert!(!matches_at(&hay, &ab, usize::MAX));
    assert!(matches_at(&hay, &[], 5));
    assert!(!matches_at(&hay, &[], 6));
}
