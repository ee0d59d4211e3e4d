use switch_expect::hay::{find, ReadUntil};
use switch_expect::pattern::Pattern;

fn literal(text: &str) -> ReadUntil {
    ReadUntil::String(text.to_string())
}

fn pattern(source: &str) -> ReadUntil {
    ReadUntil::Regex(Pattern::new(source).unwrap())
}

#[test]
fn literal_is_found_at_its_first_occurrence() {
    assert_eq!(find(&literal("ab"), "ababc", false), Some((0, 2)));
    assert_eq!(find(&literal("ab"), "xxabab", false), Some((2, 4)));
    assert_eq!(find(&literal("ab"), "xxabab", true), Some((2, 4)));
    assert_eq!(find(&literal("c"), "ababc", false), Some((4, 5)));
}

#[test]
fn literal_that_overlaps_itself_is_found_at_the_first_start() {
    assert_eq!(find(&literal("aa"), "baaaa", false), Some((1, 3)));
    assert_eq!(find(&literal("aba"), "ababa", false), Some((0, 3)));
}

#[test]
fn literal_that_is_absent_is_not_found() {
    assert_eq!(find(&literal("abd"), "ababc", false), None);
    assert_eq!(find(&literal("abd"), "ababc", true), None);
    assert_eq!(find(&literal("ababcd"), "ababc", false), None);
    assert_eq!(find(&literal("a"), "", false), None);
}

#[test]
fn literal_equal_to_the_buffer_matches_all_of_it() {
    assert_eq!(find(&literal("ababc"), "ababc", false), Some((0, 5)));
}

#[test]
fn empty_literal_matches_at_the_start() {
    assert_eq!(find(&literal(""), "ababc", false), Some((0, 0)));
    assert_eq!(find(&literal(""), "", false), Some((0, 0)));
}

#[test]
fn literal_positions_count_characters() {
    // Each of the first three characters takes two bytes.
    assert_eq!(find(&literal("xy"), "äöüxy", false), Some((3, 5)));
    assert_eq!(find(&literal("ü"), "äöüxy", false), Some((2, 3)));
    assert_eq!(find(&literal("€uro"), "1 €uro", false), Some((2, 6)));
}

#[test]
fn pattern_matches_where_the_expression_first_matches() {
    assert_eq!(find(&pattern("[0-9]+"), "abc123def456", false), Some((3, 6)));
    assert_eq!(find(&pattern("b+"), "abbbc", true), Some((1, 4)));
    assert_eq!(find(&pattern("[0-9]+"), "abc", false), None);
}

#[test]
fn pattern_positions_count_characters() {
    assert_eq!(find(&pattern("[0-9]+"), "äöü123", false), Some((3, 6)));
    assert_eq!(find(&pattern("ö.€"), "aö𝄞€b", false), Some((1, 4)));
}

#[test]
fn pattern_is_not_anchored_unless_it_says_so() {
    assert_eq!(find(&pattern("b"), "abc", false), Some((1, 2)));
    assert_eq!(find(&pattern("^b"), "abc", false), None);
    assert_eq!(find(&pattern("c$"), "abc", false), Some((2, 3)));
}

#[test]
fn pattern_may_match_the_empty_text() {
    assert_eq!(find(&pattern("x*"), "abc", false), Some((0, 0)));
}

#[test]
fn end_of_stream_matches_only_once_the_stream_has_ended() {
    assert_eq!(find(&ReadUntil::EOF, "hello", false), None);
    assert_eq!(find(&ReadUntil::EOF, "", false), None);
    assert_eq!(find(&ReadUntil::EOF, "hello", true), Some((0, 5)));
    assert_eq!(find(&ReadUntil::EOF, "", true), Some((0, 0)));
    assert_eq!(find(&ReadUntil::EOF, "äöü", true), Some((0, 3)));
}

#[test]
fn count_is_met_once_enough_is_buffered() {
    assert_eq!(find(&ReadUntil::NBytes(3), "hello", false), Some((0, 3)));
    assert_eq!(find(&ReadUntil::NBytes(5), "hello", false), Some((0, 5)));
    assert_eq!(find(&ReadUntil::NBytes(6), "hello", false), None);
    assert_eq!(find(&ReadUntil::NBytes(3), "hello", true), Some((0, 3)));
    assert_eq!(find(&ReadUntil::NBytes(0), "", false), Some((0, 0)));
    assert_eq!(find(&ReadUntil::NBytes(0), "hello", false), Some((0, 0)));
}

#[test]
fn short_buffer_is_taken_whole_at_the_end_of_the_stream() {
    assert_eq!(find(&ReadUntil::NBytes(9), "hello", true), Some((0, 5)));
    assert_eq!(find(&ReadUntil::NBytes(9), "", true), None);
    assert_eq!(find(&ReadUntil::NBytes(9), "", false), None);
}

#[test]
fn count_counts_characters() {
    assert_eq!(find(&ReadUntil::NBytes(3), "äöü", false), Some((0, 3)));
    assert_eq!(find(&ReadUntil::NBytes(4), "äöü", false), None);
    assert_eq!(find(&ReadUntil::NBytes(4), "äöü", true), Some((0, 3)));
}

#[test]
fn alternatives_pick_the_leftmost_match() {
    let needle = ReadUntil::Any(vec![literal("bc"), literal("ab")]);
    assert_eq!(find(&needle, "ababc", false), Some((0, 2)));
    let needle = ReadUntil::Any(vec![literal("ab"), literal("bc")]);
    assert_eq!(find(&needle, "ababc", false), Some((0, 2)));
    let needle = ReadUntil::Any(vec![literal("c"), literal("ba"), literal("zz")]);
    assert_eq!(find(&needle, "ababc", false), Some((1, 3)));
}

#[test]
fn alternatives_from_the_same_start_pick_the_shortest() {
    let needle = ReadUntil::Any(vec![literal("abab"), literal("ab")]);
    assert_eq!(find(&needle, "ababc", false), Some((0, 2)));
    let needle = ReadUntil::Any(vec![literal("ab"), literal("abab")]);
    assert_eq!(find(&needle, "ababc", false), Some((0, 2)));
    let needle = ReadUntil::Any(vec![ReadUntil::NBytes(4), ReadUntil::NBytes(2), literal("a")]);
    assert_eq!(find(&needle, "ababc", false), Some((0, 1)));
}

#[test]
fn alternatives_without_a_match_match_nothing() {
    let needle = ReadUntil::Any(vec![literal("x"), pattern("[0-9]"), ReadUntil::EOF]);
    assert_eq!(find(&needle, "ababc", false), None);
    assert_eq!(find(&ReadUntil::Any(vec![]), "ababc", false), None);
    assert_eq!(find(&ReadUntil::Any(vec![]), "ababc", true), None);
}

#[test]
fn alternatives_see_the_end_of_the_stream() {
    let needle = ReadUntil::Any(vec![literal("x"), ReadUntil::EOF]);
    assert_eq!(find(&needle, "ababc", true), Some((0, 5)));
    let needle = ReadUntil::Any(vec![literal("ab"), ReadUntil::EOF]);
    assert_eq!(find(&needle, "ababc", true), Some((0, 2)));
}

#[test]
fn alternatives_may_be_nested() {
    let inner = ReadUntil::Any(vec![literal("c"), pattern("ba")]);
    let needle = ReadUntil::Any(vec![literal("zz"), inner, literal("abc")]);
    assert_eq!(find(&needle, "ababc", false), Some((1, 3)));
}

#[test]
fn mixed_alternatives_are_ordered_by_start_then_end() {
    let needle = ReadUntil::Any(vec![pattern("[a-z]+"), literal("ab"), ReadUntil::NBytes(3)]);
    assert_eq!(find(&needle, "abcd1", false), Some((0, 2)));
}

#[test]
fn the_same_search_gives_the_same_result() {
    let needle = ReadUntil::Any(vec![pattern("b+"), literal("bb"), literal("b")]);
    let first = find(&needle, "abbbc", false);
    for _ in 0..10 {
        assert_eq!(find(&needle, "abbbc", false), first);
    }
    assert_eq!(first, Some((1, 2)));
}

#[test]
fn a_copied_needle_matches_alike() {
    let needle = ReadUntil::Any(vec![pattern("[0-9]+"), literal("ab"), ReadUntil::NBytes(7)]);
    let copy = needle.clone();
    for buffer in ["", "ab", "12ab", "xxxxxxx", "x1", "äab"] {
        for eof in [false, true] {
            assert_eq!(find(&copy, buffer, eof), find(&needle, buffer, eof));
        }
    }
}
