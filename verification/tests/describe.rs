use switch_expect::describe::decimal_text;
use switch_expect::hay::ReadUntil;
use switch_expect::pattern::Pattern;

#[test]
fn numbers_are_written_in_decimal() {
    assert_eq!(decimal_text(0), "0");
    assert_eq!(decimal_text(7), "7");
    assert_eq!(decimal_text(10), "10");
    assert_eq!(decimal_text(128), "128");
    assert_eq!(decimal_text(9_007_199), "9007199");
    assert_eq!(decimal_text(usize::MAX), usize::MAX.to_string());
    for n in 0..2000usize {
        assert_eq!(decimal_text(n), n.to_string());
    }
}

#[test]
fn a_text_stands_in_quotes() {
    assert_eq!(ReadUntil::String("login: ".to_string()).describe(), "\"login: \"");
    assert_eq!(ReadUntil::String(String::new()).describe(), "\"\"");
    assert_eq!(ReadUntil::String("\n\n".to_string()).describe(), "\"\n\n\"");
    assert_eq!(ReadUntil::String("x".to_string()).describe(), "\"x\"");
}

#[test]
fn a_lone_line_end_is_spelled_out() {
    assert_eq!(ReadUntil::String("\n".to_string()).describe(), "\\n (newline)");
    assert_eq!(ReadUntil::String("\r".to_string()).describe(), "\\r (carriage return)");
}

#[test]
fn a_pattern_shows_its_source() {
    let needle = ReadUntil::Regex(Pattern::new("[0-9]+ ok").unwrap());
    assert_eq!(needle.describe(), "Regex: \"[0-9]+ ok\"");
}

#[test]
fn end_of_stream_and_counts_describe_themselves() {
    assert_eq!(ReadUntil::EOF.describe(), "EOF (End of File)");
    assert_eq!(ReadUntil::NBytes(0).describe(), "reading 0 bytes");
    assert_eq!(ReadUntil::NBytes(128).describe(), "reading 128 bytes");
}

#[test]
fn alternatives_are_listed_with_commas() {
    let needle = ReadUntil::Any(vec![
        ReadUntil::String("$ ".to_string()),
        ReadUntil::EOF,
        ReadUntil::NBytes(3),
    ]);
    assert_eq!(needle.describe(), "\"$ \", EOF (End of File), reading 3 bytes");
    assert_eq!(ReadUntil::Any(vec![]).describe(), "");
    assert_eq!(ReadUntil::Any(vec![ReadUntil::EOF]).describe(), "EOF (End of File)");
    let nested = ReadUntil::Any(vec![needle.clone(), ReadUntil::String("\n".to_string())]);
    assert_eq!(
        nested.describe(),
        "\"$ \", EOF (End of File), reading 3 bytes, \\n (newline)"
    );
}
