use bunge_bits::cleaner::clean_transcript;

#[test]
fn removes_number_chains() {
    let input = "1.0-2-1.0-1-1-1-1-1-1.0-1\nSome actual content.";
    let output = clean_transcript(input.to_string());
    assert!(!output.contains("1.0-2-1.0"));
    assert!(output.contains("Some actual content"));
}

#[test]
fn removes_numeric_lines() {
    let input = "123.0-1-1-1-1\nNormal line";
    let output = clean_transcript(input.to_string());
    assert!(output.contains("Normal line"));
    assert!(!output.contains("123.0"));
}

#[test]
fn normalizes_whitespace() {
    let input = "Too    many     spaces.";
    let output = clean_transcript(input.to_string());
    assert_eq!(output, "Too many spaces.");
}

#[test]
fn cleaner_keeps_real_content_after_a_chain() {
    let output = clean_transcript("1.0-2-1.0-1-1-1-1-1-1.0-1\nReal content.".to_string());
    assert_eq!(output, "Real content.");
}

#[test]
fn cleaner_empties_a_twelve_character_digit_line() {
    let output = clean_transcript("Before\n123456789012\nAfter".to_string());
    assert_eq!(output, "Before\n\nAfter");
}

#[test]
fn cleaner_collapses_spaces() {
    assert_eq!(clean_transcript("a    b".to_string()), "a b");
}

#[test]
fn cleaner_keeps_short_chains_and_lines() {
    assert_eq!(clean_transcript("Vote 1.2.3.4.5 passed".to_string()), "Vote 1.2.3.4.5 passed");
    assert_eq!(clean_transcript("Page 1-2-3-4-5-6 ends".to_string()), "Page ends");
    assert_eq!(clean_transcript("12345\nok".to_string()), "12345\nok");
}

#[test]
fn cleaner_normalizes_line_endings_and_tabs() {
    assert_eq!(clean_transcript("  one\r\ntwo\tthree  \n".to_string()), "one\ntwo three");
}

#[test]
fn cleaner_of_empty_text_is_empty() {
    assert_eq!(clean_transcript(String::new()), "");
    assert_eq!(clean_transcript(" \t\r\n ".to_string()), "");
}
