use page_extractor::preprocess::{extract_output_section, SectionError};

fn section(text: &str) -> Option<String> {
    match extract_output_section(text) {
        Ok(t) => Some(t),
        Err(SectionError::NoOutputTags) => None,
        Err(SectionError::Pattern(d)) => panic!("pattern failed: {}", d),
    }
}

#[test]
fn section_between_tags() {
    assert_eq!(section("noise <output>{\"a\": 1}</output> tail"), Some("{\"a\": 1}".to_string()));
}

#[test]
fn section_spans_lines() {
    assert_eq!(section("<output>\n{\n}\n</output>"), Some("\n{\n}\n".to_string()));
}

#[test]
fn first_section_and_first_closing_tag() {
    assert_eq!(section("<output>a</output><output>b</output>"), Some("a".to_string()));
    assert_eq!(section("</output><output>x</output>"), Some("x".to_string()));
    assert_eq!(section("<output><output>y</output>"), Some("<output>y".to_string()));
    assert_eq!(section("<output></output>"), Some(String::new()));
}

#[test]
fn a_reply_with_a_section_is_read() {
    assert!(extract_output_section("x<output>{}</output>").is_ok());
}

#[test]
fn missing_tags() {
    assert_eq!(section(""), None);
    assert_eq!(section("<output>unterminated"), None);
    assert_eq!(section("</output> before <output>"), None);
    match extract_output_section("plain") {
        Err(e) => assert_eq!(e.message(), "No output tags found"),
        Ok(_) => panic!("no tags"),
    }
}
