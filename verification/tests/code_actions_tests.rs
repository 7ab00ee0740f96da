use cdm::lsp::{byte_offset_to_position, extract_plugin_name, extract_text_at_range, ranges_overlap, Position, Range};

#[test]
fn test_ranges_overlap() {
    let range1 = Range::new(Position::new(0, 0), Position::new(0, 10));
    let range2 = Range::new(Position::new(0, 5), Position::new(0, 15));
    assert!(ranges_overlap(&range1, &range2));
    let range3 = Range::new(Position::new(0, 0), Position::new(0, 5));
    let range4 = Range::new(Position::new(0, 10), Position::new(0, 15));
    assert!(!ranges_overlap(&range3, &range4));
}

#[test]
fn test_ranges_overlap_exact_match() {
    let range1 = Range::new(Position::new(0, 0), Position::new(0, 10));
    let range2 = Range::new(Position::new(0, 0), Position::new(0, 10));
    assert!(ranges_overlap(&range1, &range2));
}

#[test]
fn test_ranges_overlap_touching_boundaries() {
    let range1 = Range::new(Position::new(0, 0), Position::new(0, 5));
    let range2 = Range::new(Position::new(0, 5), Position::new(0, 10));
    assert!(ranges_overlap(&range1, &range2));
}

#[test]
fn test_ranges_overlap_multiline() {
    let range1 = Range::new(Position::new(0, 0), Position::new(2, 5));
    let range2 = Range::new(Position::new(1, 0), Position::new(3, 0));
    assert!(ranges_overlap(&range1, &range2));
}

#[test]
fn test_ranges_no_overlap_different_lines() {
    let range1 = Range::new(Position::new(0, 0), Position::new(0, 10));
    let range2 = Range::new(Position::new(2, 0), Position::new(2, 10));
    assert!(!ranges_overlap(&range1, &range2));
}

#[test]
fn test_byte_offset_to_position_simple() {
    let text = "Hello\nWorld\n";
    let pos = byte_offset_to_position(text, 6);
    assert_eq!(pos.line, 1);
    assert_eq!(pos.character, 0);
}

#[test]
fn test_byte_offset_to_position_start() {
    let text = "Hello\nWorld\n";
    let pos = byte_offset_to_position(text, 0);
    assert_eq!(pos.line, 0);
    assert_eq!(pos.character, 0);
}

#[test]
fn test_byte_offset_to_position_mid_line() {
    let text = "Hello\nWorld\n";
    let pos = byte_offset_to_position(text, 3);
    assert_eq!(pos.line, 0);
    assert_eq!(pos.character, 3);
}

#[test]
fn test_extract_text_at_range_single_line() {
    let text = "Hello World\nNext line";
    let range = Range::new(Position::new(0, 0), Position::new(0, 5));
    assert_eq!(extract_text_at_range(text, &range), Some("Hello".to_string()));
}

#[test]
fn test_extract_text_at_range_mid_word() {
    let text = "Hello World\nNext line";
    let range = Range::new(Position::new(0, 6), Position::new(0, 11));
    assert_eq!(extract_text_at_range(text, &range), Some("World".to_string()));
}

#[test]
fn test_extract_text_at_range_invalid_line() {
    let text = "Hello World";
    let range = Range::new(Position::new(10, 0), Position::new(10, 5));
    assert_eq!(extract_text_at_range(text, &range), None);
}

#[test]
fn test_extract_text_at_range_out_of_bounds() {
    let text = "Hello";
    let range = Range::new(Position::new(0, 0), Position::new(0, 100));
    assert_eq!(extract_text_at_range(text, &range), None);
}

#[test]
fn test_extract_plugin_name_from_cache_message() {
    let msg = "E401: Plugin not found: 'typescript' - Plugin 'typescript' not found in cache. Run 'cdm build' to download it.";
    assert_eq!(extract_plugin_name(msg), Some("typescript".to_string()));
}

#[test]
fn test_extract_plugin_name_from_not_found_message() {
    let msg = "Plugin not found: 'sql'";
    assert_eq!(extract_plugin_name(msg), Some("sql".to_string()));
}

#[test]
fn test_extract_plugin_name_no_match() {
    let msg = "W005: Model is missing entity ID";
    assert_eq!(extract_plugin_name(msg), None);
}

#[test]
fn extract_plugin_name_without_closing_quote() {
    assert_eq!(extract_plugin_name("Plugin not found: 'sql"), None);
}

#[test]
fn extract_text_at_range_second_line_and_multiline() {
    let text = "Hello World\nNext line";
    let r = Range::new(Position::new(1, 0), Position::new(1, 4));
    assert_eq!(extract_text_at_range(text, &r), Some("Next".to_string()));
    let multi = Range::new(Position::new(0, 0), Position::new(1, 4));
    assert_eq!(extract_text_at_range(text, &multi), None);
}
