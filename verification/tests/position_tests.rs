use cdm::lsp::{byte_offset_to_lsp_position, byte_span_to_lsp_range, lines_of, lsp_position_to_byte_offset, Position};

#[test]
fn test_ascii_text() {
    let text = "Hello\nWorld";
    assert_eq!(lsp_position_to_byte_offset(text, Position { line: 0, character: 0 }), 0);
    assert_eq!(lsp_position_to_byte_offset(text, Position { line: 0, character: 5 }), 5);
    assert_eq!(lsp_position_to_byte_offset(text, Position { line: 1, character: 0 }), 6);
    assert_eq!(lsp_position_to_byte_offset(text, Position { line: 1, character: 5 }), 11);
}

#[test]
fn test_emoji() {
    let text = "Hello 😀 World";
    assert_eq!(lsp_position_to_byte_offset(text, Position { line: 0, character: 8 }), 10);
}

#[test]
fn test_byte_to_position() {
    let text = "Hello\nWorld";
    assert_eq!(byte_offset_to_lsp_position(text, 0), Position { line: 0, character: 0 });
    assert_eq!(byte_offset_to_lsp_position(text, 5), Position { line: 0, character: 5 });
    assert_eq!(byte_offset_to_lsp_position(text, 6), Position { line: 1, character: 0 });
    assert_eq!(byte_offset_to_lsp_position(text, 11), Position { line: 1, character: 5 });
}

#[test]
fn test_byte_to_position_emoji() {
    let text = "Hi 😀";
    assert_eq!(byte_offset_to_lsp_position(text, 3), Position { line: 0, character: 3 });
    assert_eq!(byte_offset_to_lsp_position(text, 7), Position { line: 0, character: 5 });
}

#[test]
fn test_span_to_range() {
    let text = "User {\n  name: string\n}";
    let range = byte_span_to_lsp_range(text, 0, 4);
    assert_eq!(range.start, Position { line: 0, character: 0 });
    assert_eq!(range.end, Position { line: 0, character: 4 });
    let range = byte_span_to_lsp_range(text, 9, 13);
    assert_eq!(range.start, Position { line: 1, character: 2 });
    assert_eq!(range.end, Position { line: 1, character: 6 });
}

#[test]
fn offset_past_the_end_is_the_line_after_the_last() {
    let text = "Hello\nWorld";
    assert_eq!(byte_offset_to_lsp_position(text, 50), Position { line: 2, character: 0 });
}

#[test]
fn position_past_the_end_gives_text_length_plus_one() {
    let text = "ab\ncd";
    assert_eq!(lsp_position_to_byte_offset(text, Position { line: 7, character: 0 }), 6);
    assert_eq!(lsp_position_to_byte_offset(text, Position { line: 0, character: 9 }), 2);
}

#[test]
fn lines_follow_str_lines() {
    for text in ["", "a", "a\n", "a\r\nb", "a\n\nb\n", "x\r", "\n"] {
        let got: Vec<String> = lines_of(text).into_iter().map(|l| l.into_iter().collect()).collect();
        let want: Vec<String> = text.lines().map(|l| l.to_string()).collect();
        assert_eq!(got, want, "text {:?}", text);
    }
}

#[test]
fn offsets_at_character_boundaries_round_trip() {
    let text = "Hi 😀 x\nWörld";
    for offset in [0usize, 1, 2, 3, 7, 8, 9, 10, 11, 13, 14, 15, 16] {
        let pos = byte_offset_to_lsp_position(text, offset);
        assert_eq!(lsp_position_to_byte_offset(text, pos), offset, "offset {}", offset);
    }
    assert_eq!(byte_offset_to_lsp_position(text, 7), Position { line: 0, character: 5 });
    assert_eq!(byte_offset_to_lsp_position(text, 13), Position { line: 1, character: 2 });
    assert_eq!(byte_offset_to_lsp_position(text, 14), Position { line: 1, character: 3 });
}
