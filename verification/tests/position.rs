use text_language_server::buffer::Buffer;
use text_language_server::protocol::{Position, Range};
use text_language_server::unicode::Encoding;

#[test]
fn test_position_ascii() {
    let text = Buffer::from_str("Hello\nworld\ntest");

    // First line
    assert_eq!(text.position(Position::new(0, 0)), 0);
    assert_eq!(text.position(Position::new(0, 1)), 1);
    assert_eq!(text.position(Position::new(0, 4)), 4);
    assert_eq!(text.position(Position::new(0, 5)), 5);
    assert_eq!(text.position(Position::new(0, 6)), 5);

    // Second line
    assert_eq!(text.position(Position::new(1, 0)), 6);
    assert_eq!(text.position(Position::new(1, 3)), 9);
    assert_eq!(text.position(Position::new(1, 4)), 10);

    // Third line
    assert_eq!(text.position(Position::new(2, 0)), 12);
    assert_eq!(text.position(Position::new(2, 3)), 15);
}

#[test]
fn test_position_unicode() {
    // Text with Unicode characters: emoji and non-ASCII characters
    let raw = "Hello 😊\n北京 Shanghai\n←↑→↓";
    let text = Buffer::from_str(raw);

    // First line (with emoji is a single character but counts as one position)
    assert_eq!(text.position(Position::new(0, 0)), 0);
    assert_eq!(raw.as_bytes()[5], b' ');
    assert_eq!(text.position(Position::new(0, 6)), 6); // Position start of emoji
    assert_eq!(text.position(Position::new(0, 9)), 10); // Position end of emoji
    assert_eq!(text.position(Position::new(0, 10)), 10);
    assert_eq!(text.position(Position::new(1, 0)), 11);
    assert_eq!(text.position(Position::new(2, 0)), 27);
}

#[test]
fn test_position_empty_text() {
    let text = Buffer::from_str("");
    assert_eq!(text.position(Position::new(0, 0)), 0);
}

#[test]
fn test_position_single_line() {
    let text = Buffer::from_str("Single line with no newlines");
    assert_eq!(text.position(Position::new(0, 10)), 10);
    assert_eq!(text.position(Position::new(0, 27)), 27); // Last character
    assert_eq!(text.position(Position::new(0, 28)), 28); // One character out of bounds for exclusive upper bound
    assert_eq!(text.position(Position::new(0, 29)), 28); // Two characters out of bounds clipped
}

#[test]
fn test_position_new_line() {
    let raw = "First line\n";
    let text = Buffer::from_str(raw);
    assert_eq!(text.position(Position::new(0, 0)), 0);
    assert_eq!(text.position(Position::new(0, 5)), 5);
    assert_eq!(text.position(Position::new(0, 9)), 9);
    assert_eq!(raw.as_bytes()[9], b'e');
    assert_eq!(text.position(Position::new(0, 10)), 10);
    assert_eq!(text.position(Position::new(0, 11)), 10);
    assert_eq!(text.position(Position::new(1, 0)), 11);
    assert_eq!(text.position(Position::new(1, 1)), 11);
    assert_eq!(raw.as_bytes()[10], b'\n');
}

#[test]
fn test_range() {
    let raw = r#"{ "text": "hello\n👋\n👋world" }"#;
    let text = Buffer::from_str(raw);
    assert_eq!(raw.lines().count(), 1);
    assert_eq!(
        text.range(Range {
            start: Position::new(0, 29),
            end: Position::new(0, 29),
        }),
        (33, 33)
    );
    assert_eq!(raw.as_bytes()[33], b'"');
    let mut s = String::from(raw);
    s.replace_range(33..33, " ");
    assert_eq!(s.as_str(), r#"{ "text": "hello\n👋\n👋world " }"#);
}

#[test]
fn test_range_unescape() {
    let raw = r#"{ "text": "hello\n👋\n👋world" }"#;
    let text = Buffer::from_str(raw);
    assert_eq!(
        text.range(Range {
            start: Position::new(0, 16),
            end: Position::new(0, 18),
        }),
        (16, 18)
    );
    assert_eq!(raw.as_bytes()[16], b'\\');
    assert_eq!(raw.as_bytes()[17], b'n');
    let mut s = String::from(raw);
    s.replace_range(16..18, "\n");
    assert_eq!(s.as_str(), "{ \"text\": \"hello\n👋\\n👋world\" }");
    let raw = "{ \"text\": \"hello\n👋\\n👋world\" }";
    let text = Buffer::from_str(raw);
    assert_eq!(
        text.range(Range {
            start: Position::new(1, 2),
            end: Position::new(1, 4),
        }),
        (21, 23)
    );
    assert_eq!(raw.as_bytes()[21], b'\\');
    assert_eq!(raw.as_bytes()[22], b'n');
    let mut s = String::from(raw);
    s.replace_range(21..23, "\n");
    assert_eq!(s.as_str(), "{ \"text\": \"hello\n👋\n👋world\" }");
}

#[test]
fn test_range_unescape_line_end() {
    let raw = "\\n";
    let text = Buffer::from_str(raw);
    assert_eq!(
        text.range(Range {
            start: Position::new(0, 0),
            end: Position::new(0, 2),
        }),
        (0, 2)
    );
    assert_eq!(raw.as_bytes()[0], b'\\');
    assert_eq!(raw.as_bytes()[1], b'n');
    let mut s = String::from(raw);
    s.replace_range(0..2, "\n");
    assert_eq!(s.as_str(), "\n");
}

#[test]
fn test_range_unescape_rope() {
    let text = Buffer::from_str(r#"{ "text": "hello\n👋\n👋world" }"#);
    assert_eq!(
        text.range(Range {
            start: Position::new(0, 16),
            end: Position::new(0, 18),
        }),
        (16, 18)
    );
    let mut s = text.to_string();
    s.replace_range(16..18, "\n");
    assert_eq!(s.as_str(), "{ \"text\": \"hello\n👋\\n👋world\" }");
    let text = Buffer::from_str("{ \"text\": \"hello\n👋\\n👋world\" }");
    assert_eq!(
        text.range(Range {
            start: Position::new(1, 2),
            end: Position::new(1, 4),
        }),
        (21, 23)
    );
    let mut s = text.to_string();
    s.replace_range(21..23, "\n");
    assert_eq!(s.as_str(), "{ \"text\": \"hello\n👋\n👋world\" }");
}

#[test]
fn test_range_unescape_line_end_rope() {
    let text = Buffer::from_str("\\n");
    assert_eq!(
        text.range(Range {
            start: Position::new(0, 0),
            end: Position::new(0, 2),
        }),
        (0, 2)
    );
    let mut s = text.to_string();
    s.replace_range(0..2, "\n");
    assert_eq!(s.as_str(), "\n");
}

#[test]
fn scenario_ascii_offsets() {
    let text = Buffer::from_str("Hello\nworld\ntest");
    assert_eq!(text.position(Position::new(1, 0)), 6);
    assert_eq!(text.position(Position::new(2, 3)), 15);
}

#[test]
fn scenario_surrogate_pair_offsets() {
    let text = Buffer::from_str("Hello 😊\n北京 Shanghai");
    // Start of the emoji's UTF-8 encoding.
    assert_eq!(text.position(Position::new(0, 6)), 6);
    // An index between the two UTF-16 halves consumes the whole pair.
    assert_eq!(text.position(Position::new(0, 7)), 10);
}

#[test]
fn surrogate_pair_never_split() {
    let text = Buffer::from_str("Hello 😊 end");
    let before = text.position(Position::new(0, 6));
    let mid = text.position(Position::new(0, 7));
    let after = text.position(Position::new(0, 8));
    assert_eq!(before, 6);
    assert_eq!(mid, after);
    assert_eq!(after, 10);
}

#[test]
fn round_trip_positions() {
    let text = Buffer::from_str("Hello 😊\n北京 Shanghai\n\ntail");
    for &(line, character) in &[
        (0u32, 0u32),
        (0, 5),
        (0, 6),
        (0, 8),
        (1, 0),
        (1, 2),
        (1, 11),
        (2, 0),
        (3, 4),
    ] {
        let p = Position::new(line, character);
        let off = text.position(p);
        let back = text.offset_to_position(off);
        assert_eq!(back, p, "round trip failed for {:?}", p);
    }
}

#[test]
fn full_range_end_is_document_end() {
    for raw in &[
        "",
        "one line",
        "two\nlines",
        "trailing\n",
        "crlf\r\nlines",
        "crlf at end\r\n",
        "emoji 😊\nand 👋",
    ] {
        let text = Buffer::from_str(raw);
        let full = text.range_full();
        assert_eq!(full.start, Position::new(0, 0));
        assert_eq!(text.position(full.end), text.len(), "for {:?}", raw);
    }
}

#[test]
fn full_range_trailing_terminator_opens_empty_line() {
    let text = Buffer::from_str("First line\n");
    let full = text.range_full();
    assert_eq!(full.end, Position::new(1, 0));
    let text = Buffer::from_str("no terminator");
    assert_eq!(text.range_full().end, Position::new(0, 13));
}

#[test]
fn offset_inside_scalar_snaps_down() {
    let text = Buffer::from_str("Hello 😊 end");
    // Byte 7 lies inside the emoji's four-byte encoding.
    assert_eq!(text.offset_to_position(7), Position::new(0, 6));
    assert_eq!(text.offset_to_position(10), Position::new(0, 8));
    // An offset past the end clamps to the end.
    assert_eq!(text.offset_to_position(10_000), Position::new(0, 12));
}

#[test]
fn round_trip_positions_utf8_encoding() {
    let text = Buffer::from_str("Hello 😊\n北京 Shanghai");
    for &(line, character) in &[(0u32, 0u32), (0, 6), (0, 10), (1, 0), (1, 3), (1, 6)] {
        let p = Position::new(line, character);
        let off = text.position_in(Encoding::Utf8, p);
        let back = text.offset_to_position_in(Encoding::Utf8, off);
        assert_eq!(back, p, "round trip failed for {:?}", p);
    }
}

#[test]
fn crlf_counts_its_bytes() {
    let text = Buffer::from_str("ab\r\ncd");
    // The terminator's two bytes both count toward the next line's offset.
    assert_eq!(text.position(Position::new(1, 0)), 4);
    // The character clamp excludes the terminator.
    assert_eq!(text.position(Position::new(0, 9)), 2);
}

#[test]
fn utf8_encoding_counts_bytes() {
    let text = Buffer::from_str("北京x\nrest");
    // Under UTF-8 counting, `character` is a byte count.
    assert_eq!(text.position_in(Encoding::Utf8, Position::new(0, 3)), 3);
    assert_eq!(text.position_in(Encoding::Utf8, Position::new(0, 6)), 6);
    assert_eq!(text.position_in(Encoding::Utf8, Position::new(0, 7)), 7);
    // A byte count inside a scalar consumes it whole.
    assert_eq!(text.position_in(Encoding::Utf8, Position::new(0, 1)), 3);
    // Under UTF-16 counting the same line has three units.
    assert_eq!(text.position(Position::new(0, 3)), 7);
}
