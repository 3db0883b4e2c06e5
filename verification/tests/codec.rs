use godot_vim::codec::{
    byte_offset_to_char_col, byte_to_line_col, char_col_to_byte_offset, char_col_to_grapheme_col,
    find_line_start, i32_to_usize, line_col_to_byte, line_text_at, usize_to_i32, LineIndex,
};
use godot_vim::types::CharLineCol;
use unicode_segmentation::UnicodeSegmentation;
// ─── LineIndex tests ──────────────────────────────────────────────

#[test]
fn line_index_simple() {
    let text = "hello\nworld\n";
    let idx = LineIndex::new(text);
    assert_eq!(idx.line_count(), 3); // "hello", "world", ""
    assert_eq!(idx.line_start(0), Some(0));
    assert_eq!(idx.line_start(1), Some(6));
    assert_eq!(idx.line_start(2), Some(12));
    assert_eq!(idx.line_start(3), None);
}

#[test]
fn line_index_line_col_to_byte() {
    let text = "hello\nworld\n";
    let idx = LineIndex::new(text);
    assert_eq!(idx.line_col_to_byte(text, 0, 0), 0);
    assert_eq!(idx.line_col_to_byte(text, 0, 3), 3);
    assert_eq!(idx.line_col_to_byte(text, 1, 0), 6);
    assert_eq!(idx.line_col_to_byte(text, 1, 2), 8);
}

#[test]
fn line_index_byte_to_line_col() {
    let text = "hello\nworld\n";
    let idx = LineIndex::new(text);
    assert_eq!(idx.byte_to_line_col(text, 0), CharLineCol::new(0, 0));
    assert_eq!(idx.byte_to_line_col(text, 3), CharLineCol::new(0, 3));
    assert_eq!(idx.byte_to_line_col(text, 6), CharLineCol::new(1, 0));
    assert_eq!(idx.byte_to_line_col(text, 8), CharLineCol::new(1, 2));
}

#[test]
fn line_index_roundtrip_unicode() {
    let text = "hëllo\n日本語\na😀b\n";
    let idx = LineIndex::new(text);
    for (offset, _) in text.char_indices() {
        let pos = idx.byte_to_line_col(text, offset);
        let back = idx.line_col_to_byte(text, pos.line, pos.col);
        assert_eq!(back, offset, "roundtrip failed at offset {offset}");
    }
}

#[test]
fn line_index_empty() {
    let text = "";
    let idx = LineIndex::new(text);
    assert_eq!(idx.line_count(), 1);
    assert_eq!(idx.line_col_to_byte(text, 0, 0), 0);
    assert_eq!(idx.byte_to_line_col(text, 0), CharLineCol::new(0, 0));
}

#[test]
fn line_index_clamp_beyond_end() {
    let text = "hello\nworld";
    let idx = LineIndex::new(text);
    // Line 99 clamps to last line
    assert_eq!(idx.line_col_to_byte(text, 99, 0), 6);
    // Byte 100 clamps to text.len()
    assert_eq!(idx.byte_to_line_col(text, 100), CharLineCol::new(1, 5));
}

#[test]
fn line_index_multiple_empty_lines() {
    let text = "\n\n\n";
    let idx = LineIndex::new(text);
    assert_eq!(idx.line_count(), 4);
    assert_eq!(idx.line_col_to_byte(text, 0, 0), 0);
    assert_eq!(idx.line_col_to_byte(text, 1, 0), 1);
    assert_eq!(idx.line_col_to_byte(text, 2, 0), 2);
    assert_eq!(idx.line_col_to_byte(text, 3, 0), 3);
    assert_eq!(idx.byte_to_line_col(text, 0), CharLineCol::new(0, 0));
    assert_eq!(idx.byte_to_line_col(text, 1), CharLineCol::new(1, 0));
    assert_eq!(idx.byte_to_line_col(text, 2), CharLineCol::new(2, 0));
    assert_eq!(idx.byte_to_line_col(text, 3), CharLineCol::new(3, 0));
}

// ─── Free-function reference tests (cross-check against LineIndex) ────

#[test]
fn ascii_first_line_start() {
    let text = "hello\nworld\n";
    assert_eq!(line_col_to_byte(text, 0, 0), 0);
}

#[test]
fn ascii_first_line_middle() {
    let text = "hello\nworld\n";
    assert_eq!(line_col_to_byte(text, 0, 3), 3);
}

#[test]
fn ascii_second_line_start() {
    let text = "hello\nworld\n";
    assert_eq!(line_col_to_byte(text, 1, 0), 6);
}

#[test]
fn ascii_second_line_middle() {
    let text = "hello\nworld\n";
    assert_eq!(line_col_to_byte(text, 1, 2), 8);
}

#[test]
fn negative_line_clamps_to_zero() {
    let text = "hello\nworld";
    assert_eq!(line_col_to_byte(text, -5, 2), 2);
}

#[test]
fn negative_col_clamps_to_zero() {
    let text = "hello\nworld";
    assert_eq!(line_col_to_byte(text, 1, -3), 6);
}

#[test]
fn line_beyond_end_clamps_to_last() {
    let text = "hello\nworld";
    // Line 99 clamps to line 1 ("world"), col 0
    assert_eq!(line_col_to_byte(text, 99, 0), 6);
}

#[test]
fn col_beyond_end_clamps_to_line_end() {
    let text = "hello\nworld";
    // Line 0, col 99 clamps to byte 5 (end of "hello")
    assert_eq!(line_col_to_byte(text, 0, 99), 5);
}

#[test]
fn empty_text_returns_zero() {
    assert_eq!(line_col_to_byte("", 0, 0), 0);
    assert_eq!(line_col_to_byte("", 5, 3), 0);
    assert_eq!(line_col_to_byte("", -1, -1), 0);
}

#[test]
fn utf8_two_byte_char() {
    // "hë" = 3 bytes ('h'=1, 'ë'=2)
    let text = "hëllo";
    // char col 2 = 'l' at byte 3
    assert_eq!(line_col_to_byte(text, 0, 2), 3);
}

#[test]
fn utf8_three_byte_cjk() {
    // "日" is 3 bytes
    let text = "a日b";
    // char col 1 = '日' at byte 1
    assert_eq!(line_col_to_byte(text, 0, 1), 1);
    // char col 2 = 'b' at byte 4
    assert_eq!(line_col_to_byte(text, 0, 2), 4);
}

#[test]
fn utf8_four_byte_emoji() {
    // "😀" is 4 bytes
    let text = "a😀b";
    // char col 2 = 'b' at byte 5
    assert_eq!(line_col_to_byte(text, 0, 2), 5);
}

#[test]
fn utf8_multiline() {
    // "hë\n日b"
    // Line 0: "hë" (3 bytes) + '\n' = 4 bytes
    // Line 1: "日b" starts at byte 4
    let text = "hë\n日b";
    // Line 1, char col 0 = '日' at byte 4
    assert_eq!(line_col_to_byte(text, 1, 0), 4);
    // Line 1, char col 1 = 'b' at byte 7
    assert_eq!(line_col_to_byte(text, 1, 1), 7);
}

#[test]
fn byte_to_lc_first_line_start() {
    let text = "hello\nworld\n";
    assert_eq!(byte_to_line_col(text, 0), CharLineCol::new(0, 0));
}

#[test]
fn byte_to_lc_first_line_middle() {
    let text = "hello\nworld\n";
    assert_eq!(byte_to_line_col(text, 3), CharLineCol::new(0, 3));
}

#[test]
fn byte_to_lc_at_newline() {
    let text = "hello\nworld\n";
    // Byte 5 is '\n', still on line 0, col 5
    assert_eq!(byte_to_line_col(text, 5), CharLineCol::new(0, 5));
}

#[test]
fn byte_to_lc_second_line_start() {
    let text = "hello\nworld\n";
    assert_eq!(byte_to_line_col(text, 6), CharLineCol::new(1, 0));
}

#[test]
fn byte_to_lc_second_line_middle() {
    let text = "hello\nworld\n";
    assert_eq!(byte_to_line_col(text, 8), CharLineCol::new(1, 2));
}

#[test]
fn byte_offset_beyond_end_clamps() {
    let text = "abc";
    // Offset 100 clamps to offset 3 (text.len())
    assert_eq!(byte_to_line_col(text, 100), CharLineCol::new(0, 3));
}

#[test]
fn byte_offset_at_exact_end() {
    let text = "abc";
    assert_eq!(byte_to_line_col(text, 3), CharLineCol::new(0, 3));
}

#[test]
fn byte_to_lc_empty_text() {
    assert_eq!(byte_to_line_col("", 0), CharLineCol::new(0, 0));
    assert_eq!(byte_to_line_col("", 99), CharLineCol::new(0, 0));
}

#[test]
fn byte_to_lc_utf8_two_byte() {
    let text = "hëllo";
    // Byte 3 = 'l', which is char col 2
    assert_eq!(byte_to_line_col(text, 3), CharLineCol::new(0, 2));
}

#[test]
fn byte_to_lc_utf8_cjk() {
    let text = "a日b";
    // Byte 4 = 'b', which is char col 2
    assert_eq!(byte_to_line_col(text, 4), CharLineCol::new(0, 2));
}

#[test]
fn byte_to_lc_utf8_multiline() {
    // "hë\n日b"
    let text = "hë\n日b";
    // Byte 4 = '日' on line 1, char col 0
    assert_eq!(byte_to_line_col(text, 4), CharLineCol::new(1, 0));
    // Byte 7 = 'b' on line 1, char col 1
    assert_eq!(byte_to_line_col(text, 7), CharLineCol::new(1, 1));
}

#[test]
fn roundtrip_ascii() {
    let text = "hello\nworld\nfoo bar\n";
    for offset in 0..text.len() {
        let pos = byte_to_line_col(text, offset);
        let back = line_col_to_byte(text, pos.line, pos.col);
        assert_eq!(back, offset, "roundtrip failed at offset {offset}");
    }
}

#[test]
fn roundtrip_unicode() {
    let text = "hëllo\n日本語\na😀b\n";
    // Only test at char boundaries for valid round-trips.
    for (offset, _) in text.char_indices() {
        let pos = byte_to_line_col(text, offset);
        let back = line_col_to_byte(text, pos.line, pos.col);
        assert_eq!(back, offset, "roundtrip failed at offset {offset}");
    }
}

#[test]
fn i32_to_usize_positive() {
    assert_eq!(i32_to_usize(42), 42);
}

#[test]
fn i32_to_usize_zero() {
    assert_eq!(i32_to_usize(0), 0);
}

#[test]
fn i32_to_usize_negative() {
    assert_eq!(i32_to_usize(-1), 0);
    assert_eq!(i32_to_usize(i32::MIN), 0);
}

#[test]
fn usize_to_i32_normal() {
    assert_eq!(usize_to_i32(42), 42);
}

#[test]
fn usize_to_i32_max_clamp() {
    assert_eq!(usize_to_i32(usize::MAX), i32::MAX);
}

#[test]
fn char_col_to_byte_offset_ascii() {
    assert_eq!(char_col_to_byte_offset("hello", 3), 3);
}

#[test]
fn char_col_to_byte_offset_utf8() {
    // 'ë' is 2 bytes
    assert_eq!(char_col_to_byte_offset("hëllo", 2), 3);
}

#[test]
fn char_col_to_byte_offset_clamp() {
    assert_eq!(char_col_to_byte_offset("abc", 99), 3);
}

#[test]
fn byte_offset_to_char_col_ascii() {
    assert_eq!(byte_offset_to_char_col("hello", 3), 3);
}

#[test]
fn byte_offset_to_char_col_utf8() {
    // Byte 3 in "hëllo" is char 2
    assert_eq!(byte_offset_to_char_col("hëllo", 3), 2);
}

#[test]
fn byte_offset_to_char_col_clamp() {
    assert_eq!(byte_offset_to_char_col("abc", 99), 3);
}

fn ascii_docs() -> Vec<String> {
    vec![
        String::new(),
        "a".to_string(),
        "hello world\nfoo bar\n\nbaz".to_string(),
        "line one\nline two\nline three\n".to_string(),
        "  leading\n\n\ntrailing  ".to_string(),
    ]
}

fn unicode_docs() -> Vec<String> {
    vec![
        "caf\u{e9}\n\u{4e00}\u{4e01}x".to_string(),
        "e\u{0301}a\u{0300}\u{0301}b\n\u{e0}\u{ff}".to_string(),
        "\u{4e05}\u{4e10}\n\nZz\u{0302}".to_string(),
        "plain".to_string(),
    ]
}

#[test]
fn line_col_roundtrip() {
    for text in ascii_docs() {
        let index = LineIndex::new(&text);
        for offset in 0..text.len() {
            if !text.is_char_boundary(offset) {
                continue;
            }
            if let Some(lc) = index.offset_to_line_col(&text, offset) {
                let back = index.line_col_to_offset(&text, lc.line as usize, lc.col as usize);
                assert_eq!(back, Some(offset), "round-trip failed at offset {offset}");
            }
        }
    }
}

#[test]
fn unicode_line_col_roundtrip() {
    for text in unicode_docs() {
        let index = LineIndex::new(&text);
        let mut grapheme_offsets = std::collections::HashSet::new();
        let mut pos = 0usize;
        for line in text.split('\n') {
            let mut byte = pos;
            for g in line.graphemes(true) {
                grapheme_offsets.insert(byte);
                byte += g.len();
            }
            grapheme_offsets.insert(byte);
            pos = byte + 1;
        }
        grapheme_offsets.insert(text.len());
        for &offset in &grapheme_offsets {
            if offset > text.len() || !text.is_char_boundary(offset) {
                continue;
            }
            if let Some(lc) = index.offset_to_line_col(&text, offset) {
                let back = index.line_col_to_offset(&text, lc.line as usize, lc.col as usize);
                assert_eq!(back, Some(offset), "unicode round-trip failed at offset {offset}");
            }
        }
    }
}

#[test]
fn grapheme_col_le_char_col() {
    for text in unicode_docs() {
        for line_text in text.lines() {
            let char_count = line_text.chars().count();
            for char_col in 0..=char_count {
                let grapheme_col = char_col_to_grapheme_col(line_text, char_col);
                assert!(grapheme_col <= char_col);
            }
        }
    }
}

#[test]
fn single_line_no_newline() {
    let text = "abc";
    assert_eq!(line_col_to_byte(text, 0, 0), 0);
    assert_eq!(line_col_to_byte(text, 0, 3), 3);
    assert_eq!(byte_to_line_col(text, 0), CharLineCol::new(0, 0));
    assert_eq!(byte_to_line_col(text, 3), CharLineCol::new(0, 3));
}

#[test]
fn trailing_newline() {
    let text = "abc\n";
    // Byte 3 is '\n' on line 0
    assert_eq!(byte_to_line_col(text, 3), CharLineCol::new(0, 3));
    // Byte 4 is start of line 1 (empty line)
    assert_eq!(byte_to_line_col(text, 4), CharLineCol::new(1, 0));
}

#[test]
fn multiple_empty_lines() {
    let text = "\n\n\n";
    assert_eq!(line_col_to_byte(text, 0, 0), 0);
    assert_eq!(line_col_to_byte(text, 1, 0), 1);
    assert_eq!(line_col_to_byte(text, 2, 0), 2);
    assert_eq!(line_col_to_byte(text, 3, 0), 3);
    assert_eq!(byte_to_line_col(text, 0), CharLineCol::new(0, 0));
    assert_eq!(byte_to_line_col(text, 1), CharLineCol::new(1, 0));
    assert_eq!(byte_to_line_col(text, 2), CharLineCol::new(2, 0));
    assert_eq!(byte_to_line_col(text, 3), CharLineCol::new(3, 0));
}

// ─── find_line_start tests ──────────────────────────────────────

#[test]
fn find_line_start_line_zero() {
    assert_eq!(find_line_start("hello\nworld", 0), Some(0));
}

#[test]
fn find_line_start_second_line() {
    assert_eq!(find_line_start("hello\nworld", 1), Some(6));
}

#[test]
fn find_line_start_third_line() {
    assert_eq!(find_line_start("a\nb\nc", 2), Some(4));
}

#[test]
fn find_line_start_out_of_range() {
    assert_eq!(find_line_start("hello\nworld", 5), None);
}

#[test]
fn find_line_start_empty_text() {
    assert_eq!(find_line_start("", 0), Some(0));
    assert_eq!(find_line_start("", 1), None);
}

#[test]
fn find_line_start_only_newlines() {
    let text = "\n\n\n";
    assert_eq!(find_line_start(text, 0), Some(0));
    assert_eq!(find_line_start(text, 1), Some(1));
    assert_eq!(find_line_start(text, 2), Some(2));
    assert_eq!(find_line_start(text, 3), Some(3));
    assert_eq!(find_line_start(text, 4), None);
}

// ─── line_text_at tests ─────────────────────────────────────────

#[test]
fn line_text_at_first_line() {
    assert_eq!(line_text_at("hello\nworld", 0), "hello");
}

#[test]
fn line_text_at_second_line() {
    assert_eq!(line_text_at("hello\nworld", 6), "world");
}

#[test]
fn line_text_at_no_trailing_newline() {
    assert_eq!(line_text_at("abc", 0), "abc");
}

#[test]
fn line_text_at_empty_line() {
    // "a\n\nb" — line at offset 2 is the empty line between newlines
    assert_eq!(line_text_at("a\n\nb", 2), "");
}

#[test]
fn line_text_at_last_empty_line() {
    // "abc\n" — line at offset 4 is the empty trailing line
    assert_eq!(line_text_at("abc\n", 4), "");
}

// ─── Incremental LineIndex update tests ───────────────────────────

#[test]
fn incremental_insert_no_newlines() {
    let text = "hello\nworld";
    let mut index = LineIndex::new(text);
    assert_eq!(index.line_count(), 2);
    // Insert " cruel" at offset 5 -> "hello cruel\nworld"
    index.apply_insert(5, " cruel");
    assert_eq!(index.line_count(), 2);
    assert_eq!(index.text_len(), 17);
}

#[test]
fn incremental_insert_with_newline() {
    let text = "hello\nworld";
    let mut index = LineIndex::new(text);
    // Insert "\nnew\n" at offset 5 -> "hello\nnew\n\nworld"
    index.apply_insert(5, "\nnew\n");
    assert_eq!(index.line_count(), 4);
}

#[test]
fn incremental_delete_within_line() {
    let text = "hello cruel\nworld";
    let mut index = LineIndex::new(text);
    // Delete " cruel" (offset 5..11) -> "hello\nworld"
    index.apply_delete(5, 11);
    assert_eq!(index.line_count(), 2);
    assert_eq!(index.text_len(), 11);
}

#[test]
fn incremental_delete_across_lines() {
    let text = "hello\ncruel\nworld";
    let mut index = LineIndex::new(text);
    // Delete "cruel\n" (offset 6..12) -> "hello\nworld"
    index.apply_delete(6, 12);
    assert_eq!(index.line_count(), 2);
}

#[test]
fn incremental_insert_at_start() {
    let text = "hello";
    let mut index = LineIndex::new(text);
    index.apply_insert(0, "prefix\n");
    assert_eq!(index.line_count(), 2);
}

#[test]
fn incremental_empty_operations() {
    let text = "hello\nworld";
    let mut index = LineIndex::new(text);
    let original_count = index.line_count();
    index.apply_insert(3, "");
    assert_eq!(index.line_count(), original_count);
    index.apply_delete(3, 3);
    assert_eq!(index.line_count(), original_count);
}
