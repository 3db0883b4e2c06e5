use godot_vim::auto_brace::{
    compute_auto_brace_delete_extra, compute_auto_brace_insert, find_close_pair_at_pos_str,
    is_symbol, AutoBraceAction, AutoBraceSnapshot, SyntaxRegion,
};
use godot_vim::codec::{DocumentView, LineIndex};
use std::rc::Rc;
#[test]
fn is_symbol_paren() {
    assert!(is_symbol('('));
    assert!(is_symbol(')'));
    assert!(is_symbol('{'));
    assert!(is_symbol('}'));
    assert!(is_symbol('['));
    assert!(is_symbol(']'));
    assert!(is_symbol('"'));
    assert!(is_symbol('\''));
    assert!(is_symbol(';'));
    assert!(is_symbol(':'));
    assert!(is_symbol(' '));
    assert!(is_symbol('\t'));
}

#[test]
fn is_symbol_non_symbol() {
    assert!(!is_symbol('a'));
    assert!(!is_symbol('Z'));
    assert!(!is_symbol('0'));
    assert!(!is_symbol('_'));
}

#[test]
fn find_close_pair_paren() {
    let pairs = vec![
        ("(".to_string(), ")".to_string()),
        ("{".to_string(), "}".to_string()),
    ];
    assert_eq!(find_close_pair_at_pos_str(&pairs, "foo()", 4), Some(0)); // ')' at col 4
    assert_eq!(find_close_pair_at_pos_str(&pairs, "foo()", 3), None); // '(' at col 3
}

#[test]
fn find_close_pair_multichar() {
    let pairs = vec![("/*".to_string(), "*/".to_string())];
    assert_eq!(find_close_pair_at_pos_str(&pairs, "foo*/bar", 3), Some(0)); // "*/" at col 3
    assert_eq!(find_close_pair_at_pos_str(&pairs, "foo*/bar", 4), None);
}

// ── Pure decision function tests ────────────────────────────────────


/// Build an `AutoBraceSnapshot` with the given pairs and string delimiters.
fn snap(pairs: Vec<(&str, &str)>, string_delimiters: Vec<&str>) -> AutoBraceSnapshot {
    AutoBraceSnapshot {
        enabled: true,
        pairs: Rc::new(
            pairs
                .into_iter()
                .map(|(o, c)| (o.to_string(), c.to_string()))
                .collect(),
        ),
        string_delimiters: string_delimiters
            .into_iter()
            .map(|s| s.to_string())
            .collect(),
    }
}

/// Build a `DocumentView` from a text string and a freshly computed `LineIndex`.
fn doc_view<'a>(text: &'a str, index: &'a LineIndex) -> DocumentView<'a> {
    DocumentView::new(text, index)
}

#[test]
fn compute_insert_skip_over() {
    // Typing `)` when `)` is at the cursor position → SkipOver.
    let text = "foo()";
    let idx = LineIndex::new(text);
    let doc = doc_view(text, &idx);
    let ab = snap(vec![("(", ")")], vec![]);
    // offset 4 = byte position of `)`, i.e. cursor is on the `)`.
    let action = compute_auto_brace_insert(&doc, 4, ')', &ab, &SyntaxRegion::Code);
    assert_eq!(action, AutoBraceAction::SkipOver { move_cols: 1 });
}

#[test]
fn compute_insert_with_close() {
    // Typing `(` at the end of line → InsertWithClose.
    let text = "foo";
    let idx = LineIndex::new(text);
    let doc = doc_view(text, &idx);
    let ab = snap(vec![("(", ")")], vec![]);
    let action = compute_auto_brace_insert(&doc, 3, '(', &ab, &SyntaxRegion::Code);
    assert_eq!(
        action,
        AutoBraceAction::InsertWithClose {
            close: ")".to_string(),
        }
    );
}

#[test]
fn compute_insert_only_in_comment() {
    // Typing `(` inside a comment → InsertOnly (no auto-close).
    let text = "// hello";
    let idx = LineIndex::new(text);
    let doc = doc_view(text, &idx);
    let ab = snap(vec![("(", ")")], vec![]);
    let action = compute_auto_brace_insert(&doc, 8, '(', &ab, &SyntaxRegion::Comment);
    assert_eq!(action, AutoBraceAction::InsertOnly);
}

#[test]
fn compute_delete_extra_removes_close() {
    // Deleting `(` which is immediately followed by `)` → extra = 1 byte.
    let text = "foo()bar";
    let idx = LineIndex::new(text);
    let doc = doc_view(text, &idx);
    let ab = snap(vec![("(", ")")], vec![]);
    // Deleting bytes 3..4 which is `(`, close `)` follows at byte 4.
    let extra = compute_auto_brace_delete_extra(&doc, 3, 4, &ab);
    assert_eq!(extra, 1);
}

#[test]
fn compute_delete_extra_no_match() {
    // Deleting `x` which is not an open pair key → extra = 0.
    let text = "fox)bar";
    let idx = LineIndex::new(text);
    let doc = doc_view(text, &idx);
    let ab = snap(vec![("(", ")")], vec![]);
    // Deleting bytes 2..3 which is `x`.
    let extra = compute_auto_brace_delete_extra(&doc, 2, 3, &ab);
    assert_eq!(extra, 0);
}

#[test]
fn engine_pairs_keep_single_character_keys() {
    let pairs = vec![
        (String::from("("), String::from(")")),
        (String::from("\"\"\""), String::from("\"\"\"")),
        (String::from("["), String::from("]")),
    ];
    assert_eq!(godot_vim::auto_brace::engine_auto_pairs(true, &pairs), Some(vec![('(', ')'), ('[', ']')]));
    assert_eq!(godot_vim::auto_brace::engine_auto_pairs(false, &pairs), None);
}
