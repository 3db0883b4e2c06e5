//! New-line indentation.

use godot_vim::indent::new_line_indent;
use godot_vim::indent::opener_query_column;

#[test]
fn keeps_leading_blanks() {
    assert_eq!(new_line_indent("    x = 1", false, true, 4), "    ");
    assert_eq!(new_line_indent("\t\tfoo()", false, true, 4), "\t\t");
    assert_eq!(new_line_indent("no indent", false, true, 4), "");
    assert_eq!(new_line_indent("", false, true, 4), "");
}

#[test]
fn indents_after_opener() {
    assert_eq!(opener_query_column("    if x:"), Some(8));
    assert_eq!(new_line_indent("    if x:", false, true, 4), "        ");
    assert_eq!(new_line_indent("func f() {  ", false, false, 4), "\t");
    assert_eq!(opener_query_column("func f() {  "), Some(9));
    assert_eq!(new_line_indent("arr = [", false, true, 2), "  ");
}

#[test]
fn opener_inside_string_does_not_indent() {
    assert_eq!(new_line_indent("  s = \"a:", true, true, 4), "  ");
    assert_eq!(opener_query_column("x = 1"), None);
    assert_eq!(opener_query_column("   "), None);
}
