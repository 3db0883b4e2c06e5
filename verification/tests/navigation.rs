use godot_vim::navigation::extract_word_at_col;
#[test]
fn extract_word_at_middle() {
    assert_eq!(extract_word_at_col("hello world", 2), Some("hello"));
}

#[test]
fn extract_word_at_start() {
    assert_eq!(extract_word_at_col("foo_bar baz", 0), Some("foo_bar"));
}

#[test]
fn extract_word_at_end() {
    assert_eq!(extract_word_at_col("hello", 4), Some("hello"));
}

#[test]
fn extract_word_with_underscore() {
    assert_eq!(extract_word_at_col("my_var = 5", 3), Some("my_var"));
}

#[test]
fn extract_word_at_space_returns_none() {
    assert_eq!(extract_word_at_col("hello world", 5), None);
}

#[test]
fn extract_word_at_out_of_bounds_returns_none() {
    assert_eq!(extract_word_at_col("hi", 5), None);
}

#[test]
fn extract_word_empty_string() {
    assert_eq!(extract_word_at_col("", 0), None);
}

#[test]
fn extract_word_at_punctuation() {
    assert_eq!(extract_word_at_col("a.b", 1), None);
}

#[test]
fn extract_word_unicode_accented() {
    assert_eq!(extract_word_at_col("let café = 1", 4), Some("café"));
}

#[test]
fn extract_word_unicode_mixed() {
    assert_eq!(extract_word_at_col("naïve_var", 2), Some("naïve_var"));
}
