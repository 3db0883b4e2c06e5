//! Selection pairing, commit strategy, and text effects on the mirror.

use std::rc::Rc;

use godot_vim::auto_brace::AutoBraceSnapshot;
use godot_vim::auto_brace::SyntaxRegion;
use godot_vim::codec::DocumentView;
use godot_vim::codec::LineIndex;
use godot_vim::dispatch::commit_commands;
use godot_vim::dispatch::EditorTextCommand;
use godot_vim::dispatch::auto_brace_applies;
use godot_vim::dispatch::splice_text;
use godot_vim::dispatch::CommitStrategy;
use godot_vim::dispatch::SelectionPairing;
use godot_vim::dispatch::TextMirror;

#[test]
fn idle_does_not_suppress_cursor() {
    assert!(!SelectionPairing::Idle.should_suppress_cursor());
}

#[test]
fn set_selection_transitions_to_awaiting() {
    let state = SelectionPairing::Idle.on_set_selection();
    assert_eq!(state, SelectionPairing::AwaitingCursor { count: 1 });
    assert!(state.should_suppress_cursor());
}

#[test]
fn consume_cursor_returns_to_idle() {
    let state = SelectionPairing::Idle.on_set_selection().on_consume_cursor();
    assert_eq!(state, SelectionPairing::Idle);
}

#[test]
fn multiple_selections_tracked() {
    let state = SelectionPairing::Idle.on_set_selection().on_set_selection();
    assert_eq!(state, SelectionPairing::AwaitingCursor { count: 2 });

    let state = state.on_consume_cursor();
    assert_eq!(state, SelectionPairing::AwaitingCursor { count: 1 });

    let state = state.on_consume_cursor();
    assert_eq!(state, SelectionPairing::Idle);
}

#[test]
fn clear_selection_consumes_like_cursor() {
    let state = SelectionPairing::Idle.on_set_selection().on_consume_cursor();
    assert_eq!(state, SelectionPairing::Idle);
}

#[test]
fn consume_cursor_from_idle_stays_idle() {
    let state = SelectionPairing::Idle.on_consume_cursor();
    assert_eq!(state, SelectionPairing::Idle);
}

#[test]
fn set_selection_cursor_clear_sequence() {
    // [SetSelection, SetCursor, ClearSelection]
    let state = SelectionPairing::Idle
        .on_set_selection()
        .on_consume_cursor()
        .on_consume_cursor();
    assert_eq!(state, SelectionPairing::Idle);
}

#[test]
fn set_selection_clear_cursor_sequence() {
    // [SetSelection, ClearSelection, SetCursor]
    let state = SelectionPairing::Idle
        .on_set_selection()
        .on_consume_cursor()
        .on_consume_cursor();
    assert_eq!(state, SelectionPairing::Idle);
}

fn brace_snapshot() -> AutoBraceSnapshot {
    AutoBraceSnapshot {
        enabled: true,
        pairs: Rc::new(vec![
            (String::from("("), String::from(")")),
            (String::from("\""), String::from("\"")),
        ]),
        string_delimiters: vec![String::from("\"")],
    }
}

fn mirror(text: &str) -> TextMirror {
    TextMirror::new(text, None)
}

fn index_matches(m: &TextMirror) -> bool {
    let fresh = LineIndex::new(&m.text);
    fresh.line_count() == m.line_index.line_count()
        && fresh.text_len() == m.line_index.text_len()
        && (0..fresh.line_count()).all(|l| fresh.line_start(l) == m.line_index.line_start(l))
}

#[test]
fn commit_strategy_first_mutation_then_diff() {
    let s = CommitStrategy::NoChange.add_mutation(CommitStrategy::Delete { start: 1, end: 2 });
    assert!(matches!(s, CommitStrategy::Delete { start: 1, end: 2 }));
    let s = s.add_mutation(CommitStrategy::Insert { offset: 0, content: String::from("x") });
    assert!(matches!(s, CommitStrategy::Diff));
    let s = s.add_mutation(CommitStrategy::NoChange);
    assert!(matches!(s, CommitStrategy::Diff));
}

#[test]
fn splice_replaces_byte_range() {
    assert_eq!(splice_text("hello world", 6, 11, "there"), "hello there");
    assert_eq!(splice_text("héllo", 1, 3, "e"), "hello");
    assert_eq!(splice_text("ab", 1, 1, "\n"), "a\nb");
}

#[test]
fn plain_insert_is_single_commit() {
    let mut m = mirror("ab\ncd");
    m.insert_plain(3, "x\ny");
    assert_eq!(m.text, "ab\nx\nycd");
    assert!(m.mutated);
    assert!(index_matches(&m));
    assert!(matches!(m.strategy, CommitStrategy::Insert { offset: 3, ref content } if content == "x\ny"));
}

#[test]
fn two_mutations_commit_as_diff() {
    let mut m = mirror("abc");
    m.insert_plain(0, "x");
    m.apply_replace_effect(1, 2, "Y");
    assert_eq!(m.text, "xYbc");
    assert!(matches!(m.strategy, CommitStrategy::Diff));
    assert!(index_matches(&m));
}

#[test]
fn auto_brace_inserts_close_key() {
    let snap = brace_snapshot();
    let mut m = mirror("f\n");
    assert!(auto_brace_applies("(", true, &snap));
    let r = m.apply_insert_effect(1, "(", true, &snap, &SyntaxRegion::code());
    assert_eq!(r, None);
    assert_eq!(m.text, "f()\n");
    assert!(matches!(m.strategy, CommitStrategy::Diff));
    assert!(index_matches(&m));
}

#[test]
fn auto_brace_skips_over_close_key() {
    let snap = brace_snapshot();
    let mut m = mirror("f()");
    let r = m.apply_insert_effect(2, ")", true, &snap, &SyntaxRegion::code());
    assert_eq!(r, Some(3));
    assert_eq!(m.text, "f()");
    assert!(!m.mutated);
    assert!(matches!(m.strategy, CommitStrategy::NoChange));
}

#[test]
fn auto_brace_off_for_ineligible_dispatch() {
    let snap = brace_snapshot();
    assert!(!auto_brace_applies("(", false, &snap));
    assert!(!auto_brace_applies("((", true, &snap));
    assert!(!auto_brace_applies("\u{7}", true, &snap));
    let mut m = mirror("f");
    assert_eq!(m.apply_insert_effect(1, "(", false, &snap, &SyntaxRegion::code()), None);
    assert_eq!(m.text, "f(");
    assert!(matches!(m.strategy, CommitStrategy::Insert { offset: 1, .. }));
}

#[test]
fn auto_brace_in_comment_inserts_only() {
    let snap = brace_snapshot();
    let mut m = mirror("# ");
    m.apply_insert_effect(2, "(", true, &snap, &SyntaxRegion::Comment);
    assert_eq!(m.text, "# (");
}

#[test]
fn delete_open_brace_takes_close_too() {
    let snap = brace_snapshot();
    let mut m = mirror("f()");
    m.apply_delete_effect(1, 2, true, &snap);
    assert_eq!(m.text, "f");
    assert!(matches!(m.strategy, CommitStrategy::Diff));
    assert!(index_matches(&m));
}

#[test]
fn delete_without_pair_is_single_commit() {
    let snap = brace_snapshot();
    let mut m = mirror("a\nbc");
    m.apply_delete_effect(1, 3, true, &snap);
    assert_eq!(m.text, "ac");
    assert!(matches!(m.strategy, CommitStrategy::Delete { start: 1, end: 3 }));
    assert!(index_matches(&m));
    let mut m = mirror("f()");
    m.apply_delete_effect(1, 2, false, &snap);
    assert_eq!(m.text, "f)");
}

#[test]
fn mirror_reuses_line_index_hint() {
    let text = "one\ntwo";
    let m = TextMirror::new(text, Some(LineIndex::new(text)));
    assert_eq!(m.text, text);
    assert!(index_matches(&m));
    assert!(!m.mutated);
}

#[test]
fn commit_commands_for_single_mutations() {
    let text = "ab\ncd";
    let idx = LineIndex::new(text);
    let doc = DocumentView::new(text, &idx);
    let ins = CommitStrategy::Insert { offset: 4, content: String::from("X") };
    match commit_commands(&doc, text, &ins).unwrap().as_slice() {
        [EditorTextCommand::Insert { text, line: 1, col: 1 }] => assert_eq!(text, "X"),
        _ => panic!("unexpected insert commit"),
    }
    let del = CommitStrategy::Delete { start: 1, end: 4 };
    assert!(matches!(
        commit_commands(&doc, text, &del).unwrap().as_slice(),
        [EditorTextCommand::Remove { from_line: 0, from_col: 1, to_line: 1, to_col: 1 }]
    ));
    let rep = CommitStrategy::Replace { start: 0, end: 2, content: String::from("zz") };
    match commit_commands(&doc, text, &rep).unwrap().as_slice() {
        [EditorTextCommand::Remove { from_line: 0, from_col: 0, to_line: 0, to_col: 2 }, EditorTextCommand::Insert { text, line: 0, col: 0 }] => {
            assert_eq!(text, "zz")
        }
        _ => panic!("unexpected replace commit"),
    }
    assert!(commit_commands(&doc, text, &CommitStrategy::Diff).unwrap().is_empty());
    assert!(commit_commands(&doc, text, &CommitStrategy::NoChange).is_none());
}

/// Carries out editor text calls on a text, positions in lines and
/// characters, as the editor does.
fn run_commands(text: &str, commands: &[EditorTextCommand]) -> String {
    let mut chars: Vec<char> = text.chars().collect();
    let index_of = |chars: &Vec<char>, line: i32, col: i32| -> usize {
        let mut l = 0;
        let mut i = 0;
        while l < line {
            while chars[i] != '\n' {
                i += 1;
            }
            i += 1;
            l += 1;
        }
        i + col as usize
    };
    for c in commands {
        match c {
            EditorTextCommand::Insert { text, line, col } => {
                let at = index_of(&chars, *line, *col);
                let ins: Vec<char> = text.chars().collect();
                chars.splice(at..at, ins);
            }
            EditorTextCommand::Remove { from_line, from_col, to_line, to_col } => {
                let a = index_of(&chars, *from_line, *from_col);
                let b = index_of(&chars, *to_line, *to_col);
                chars.drain(a..b);
            }
        }
    }
    chars.into_iter().collect()
}

#[test]
fn diff_commit_rebuilds_the_mirror() {
    let cases = [
        ("ab\ncd", "ab\ncd!"),
        ("let a = 1;\nlet b = 2;\nlet c = 3;\n", "let x = 1;\nlet b = 2;\nlet y = 3;\n"),
        ("héllo\nwörld\n", "hello\nwörld\nnew line\n"),
        ("one\ntwo\nthree\nfour\n", "ONE\ntwo\nTHREE\nfour\n"),
        ("same", "same"),
    ];
    for (before, after) in cases {
        let idx = LineIndex::new(before);
        let doc = DocumentView::new(before, &idx);
        let commands = commit_commands(&doc, after, &CommitStrategy::Diff).unwrap();
        assert_eq!(commands.len() % 2, 0);
        assert_eq!(run_commands(before, &commands), after, "diff commit of {:?} -> {:?}", before, after);
    }
}
