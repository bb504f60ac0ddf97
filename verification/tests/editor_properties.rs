use line_input::class::is_word_char;
use line_input::encoding::{
    char_at, char_before, cut, next_boundary, prev_boundary, same_text, splice, split_text,
    text_len, utf8_width,
};
use line_input::skip::{skip_left, skip_right};
use line_input::{KeyCode, KeyEvent, KeyModifiers, LineEditOutcome, LineEditor};

fn key(code: KeyCode, modifiers: KeyModifiers) -> KeyEvent {
    KeyEvent::new(code, modifiers)
}

#[test]
fn utf8_widths_follow_the_code_point_ranges() {
    assert_eq!(utf8_width('a'), 1);
    assert_eq!(utf8_width('\u{7f}'), 1);
    assert_eq!(utf8_width('é'), 2);
    assert_eq!(utf8_width('\u{7ff}'), 2);
    assert_eq!(utf8_width('日'), 3);
    assert_eq!(utf8_width('\u{ffff}'), 3);
    assert_eq!(utf8_width('👍'), 4);
}

#[test]
fn boundaries_step_over_whole_chars() {
    let t = "aé日👍";
    assert_eq!(text_len(t), 10);
    assert_eq!(next_boundary(t, 0), 1);
    assert_eq!(next_boundary(t, 1), 3);
    assert_eq!(next_boundary(t, 3), 6);
    assert_eq!(next_boundary(t, 6), 10);
    assert_eq!(prev_boundary(t, 10), 6);
    assert_eq!(prev_boundary(t, 6), 3);
    assert_eq!(prev_boundary(t, 3), 1);
    assert_eq!(prev_boundary(t, 1), 0);
    assert_eq!(char_at(t, 3), Some('日'));
    assert_eq!(char_at(t, 10), None);
    assert_eq!(char_before(t, 10), Some('👍'));
    assert_eq!(char_before(t, 0), None);
}

#[test]
fn splitting_and_splicing_keep_the_chars_around() {
    let t = "héllo";
    assert_eq!(split_text(t, 3), ("hé", "llo"));
    assert_eq!(splice(t, 3, 3, "ß"), "héßllo");
    assert_eq!(splice(t, 1, 4, "E"), "hElo");
    assert_eq!(cut(t, 1, 3), "hllo");
    assert!(same_text("日本", "日本"));
    assert!(!same_text("日本", "日"));
    assert!(!same_text("ab", "ac"));
}

#[test]
fn skips_walk_runs_of_matching_chars() {
    let t = "foo  bar";
    assert_eq!(skip_left(t, 5, |c| c == ' '), 3);
    assert_eq!(skip_left(t, 3, |c| c == ' '), 3);
    assert_eq!(skip_left(t, 8, |c| c != ' '), 5);
    assert_eq!(skip_left(t, 3, |c| c != ' '), 0);
    assert_eq!(skip_right(t, 3, |c| c == ' '), 5);
    assert_eq!(skip_right(t, 5, |c| c != ' '), 8);
    assert_eq!(skip_right(t, 0, |c| c == ' '), 0);
}

#[test]
fn word_chars_are_alphanumeric_or_underscore() {
    assert!(is_word_char('a'));
    assert!(is_word_char('Z'));
    assert!(is_word_char('7'));
    assert!(is_word_char('_'));
    assert!(is_word_char('é'));
    assert!(is_word_char('日'));
    assert!(!is_word_char('-'));
    assert!(!is_word_char(' '));
    assert!(!is_word_char('👍'));
}

#[test]
fn modifier_sets_combine_by_bits() {
    let both = KeyModifiers::from_bits_retain(0b0000_0011);
    assert!(both.contains(KeyModifiers::control()));
    assert!(both.contains(KeyModifiers::shift()));
    assert!(!both.contains(KeyModifiers::alt()));
    assert!(both.difference(KeyModifiers::control()).contains(KeyModifiers::shift()));
    assert!(both.difference(both).is_empty());
    assert!(KeyModifiers::empty().is_empty());
    assert_eq!(KeyModifiers::super_key().bits(), 0b0000_1000);
    assert_eq!(KeyModifiers::hyper().bits(), 0b0001_0000);
    assert_eq!(KeyModifiers::meta().bits(), 0b0010_0000);
}

#[test]
fn backspace_undoes_an_inserted_char() {
    let mut editor = LineEditor::from("héllo");
    editor.move_left();
    editor.move_left();
    let before = editor.cursor();
    editor.insert_str("日");
    assert_eq!(editor, "hél日lo");
    assert_eq!(editor.cursor(), before + 3);
    editor.backspace();
    assert_eq!(editor, "héllo");
    assert_eq!(editor.cursor(), before);
}

#[test]
fn right_then_left_returns_to_the_same_char() {
    let mut editor = LineEditor::from("a👍b");
    editor.move_start();
    editor.move_right();
    assert_eq!(editor.cursor(), 1);
    editor.move_right();
    assert_eq!(editor.cursor(), 5);
    editor.move_left();
    assert_eq!(editor.cursor(), 1);
    editor.move_end();
    editor.move_right();
    assert_eq!(editor.cursor(), 6);
    editor.move_start();
    editor.move_left();
    assert_eq!(editor.cursor(), 0);
}

#[test]
fn word_deletion_skips_whitespace_then_one_class() {
    let mut editor = LineEditor::from("path/to  ");
    editor.delete_word_back();
    assert_eq!(editor, "path/");
    assert_eq!(editor.cursor(), 5);
    editor.delete_word_back();
    assert_eq!(editor, "path");
    editor.delete_word_back();
    assert_eq!(editor, "");
    editor.delete_word_back();
    assert_eq!(editor, "");
    assert_eq!(editor.cursor(), 0);

    let mut editor = LineEditor::from("   ");
    editor.delete_word_back();
    assert!(editor.is_empty());
}

#[test]
fn word_deletion_bindings() {
    for (code, modifiers) in [
        (KeyCode::Backspace, KeyModifiers::control()),
        (KeyCode::Backspace, KeyModifiers::alt()),
        (KeyCode::Char('h'), KeyModifiers::control()),
        (KeyCode::Char('w'), KeyModifiers::control()),
    ] {
        let mut editor = LineEditor::from("one two");
        assert_eq!(editor.apply_key(&key(code, modifiers)), LineEditOutcome::TextChanged);
        assert_eq!(editor, "one ");
    }
    let mut editor = LineEditor::from("one two");
    editor.move_word_left();
    assert_eq!(
        editor.apply_key(&key(KeyCode::Backspace, KeyModifiers::super_key())),
        LineEditOutcome::TextChanged
    );
    assert_eq!(editor, "two");
    assert_eq!(editor.cursor(), 0);
}

#[test]
fn plain_backspace_and_typing_bindings() {
    let mut editor = LineEditor::from("ab");
    assert_eq!(
        editor.apply_key(&key(KeyCode::Backspace, KeyModifiers::empty())),
        LineEditOutcome::TextChanged
    );
    assert_eq!(editor, "a");
    assert_eq!(
        editor.apply_key(&key(KeyCode::Char('é'), KeyModifiers::empty())),
        LineEditOutcome::TextChanged
    );
    assert_eq!(editor, "aé");
    assert_eq!(editor.cursor(), 3);
    assert_eq!(
        editor.apply_key(&key(KeyCode::Char('x'), KeyModifiers::meta())),
        LineEditOutcome::Ignored
    );
    assert_eq!(editor, "aé");
}

#[test]
fn movement_keeps_text_and_ignored_keys_keep_everything() {
    let mut editor = LineEditor::default();
    editor.prefill("one two", true);
    assert_eq!(
        editor.apply_key(&key(KeyCode::Right, KeyModifiers::alt())),
        LineEditOutcome::CursorMoved
    );
    assert_eq!(editor, "one two");
    assert!(!editor.replace_on_type);
    editor.prefill("one two", true);
    assert_eq!(
        editor.apply_key(&key(KeyCode::Up, KeyModifiers::empty())),
        LineEditOutcome::Ignored
    );
    assert_eq!(editor, "one two");
    assert!(editor.replace_on_type);
    assert_eq!(editor.cursor(), 7);
}

#[test]
fn typing_over_a_prefill_keeps_only_the_typed_char() {
    let mut editor = LineEditor::default();
    editor.prefill("generated", true);
    assert_eq!(
        editor.apply_key(&key(KeyCode::Char('q'), KeyModifiers::empty())),
        LineEditOutcome::TextChanged
    );
    assert_eq!(editor, "q");
    assert_eq!(editor.cursor(), 1);
    assert!(!editor.replace_on_type);
}

#[test]
fn set_text_and_clear_reset_the_state() {
    let mut editor = LineEditor::from("x");
    editor.prefill("abc", true);
    editor.set_text("日本");
    assert_eq!(editor.text(), "日本");
    assert_eq!(editor.cursor(), 6);
    assert!(!editor.replace_on_type);
    editor.clear();
    assert!(editor.is_empty());
    assert_eq!(editor.cursor(), 0);
    assert_eq!(editor, String::new());
    editor.insert_str("ok");
    assert_eq!(editor, String::from("ok"));
    assert!(editor != "ko");
}

#[test]
fn backspaces_undo_an_inserted_text() {
    let mut editor = LineEditor::from("héllo");
    editor.move_left();
    let before = editor.cursor();
    editor.insert_str("日本_x");
    assert_eq!(editor, "héll日本_xo");
    for _ in 0.."日本_x".chars().count() {
        editor.backspace();
    }
    assert_eq!(editor, "héllo");
    assert_eq!(editor.cursor(), before);
    assert!(!editor.replace_on_type);
}

#[test]
fn unicode_white_space_separates_words() {
    let mut editor = LineEditor::from("ab\u{3000}cd\u{a0}\u{2003}");
    editor.delete_word_back();
    assert_eq!(editor, "ab\u{3000}");
    editor.delete_word_back();
    assert_eq!(editor, "");
}
