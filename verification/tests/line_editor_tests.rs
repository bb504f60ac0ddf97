use line_input::{KeyCode, KeyEvent, KeyModifiers, LineEditOutcome, LineEditor};

fn key(code: KeyCode, modifiers: KeyModifiers) -> KeyEvent {
    KeyEvent::new(code, modifiers)
}

#[test]
fn movement_keys_position_the_cursor() {
    let mut editor = LineEditor::from("ab cd");
    assert_eq!(editor.cursor(), 5);

    assert_eq!(
        editor.apply_key(&key(KeyCode::Home, KeyModifiers::empty())),
        LineEditOutcome::CursorMoved
    );
    assert_eq!(editor.cursor(), 0);

    editor.apply_key(&key(KeyCode::Right, KeyModifiers::empty()));
    assert_eq!(editor.cursor(), 1);
    editor.apply_key(&key(KeyCode::Char('f'), KeyModifiers::control()));
    assert_eq!(editor.cursor(), 2);
    editor.apply_key(&key(KeyCode::Char('b'), KeyModifiers::control()));
    assert_eq!(editor.cursor(), 1);
    editor.apply_key(&key(KeyCode::Char('e'), KeyModifiers::control()));
    assert_eq!(editor.cursor(), 5);
    editor.apply_key(&key(KeyCode::Char('a'), KeyModifiers::control()));
    assert_eq!(editor.cursor(), 0);
    editor.apply_key(&key(KeyCode::End, KeyModifiers::empty()));
    assert_eq!(editor.cursor(), 5);
    editor.apply_key(&key(KeyCode::Left, KeyModifiers::empty()));
    assert_eq!(editor.cursor(), 4);
}

#[test]
fn word_movement_skips_separators_then_word_chars() {
    let mut editor = LineEditor::from("foo bar-baz");
    editor.apply_key(&key(KeyCode::Char('b'), KeyModifiers::alt()));
    assert_eq!(editor.cursor(), 8);
    editor.apply_key(&key(KeyCode::Left, KeyModifiers::alt()));
    assert_eq!(editor.cursor(), 4);
    editor.apply_key(&key(KeyCode::Char('b'), KeyModifiers::alt()));
    assert_eq!(editor.cursor(), 0);

    editor.apply_key(&key(KeyCode::Char('f'), KeyModifiers::alt()));
    assert_eq!(editor.cursor(), 3);
    editor.apply_key(&key(KeyCode::Right, KeyModifiers::alt()));
    assert_eq!(editor.cursor(), 7);
    editor.apply_key(&key(KeyCode::Char('f'), KeyModifiers::alt()));
    assert_eq!(editor.cursor(), 11);
}

#[test]
fn insert_after_move_start_prepends() {
    let mut editor = LineEditor::from("website");
    editor.apply_key(&key(KeyCode::Char('a'), KeyModifiers::control()));
    assert_eq!(
        editor.apply_key(&key(KeyCode::Char('Z'), KeyModifiers::shift())),
        LineEditOutcome::TextChanged
    );
    assert_eq!(editor, "Zwebsite");
    assert_eq!(editor.cursor(), 1);
}

#[test]
fn kill_to_end_truncates_at_cursor() {
    let mut editor = LineEditor::from("branch-name");
    editor.move_start();
    for _ in 0..6 {
        editor.move_right();
    }
    editor.apply_key(&key(KeyCode::Char('k'), KeyModifiers::control()));
    assert_eq!(editor, "branch");
    assert_eq!(editor.cursor(), 6);
}

#[test]
fn kill_to_start_at_end_clears_everything() {
    let mut editor = LineEditor::from("website zero");
    editor.apply_key(&key(KeyCode::Char('u'), KeyModifiers::control()));
    assert!(editor.is_empty());
    assert_eq!(editor.cursor(), 0);
}

#[test]
fn kill_to_start_mid_string_keeps_tail() {
    let mut editor = LineEditor::from("prefix-tail");
    editor.move_start();
    for _ in 0..7 {
        editor.move_right();
    }
    editor.kill_to_start();
    assert_eq!(editor, "tail");
    assert_eq!(editor.cursor(), 0);
}

#[test]
fn delete_word_back_mid_string_preserves_tail() {
    let mut editor = LineEditor::from("one two three");
    editor.move_word_left();
    assert_eq!(editor.cursor(), 8);
    editor.delete_word_back();
    assert_eq!(editor, "one three");
    assert_eq!(editor.cursor(), 4);

    let mut editor = LineEditor::from("website-zero");
    editor.delete_word_back();
    assert_eq!(editor, "website-");
}

#[test]
fn delete_forward_removes_char_under_cursor() {
    let mut editor = LineEditor::from("abc");
    editor.move_start();
    editor.apply_key(&key(KeyCode::Delete, KeyModifiers::empty()));
    assert_eq!(editor, "bc");
    editor.move_end();
    editor.apply_key(&key(KeyCode::Delete, KeyModifiers::empty()));
    assert_eq!(editor, "bc");
}

#[test]
fn multibyte_text_round_trips_without_boundary_panics() {
    let mut editor = LineEditor::from("héllo日本👍");
    editor.move_start();
    editor.move_right();
    editor.move_right();
    assert_eq!(editor.cursor(), "hé".len());
    editor.insert_str("ß");
    assert_eq!(editor, "héßllo日本👍");

    editor.move_end();
    editor.backspace();
    assert_eq!(editor, "héßllo日本");
    editor.move_left();
    editor.delete_forward();
    assert_eq!(editor, "héßllo日");
    editor.move_word_left();
    assert_eq!(editor.cursor(), 0);
    editor.kill_to_end();
    assert!(editor.is_empty());
}

#[test]
fn replace_on_type_insert_replaces_prefill() {
    let mut editor = LineEditor::default();
    editor.prefill("generated", true);
    editor.insert_str("x");
    assert_eq!(editor, "x");
    assert!(!editor.replace_on_type);
}

#[test]
fn replace_on_type_delete_and_kill_clear_prefill() {
    for code in [
        KeyCode::Backspace,
        KeyCode::Delete,
        KeyCode::Char('k'),
        KeyCode::Char('u'),
        KeyCode::Char('w'),
    ] {
        let mut editor = LineEditor::default();
        editor.prefill("generated", true);
        let modifiers = match code {
            KeyCode::Char(_) => KeyModifiers::control(),
            _ => KeyModifiers::empty(),
        };
        assert_eq!(
            editor.apply_key(&key(code, modifiers)),
            LineEditOutcome::TextChanged
        );
        assert!(editor.is_empty(), "{code:?} should clear the prefill");
        assert!(!editor.replace_on_type);
    }
}

#[test]
fn replace_on_type_movement_only_clears_the_flag() {
    let mut editor = LineEditor::default();
    editor.prefill("generated", true);
    editor.apply_key(&key(KeyCode::Left, KeyModifiers::empty()));
    assert_eq!(editor, "generated");
    assert!(!editor.replace_on_type);

    editor.insert_str("x");
    assert_eq!(editor, "generatexd");
}

#[test]
fn unbound_keys_are_ignored() {
    let mut editor = LineEditor::from("text");
    for (code, modifiers) in [
        (KeyCode::Enter, KeyModifiers::empty()),
        (KeyCode::Esc, KeyModifiers::empty()),
        (KeyCode::Char('c'), KeyModifiers::control()),
        (KeyCode::Char('x'), KeyModifiers::alt()),
    ] {
        assert_eq!(
            editor.apply_key(&key(code, modifiers)),
            LineEditOutcome::Ignored
        );
    }
    assert_eq!(editor, "text");
}
