//! The editor as a mathematical value, and what each operation and each key
//! does to it.
use vstd::prelude::*;
use crate::class::{whitespace, word_char};
use crate::keys::{KeyCode, KeyEvent};
use crate::skip::{lemma_run_start, run_end, run_start};

verus! {

/// What an editor holds: its chars, the cursor as the number of chars
/// before it, and the replace-on-type flag.
pub struct EditorView {
    pub text: Seq<char>,
    pub cursor: nat,
    pub replace_on_type: bool,
}

/// What applying a key event to an editor did.
#[derive(Clone, Copy, Debug, PartialEq, Eq)]
pub enum LineEditOutcome {
    TextChanged,
    CursorMoved,
    Ignored,
}

/// The editing operation that a key event stands for.
pub enum EditCommand {
    MoveStart,
    MoveEnd,
    MoveLeft,
    MoveRight,
    MoveWordLeft,
    MoveWordRight,
    KillToEnd,
    KillToStart,
    DeleteWordBack,
    Backspace,
    DeleteForward,
    Insert(char),
    Ignore,
}

/// The cursor lies within the text.
pub open spec fn in_bounds(v: EditorView) -> bool {
    v.cursor <= v.text.len()
}

/// An editor with no text.
pub open spec fn empty_view() -> EditorView {
    EditorView { text: Seq::empty(), cursor: 0, replace_on_type: false }
}

/// An editor holding `s` with the cursor at its end and the given flag.
pub open spec fn prefilled(s: Seq<char>, replace_on_type: bool) -> EditorView {
    EditorView { text: s, cursor: s.len(), replace_on_type }
}

/// The replace-on-type rule: while the flag is set, a text-changing edit
/// first discards the whole content.
pub open spec fn prefill_cleared(v: EditorView) -> EditorView {
    if v.replace_on_type {
        empty_view()
    } else {
        v
    }
}

/// `s` inserted at the cursor, the cursor placed after it.
pub open spec fn inserted(v: EditorView, s: Seq<char>) -> EditorView {
    let w = prefill_cleared(v);
    EditorView {
        text: w.text.take(w.cursor as int) + s + w.text.skip(w.cursor as int),
        cursor: w.cursor + s.len(),
        replace_on_type: false,
    }
}

/// The char before the cursor removed.
pub open spec fn backspaced(v: EditorView) -> EditorView {
    if v.replace_on_type {
        empty_view()
    } else if v.cursor == 0 {
        v
    } else {
        EditorView {
            text: v.text.remove(v.cursor - 1),
            cursor: (v.cursor - 1) as nat,
            replace_on_type: false,
        }
    }
}

/// The editor after `n` backspaces in a row.
pub open spec fn backspaced_times(v: EditorView, n: nat) -> EditorView
    decreases n,
{
    if n == 0 {
        v
    } else {
        backspaced(backspaced_times(v, (n - 1) as nat))
    }
}

/// The char after the cursor removed.
pub open spec fn forward_deleted(v: EditorView) -> EditorView {
    if v.replace_on_type {
        empty_view()
    } else if v.cursor < v.text.len() {
        EditorView { text: v.text.remove(v.cursor as int), cursor: v.cursor, replace_on_type: false }
    } else {
        v
    }
}

/// Everything after the cursor removed.
pub open spec fn killed_to_end(v: EditorView) -> EditorView {
    if v.replace_on_type {
        empty_view()
    } else {
        EditorView { text: v.text.take(v.cursor as int), cursor: v.cursor, replace_on_type: false }
    }
}

/// Everything before the cursor removed.
pub open spec fn killed_to_start(v: EditorView) -> EditorView {
    if v.replace_on_type {
        empty_view()
    } else {
        EditorView { text: v.text.skip(v.cursor as int), cursor: 0, replace_on_type: false }
    }
}

/// Word chars.
pub open spec fn word_class() -> spec_fn(char) -> bool {
    |c: char| word_char(c)
}

/// Separators: the chars that are not word chars.
pub open spec fn separator_class() -> spec_fn(char) -> bool {
    |c: char| !word_char(c)
}

/// Whitespace chars.
pub open spec fn whitespace_class() -> spec_fn(char) -> bool {
    |c: char| whitespace(c)
}

/// Non-whitespace chars that are word chars exactly when `word` holds.
pub open spec fn token_class(word: bool) -> spec_fn(char) -> bool {
    |c: char| !whitespace(c) && word_char(c) == word
}

/// Where the word before char index `k` starts: first the whitespace right
/// before `k` is skipped, then the run of chars of the same class (word
/// chars, or other non-whitespace) as the char reached.
pub open spec fn word_back_start(s: Seq<char>, k: int) -> int {
    let h = run_start(s, k, whitespace_class());
    if h > 0 {
        run_start(s, h, token_class(word_char(s[h - 1])))
    } else {
        h
    }
}

/// The start of the word before `k` lies within `0..=k`.
pub proof fn lemma_word_back_start(s: Seq<char>, k: int)
    requires
        0 <= k <= s.len(),
    ensures
        0 <= word_back_start(s, k) <= k,
{
    let h = run_start(s, k, whitespace_class());
    lemma_run_start(s, k, whitespace_class());
    if h > 0 {
        lemma_run_start(s, h, token_class(word_char(s[h - 1])));
    }
}

/// The word before the cursor removed, text after the cursor kept.
pub open spec fn word_deleted_back(v: EditorView) -> EditorView {
    if v.replace_on_type {
        empty_view()
    } else {
        let h = word_back_start(v.text, v.cursor as int);
        EditorView {
            text: v.text.take(h) + v.text.skip(v.cursor as int),
            cursor: h as nat,
            replace_on_type: false,
        }
    }
}

/// The cursor placed at char index `k`, the text kept, the flag cleared.
pub open spec fn moved_to(v: EditorView, k: nat) -> EditorView {
    EditorView { text: v.text, cursor: k, replace_on_type: false }
}

/// The cursor one char to the left, if it can go.
pub open spec fn moved_left(v: EditorView) -> EditorView {
    moved_to(v, if v.cursor > 0 { (v.cursor - 1) as nat } else { 0 })
}

/// The cursor one char to the right, if it can go.
pub open spec fn moved_right(v: EditorView) -> EditorView {
    moved_to(v, if v.cursor < v.text.len() { v.cursor + 1 } else { v.cursor })
}

/// The cursor at the start.
pub open spec fn moved_start(v: EditorView) -> EditorView {
    moved_to(v, 0)
}

/// The cursor at the end.
pub open spec fn moved_end(v: EditorView) -> EditorView {
    moved_to(v, v.text.len())
}

/// Start of the word at or before char index `k`: separators (non-word
/// chars) right before `k` are skipped, then word chars.
pub open spec fn word_left_target(s: Seq<char>, k: int) -> int {
    run_start(s, run_start(s, k, separator_class()), word_class())
}

/// End of the word at or after char index `k`: separators right after `k`
/// are skipped, then word chars.
pub open spec fn word_right_target(s: Seq<char>, k: int) -> int {
    run_end(s, run_end(s, k, separator_class()), word_class())
}

/// The cursor one word to the left.
pub open spec fn moved_word_left(v: EditorView) -> EditorView {
    moved_to(v, word_left_target(v.text, v.cursor as int) as nat)
}

/// The cursor one word to the right.
pub open spec fn moved_word_right(v: EditorView) -> EditorView {
    moved_to(v, word_right_target(v.text, v.cursor as int) as nat)
}

/// Bits of the Shift, Control, Alt and Super modifiers.
pub open spec fn shift_bit() -> u8 {
    0b0000_0001
}

pub open spec fn control_bit() -> u8 {
    0b0000_0010
}

pub open spec fn alt_bit() -> u8 {
    0b0000_0100
}

pub open spec fn super_bit() -> u8 {
    0b0000_1000
}

/// The key bindings: which operation a key event stands for.
pub open spec fn key_command(key: KeyEvent) -> EditCommand {
    let m = key.modifiers.spec_bits();
    let ctrl = m & control_bit() == control_bit();
    let alt = m & alt_bit() == alt_bit();
    let sup = m & super_bit() == super_bit();
    match key.code {
        KeyCode::Char(c) => {
            if ctrl && c == 'a' {
                EditCommand::MoveStart
            } else if ctrl && c == 'e' {
                EditCommand::MoveEnd
            } else if ctrl && c == 'b' {
                EditCommand::MoveLeft
            } else if ctrl && c == 'f' {
                EditCommand::MoveRight
            } else if alt && c == 'b' {
                EditCommand::MoveWordLeft
            } else if alt && c == 'f' {
                EditCommand::MoveWordRight
            } else if ctrl && c == 'k' {
                EditCommand::KillToEnd
            } else if ctrl && c == 'u' {
                EditCommand::KillToStart
            } else if ctrl && (c == 'h' || c == 'w') {
                EditCommand::DeleteWordBack
            } else if m & !shift_bit() == 0 {
                EditCommand::Insert(c)
            } else {
                EditCommand::Ignore
            }
        },
        KeyCode::Left => if alt {
            EditCommand::MoveWordLeft
        } else {
            EditCommand::MoveLeft
        },
        KeyCode::Right => if alt {
            EditCommand::MoveWordRight
        } else {
            EditCommand::MoveRight
        },
        KeyCode::Home => EditCommand::MoveStart,
        KeyCode::End => EditCommand::MoveEnd,
        KeyCode::Backspace => if sup {
            EditCommand::KillToStart
        } else if ctrl || alt {
            EditCommand::DeleteWordBack
        } else {
            EditCommand::Backspace
        },
        KeyCode::Delete => EditCommand::DeleteForward,
        _ => EditCommand::Ignore,
    }
}

/// The operation that a key stands for among the text-editing bindings
/// alone: the cursor-motion bindings count as unbound there.
pub open spec fn edit_key_command(key: KeyEvent) -> EditCommand {
    if command_outcome(key_command(key)) == LineEditOutcome::CursorMoved {
        EditCommand::Ignore
    } else {
        key_command(key)
    }
}

/// What an operation reports: cursor motions move the cursor, `Ignore`
/// does nothing, the rest change the text.
pub open spec fn command_outcome(cmd: EditCommand) -> LineEditOutcome {
    match cmd {
        EditCommand::MoveStart | EditCommand::MoveEnd | EditCommand::MoveLeft
        | EditCommand::MoveRight | EditCommand::MoveWordLeft
        | EditCommand::MoveWordRight => LineEditOutcome::CursorMoved,
        EditCommand::Ignore => LineEditOutcome::Ignored,
        _ => LineEditOutcome::TextChanged,
    }
}

/// The editor after an operation.
pub open spec fn command_effect(v: EditorView, cmd: EditCommand) -> EditorView {
    match cmd {
        EditCommand::MoveStart => moved_start(v),
        EditCommand::MoveEnd => moved_end(v),
        EditCommand::MoveLeft => moved_left(v),
        EditCommand::MoveRight => moved_right(v),
        EditCommand::MoveWordLeft => moved_word_left(v),
        EditCommand::MoveWordRight => moved_word_right(v),
        EditCommand::KillToEnd => killed_to_end(v),
        EditCommand::KillToStart => killed_to_start(v),
        EditCommand::DeleteWordBack => word_deleted_back(v),
        EditCommand::Backspace => backspaced(v),
        EditCommand::DeleteForward => forward_deleted(v),
        EditCommand::Insert(c) => inserted(v, seq![c]),
        EditCommand::Ignore => v,
    }
}

} // verus!
