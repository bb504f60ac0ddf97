//! Properties that hold across the editor's operations.
use vstd::prelude::*;
use crate::class::{ascii_alphanumeric, whitespace, word_char};
use crate::editor::byte_offset;
use crate::encoding::{byte_len, lemma_encode_concat};
use crate::keys::{KeyCode, KeyEvent};
use crate::model::{
    EditCommand, EditorView, LineEditOutcome, backspaced, backspaced_times, command_effect,
    command_outcome, forward_deleted, in_bounds, inserted, key_command, killed_to_end,
    killed_to_start, lemma_word_back_start, moved_left, moved_right, prefill_cleared, prefilled,
    separator_class, token_class, whitespace_class, word_back_start, word_class,
    word_deleted_back, word_left_target, word_right_target,
};
use crate::skip::{lemma_run_end, lemma_run_start, run_end, run_start};

verus! {

/// Every operation keeps the cursor within the text.
pub proof fn lemma_effect_in_bounds(v: EditorView, cmd: EditCommand)
    requires
        in_bounds(v),
    ensures
        in_bounds(command_effect(v, cmd)),
{
    lemma_word_left_target(v.text, v.cursor as int);
    lemma_word_right_target(v.text, v.cursor as int);
    lemma_word_back_start(v.text, v.cursor as int);
}

/// A key reported as a cursor motion leaves the text as it was and clears
/// the replace-on-type flag.
pub proof fn lemma_motion_keeps_text(v: EditorView, cmd: EditCommand)
    requires
        command_outcome(cmd) == LineEditOutcome::CursorMoved,
    ensures
        command_effect(v, cmd).text == v.text,
        !command_effect(v, cmd).replace_on_type,
{
}

/// A key reported as ignored leaves the editor as it was.
pub proof fn lemma_ignored_keeps_state(v: EditorView, cmd: EditCommand)
    requires
        command_outcome(cmd) == LineEditOutcome::Ignored,
    ensures
        command_effect(v, cmd) == v,
{
}

/// While the replace-on-type flag is set, a text-changing key discards the
/// prefilled content wholesale: what remains is the typed char, or nothing.
pub proof fn lemma_replace_on_type(v: EditorView, cmd: EditCommand)
    requires
        v.replace_on_type,
        command_outcome(cmd) == LineEditOutcome::TextChanged,
    ensures
        !command_effect(v, cmd).replace_on_type,
        match cmd {
            EditCommand::Insert(c) => command_effect(v, cmd).text == seq![c]
                && command_effect(v, cmd).cursor == 1,
            _ => command_effect(v, cmd).text.len() == 0 && command_effect(v, cmd).cursor == 0,
        },
{
    match cmd {
        EditCommand::Insert(c) => {
            assert(Seq::<char>::empty().take(0) + seq![c] + Seq::<char>::empty().skip(0) =~= seq![
                c,
            ]);
        },
        _ => {},
    }
}

/// Without a pending prefill, backspace undoes the insertion of one char.
pub proof fn lemma_backspace_undoes_insert(v: EditorView, c: char)
    requires
        in_bounds(v),
        !v.replace_on_type,
    ensures
        backspaced(inserted(v, seq![c])) == v,
{
    let w = inserted(v, seq![c]);
    assert(w.text.remove(v.cursor as int) =~= v.text);
}

/// `m` backspaces after the text `a + s + b` with the cursor after `s`
/// remove the last `m` chars of `s`.
proof fn lemma_backspaces_eat_inserted(a: Seq<char>, s: Seq<char>, b: Seq<char>, m: nat)
    requires
        m <= s.len(),
    ensures
        backspaced_times(
            EditorView { text: a + s + b, cursor: a.len() + s.len(), replace_on_type: false },
            m,
        ) == (EditorView {
            text: a + s.take(s.len() - m) + b,
            cursor: (a.len() + s.len() - m) as nat,
            replace_on_type: false,
        }),
    decreases m,
{
    if m == 0 {
        assert(s.take(s.len() as int) =~= s);
    } else {
        lemma_backspaces_eat_inserted(a, s, b, (m - 1) as nat);
        let t = a + s.take(s.len() - (m - 1)) + b;
        let c = a.len() + s.len() - (m - 1);
        assert(t.remove(c - 1) =~= a + s.take(s.len() - m) + b);
    }
}

/// Without a pending prefill, as many backspaces as a text has chars undo
/// its insertion.
pub proof fn lemma_backspaces_undo_insert(v: EditorView, s: Seq<char>)
    requires
        in_bounds(v),
        !v.replace_on_type,
    ensures
        backspaced_times(inserted(v, s), s.len()) == v,
{
    let a = v.text.take(v.cursor as int);
    let b = v.text.skip(v.cursor as int);
    lemma_backspaces_eat_inserted(a, s, b, s.len());
    assert(s.take(0) =~= Seq::<char>::empty());
    assert(a + s.take(0) + b =~= v.text);
}

/// Moving right then left returns to the same char, unless at the end.
pub proof fn lemma_right_then_left(v: EditorView)
    requires
        v.cursor < v.text.len(),
    ensures
        moved_left(moved_right(v)).cursor == v.cursor,
        moved_left(moved_right(v)).text == v.text,
{
}

/// Moving left then right returns to the same char, unless at the start.
pub proof fn lemma_left_then_right(v: EditorView)
    requires
        in_bounds(v),
        v.cursor > 0,
    ensures
        moved_right(moved_left(v)).cursor == v.cursor,
        moved_right(moved_left(v)).text == v.text,
{
}

/// Word-left motion first skips the separators before the cursor, then the
/// word chars before them, and stops after a separator or at the start.
pub proof fn lemma_word_left_target(s: Seq<char>, k: int)
    requires
        0 <= k <= s.len(),
    ensures
        0 <= word_left_target(s, k) <= run_start(s, k, separator_class()) <= k,
        forall|i: int|
            run_start(s, k, separator_class()) <= i < k ==> !word_char(#[trigger] s[i]),
        forall|i: int|
            word_left_target(s, k) <= i < run_start(s, k, separator_class()) ==> word_char(
                #[trigger] s[i],
            ),
        word_left_target(s, k) > 0 ==> !word_char(s[word_left_target(s, k) - 1]),
{
    let a = run_start(s, k, separator_class());
    lemma_run_start(s, k, separator_class());
    lemma_run_start(s, a, word_class());
    assert forall|i: int| a <= i < k implies !word_char(#[trigger] s[i]) by {
        assert(separator_class()(s[i]));
    }
    assert forall|i: int| word_left_target(s, k) <= i < a implies word_char(#[trigger] s[i]) by {
        assert(word_class()(s[i]));
    }
    if word_left_target(s, k) > 0 {
        assert(!word_class()(s[word_left_target(s, k) - 1]));
    }
}

/// Word-right motion first skips the separators after the cursor, then the
/// word chars after them, and stops before a separator or at the end.
pub proof fn lemma_word_right_target(s: Seq<char>, k: int)
    requires
        0 <= k <= s.len(),
    ensures
        k <= run_end(s, k, separator_class()) <= word_right_target(s, k) <= s.len(),
        forall|i: int|
            k <= i < run_end(s, k, separator_class()) ==> !word_char(#[trigger] s[i]),
        forall|i: int|
            run_end(s, k, separator_class()) <= i < word_right_target(s, k) ==> word_char(
                #[trigger] s[i],
            ),
        word_right_target(s, k) < s.len() ==> !word_char(s[word_right_target(s, k)]),
{
    let a = run_end(s, k, separator_class());
    lemma_run_end(s, k, separator_class());
    lemma_run_end(s, a, word_class());
    assert forall|i: int| k <= i < a implies !word_char(#[trigger] s[i]) by {
        assert(separator_class()(s[i]));
    }
    assert forall|i: int| a <= i < word_right_target(s, k) implies word_char(#[trigger] s[i]) by {
        assert(word_class()(s[i]));
    }
    if word_right_target(s, k) < s.len() {
        assert(!word_class()(s[word_right_target(s, k)]));
    }
}

/// Deleting the word before the cursor removes only chars before the
/// cursor: the text before the new cursor and the text after the old one
/// are kept.
pub proof fn lemma_word_delete_keeps_tail(v: EditorView)
    requires
        in_bounds(v),
        !v.replace_on_type,
    ensures
        word_deleted_back(v).cursor <= v.cursor,
        word_deleted_back(v).text.take(word_deleted_back(v).cursor as int) == v.text.take(
            word_deleted_back(v).cursor as int,
        ),
        word_deleted_back(v).text.skip(word_deleted_back(v).cursor as int) == v.text.skip(
            v.cursor as int,
        ),
{
    lemma_word_back_start(v.text, v.cursor as int);
    let h = word_back_start(v.text, v.cursor as int);
    let t = word_deleted_back(v).text;
    assert(t.take(h) =~= v.text.take(h));
    assert(t.skip(h) =~= v.text.skip(v.cursor as int));
}


/// Inserting a text moves the byte cursor forward by the text's byte
/// length, from where the replace-on-type rule left it.
pub proof fn lemma_insert_advances_cursor(v: EditorView, s: Seq<char>)
    requires
        in_bounds(v),
    ensures
        byte_offset(inserted(v, s).text, inserted(v, s).cursor) == byte_offset(
            prefill_cleared(v).text,
            prefill_cleared(v).cursor,
        ) + byte_len(s),
{
    let w = prefill_cleared(v);
    let t = inserted(v, s).text;
    assert(t.take(inserted(v, s).cursor as int) =~= w.text.take(w.cursor as int) + s);
    lemma_encode_concat(w.text.take(w.cursor as int), s);
}

/// After the content is replaced, the byte cursor is the content's byte
/// length: it sits at the end.
pub proof fn lemma_prefill_cursor_at_end(s: Seq<char>, replace_on_type: bool)
    ensures
        byte_offset(prefilled(s, replace_on_type).text, prefilled(s, replace_on_type).cursor)
            == byte_len(s),
{
    assert(s.take(s.len() as int) =~= s);
}


/// Backspace: with Super it deletes everything before the cursor; else with
/// Control or Alt the word before the cursor; with none of the three (Shift
/// and the rest do not count) the one char before the cursor.
pub proof fn lemma_backspace_bindings(key: KeyEvent)
    requires
        key.code == KeyCode::Backspace,
    ensures
        key.modifiers.spec_bits() & 0b1000u8 != 0 ==> key_command(key) == EditCommand::KillToStart,
        key.modifiers.spec_bits() & 0b1000u8 == 0 && key.modifiers.spec_bits() & 0b0110u8 != 0
            ==> key_command(key) == EditCommand::DeleteWordBack,
        key.modifiers.spec_bits() & 0b1110u8 == 0 ==> key_command(key) == EditCommand::Backspace,
{
    let m = key.modifiers.spec_bits();
    assert(m & 8u8 != 0 <==> m & 8u8 == 8u8) by (bit_vector);
    assert(m & 6u8 != 0 <==> (m & 2u8 == 2u8 || m & 4u8 == 4u8)) by (bit_vector);
    assert(m & 14u8 == 0 ==> m & 2u8 != 2u8 && m & 4u8 != 4u8 && m & 8u8 != 8u8) by (bit_vector);
}

/// Delete removes the char after the cursor whatever the modifiers; Home and
/// End go to the start and the end; Left and Right go one word with Alt and
/// one char without; every other non-char key is unbound.
pub proof fn lemma_non_char_bindings(key: KeyEvent)
    ensures
        key.code == KeyCode::Delete ==> key_command(key) == EditCommand::DeleteForward,
        key.code == KeyCode::Home ==> key_command(key) == EditCommand::MoveStart,
        key.code == KeyCode::End ==> key_command(key) == EditCommand::MoveEnd,
        key.code == KeyCode::Left ==> key_command(key) == (if key.modifiers.spec_bits() & 0b100u8
            != 0 {
            EditCommand::MoveWordLeft
        } else {
            EditCommand::MoveLeft
        }),
        key.code == KeyCode::Right ==> key_command(key) == (if key.modifiers.spec_bits() & 0b100u8
            != 0 {
            EditCommand::MoveWordRight
        } else {
            EditCommand::MoveRight
        }),
        !(key.code is Char) && key.code != KeyCode::Delete && key.code != KeyCode::Home
            && key.code != KeyCode::End && key.code != KeyCode::Left && key.code != KeyCode::Right
            && key.code != KeyCode::Backspace ==> key_command(key) == EditCommand::Ignore,
{
    let m = key.modifiers.spec_bits();
    assert(m & 4u8 != 0 <==> m & 4u8 == 4u8) by (bit_vector);
}

/// A char key: with no modifier but Shift it types the char; with Control
/// it is an Emacs binding (a, e, b, f move; k, u kill; h, w delete a word);
/// with Alt and not Control, b and f move by words; anything else is unbound.
pub proof fn lemma_char_bindings(key: KeyEvent, c: char)
    requires
        key.code == KeyCode::Char(c),
    ensures
        key.modifiers.spec_bits() & !0b1u8 == 0 ==> key_command(key) == EditCommand::Insert(c),
        key.modifiers.spec_bits() & 0b10u8 != 0 ==> key_command(key) == (if c == 'a' {
            EditCommand::MoveStart
        } else if c == 'e' {
            EditCommand::MoveEnd
        } else if c == 'b' {
            EditCommand::MoveLeft
        } else if c == 'f' {
            EditCommand::MoveRight
        } else if c == 'k' {
            EditCommand::KillToEnd
        } else if c == 'u' {
            EditCommand::KillToStart
        } else if c == 'h' || c == 'w' {
            EditCommand::DeleteWordBack
        } else {
            EditCommand::Ignore
        }),
        key.modifiers.spec_bits() & 0b10u8 == 0 && key.modifiers.spec_bits() & 0b100u8 != 0
            ==> key_command(key) == (if c == 'b' {
            EditCommand::MoveWordLeft
        } else if c == 'f' {
            EditCommand::MoveWordRight
        } else {
            EditCommand::Ignore
        }),
        key.modifiers.spec_bits() & 0b110u8 == 0 && key.modifiers.spec_bits() & !0b1u8 != 0
            ==> key_command(key) == EditCommand::Ignore,
{
    let m = key.modifiers.spec_bits();
    assert(m & 2u8 != 0 <==> m & 2u8 == 2u8) by (bit_vector);
    assert(m & 4u8 != 0 <==> m & 4u8 == 4u8) by (bit_vector);
    assert(m & !1u8 == 0 ==> m & 2u8 == 0 && m & 4u8 == 0) by (bit_vector);
    assert(m & 6u8 == 0 ==> m & 2u8 != 2u8 && m & 4u8 != 4u8) by (bit_vector);
}

/// Among ASCII chars the word chars are exactly the letters, the digits and
/// `_`; every other ASCII char (punctuation, space, controls) separates words.
pub proof fn lemma_ascii_word_chars(c: char)
    requires
        (c as u32) < 0x80,
    ensures
        word_char(c) <==> (('a' <= c <= 'z') || ('A' <= c <= 'Z') || ('0' <= c <= '9') || c
            == '_'),
{
}

/// Deleting a word back: first the run of whitespace right before the
/// cursor (ending at `h1`), then the whole run of non-whitespace chars of the
/// class of the char before `h1` (word chars, or separators), and no more.
/// At least one char goes unless the text before the cursor is all
/// whitespace.
pub proof fn lemma_word_back_start_spec(s: Seq<char>, k: int)
    requires
        0 <= k <= s.len(),
    ensures
        ({
            let h1 = run_start(s, k, whitespace_class());
            let h = word_back_start(s, k);
            &&& 0 <= h <= h1 <= k
            &&& forall|i: int| h1 <= i < k ==> whitespace(#[trigger] s[i])
            &&& h1 > 0 ==> !whitespace(s[h1 - 1])
            &&& h1 > 0 ==> h < h1
            &&& h1 == 0 ==> h == 0
            &&& forall|i: int|
                h <= i < h1 ==> !whitespace(#[trigger] s[i]) && word_char(s[i]) == word_char(
                    s[h1 - 1],
                )
            &&& h > 0 && h1 > 0 ==> (whitespace(s[h - 1]) || word_char(s[h - 1]) != word_char(
                s[h1 - 1],
            ))
        }),
{
    let h1 = run_start(s, k, whitespace_class());
    lemma_run_start(s, k, whitespace_class());
    assert forall|i: int| h1 <= i < k implies whitespace(#[trigger] s[i]) by {
        assert(whitespace_class()(s[i]));
    }
    if h1 > 0 {
        assert(!whitespace_class()(s[h1 - 1]));
        let p = token_class(word_char(s[h1 - 1]));
        lemma_run_start(s, h1, p);
        let h = run_start(s, h1, p);
        assert(p(s[h1 - 1]));
        assert forall|i: int| h <= i < h1 implies !whitespace(#[trigger] s[i]) && word_char(s[i])
            == word_char(s[h1 - 1]) by {
            assert(p(s[i]));
        }
        if h > 0 {
            assert(!p(s[h - 1]));
        }
    }
}

/// Backspace without a pending prefill removes only the char before the
/// cursor: the text before the new cursor and the text from the old cursor
/// on are kept, and at the start nothing changes.
pub proof fn lemma_backspace_local(v: EditorView)
    requires
        in_bounds(v),
        !v.replace_on_type,
    ensures
        backspaced(v).cursor == (if v.cursor > 0 { v.cursor - 1 } else { 0 }),
        backspaced(v).text.len() == (if v.cursor > 0 { v.text.len() - 1 } else { v.text.len() as int }),
        backspaced(v).text.take(backspaced(v).cursor as int) == v.text.take(
            backspaced(v).cursor as int,
        ),
        backspaced(v).text.skip(backspaced(v).cursor as int) == v.text.skip(v.cursor as int),
        v.cursor == 0 ==> backspaced(v) == v,
        !backspaced(v).replace_on_type,
{
    if v.cursor > 0 {
        let t = backspaced(v).text;
        assert(t.take(v.cursor - 1) =~= v.text.take(v.cursor - 1));
        assert(t.skip(v.cursor - 1) =~= v.text.skip(v.cursor as int));
    }
}

/// Delete without a pending prefill removes only the char after the cursor:
/// the cursor stays, the text before it is kept, and the text after it
/// loses its first char.
pub proof fn lemma_delete_forward_local(v: EditorView)
    requires
        in_bounds(v),
        !v.replace_on_type,
    ensures
        forward_deleted(v).cursor == v.cursor,
        forward_deleted(v).text.take(v.cursor as int) == v.text.take(v.cursor as int),
        forward_deleted(v).text.skip(v.cursor as int) == (if v.cursor < v.text.len() {
            v.text.skip(v.cursor + 1int)
        } else {
            v.text.skip(v.cursor as int)
        }),
        !forward_deleted(v).replace_on_type,
{
    if v.cursor < v.text.len() {
        let t = forward_deleted(v).text;
        assert(t.take(v.cursor as int) =~= v.text.take(v.cursor as int));
        assert(t.skip(v.cursor as int) =~= v.text.skip(v.cursor + 1int));
    }
}

/// Without a pending prefill, killing to the end keeps exactly the text
/// before the cursor, and killing to the start keeps exactly the text after
/// it, the cursor then at the start.
pub proof fn lemma_kills_local(v: EditorView)
    requires
        in_bounds(v),
        !v.replace_on_type,
    ensures
        killed_to_end(v).text == v.text.take(v.cursor as int),
        killed_to_end(v).cursor == v.cursor,
        killed_to_start(v).text == v.text.skip(v.cursor as int),
        killed_to_start(v).cursor == 0,
{
}

/// Without a pending prefill, inserting keeps the text before and after the
/// cursor and puts the inserted chars between them, the cursor after them.
pub proof fn lemma_insert_local(v: EditorView, s: Seq<char>)
    requires
        in_bounds(v),
        !v.replace_on_type,
    ensures
        inserted(v, s).cursor == v.cursor + s.len(),
        inserted(v, s).text.take(v.cursor as int) == v.text.take(v.cursor as int),
        inserted(v, s).text.subrange(v.cursor as int, (v.cursor + s.len()) as int) == s,
        inserted(v, s).text.skip((v.cursor + s.len()) as int) == v.text.skip(v.cursor as int),
        inserted(v, s).text.len() == v.text.len() + s.len(),
{
    let t = inserted(v, s).text;
    assert(t.take(v.cursor as int) =~= v.text.take(v.cursor as int));
    assert(t.subrange(v.cursor as int, (v.cursor + s.len()) as int) =~= s);
    assert(t.skip((v.cursor + s.len()) as int) =~= v.text.skip(v.cursor as int));
}

} // verus!
