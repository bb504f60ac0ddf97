//! The single-line input buffer with a byte-offset cursor.
use vstd::prelude::*;
use crate::class::{char_is_whitespace, is_word_char, whitespace, word_char};
use crate::encoding::{
    byte_len, char_at, char_before, char_index, cut, encode_char, is_boundary,
    lemma_boundary_index, lemma_char_index, lemma_encode_concat, lemma_prefix_le,
    lemma_prefix_step, next_boundary, same_text, splice, text_len, utf8_width,
};
use crate::keys::{KeyCode, KeyEvent, KeyModifiers};
use crate::model::{
    EditorView, LineEditOutcome, backspaced, command_effect, command_outcome, edit_key_command,
    empty_view,
    forward_deleted, inserted, key_command, killed_to_end, killed_to_start, moved_end,
    moved_left, moved_right, moved_start, moved_word_left, moved_word_right, prefill_cleared,
    prefilled, separator_class, token_class, whitespace_class, word_back_start, word_class,
    word_deleted_back,
};
use crate::skip::{lemma_run_end_unique, lemma_run_start_unique, skip_left, skip_right};

verus! {

/// Single-line input buffer with a cursor.
///
/// The cursor is a byte offset into `text`, always on a char boundary and
/// never past the text's byte length.
#[derive(Debug, Clone, PartialEq, Eq)]
pub struct LineEditor {
    text: String,
    cursor: usize,
    /// When set, the next text-changing edit replaces the prefilled content
    /// instead of editing it; cursor movement clears the flag (deselect).
    pub replace_on_type: bool,
}

impl View for LineEditor {
    type V = EditorView;

    closed spec fn view(&self) -> EditorView {
        EditorView {
            text: self.text@,
            cursor: char_index(self.text@, self.cursor as int) as nat,
            replace_on_type: self.replace_on_type,
        }
    }
}

/// Byte offset of the char index `k` into `s`.
pub open spec fn byte_offset(s: Seq<char>, k: nat) -> nat {
    byte_len(s.take(k as int))
}

impl LineEditor {
    /// The cursor lies on a char boundary of the text.
    pub closed spec fn wf(&self) -> bool {
        is_boundary(self.text@, self.cursor as int)
    }

    /// A well-formed editor's cursor lies within its text.
    pub proof fn lemma_in_bounds(&self)
        requires
            self.wf(),
        ensures
            self@.cursor <= self@.text.len(),
    {
        lemma_boundary_index(self.text@, self.cursor as int);
    }

    /// The content.
    pub fn text(&self) -> (t: &str)
        ensures
            t@ == self@.text,
    {
        self.text.as_str()
    }

    /// The cursor, as a byte offset into the content.
    pub fn cursor(&self) -> (c: usize)
        requires
            self.wf(),
        ensures
            c == byte_offset(self@.text, self@.cursor),
    {
        proof {
            lemma_boundary_index(self.text@, self.cursor as int);
        }
        self.cursor
    }

    /// Whether the content is empty.
    pub fn is_empty(&self) -> (r: bool)
        ensures
            r == (self@.text.len() == 0),
    {
        self.text.as_str().is_empty()
    }

    /// Replace the content, placing the cursor at the end.
    pub fn set_text(&mut self, text: &str)
        ensures
            final(self).wf(),
            final(self)@ == prefilled(text@, false),
    {
        self.text = text.to_owned();
        self.cursor = text_len(self.text.as_str());
        self.replace_on_type = false;
    }

    /// Replace the content with a prefill, placing the cursor at the end.
    pub fn prefill(&mut self, text: &str, replace_on_type: bool)
        ensures
            final(self).wf(),
            final(self)@ == prefilled(text@, replace_on_type),
    {
        self.set_text(text);
        self.replace_on_type = replace_on_type;
    }

    /// Remove all content.
    pub fn clear(&mut self)
        ensures
            final(self).wf(),
            final(self)@ == empty_view(),
    {
        self.text = String::new();
        self.cursor = 0;
        self.replace_on_type = false;
        proof {
            lemma_char_index(self.text@, 0);
            lemma_prefix_le(self.text@, 0);
        }
    }

    /// Enforce the replace-on-type rule: while the flag is set, the first
    /// text-changing edit discards the prefilled content wholesale. Returns
    /// true when the buffer was cleared.
    fn clear_prefill(&mut self) -> (cleared: bool)
        requires
            old(self).wf(),
        ensures
            final(self).wf(),
            final(self)@ == prefill_cleared(old(self)@),
            cleared == old(self)@.replace_on_type,
    {
        if self.replace_on_type {
            self.clear();
            return true;
        }
        false
    }

    /// Insert `text` at the cursor and place the cursor after it.
    pub fn insert_str(&mut self, text: &str)
        requires
            old(self).wf(),
        ensures
            final(self).wf(),
            final(self)@ == inserted(old(self)@, text@),
    {
        self.clear_prefill();
        let ghost s = self.text@;
        let ghost k = char_index(s, self.cursor as int);
        proof {
            lemma_boundary_index(s, self.cursor as int);
        }
        let joined = splice(self.text.as_str(), self.cursor, self.cursor, text);
        // The byte length of the new text fits in a usize, and so does the new cursor.
        let _len = text_len(joined.as_str());
        let added = text_len(text);
        proof {
            let t = joined@;
            let m = k + text@.len();
            assert(t.take(m) =~= s.take(k) + text@);
            lemma_encode_concat(s.take(k), text@);
            lemma_prefix_le(t, m);
            lemma_char_index(t, m);
        }
        self.text = joined;
        self.cursor = self.cursor + added;
    }

    /// Replace the text with `t`, the cursor at char index `k` given by its
    /// byte offset `b`.
    fn replace_text(&mut self, t: String, b: usize, Ghost(k): Ghost<int>)
        requires
            0 <= k <= t@.len(),
            b == byte_len(t@.take(k)),
        ensures
            final(self).wf(),
            final(self)@ == (EditorView {
                text: t@,
                cursor: k as nat,
                replace_on_type: old(self).replace_on_type,
            }),
    {
        proof {
            lemma_char_index(t@, k);
        }
        self.text = t;
        self.cursor = b;
    }

    /// Delete the char before the cursor.
    pub fn backspace(&mut self)
        requires
            old(self).wf(),
        ensures
            final(self).wf(),
            final(self)@ == backspaced(old(self)@),
    {
        if self.clear_prefill() {
            return;
        }
        let ghost s = self.text@;
        let ghost k = char_index(s, self.cursor as int);
        proof {
            lemma_boundary_index(s, self.cursor as int);
        }
        if let Some(ch) = char_before(self.text.as_str(), self.cursor) {
            proof {
                lemma_prefix_step(s, k - 1);
                lemma_char_index(s, k - 1);
            }
            let at = self.cursor - utf8_width(ch);
            let rest = cut(self.text.as_str(), at, self.cursor);
            proof {
                assert(rest@ =~= s.remove(k - 1));
                assert(rest@.take(k - 1) =~= s.take(k - 1));
            }
            self.replace_text(rest, at, Ghost(k - 1));
        }
    }

    /// Delete the char after the cursor.
    pub fn delete_forward(&mut self)
        requires
            old(self).wf(),
        ensures
            final(self).wf(),
            final(self)@ == forward_deleted(old(self)@),
    {
        if self.clear_prefill() {
            return;
        }
        let ghost s = self.text@;
        let ghost k = char_index(s, self.cursor as int);
        proof {
            lemma_boundary_index(s, self.cursor as int);
        }
        let n = text_len(self.text.as_str());
        if self.cursor < n {
            proof {
                if k == s.len() {
                    assert(s.take(k) =~= s);
                }
            }
            let next = next_boundary(self.text.as_str(), self.cursor);
            let rest = cut(self.text.as_str(), self.cursor, next);
            proof {
                assert(rest@ =~= s.remove(k));
                assert(rest@.take(k) =~= s.take(k));
            }
            self.replace_text(rest, self.cursor, Ghost(k));
        } else {
            proof {
                if k < s.len() {
                    crate::encoding::lemma_prefix_strict(s, k, s.len() as int);
                    assert(s.take(s.len() as int) =~= s);
                }
            }
        }
    }

    /// Delete everything after the cursor.
    pub fn kill_to_end(&mut self)
        requires
            old(self).wf(),
        ensures
            final(self).wf(),
            final(self)@ == killed_to_end(old(self)@),
    {
        if self.clear_prefill() {
            return;
        }
        let ghost s = self.text@;
        let ghost k = char_index(s, self.cursor as int);
        proof {
            lemma_boundary_index(s, self.cursor as int);
        }
        let n = text_len(self.text.as_str());
        let rest = cut(self.text.as_str(), self.cursor, n);
        proof {
            assert(rest@ =~= s.take(k));
            assert(rest@.take(k) =~= s.take(k));
        }
        self.replace_text(rest, self.cursor, Ghost(k));
    }

    /// Delete everything before the cursor.
    pub fn kill_to_start(&mut self)
        requires
            old(self).wf(),
        ensures
            final(self).wf(),
            final(self)@ == killed_to_start(old(self)@),
    {
        if self.clear_prefill() {
            return;
        }
        let ghost s = self.text@;
        let ghost k = char_index(s, self.cursor as int);
        proof {
            lemma_boundary_index(s, self.cursor as int);
            lemma_char_index(s, 0);
            lemma_prefix_le(s, 0);
        }
        let rest = cut(self.text.as_str(), 0, self.cursor);
        proof {
            assert(rest@ =~= s.skip(k));
            lemma_prefix_le(rest@, 0);
        }
        self.replace_text(rest, 0, Ghost(0));
    }

    /// Move the cursor one char to the left.
    pub fn move_left(&mut self)
        requires
            old(self).wf(),
        ensures
            final(self).wf(),
            final(self)@ == moved_left(old(self)@),
    {
        self.replace_on_type = false;
        let ghost s = self.text@;
        let ghost k = char_index(s, self.cursor as int);
        proof {
            lemma_boundary_index(s, self.cursor as int);
        }
        if let Some(ch) = char_before(self.text.as_str(), self.cursor) {
            proof {
                lemma_prefix_step(s, k - 1);
                lemma_char_index(s, k - 1);
            }
            self.cursor = self.cursor - utf8_width(ch);
        }
    }

    /// Move the cursor one char to the right.
    pub fn move_right(&mut self)
        requires
            old(self).wf(),
        ensures
            final(self).wf(),
            final(self)@ == moved_right(old(self)@),
    {
        self.replace_on_type = false;
        let ghost s = self.text@;
        let ghost k = char_index(s, self.cursor as int);
        proof {
            lemma_boundary_index(s, self.cursor as int);
        }
        // The byte length of the text fits in a usize, and so does the new cursor.
        let _len = text_len(self.text.as_str());
        if let Some(ch) = char_at(self.text.as_str(), self.cursor) {
            proof {
                lemma_prefix_step(s, k);
                lemma_prefix_le(s, k + 1);
                lemma_char_index(s, k + 1);
            }
            self.cursor = self.cursor + utf8_width(ch);
        }
    }

    /// Move the cursor to the start.
    pub fn move_start(&mut self)
        requires
            old(self).wf(),
        ensures
            final(self).wf(),
            final(self)@ == moved_start(old(self)@),
    {
        self.replace_on_type = false;
        self.cursor = 0;
        proof {
            lemma_char_index(self.text@, 0);
            lemma_prefix_le(self.text@, 0);
        }
    }

    /// Move the cursor to the end.
    pub fn move_end(&mut self)
        requires
            old(self).wf(),
        ensures
            final(self).wf(),
            final(self)@ == moved_end(old(self)@),
    {
        self.replace_on_type = false;
        self.cursor = text_len(self.text.as_str());
    }

    /// Move the cursor to the start of the word before it: separators first,
    /// then word chars.
    pub fn move_word_left(&mut self)
        requires
            old(self).wf(),
        ensures
            final(self).wf(),
            final(self)@ == moved_word_left(old(self)@),
    {
        self.replace_on_type = false;
        let ghost s = self.text@;
        let ghost k = char_index(s, self.cursor as int);
        let a = skip_left(
            self.text.as_str(),
            self.cursor,
            |ch: char| -> (r: bool) ensures r == !word_char(ch) { !is_word_char(ch) },
        );
        let ghost ka = char_index(s, a as int);
        proof {
            lemma_boundary_index(s, self.cursor as int);
            lemma_boundary_index(s, a as int);
            assert forall|i: int| ka <= i < k implies #[trigger] separator_class()(s[i]) by {}
            lemma_run_start_unique(s, k, ka, separator_class());
        }
        let b = skip_left(
            self.text.as_str(),
            a,
            |ch: char| -> (r: bool) ensures r == word_char(ch) { is_word_char(ch) },
        );
        let ghost kb = char_index(s, b as int);
        proof {
            lemma_boundary_index(s, b as int);
            assert forall|i: int| kb <= i < ka implies #[trigger] word_class()(s[i]) by {}
            lemma_run_start_unique(s, ka, kb, word_class());
        }
        self.cursor = b;
    }

    /// Move the cursor to the end of the word after it: separators first,
    /// then word chars.
    pub fn move_word_right(&mut self)
        requires
            old(self).wf(),
        ensures
            final(self).wf(),
            final(self)@ == moved_word_right(old(self)@),
    {
        self.replace_on_type = false;
        let ghost s = self.text@;
        let ghost k = char_index(s, self.cursor as int);
        let a = skip_right(
            self.text.as_str(),
            self.cursor,
            |ch: char| -> (r: bool) ensures r == !word_char(ch) { !is_word_char(ch) },
        );
        let ghost ka = char_index(s, a as int);
        proof {
            lemma_boundary_index(s, self.cursor as int);
            lemma_boundary_index(s, a as int);
            assert forall|i: int| k <= i < ka implies #[trigger] separator_class()(s[i]) by {}
            lemma_run_end_unique(s, k, ka, separator_class());
        }
        let b = skip_right(
            self.text.as_str(),
            a,
            |ch: char| -> (r: bool) ensures r == word_char(ch) { is_word_char(ch) },
        );
        let ghost kb = char_index(s, b as int);
        proof {
            lemma_boundary_index(s, b as int);
            assert forall|i: int| ka <= i < kb implies #[trigger] word_class()(s[i]) by {}
            lemma_run_end_unique(s, ka, kb, word_class());
        }
        self.cursor = b;
    }

    /// Delete the word before the cursor: trailing whitespace first, then a
    /// run of same-class chars (word chars vs separators), preserving the
    /// text after the cursor.
    pub fn delete_word_back(&mut self)
        requires
            old(self).wf(),
        ensures
            final(self).wf(),
            final(self)@ == word_deleted_back(old(self)@),
    {
        if self.clear_prefill() {
            return;
        }
        let ghost s = self.text@;
        let ghost k = char_index(s, self.cursor as int);
        let tail_start = self.cursor;
        let mut head_end = skip_left(
            self.text.as_str(),
            self.cursor,
            |ch: char| -> (r: bool) ensures r == whitespace(ch) { char_is_whitespace(ch) },
        );
        let ghost h1 = char_index(s, head_end as int);
        proof {
            lemma_boundary_index(s, self.cursor as int);
            lemma_boundary_index(s, head_end as int);
            assert forall|i: int| h1 <= i < k implies #[trigger] whitespace_class()(s[i]) by {}
            lemma_run_start_unique(s, k, h1, whitespace_class());
        }
        if let Some(before) = char_before(self.text.as_str(), head_end) {
            let word = is_word_char(before);
            let h = skip_left(
                self.text.as_str(),
                head_end,
                |ch: char| -> (r: bool) ensures r == (!whitespace(ch) && word_char(ch) == word) { !char_is_whitespace(ch) && is_word_char(ch) == word },
            );
            proof {
                let h2 = char_index(s, h as int);
                lemma_boundary_index(s, h as int);
                assert forall|i: int| h2 <= i < h1 implies #[trigger] token_class(word)(s[i]) by {}
                lemma_run_start_unique(s, h1, h2, token_class(word));
            }
            head_end = h;
        }
        let ghost h = char_index(s, head_end as int);
        proof {
            lemma_boundary_index(s, head_end as int);
            assert(h == word_back_start(s, k));
        }
        let rest = cut(self.text.as_str(), head_end, tail_start);
        proof {
            assert(rest@.take(h) =~= s.take(h));
        }
        self.replace_text(rest, head_end, Ghost(h));
    }

    /// Insert one char at the cursor.
    fn insert_char(&mut self, c: char)
        requires
            old(self).wf(),
        ensures
            final(self).wf(),
            final(self)@ == inserted(old(self)@, seq![c]),
    {
        let mut buf = [0u8; 4];
        let t = encode_char(c, &mut buf);
        self.insert_str(t);
    }

    /// Apply a key event: the bindings of `key_command`, with what the
    /// operation did.
    pub fn apply_key(&mut self, key: &KeyEvent) -> (outcome: LineEditOutcome)
        requires
            old(self).wf(),
        ensures
            final(self).wf(),
            final(self)@ == command_effect(old(self)@, key_command(*key)),
            outcome == command_outcome(key_command(*key)),
    {
        let ctrl = key.modifiers.contains(KeyModifiers::control());
        let alt = key.modifiers.contains(KeyModifiers::alt());
        match key.code {
            KeyCode::Char('a') if ctrl => self.move_start(),
            KeyCode::Char('e') if ctrl => self.move_end(),
            KeyCode::Char('b') if ctrl => self.move_left(),
            KeyCode::Char('f') if ctrl => self.move_right(),
            KeyCode::Char('b') if alt => self.move_word_left(),
            KeyCode::Char('f') if alt => self.move_word_right(),
            KeyCode::Left if alt => self.move_word_left(),
            KeyCode::Right if alt => self.move_word_right(),
            KeyCode::Left => self.move_left(),
            KeyCode::Right => self.move_right(),
            KeyCode::Home => self.move_start(),
            KeyCode::End => self.move_end(),
            _ => return self.apply_edit_key(key),
        }
        LineEditOutcome::CursorMoved
    }

    /// The text-editing bindings; a cursor-motion key is ignored here.
    fn apply_edit_key(&mut self, key: &KeyEvent) -> (outcome: LineEditOutcome)
        requires
            old(self).wf(),
        ensures
            final(self).wf(),
            final(self)@ == command_effect(old(self)@, edit_key_command(*key)),
            outcome == command_outcome(edit_key_command(*key)),
            command_outcome(key_command(*key)) == LineEditOutcome::CursorMoved ==> outcome
                == LineEditOutcome::Ignored && final(self)@ == old(self)@,
    {
        let ctrl = key.modifiers.contains(KeyModifiers::control());
        let alt = key.modifiers.contains(KeyModifiers::alt());
        let sup = key.modifiers.contains(KeyModifiers::super_key());
        let unmodified = key.modifiers.difference(KeyModifiers::shift()).is_empty();
        proof {
            let m = key.modifiers.spec_bits();
            assert(m & !1u8 == 0 ==> m & 2u8 != 2u8 && m & 4u8 != 4u8) by (bit_vector);
        }
        let code = key.code;
        let changed = match code {
            KeyCode::Char('k') if ctrl => {
                self.kill_to_end();
                true
            },
            KeyCode::Char('u') if ctrl => {
                self.kill_to_start();
                true
            },
            KeyCode::Backspace if sup => {
                self.kill_to_start();
                true
            },
            KeyCode::Backspace if ctrl || alt => {
                self.delete_word_back();
                true
            },
            KeyCode::Char('h') if ctrl => {
                self.delete_word_back();
                true
            },
            KeyCode::Char('w') if ctrl => {
                self.delete_word_back();
                true
            },
            KeyCode::Backspace => {
                self.backspace();
                true
            },
            KeyCode::Delete => {
                self.delete_forward();
                true
            },
            KeyCode::Char(c) => {
                if unmodified {
                    self.insert_char(c);
                }
                unmodified
            },
            _ => false,
        };
        if changed {
            LineEditOutcome::TextChanged
        } else {
            LineEditOutcome::Ignored
        }
    }
}

impl Default for LineEditor {
    /// An editor with no text.
    fn default() -> (e: Self)
        ensures
            e.wf(),
            e@ == empty_view(),
    {
        let e = LineEditor { text: String::new(), cursor: 0, replace_on_type: false };
        proof {
            lemma_char_index(e.text@, 0);
            lemma_prefix_le(e.text@, 0);
        }
        e
    }
}

impl<'a> From<&'a str> for LineEditor {
    /// An editor holding `text`, the cursor at its end.
    fn from(text: &'a str) -> (e: Self)
        ensures
            e.wf(),
            e@ == prefilled(text@, false),
    {
        let mut editor = Self::default();
        editor.set_text(text);
        editor
    }
}

/// The conversion makes no claim through `from_spec`: two `String`s with the
/// same chars need not be the same value, so `from`'s own `ensures` above
/// states what it gives.
impl<'a> vstd::std_specs::convert::FromSpecImpl<&'a str> for LineEditor {
    open spec fn obeys_from_spec() -> bool {
        false
    }

    open spec fn from_spec(v: &'a str) -> Self {
        vstd::pervasive::arbitrary()
    }
}

impl<'a> PartialEq<&'a str> for LineEditor {
    fn eq(&self, other: &&'a str) -> (r: bool) {
        same_text(self.text.as_str(), *other)
    }
}

impl<'a> vstd::std_specs::cmp::PartialEqSpecImpl<&'a str> for LineEditor {
    open spec fn obeys_eq_spec() -> bool {
        true
    }

    open spec fn eq_spec(&self, other: &&'a str) -> bool {
        self@.text == (*other)@
    }
}

impl PartialEq<String> for LineEditor {
    fn eq(&self, other: &String) -> (r: bool) {
        same_text(self.text.as_str(), other.as_str())
    }
}

impl vstd::std_specs::cmp::PartialEqSpecImpl<String> for LineEditor {
    open spec fn obeys_eq_spec() -> bool {
        true
    }

    open spec fn eq_spec(&self, other: &String) -> bool {
        self@.text == other@
    }
}

} // verus!
