//! Argument prompting and placeholder substitution.
//!
//! The line editing here is free of terminal handling, so it is a value that
//! key presses change.

use vstd::prelude::*;

use crate::config::model::ArgSpec;
use crate::text::{
    chars_of, find_char, first_index_of, lemma_first_index_of, push_chars, slice, string_of,
};

verus! {

/// The text of a line editor and where its cursor is, in characters.
pub struct EditorView {
    pub text: Seq<char>,
    pub cursor: int,
}

/// A single-line text field.
///
/// The text is held as characters, so cursor movement is not byte-based: a
/// multi-byte character moves the cursor by one.
pub struct LineEditor {
    chars: Vec<char>,
    cursor: usize,
}

impl View for LineEditor {
    type V = EditorView;

    closed spec fn view(&self) -> EditorView {
        EditorView { text: self.chars@, cursor: self.cursor as int }
    }
}

/// An editor state the editor can be in: the cursor within the text.
pub open spec fn editor_ok(e: EditorView) -> bool {
    0 <= e.cursor <= e.text.len()
}

/// Typing `c`: it goes in at the cursor, and the cursor moves past it.
pub open spec fn after_insert(e: EditorView, c: char) -> EditorView {
    EditorView { text: e.text.insert(e.cursor, c), cursor: e.cursor + 1 }
}

/// Backspace: the character before the cursor goes, if there is one.
pub open spec fn after_backspace(e: EditorView) -> EditorView {
    if e.cursor > 0 {
        EditorView { text: e.text.remove(e.cursor - 1), cursor: e.cursor - 1 }
    } else {
        e
    }
}

/// Delete: the character under the cursor goes, if there is one.
pub open spec fn after_delete(e: EditorView) -> EditorView {
    if e.cursor < e.text.len() {
        EditorView { text: e.text.remove(e.cursor), cursor: e.cursor }
    } else {
        e
    }
}

/// Left: one character back, stopping at the start.
pub open spec fn after_left(e: EditorView) -> EditorView {
    if e.cursor > 0 {
        EditorView { cursor: e.cursor - 1, ..e }
    } else {
        e
    }
}

/// Right: one character on, stopping at the end.
pub open spec fn after_right(e: EditorView) -> EditorView {
    if e.cursor < e.text.len() {
        EditorView { cursor: e.cursor + 1, ..e }
    } else {
        e
    }
}

/// `Ctrl-U`: everything before the cursor goes, and the cursor is at the start.
pub open spec fn after_clear_to_start(e: EditorView) -> EditorView {
    EditorView { text: e.text.subrange(e.cursor, e.text.len() as int), cursor: 0 }
}

impl LineEditor {
    /// Whether the cursor is within the text.
    pub closed spec fn wf(&self) -> bool {
        self.cursor <= self.chars@.len()
    }

    pub proof fn lemma_wf(&self)
        requires
            self.wf(),
        ensures
            editor_ok(self@),
    {
    }

    /// An editor holding `text`, with the cursor at its end.
    pub fn with_text(text: &str) -> (r: LineEditor)
        ensures
            r.wf(),
            r@ == (EditorView { text: text@, cursor: text@.len() as int }),
    {
        let chars = chars_of(text);
        let cursor = chars.len();
        LineEditor { chars, cursor }
    }

    /// The text, as a string.
    pub fn text(&self) -> (r: String)
        ensures
            r@ == self@.text,
    {
        string_of(&self.chars)
    }

    /// Where the cursor is, in characters from the start.
    pub fn cursor(&self) -> (r: usize)
        ensures
            r as int == self@.cursor,
    {
        self.cursor
    }

    /// Type `c` at the cursor.
    pub fn insert(&mut self, c: char)
        requires
            old(self).wf(),
        ensures
            final(self).wf(),
            final(self)@ == after_insert(old(self)@, c),
    {
        self.chars.insert(self.cursor, c);
        assert(self.chars@.len() == self.chars.len());
        self.cursor = self.cursor + 1;
    }

    /// Delete the character before the cursor.
    pub fn backspace(&mut self)
        requires
            old(self).wf(),
        ensures
            final(self).wf(),
            final(self)@ == after_backspace(old(self)@),
    {
        if self.cursor > 0 {
            self.cursor = self.cursor - 1;
            self.chars.remove(self.cursor);
        }
    }

    /// Delete the character under the cursor.
    pub fn delete(&mut self)
        requires
            old(self).wf(),
        ensures
            final(self).wf(),
            final(self)@ == after_delete(old(self)@),
    {
        if self.cursor < self.chars.len() {
            self.chars.remove(self.cursor);
        }
    }

    /// Move the cursor one character back.
    pub fn left(&mut self)
        requires
            old(self).wf(),
        ensures
            final(self).wf(),
            final(self)@ == after_left(old(self)@),
    {
        if self.cursor > 0 {
            self.cursor = self.cursor - 1;
        }
    }

    /// Move the cursor one character on.
    pub fn right(&mut self)
        requires
            old(self).wf(),
        ensures
            final(self).wf(),
            final(self)@ == after_right(old(self)@),
    {
        if self.cursor < self.chars.len() {
            self.cursor = self.cursor + 1;
        }
    }

    /// Move the cursor to the start of the line.
    pub fn home(&mut self)
        requires
            old(self).wf(),
        ensures
            final(self).wf(),
            final(self)@ == (EditorView { cursor: 0, ..old(self)@ }),
    {
        self.cursor = 0;
    }

    /// Move the cursor to the end of the line.
    pub fn end(&mut self)
        requires
            old(self).wf(),
        ensures
            final(self).wf(),
            final(self)@ == (EditorView { cursor: old(self)@.text.len() as int, ..old(self)@ }),
    {
        self.cursor = self.chars.len();
    }

    /// Delete from the cursor to the start of the line (readline's `Ctrl-U`).
    pub fn clear_to_start(&mut self)
        requires
            old(self).wf(),
        ensures
            final(self).wf(),
            final(self)@ == after_clear_to_start(old(self)@),
    {
        self.chars = slice(&self.chars, self.cursor, self.chars.len());
        self.cursor = 0;
    }
}

impl Default for LineEditor {
    fn default() -> (r: LineEditor)
        ensures
            r.wf(),
            r@ == (EditorView { text: Seq::empty(), cursor: 0 }),
    {
        LineEditor { chars: Vec::new(), cursor: 0 }
    }
}

/// Typing a character and then pressing backspace leaves the line as it was.
pub proof fn backspace_undoes_insert(e: EditorView, c: char)
    requires
        editor_ok(e),
    ensures
        after_backspace(after_insert(e, c)) == e,
{
    assert(e.text.insert(e.cursor, c).remove(e.cursor) =~= e.text);
}

/// Away from the start of the line, moving left and deleting removes the same
/// character as backspace.
pub proof fn left_then_delete_is_backspace(e: EditorView)
    requires
        editor_ok(e),
        e.cursor > 0,
    ensures
        after_delete(after_left(e)) == after_backspace(e),
{
}

/// Every editing operation keeps the cursor within the text.
pub proof fn edits_keep_the_cursor_in_the_text(e: EditorView, c: char)
    requires
        editor_ok(e),
    ensures
        editor_ok(after_insert(e, c)),
        editor_ok(after_backspace(e)),
        editor_ok(after_delete(e)),
        editor_ok(after_left(e)),
        editor_ok(after_right(e)),
        editor_ok(after_clear_to_start(e)),
{
}

// ---------------------------------------------------------------------------
// Substitution
// ---------------------------------------------------------------------------

/// The value given for `name`: the last pair with that name, as inserting the
/// pairs into a map one after the other would leave it.
pub open spec fn lookup(values: Seq<(Seq<char>, Seq<char>)>, name: Seq<char>) -> Option<Seq<char>>
    decreases values.len(),
{
    if values.len() == 0 {
        None
    } else if values.last().0 == name {
        Some(values.last().1)
    } else {
        lookup(values.drop_last(), name)
    }
}

/// The characters of name/value pairs.
pub open spec fn pairs_view(values: Seq<(String, String)>) -> Seq<(Seq<char>, Seq<char>)> {
    values.map_values(|p: (String, String)| (p.0@, p.1@))
}

/// What a placeholder `{name}` becomes: its value, or the placeholder itself
/// when no value has that name.
pub open spec fn replacement(values: Seq<(Seq<char>, Seq<char>)>, name: Seq<char>) -> Seq<char> {
    match lookup(values, name) {
        Some(v) => v,
        None => seq!['{'] + name + seq!['}'],
    }
}

/// `script` with every `{name}` replaced, in one left-to-right pass: each
/// `{` up to the next `}` is a placeholder, a `{` with no `}` after it is
/// literal text, and an inserted value is never scanned again.
pub open spec fn substituted(script: Seq<char>, values: Seq<(Seq<char>, Seq<char>)>) -> Seq<char>
    decreases script.len(),
{
    match first_index_of(script, '{') {
        None => script,
        Some(i) => if 0 <= i < script.len() {
            let after = script.subrange(i + 1, script.len() as int);
            match first_index_of(after, '}') {
                None => script,
                Some(j) => if 0 <= j < after.len() {
                    script.subrange(0, i) + replacement(values, after.subrange(0, j))
                        + substituted(after.subrange(j + 1, after.len() as int), values)
                } else {
                    script
                },
            }
        } else {
            script
        },
    }
}

/// One step of [`substituted`]: the text before the first `{`, the
/// placeholder up to the next `}`, and the rest.
pub proof fn lemma_substituted_step(
    script: Seq<char>,
    values: Seq<(Seq<char>, Seq<char>)>,
    i: int,
    j: int,
)
    requires
        first_index_of(script, '{') == Some(i),
        0 <= i < script.len(),
        first_index_of(script.subrange(i + 1, script.len() as int), '}') == Some(j),
        0 <= j < script.len() - i - 1,
    ensures
        substituted(script, values) == script.subrange(0, i) + replacement(
            values,
            script.subrange(i + 1, i + 1 + j),
        ) + substituted(script.subrange(i + 2 + j, script.len() as int), values),
{
    reveal(substituted);
    let after = script.subrange(i + 1, script.len() as int);
    assert(after.subrange(0, j) =~= script.subrange(i + 1, i + 1 + j));
    assert(after.subrange(j + 1, after.len() as int) =~= script.subrange(i + 2 + j, script.len() as int));
}

/// A script whose first `{` has no `}` after it is left as it is.
pub proof fn lemma_substituted_unclosed(script: Seq<char>, values: Seq<(Seq<char>, Seq<char>)>, i: int)
    requires
        first_index_of(script, '{') == Some(i),
        0 <= i < script.len(),
        first_index_of(script.subrange(i + 1, script.len() as int), '}') is None,
    ensures
        substituted(script, values) == script,
{
    reveal(substituted);
}

/// A script with no `{` is left as it is.
pub proof fn lemma_substituted_plain(script: Seq<char>, values: Seq<(Seq<char>, Seq<char>)>)
    requires
        first_index_of(script, '{') is None,
    ensures
        substituted(script, values) == script,
{
    reveal(substituted);
}

fn lookup_exec(values: &Vec<(String, String)>, name: &Vec<char>) -> (r: Option<Vec<char>>)
    ensures
        match r {
            Some(v) => lookup(pairs_view(values@), name@) == Some(v@),
            None => lookup(pairs_view(values@), name@) is None,
        },
{
    let ghost pv = pairs_view(values@);
    let mut i: usize = values.len();
    assert(pv.subrange(0, values@.len() as int) =~= pv);
    while i > 0
        invariant
            pv == pairs_view(values@),
            i <= values@.len(),
            lookup(pv, name@) == lookup(pv.subrange(0, i as int), name@),
        decreases i,
    {
        let key = chars_of(values[i - 1].0.as_str());
        proof {
            let pre = pv.subrange(0, i as int);
            assert(pre.last() == pv[i - 1]);
            assert(pre.drop_last() =~= pv.subrange(0, i - 1));
        }
        if crate::text::same_chars(&key, name) {
            return Some(chars_of(values[i - 1].1.as_str()));
        }
        i = i - 1;
    }
    None
}

/// Replace `{name}` in `script` with the collected values.
///
/// Substitution is a single left-to-right pass over the template, so a value
/// that itself looks like a placeholder is never expanded again. Values are
/// inserted verbatim: quoting is left to the template. A placeholder with no
/// value, and a `{` with no closing `}`, are left as they are, so shell
/// syntax such as `${HOME}` or `a{1,2}` survives.
pub fn substitute(script: &str, values: &Vec<(String, String)>) -> (r: String)
    ensures
        r@ == substituted(script@, pairs_view(values@)),
{
    let ghost pv = pairs_view(values@);
    let mut out: Vec<char> = Vec::new();
    let mut rest = chars_of(script);
    loop
        invariant
            pv == pairs_view(values@),
            out@ + substituted(rest@, pv) == substituted(script@, pv),
        decreases rest@.len(),
    {
        let i = match find_char(&rest, '{') {
            None => {
                proof {
                    lemma_substituted_plain(rest@, pv);
                }
                push_chars(&mut out, &rest);
                return string_of(&out);
            }
            Some(i) => i,
        };
        assert(rest@.len() == rest.len());
        let after = slice(&rest, i + 1, rest.len());
        let j = match find_char(&after, '}') {
            None => {
                proof {
                    lemma_substituted_unclosed(rest@, pv, i as int);
                }
                push_chars(&mut out, &rest);
                return string_of(&out);
            }
            Some(j) => j,
        };
        let ghost before = out@;
        push_chars(&mut out, &slice(&rest, 0, i));
        let name = slice(&after, 0, j);
        match lookup_exec(values, &name) {
            Some(v) => {
                push_chars(&mut out, &v);
            }
            None => {
                out.push('{');
                push_chars(&mut out, &name);
                out.push('}');
            }
        }
        assert(after@.len() == after.len());
        let next = slice(&after, j + 1, after.len());
        proof {
            lemma_substituted_step(rest@, pv, i as int, j as int);
            assert(name@ =~= rest@.subrange(i + 1, i + 1 + j));
            assert(next@ =~= rest@.subrange(i + 2 + j, rest@.len() as int));
            assert(out@ =~= before + rest@.subrange(0, i as int) + replacement(pv, name@));
            assert(out@ + substituted(next@, pv) =~= before + substituted(rest@, pv));
        }
        rest = next;
    }
}

/// With no values, substitution changes nothing.
pub proof fn nothing_to_substitute(script: Seq<char>)
    ensures
        substituted(script, Seq::empty()) == script,
    decreases script.len(),
{
    lemma_first_index_of(script, '{');
    match first_index_of(script, '{') {
        None => {
            lemma_substituted_plain(script, Seq::empty());
        },
        Some(i) => {
            let after = script.subrange(i + 1, script.len() as int);
            lemma_first_index_of(after, '}');
            match first_index_of(after, '}') {
                None => {
                    lemma_substituted_unclosed(script, Seq::empty(), i);
                },
                Some(j) => {
                    lemma_substituted_step(script, Seq::empty(), i, j);
                    let rest = script.subrange(i + 2 + j, script.len() as int);
                    nothing_to_substitute(rest);
                    assert(after[j] == script[i + 1 + j]);
                    assert(script =~= script.subrange(0, i) + (seq!['{'] + script.subrange(
                        i + 1,
                        i + 1 + j,
                    ) + seq!['}']) + rest);
                },
            }
        },
    }
}

/// A placeholder at the front is replaced by its value as it stands, and the
/// text after it is substituted on its own: a value is inserted verbatim and
/// never scanned for placeholders again.
pub proof fn values_are_inserted_verbatim(
    name: Seq<char>,
    rest: Seq<char>,
    values: Seq<(Seq<char>, Seq<char>)>,
)
    requires
        !name.contains('}'),
    ensures
        substituted(seq!['{'] + name + seq!['}'] + rest, values) == replacement(values, name)
            + substituted(rest, values),
{
    let s = seq!['{'] + name + seq!['}'] + rest;
    assert(s[0] == '{');
    lemma_first_index_of(s, '{');
    assert(first_index_of(s, '{') == Some(0int));
    let after = s.subrange(1, s.len() as int);
    assert(after =~= name + seq!['}'] + rest);
    assert(after[name.len() as int] == '}');
    assert forall|k: int| 0 <= k < name.len() implies after[k] != '}' by {
        assert(after[k] == name[k]);
        assert(name.contains(name[k]));
    }
    lemma_first_index_of(after, '}');
    assert(first_index_of(after, '}') == Some(name.len() as int));
    lemma_substituted_step(s, values, 0, name.len() as int);
    assert(s.subrange(1, 1 + name.len() as int) =~= name);
    assert(s.subrange(2 + name.len() as int, s.len() as int) =~= rest);
    assert(s.subrange(0, 0) =~= Seq::<char>::empty());
}

/// The label a value is asked for with: its prompt, or its name.
pub fn label(spec: &ArgSpec) -> (r: String)
    ensures
        r@ == match spec@.prompt {
            Some(p) => p,
            None => spec@.name,
        },
{
    match &spec.prompt {
        Some(p) => p.clone(),
        None => spec.name.clone(),
    }
}

/// The value the input field starts with: the default, or nothing.
pub fn initial_value(spec: &ArgSpec) -> (r: String)
    ensures
        r@ == match spec@.default {
            Some(d) => d,
            None => Seq::empty(),
        },
{
    match &spec.default {
        Some(d) => d.clone(),
        None => String::new(),
    }
}

} // verus!
