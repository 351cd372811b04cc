//! Key bindings: what a key press does in the menu and in an argument prompt.

use vstd::prelude::*;

use super::prompt::{
    EditorView, LineEditor, after_backspace, after_clear_to_start, after_delete, after_insert,
    after_left, after_right,
};

verus! {

/// A key press, as far as the bindings tell keys apart.
#[derive(Debug, Clone, Copy, PartialEq, Eq, Structural)]
pub enum Key {
    Char(char),
    Up,
    Down,
    Left,
    Right,
    Home,
    End,
    Enter,
    Esc,
    Backspace,
    Delete,
    /// Any key without a binding.
    Other,
}

/// What a key press does in the menu.
#[derive(Debug, Clone, Copy, PartialEq, Eq, Structural)]
pub enum Action {
    Up,
    Down,
    First,
    Last,
    Forward,
    Back,
    Select,
    Quit,
    Nothing,
}

/// The menu's bindings: vi keys and arrows alike, plus the readline motions
/// `Ctrl-N` and `Ctrl-P`, and `Ctrl-C` to leave.
pub open spec fn action_for(key: Key, ctrl: bool) -> Action {
    match key {
        Key::Char(c) => if ctrl && c == 'c' {
            Action::Quit
        } else if ctrl && c == 'n' {
            Action::Down
        } else if ctrl && c == 'p' {
            Action::Up
        } else if c == 'j' {
            Action::Down
        } else if c == 'k' {
            Action::Up
        } else if c == 'l' {
            Action::Forward
        } else if c == 'h' {
            Action::Back
        } else if c == 'g' {
            Action::First
        } else if c == 'G' {
            Action::Last
        } else if c == 'q' {
            Action::Quit
        } else {
            Action::Nothing
        },
        Key::Down => Action::Down,
        Key::Up => Action::Up,
        Key::Right => Action::Forward,
        Key::Left => Action::Back,
        Key::Home => Action::First,
        Key::End => Action::Last,
        Key::Esc => Action::Quit,
        Key::Enter => Action::Select,
        _ => Action::Nothing,
    }
}

/// Map a key press in the menu to what it does (see [`action_for`]).
pub fn classify(key: Key, ctrl: bool) -> (r: Action)
    ensures
        r == action_for(key, ctrl),
{
    match key {
        Key::Char(c) => {
            if ctrl && c == 'c' {
                Action::Quit
            } else if ctrl && c == 'n' {
                Action::Down
            } else if ctrl && c == 'p' {
                Action::Up
            } else if c == 'j' {
                Action::Down
            } else if c == 'k' {
                Action::Up
            } else if c == 'l' {
                Action::Forward
            } else if c == 'h' {
                Action::Back
            } else if c == 'g' {
                Action::First
            } else if c == 'G' {
                Action::Last
            } else if c == 'q' {
                Action::Quit
            } else {
                Action::Nothing
            }
        },
        Key::Down => Action::Down,
        Key::Up => Action::Up,
        Key::Right => Action::Forward,
        Key::Left => Action::Back,
        Key::Home => Action::First,
        Key::End => Action::Last,
        Key::Esc => Action::Quit,
        Key::Enter => Action::Select,
        _ => Action::Nothing,
    }
}

/// The documented bindings: each vi key does what its arrow (or readline)
/// alias does, whether or not `Ctrl` is held on the arrow, and that is the
/// action the key is documented for; `Esc` and `Enter` quit and run.
pub proof fn keys_do_what_they_are_documented_for(ctrl: bool)
    ensures
        action_for(Key::Char('j'), false) == action_for(Key::Down, ctrl),
        action_for(Key::Down, ctrl) == action_for(Key::Char('n'), true),
        action_for(Key::Down, ctrl) == Action::Down,
        action_for(Key::Char('k'), false) == action_for(Key::Up, ctrl),
        action_for(Key::Up, ctrl) == action_for(Key::Char('p'), true),
        action_for(Key::Up, ctrl) == Action::Up,
        action_for(Key::Char('g'), false) == action_for(Key::Home, ctrl),
        action_for(Key::Home, ctrl) == Action::First,
        action_for(Key::Char('G'), false) == action_for(Key::End, ctrl),
        action_for(Key::End, ctrl) == Action::Last,
        action_for(Key::Char('l'), false) == action_for(Key::Right, ctrl),
        action_for(Key::Right, ctrl) == Action::Forward,
        action_for(Key::Char('h'), false) == action_for(Key::Left, ctrl),
        action_for(Key::Left, ctrl) == Action::Back,
        action_for(Key::Char('q'), false) == action_for(Key::Char('c'), true),
        action_for(Key::Char('q'), false) == Action::Quit,
        action_for(Key::Esc, ctrl) == Action::Quit,
        action_for(Key::Enter, ctrl) == Action::Select,
{
}

/// A character with no binding does nothing, and `Ctrl` only matters for
/// `c`, `n` and `p`: any other character does the same with or without it.
pub proof fn unbound_characters_do_nothing(c: char, ctrl: bool)
    ensures
        !(c == 'j' || c == 'k' || c == 'l' || c == 'h' || c == 'g' || c == 'G' || c == 'q')
            && !(ctrl && (c == 'c' || c == 'n' || c == 'p')) ==> action_for(Key::Char(c), ctrl)
            == Action::Nothing,
        !(c == 'c' || c == 'n' || c == 'p') ==> action_for(Key::Char(c), ctrl) == action_for(Key::Char(c), false),
{
}

/// What a key press in an argument prompt leads to.
#[derive(Debug, Clone, Copy, PartialEq, Eq, Structural)]
pub enum Prompted {
    /// The value is entered as it stands.
    Submit,
    /// The prompt is abandoned.
    Cancel,
    /// The prompt goes on, with the text edited or not.
    Continue,
}

/// The outcome of a key press in an argument prompt.
pub open spec fn prompted_for(key: Key, ctrl: bool) -> Prompted {
    match key {
        Key::Enter => Prompted::Submit,
        Key::Esc => Prompted::Cancel,
        Key::Char(c) => if ctrl && (c == 'c' || c == 'd') {
            Prompted::Cancel
        } else {
            Prompted::Continue
        },
        _ => Prompted::Continue,
    }
}

/// The editor after a key press in an argument prompt: readline's `Ctrl-U`,
/// `Ctrl-A` and `Ctrl-E`, the usual editing keys, and any other character
/// typed in unless `Ctrl` or `Alt` make it a shortcut.
pub open spec fn edited(e: EditorView, key: Key, ctrl: bool, alt: bool) -> EditorView {
    match key {
        Key::Char(c) => if ctrl && c == 'u' {
            after_clear_to_start(e)
        } else if ctrl && c == 'a' {
            EditorView { cursor: 0, ..e }
        } else if ctrl && c == 'e' {
            EditorView { cursor: e.text.len() as int, ..e }
        } else if !ctrl && !alt {
            after_insert(e, c)
        } else {
            e
        },
        Key::Backspace => after_backspace(e),
        Key::Delete => after_delete(e),
        Key::Left => after_left(e),
        Key::Right => after_right(e),
        Key::Home => EditorView { cursor: 0, ..e },
        Key::End => EditorView { cursor: e.text.len() as int, ..e },
        _ => e,
    }
}

/// Apply a key press to an argument prompt, and say whether it submits,
/// cancels or goes on. Only a key that goes on edits the text.
pub fn prompt_key(editor: &mut LineEditor, key: Key, ctrl: bool, alt: bool) -> (r: Prompted)
    requires
        old(editor).wf(),
    ensures
        final(editor).wf(),
        r == prompted_for(key, ctrl),
        r == Prompted::Continue ==> final(editor)@ == edited(old(editor)@, key, ctrl, alt),
        r != Prompted::Continue ==> final(editor)@ == old(editor)@,
{
    match key {
        Key::Enter => Prompted::Submit,
        Key::Esc => Prompted::Cancel,
        Key::Char(c) => {
            if ctrl && (c == 'c' || c == 'd') {
                Prompted::Cancel
            } else if ctrl && c == 'u' {
                editor.clear_to_start();
                Prompted::Continue
            } else if ctrl && c == 'a' {
                editor.home();
                Prompted::Continue
            } else if ctrl && c == 'e' {
                editor.end();
                Prompted::Continue
            } else if !ctrl && !alt {
                editor.insert(c);
                Prompted::Continue
            } else {
                Prompted::Continue
            }
        },
        Key::Backspace => {
            editor.backspace();
            Prompted::Continue
        },
        Key::Delete => {
            editor.delete();
            Prompted::Continue
        },
        Key::Left => {
            editor.left();
            Prompted::Continue
        },
        Key::Right => {
            editor.right();
            Prompted::Continue
        },
        Key::Home => {
            editor.home();
            Prompted::Continue
        },
        Key::End => {
            editor.end();
            Prompted::Continue
        },
        _ => Prompted::Continue,
    }
}

} // verus!
