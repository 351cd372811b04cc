use jj_menu::config::model::ArgSpec;
use jj_menu::ui::prompt::{LineEditor, initial_value, label, substitute};

fn values(pairs: &[(&str, &str)]) -> Vec<(String, String)> {
    pairs
        .iter()
        .map(|(k, v)| (k.to_string(), v.to_string()))
        .collect()
}

#[test]
fn substitutes_a_placeholder() {
    assert_eq!(
        substitute("rg {pattern}", &values(&[("pattern", "TODO")])),
        "rg TODO"
    );
}

#[test]
fn substitutes_several_placeholders_including_repeats() {
    assert_eq!(
        substitute("cp {a} {b} && echo {a}", &values(&[("a", "x"), ("b", "y")])),
        "cp x y && echo x"
    );
}

#[test]
fn leaves_unknown_placeholders_alone_so_shell_syntax_survives() {
    assert_eq!(substitute("echo ${HOME}", &values(&[])), "echo ${HOME}");
    assert_eq!(substitute("touch a{1,2}", &values(&[])), "touch a{1,2}");
}

#[test]
fn leaves_an_unclosed_brace_as_literal_text() {
    assert_eq!(substitute("echo {oops", &values(&[])), "echo {oops");
}

#[test]
fn does_not_expand_a_substituted_value_again() {
    assert_eq!(
        substitute("echo {a}", &values(&[("a", "{b}"), ("b", "boom")])),
        "echo {b}"
    );
}

#[test]
fn edits_a_line_by_character_not_by_byte() {
    let mut editor = LineEditor::with_text("日本語");
    assert_eq!(editor.cursor(), 3);
    editor.backspace();
    assert_eq!(editor.text(), "日本");
    editor.home();
    editor.insert('あ');
    assert_eq!(editor.text(), "あ日本");
    assert_eq!(editor.cursor(), 1);
}

#[test]
fn moves_the_cursor_within_bounds() {
    let mut editor = LineEditor::with_text("ab");
    editor.right();
    assert_eq!(editor.cursor(), 2, "must not move past the end");
    editor.home();
    editor.left();
    assert_eq!(editor.cursor(), 0, "must not move before the start");
}

#[test]
fn deletes_forwards_and_backwards() {
    let mut editor = LineEditor::with_text("abc");
    editor.home();
    editor.delete();
    assert_eq!(editor.text(), "bc");
    editor.end();
    editor.backspace();
    assert_eq!(editor.text(), "b");
    editor.delete();
    assert_eq!(editor.text(), "b", "delete at the end is a no-op");
}

#[test]
fn clears_to_the_start_of_the_line() {
    let mut editor = LineEditor::with_text("abcdef");
    editor.home();
    editor.right();
    editor.right();
    editor.clear_to_start();
    assert_eq!(editor.text(), "cdef");
    assert_eq!(editor.cursor(), 0);
}

#[test]
fn falls_back_to_the_name_when_no_prompt_is_given() {
    let spec = ArgSpec {
        name: "pattern".into(),
        prompt: None,
        default: None,
    };
    assert_eq!(label(&spec), "pattern");
    assert_eq!(initial_value(&spec), "");
}

#[test]
fn uses_the_prompt_and_the_default_when_given() {
    let spec = ArgSpec {
        name: "pattern".into(),
        prompt: Some("Pattern".into()),
        default: Some("TODO".into()),
    };
    assert_eq!(label(&spec), "Pattern");
    assert_eq!(initial_value(&spec), "TODO");
}

#[test]
fn backspace_after_typing_gives_back_the_line() {
    let mut editor = LineEditor::with_text("abc");
    editor.left();
    editor.insert('x');
    assert_eq!(editor.text(), "abxc");
    editor.backspace();
    assert_eq!(editor.text(), "abc");
    assert_eq!(editor.cursor(), 2);
}

#[test]
fn the_last_value_given_for_a_name_wins() {
    assert_eq!(
        substitute("echo {a}", &values(&[("a", "first"), ("a", "second")])),
        "echo second"
    );
}

#[test]
fn a_value_is_inserted_verbatim_even_with_shell_syntax() {
    assert_eq!(
        substitute("rg {p} src", &values(&[("p", "a b; 'c'")])),
        "rg a b; 'c' src"
    );
}
