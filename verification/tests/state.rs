use jj_menu::config::model::{ArgSpec, MenuItem};
use jj_menu::ui::state::{Frame, MenuState};
use jj_menu::ui::{Paint, layout};

fn items(n: usize) -> Vec<MenuItem> {
    (0..n)
        .map(|i| MenuItem::command(&format!("item {i}"), &format!("echo {i}")))
        .collect()
}

fn arg(name: &str) -> ArgSpec {
    ArgSpec {
        name: name.to_string(),
        prompt: None,
        default: None,
    }
}

fn state(n: usize) -> MenuState {
    MenuState::new(Frame::new("root", items(n)))
}

#[test]
fn moves_within_bounds() {
    let mut s = state(3);
    assert_eq!(s.cursor(), 0);
    s.move_up();
    assert_eq!(s.cursor(), 0, "must not move above the first entry");
    s.move_down();
    s.move_down();
    assert_eq!(s.cursor(), 2);
    s.move_down();
    assert_eq!(s.cursor(), 2, "must not move past the last entry");
}

#[test]
fn jumps_to_first_and_last() {
    let mut s = state(5);
    s.move_last();
    assert_eq!(s.cursor(), 4);
    s.move_first();
    assert_eq!(s.cursor(), 0);
}

#[test]
fn handles_an_empty_menu() {
    let mut s = state(0);
    s.move_down();
    s.move_last();
    assert_eq!(s.cursor(), 0);
    assert!(s.selected().is_none());
    assert!(s.is_empty());
}

#[test]
fn opens_and_leaves_a_submenu_keeping_the_parent_cursor() {
    let mut parent = MenuItem::command("parent", "true");
    parent.submenu = items(2);
    let mut s = MenuState::new(Frame::new(
        "root",
        vec![MenuItem::command("a", "true"), parent],
    ));

    s.move_down();
    assert_eq!(s.cursor(), 1);
    assert!(s.enter_detail());
    assert_eq!(s.depth(), 2);
    assert_eq!(s.items().len(), 3);
    assert_eq!(s.items()[0].label(), "Run: parent");

    s.move_down();
    assert!(s.leave_detail());
    assert_eq!(s.depth(), 1);
    assert_eq!(s.cursor(), 1, "the parent cursor is restored");
}

#[test]
fn refuses_to_open_an_entry_with_no_detail() {
    let mut s = state(1);
    assert!(!s.enter_detail());
    assert_eq!(s.depth(), 1);
}

#[test]
fn opens_an_entry_that_only_has_help() {
    let mut item = MenuItem::command("a", "true");
    item.help = Some("what this does".into());
    let mut s = MenuState::new(Frame::new("root", vec![item]));

    assert!(s.enter_detail());
    assert_eq!(s.frame().help.as_deref(), Some("what this does"));
    assert_eq!(s.items().len(), 1, "the entry's own command stays runnable");
}

#[test]
fn does_not_open_an_entry_that_only_has_arguments() {
    let mut item = MenuItem::command("search", "rg {pattern}");
    item.args = vec![arg("pattern")];
    let mut s = MenuState::new(Frame::new("root", vec![item]));

    assert!(!s.enter_detail());
    assert_eq!(s.depth(), 1);
}

#[test]
fn the_run_line_of_a_detail_view_carries_the_arguments_but_cannot_recurse() {
    let mut item = MenuItem::command("search", "rg {pattern}");
    item.help = Some("Search the repository.".into());
    item.args = vec![arg("pattern")];
    let mut s = MenuState::new(Frame::new("root", vec![item]));

    assert!(s.enter_detail());
    let run = &s.items()[0];
    assert_eq!(run.args.len(), 1, "the arguments are carried over");
    assert!(!run.has_detail(), "otherwise the view would nest forever");
}

#[test]
fn refuses_to_leave_the_root() {
    let mut s = state(1);
    assert!(!s.leave_detail());
    assert_eq!(s.depth(), 1);
}

#[test]
fn scrolls_the_window_to_follow_the_cursor() {
    let mut s = state(10);
    s.scroll_into_view(3);
    assert_eq!(s.offset(), 0);

    for _ in 0..3 {
        s.move_down();
        s.scroll_into_view(3);
    }
    assert_eq!(s.cursor(), 3);
    assert_eq!(s.offset(), 1, "the window follows the cursor downwards");

    s.move_first();
    s.scroll_into_view(3);
    assert_eq!(s.offset(), 0, "the window follows the cursor upwards");
}

#[test]
fn pulls_the_window_back_when_it_grows_past_the_end() {
    let mut s = state(10);
    s.move_last();
    s.scroll_into_view(3);
    assert_eq!(s.offset(), 7);

    s.scroll_into_view(20);
    assert_eq!(s.offset(), 0);
}

#[test]
fn tolerates_a_zero_height_window() {
    let mut s = state(10);
    s.move_last();
    s.scroll_into_view(0);
    assert_eq!(s.offset(), 0);
}

fn named(labels: &[&str]) -> MenuState {
    let items = labels
        .iter()
        .map(|label| MenuItem::command(label, "echo hi"))
        .collect();
    MenuState::new(Frame::new("root", items))
}

fn labels(s: &MenuState) -> Vec<String> {
    s.items().iter().map(|item| item.label()).collect()
}

#[test]
fn a_query_keeps_only_the_matching_entries_in_order() {
    let mut s = named(&["build", "deploy", "deploy staging", "test"]);
    s.set_query("deploy".into());
    assert_eq!(labels(&s), ["deploy", "deploy staging"]);
    assert_eq!(s.selected().map(|i| i.label()).as_deref(), Some("deploy"));
}

#[test]
fn a_query_matches_regardless_of_case() {
    let mut s = named(&["Build", "DEPLOY"]);
    s.set_query("depl".into());
    assert_eq!(labels(&s), ["DEPLOY"]);
}

#[test]
fn the_cursor_goes_to_the_first_match() {
    let mut s = named(&["build", "deploy", "test"]);
    s.move_last();
    assert_eq!(s.cursor(), 2);
    s.set_query("deploy".into());
    assert_eq!(s.cursor(), 0);
    assert_eq!(s.selected().map(|i| i.label()).as_deref(), Some("deploy"));
}

#[test]
fn moving_stays_inside_the_matches() {
    let mut s = named(&["build", "deploy", "deploy staging", "test"]);
    s.set_query("deploy".into());
    s.move_down();
    assert_eq!(
        s.selected().map(|i| i.label()).as_deref(),
        Some("deploy staging")
    );
    s.move_down();
    assert_eq!(
        s.selected().map(|i| i.label()).as_deref(),
        Some("deploy staging"),
        "must not walk past the last match into a filtered-out entry"
    );
}

#[test]
fn a_query_that_matches_nothing_leaves_an_empty_list() {
    let mut s = named(&["build", "deploy"]);
    s.set_query("zzz".into());
    assert!(s.is_empty());
    assert!(s.selected().is_none());
    s.move_down();
    assert!(s.selected().is_none());
}

#[test]
fn clearing_the_query_keeps_the_entry_the_cursor_is_on() {
    let mut s = named(&["build", "deploy", "test"]);
    s.set_query("e".into());
    assert_eq!(labels(&s), ["deploy", "test"]);
    s.move_down();
    assert_eq!(s.selected().map(|i| i.label()).as_deref(), Some("test"));

    s.clear_query();
    assert_eq!(labels(&s), ["build", "deploy", "test"]);
    assert_eq!(
        s.selected().map(|i| i.label()).as_deref(),
        Some("test"),
        "clearing shows the rest again without moving off the entry"
    );
}

#[test]
fn clearing_an_empty_query_leaves_the_cursor_alone() {
    let mut s = named(&["build", "deploy", "test"]);
    s.move_last();
    s.clear_query();
    assert_eq!(s.selected().map(|i| i.label()).as_deref(), Some("test"));
}

#[test]
fn a_submenu_starts_unfiltered_and_going_back_restores_the_filter() {
    let parent = MenuItem {
        title: Some("deploy".into()),
        submenu: vec![
            MenuItem::command("staging", "echo staging"),
            MenuItem::command("production", "echo production"),
        ],
        ..Default::default()
    };
    let mut s = MenuState::new(Frame::new(
        "root",
        vec![MenuItem::command("build", "echo build"), parent],
    ));

    s.set_query("deploy".into());
    assert_eq!(labels(&s), ["deploy"]);
    assert!(s.enter_detail());

    assert_eq!(s.query(), "");
    assert_eq!(labels(&s), ["staging", "production"]);

    assert!(s.leave_detail());
    assert_eq!(s.query(), "deploy");
    assert_eq!(labels(&s), ["deploy"]);
}

#[test]
fn going_in_and_back_out_leaves_the_level_as_it_was() {
    let mut parent = MenuItem::command("parent", "true");
    parent.submenu = items(3);
    let mut s = MenuState::new(Frame::new("root", vec![MenuItem::command("a", "true"), parent]));
    s.set_query("par".into());
    assert_eq!(labels(&s), ["parent"]);
    assert!(s.enter_detail());
    s.move_last();
    assert!(s.leave_detail());
    assert_eq!(s.query(), "par");
    assert_eq!(labels(&s), ["parent"]);
    assert_eq!(s.cursor(), 0);
}

fn row_text(row: &jj_menu::ui::Row) -> String {
    row.runs.iter().map(|r| r.text.as_str()).collect()
}

fn numbered(n: usize) -> Vec<MenuItem> {
    (0..n)
        .map(|i| MenuItem::command(&format!("task {i}"), &format!("echo {i}")))
        .collect()
}

#[test]
fn lays_out_title_list_and_status_line() {
    let mut menu = MenuState::new(Frame::new("Menu", numbered(2)));
    let rows = layout(&mut menu, 20, 10);
    assert_eq!(rows[0].row, 0);
    assert_eq!(rows[0].runs[0].text, "Menu");
    assert_eq!(rows[0].runs[0].paint, Paint::Title);
    // The selected entry is a bar as wide as the usable line.
    assert_eq!(rows[1].row, 2);
    assert_eq!(rows[1].runs[0].text, "*>");
    assert_eq!(rows[1].runs[0].paint, Paint::Marker);
    assert_eq!(rows[1].runs[1].text, format!(" task 0{}", " ".repeat(10)));
    assert_eq!(rows[1].runs[1].paint, Paint::Selected);
    assert_eq!(rows[2].row, 3);
    assert_eq!(row_text(&rows[2]), "   task 1  ");
    assert_eq!(rows[2].runs[0].paint, Paint::Plain);
    // The status line sits on the last row.
    let last = rows.last().unwrap();
    assert_eq!(last.row, 9);
    assert_eq!(last.runs[0].text, "$ ");
    assert_eq!(last.runs[0].paint, Paint::Sigil);
    assert_eq!(last.runs[1].text, format!("echo 0{}", " ".repeat(11)));
    assert_eq!(rows.len(), 4);
}

#[test]
fn scrolls_the_window_to_the_cursor() {
    let mut menu = MenuState::new(Frame::new("Menu", numbered(30)));
    for _ in 0..20 {
        menu.move_down();
    }
    let rows = layout(&mut menu, 40, 10);
    assert!(menu.offset() <= menu.cursor());
    assert!(rows.iter().all(|r| r.row < 10));
    // Title, seven entries, one status row.
    assert_eq!(rows.len(), 9);
    assert_eq!(menu.offset(), 14);
    assert_eq!(rows[7].runs[0].text, "*>");
    assert_eq!(rows[7].row, 8);
}

#[test]
fn keeps_every_row_on_a_tiny_screen() {
    let mut menu = MenuState::new(Frame::new("Menu", numbered(3)));
    let rows = layout(&mut menu, 10, 2);
    assert!(rows.iter().all(|r| r.row < 2));
    let mut empty = MenuState::new(Frame::new("Nothing", Vec::new()));
    let rows = layout(&mut empty, 30, 6);
    assert_eq!(row_text(&rows[1]), "  (no entries)");
    assert_eq!(rows[1].runs[0].paint, Paint::Muted);
    assert_eq!(rows[1].row, 2);
}

#[test]
fn going_back_after_many_calls_restores_the_level() {
    let inner = MenuItem {
        title: Some("inner".into()),
        submenu: vec![MenuItem::command("deep", "echo deep")],
        ..Default::default()
    };
    let parent = MenuItem {
        title: Some("deploy".into()),
        submenu: vec![
            MenuItem::command("staging", "echo staging"),
            inner,
            MenuItem::command("production", "echo production"),
        ],
        ..Default::default()
    };
    let mut s = MenuState::new(Frame::new(
        "root",
        vec![MenuItem::command("build", "echo build"), parent],
    ));
    s.set_query("dep".into());
    let (query, cursor, items) = (s.query().to_string(), s.cursor(), labels(&s));
    assert!(s.enter_detail());
    s.move_down();
    s.move_last();
    s.set_query("inner".into());
    assert!(s.enter_detail());
    s.move_down();
    assert!(s.leave_detail());
    s.clear_query();
    s.move_first();
    s.scroll_into_view(1);
    assert!(s.leave_detail());
    assert_eq!(s.depth(), 1);
    assert_eq!(s.query(), query);
    assert_eq!(s.cursor(), cursor);
    assert_eq!(labels(&s), items);
    assert_eq!(s.offset(), 0);
}
