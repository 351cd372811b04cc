use jj_menu::cli::{EXIT_CANCELLED, Plan, no_entries_help, plan, report_lines};
use jj_menu::config::loader::{Config, Loader, Source};
use jj_menu::config::model::{ArgSpec, AutoLaunchers, Job, Launch, MenuItem, ParallelCommand, Shell};
use jj_menu::exec::{Finished, exit_code, shell_from};
use jj_menu::launchers::LauncherGroup;
use jj_menu::menu::build;
use jj_menu::parallel::{Output, escalate, group_exit_code};
use jj_menu::shell_init::{ShellKind, snippet};
use jj_menu::ui::keys::{Action, Key, Prompted, classify, prompt_key};
use jj_menu::ui::prompt::LineEditor;
use jj_menu::ui::screen::{
    cursor_marker, display_width, footer_budget, list_height, one_line, pad, sanitize,
    split_marker, truncate, usable_size, wrap,
};
use jj_menu::ui::state::{Frame, MenuState};
use jj_menu::ui::theme::{Colour, PaintStep, RunStyle, decide, paint_steps, painted, style_for};
use jj_menu::ui::{Outcome, Paint, Step, answered, footer_text, on_action, prompt_layout, resolve, resolve_answers};

// ---------------------------------------------------------------------------
// Running commands
// ---------------------------------------------------------------------------

#[test]
fn falls_back_to_sh_without_a_usable_shell_setting() {
    assert_eq!(shell_from(None), "/bin/sh");
    assert_eq!(shell_from(Some(String::new())), "/bin/sh");
    assert_eq!(shell_from(Some("/bin/zsh".into())), "/bin/zsh");
}

fn code(c: i32) -> Finished {
    Finished {
        code: Some(c),
        signal: None,
    }
}

fn killed(s: i32) -> Finished {
    Finished {
        code: None,
        signal: Some(s),
    }
}

#[test]
fn reports_the_exit_code_of_the_command() {
    assert_eq!(exit_code(&code(0)), 0);
    assert_eq!(exit_code(&code(42)), 42);
    assert_eq!(exit_code(&code(300)), 255);
    assert_eq!(exit_code(&code(-1)), 0);
}

#[test]
fn reports_128_plus_signal_for_a_killed_command() {
    assert_eq!(exit_code(&killed(15)), 143);
    assert_eq!(exit_code(&killed(9)), 137);
    assert_eq!(exit_code(&killed(200)), 255);
    assert_eq!(
        exit_code(&Finished {
            code: None,
            signal: None
        }),
        1
    );
}

#[test]
fn reports_the_first_failure() {
    let statuses = vec![Some(code(0)), Some(code(3)), Some(code(4))];
    assert_eq!(group_exit_code(&statuses), 3);
}

#[test]
fn reports_success_when_every_job_succeeds() {
    assert_eq!(group_exit_code(&vec![Some(code(0)), Some(code(0))]), 0);
    assert_eq!(group_exit_code(&Vec::new()), 0);
}

#[test]
fn an_interrupted_group_exits_like_a_killed_command() {
    let statuses = vec![Some(killed(libc::SIGINT)), None, Some(code(0))];
    assert_eq!(group_exit_code(&statuses), 130);
}

#[test]
fn only_the_first_stop_is_passed_on_as_it_arrived() {
    assert_eq!(escalate(0, 1, libc::SIGINT), libc::SIGINT);
    assert_eq!(escalate(0, 1, libc::SIGTERM), libc::SIGTERM);
    assert_eq!(escalate(0, 2, libc::SIGINT), libc::SIGKILL);
    assert_eq!(escalate(1, 1, libc::SIGINT), libc::SIGKILL);
}

// ---------------------------------------------------------------------------
// Shell integration
// ---------------------------------------------------------------------------

#[test]
fn parses_supported_shell_names_case_insensitively() {
    assert_eq!("bash".parse::<ShellKind>().unwrap(), ShellKind::Bash);
    assert_eq!("ZSH".parse::<ShellKind>().unwrap(), ShellKind::Zsh);
    assert_eq!("Fish".parse::<ShellKind>().unwrap(), ShellKind::Fish);
    assert!("tcsh".parse::<ShellKind>().is_err());
}

#[test]
fn names_the_unknown_shell_in_the_error() {
    assert_eq!(
        ShellKind::from_name("TCSH").unwrap_err(),
        "unknown shell: tcsh (expected bash, zsh or fish)"
    );
}

#[test]
fn every_snippet_defines_a_jj_entry_point() {
    for kind in [ShellKind::Bash, ShellKind::Zsh, ShellKind::Fish] {
        assert!(snippet(kind).contains("jj"), "{kind:?}");
        assert!(snippet(kind).contains("--print"), "{kind:?}");
    }
}

#[test]
fn the_fish_snippet_keeps_a_multi_line_command_in_one_piece() {
    let fish = snippet(ShellKind::Fish);
    assert!(
        fish.contains(r#""$(command jj-menu --print $argv)""#),
        "the command substitution must be quoted: {fish}"
    );
    assert!(
        !fish.contains("(command jj-menu --print $argv)\n"),
        "no bare command substitution may remain: {fish}"
    );
    assert!(
        fish.contains(r#"commandline -r -- "$__jj_command""#),
        "the variable must be quoted when used: {fish}"
    );
}

#[test]
fn every_snippet_stops_when_the_menu_was_dismissed() {
    for kind in [ShellKind::Bash, ShellKind::Zsh, ShellKind::Fish] {
        let text = snippet(kind);
        assert!(text.contains("return"), "{kind:?}");
        assert!(text.contains("-n "), "{kind:?}: no empty check");
    }
}

#[test]
fn snippets_call_the_binary_not_the_function_itself() {
    assert!(snippet(ShellKind::Bash).contains("command jj-menu"));
    assert!(snippet(ShellKind::Zsh).contains("command jj-menu"));
    assert!(snippet(ShellKind::Fish).contains("command jj-menu"));
}

// ---------------------------------------------------------------------------
// The program around the menu
// ---------------------------------------------------------------------------

#[test]
fn the_help_text_shows_a_usable_example() {
    let help = no_entries_help();
    assert!(help.contains("menu:"));
    assert!(help.contains("shell:"));
    assert!(help.contains("parallel:"));
    assert!(help.contains("--shell-init"));
}

#[test]
fn cancelling_uses_the_conventional_interrupt_code() {
    assert_eq!(EXIT_CANCELLED, 130);
}

#[test]
fn a_cancelled_menu_exits_with_the_interrupt_code() {
    assert!(matches!(plan(Outcome::Cancelled, false, "/p"), Plan::Exit(130)));
}

#[test]
fn print_mode_writes_the_command_with_its_directory() {
    let outcome = Outcome::Run(Launch::Script("make build".into()), Some("/p".into()));
    match plan(outcome, true, "/p/sub") {
        Plan::Print(line) => assert_eq!(line, "cd '/p' && make build"),
        _ => panic!("expected a line to print"),
    }
    let here = Outcome::Run(Launch::Script("ls".into()), None);
    match plan(here, true, "/p/sub") {
        Plan::Print(line) => assert_eq!(line, "ls"),
        _ => panic!("expected a line to print"),
    }
}

#[test]
fn a_script_runs_in_its_directory_and_is_shown_with_it() {
    let outcome = Outcome::Run(Launch::Script("ls".into()), Some("/p".into()));
    match plan(outcome, false, "/p/sub") {
        Plan::Script { shown, script, cwd } => {
            assert_eq!(shown, "cd '/p' && ls");
            assert_eq!(script, "ls");
            assert_eq!(cwd, "/p");
        }
        _ => panic!("expected a script to run"),
    }
}

#[test]
fn a_group_runs_even_in_print_mode_with_its_output_on_stderr() {
    let jobs = vec![
        Job {
            title: "a".into(),
            script: "npm run dev".into(),
        },
        Job {
            title: "b".into(),
            script: "npm run api".into(),
        },
    ];
    match plan(Outcome::Run(Launch::Parallel(jobs), None), true, "/p") {
        Plan::Group { lines, jobs, cwd, output } => {
            assert_eq!(lines, ["npm run dev", "npm run api"]);
            assert_eq!(jobs.len(), 2);
            assert_eq!(cwd, "/p");
            assert_eq!(output, Output::Stderr);
        }
        _ => panic!("expected a group to run"),
    }
}

#[test]
fn reports_the_configuration_that_was_loaded() {
    let config = Config {
        menu: vec![MenuItem::command("a", "true")],
        auto_launchers: AutoLaunchers::All(false),
        sources: vec![
            Source {
                path: "/p/.jj-menu.yaml".into(),
                cwd: Some("/p".into()),
            },
            Source {
                path: "/u/config.yaml".into(),
                cwd: None,
            },
        ],
    };
    assert_eq!(
        report_lines(&config, "/p"),
        [
            "configuration files, in load order:",
            "  /p/.jj-menu.yaml (entries run in /p by default)",
            "  /u/config.yaml (entries run in the working directory by default)",
            "menu entries from configuration: 1",
            "built-in launchers enabled: false",
        ]
    );
    let empty = Loader::new().finish();
    assert_eq!(
        report_lines(&empty, "/q"),
        [
            "no configuration file found (searched from /q)",
            "menu entries from configuration: 0",
            "built-in launchers enabled: true",
        ]
    );
}

// ---------------------------------------------------------------------------
// Assembling the menu
// ---------------------------------------------------------------------------

fn config_with(menu: Vec<MenuItem>, auto_launchers: AutoLaunchers) -> Config {
    Config {
        menu,
        auto_launchers,
        sources: Vec::new(),
    }
}

fn group(source: &str, labels: &[&str]) -> LauncherGroup {
    LauncherGroup {
        source: source.to_string(),
        items: labels.iter().map(|l| MenuItem::command(l, l)).collect(),
    }
}

#[test]
fn keeps_configured_entries_first() {
    let config = config_with(
        vec![MenuItem::command("configured", "true")],
        AutoLaunchers::default(),
    );
    let items = build(&config, vec![group("package.json", &["npm run dev"])]);
    assert_eq!(items[0].label(), "configured");
    assert!(items[1].label().starts_with("package.json"));
    assert_eq!(items[1].label(), "package.json (1 entries)");
}

#[test]
fn flattens_a_lone_launcher_group_when_nothing_is_configured() {
    let items = build(
        &config_with(Vec::new(), AutoLaunchers::default()),
        vec![group("package.json", &["npm run dev"])],
    );
    assert_eq!(items.len(), 1);
    assert_eq!(items[0].label(), "npm run dev");
}

#[test]
fn keeps_several_launcher_groups_as_submenus() {
    let items = build(
        &config_with(Vec::new(), AutoLaunchers::default()),
        vec![
            group("package.json", &["npm run dev"]),
            group("Makefile", &["make build", "make test"]),
        ],
    );
    assert_eq!(items.len(), 2);
    assert!(items.iter().all(|i| !i.submenu.is_empty()));
    assert_eq!(items[1].label(), "Makefile (2 entries)");
}

#[test]
fn skips_the_launchers_when_they_are_turned_off() {
    let items = build(
        &config_with(Vec::new(), AutoLaunchers::All(false)),
        vec![group("package.json", &["npm run dev"])],
    );
    assert!(items.is_empty());
}

// ---------------------------------------------------------------------------
// Keys
// ---------------------------------------------------------------------------

#[test]
fn maps_vi_keys_and_arrows_to_the_same_actions() {
    let key = |k| classify(k, false);
    assert_eq!(key(Key::Char('j')), Action::Down);
    assert_eq!(key(Key::Down), Action::Down);
    assert_eq!(key(Key::Char('k')), Action::Up);
    assert_eq!(key(Key::Up), Action::Up);
    assert_eq!(key(Key::Char('l')), Action::Forward);
    assert_eq!(key(Key::Right), Action::Forward);
    assert_eq!(key(Key::Char('h')), Action::Back);
    assert_eq!(key(Key::Left), Action::Back);
    assert_eq!(key(Key::Char('q')), Action::Quit);
    assert_eq!(key(Key::Esc), Action::Quit);
    assert_eq!(key(Key::Enter), Action::Select);
}

#[test]
fn maps_readline_motions() {
    assert_eq!(classify(Key::Char('n'), true), Action::Down);
    assert_eq!(classify(Key::Char('p'), true), Action::Up);
    assert_eq!(classify(Key::Char('c'), true), Action::Quit);
    assert_eq!(classify(Key::Char('x'), false), Action::Nothing);
}

#[test]
fn the_prompt_keys_edit_submit_and_cancel() {
    let mut editor = LineEditor::with_text("ab");
    assert_eq!(prompt_key(&mut editor, Key::Char('c'), false, false), Prompted::Continue);
    assert_eq!(editor.text(), "abc");
    assert_eq!(prompt_key(&mut editor, Key::Char('a'), true, false), Prompted::Continue);
    assert_eq!(editor.cursor(), 0);
    assert_eq!(prompt_key(&mut editor, Key::Char('x'), false, true), Prompted::Continue);
    assert_eq!(editor.text(), "abc", "Alt makes a shortcut, not text");
    assert_eq!(prompt_key(&mut editor, Key::Char('d'), true, false), Prompted::Cancel);
    assert_eq!(prompt_key(&mut editor, Key::Enter, false, false), Prompted::Submit);
    assert_eq!(editor.text(), "abc");
}

// ---------------------------------------------------------------------------
// Running an entry
// ---------------------------------------------------------------------------

fn scripts(launch: Launch) -> Vec<String> {
    match launch {
        Launch::Script(script) => vec![script],
        Launch::Parallel(jobs) => jobs.into_iter().map(|job| job.script).collect(),
    }
}

fn parallel_item(scripts: &[&str]) -> MenuItem {
    MenuItem {
        title: Some("group".into()),
        parallel: scripts
            .iter()
            .map(|script| ParallelCommand {
                title: None,
                shell: Shell::One((*script).to_string()),
            })
            .collect(),
        ..Default::default()
    }
}

#[test]
fn resolves_an_entry_without_arguments_directly() {
    let item = MenuItem::command("t", "echo hi");
    assert_eq!(scripts(resolve(&item, &Vec::new()).unwrap()), ["echo hi"]);
}

#[test]
fn resolves_a_parallel_entry_into_one_job_per_command() {
    let item = parallel_item(&["npm run dev", "npm run api"]);
    assert_eq!(
        scripts(resolve(&item, &Vec::new()).unwrap()),
        ["npm run dev", "npm run api"]
    );
}

#[test]
fn gives_every_member_of_a_group_the_same_arguments() {
    let mut item = parallel_item(&["serve {port}", "open :{port}"]);
    item.args = vec![jj_menu::config::model::ArgSpec {
        name: "port".into(),
        prompt: None,
        default: None,
    }];
    let values = vec![("port".to_string(), "8080".to_string())];
    assert_eq!(scripts(resolve(&item, &values).unwrap()), ["serve 8080", "open :8080"]);
}

#[test]
fn a_parallel_entry_is_runnable_rather_than_openable() {
    let item = parallel_item(&["true"]);
    assert!(item.launch().is_some());
    assert!(!item.has_detail());
}

#[test]
fn enter_runs_a_command_and_opens_a_container() {
    let container = MenuItem {
        title: Some("deploy".into()),
        submenu: vec![MenuItem::command("staging", "echo staging")],
        ..Default::default()
    };
    let mut menu = MenuState::new(Frame::new(
        "root",
        vec![MenuItem::command("build", "make"), container],
    ));
    match on_action(&mut menu, Action::Select) {
        Step::Run(item) => assert_eq!(item.label(), "build"),
        _ => panic!("Enter on a command runs it"),
    }
    assert!(matches!(on_action(&mut menu, Action::Down), Step::Stay));
    assert!(matches!(on_action(&mut menu, Action::Select), Step::Stay));
    assert_eq!(menu.depth(), 2, "Enter on a container opens it");
    assert!(matches!(on_action(&mut menu, Action::Back), Step::Stay));
    assert!(matches!(on_action(&mut menu, Action::Back), Step::Cancel));
    assert!(matches!(on_action(&mut menu, Action::Quit), Step::Cancel));
}

#[test]
fn the_status_line_tells_a_parallel_entry_apart_from_a_single_command() {
    let menu = MenuState::new(Frame::new(
        "title",
        vec![parallel_item(&["npm run dev", "npm run api"])],
    ));
    assert_eq!(footer_text(&menu), "& npm run dev & npm run api");

    let single = MenuState::new(Frame::new("title", vec![MenuItem::command("a", "cd x\nls")]));
    assert_eq!(footer_text(&single), "$ cd x ; ls");

    let container = MenuState::new(Frame::new(
        "title",
        vec![MenuItem {
            title: Some("c".into()),
            help: Some("h".into()),
            ..Default::default()
        }],
    ));
    assert_eq!(footer_text(&container), "> 0 entries");

    let empty = MenuState::new(Frame::new("title", Vec::new()));
    assert_eq!(footer_text(&empty), "");
}

// ---------------------------------------------------------------------------
// Drawing
// ---------------------------------------------------------------------------

#[test]
fn falls_back_to_a_usable_size_when_the_terminal_reports_zero() {
    assert_eq!(usable_size(None), (80, 24));
    assert_eq!(usable_size(Some((0, 0))), (80, 24));
    assert_eq!(usable_size(Some((0, 40))), (80, 40));
    assert_eq!(usable_size(Some((120, 0))), (120, 24));
    assert_eq!(usable_size(Some((120, 40))), (120, 40));
}

#[test]
fn truncates_by_terminal_columns() {
    assert_eq!(truncate("abcdef", 4), "abc");
    assert_eq!(truncate("abc", 80), "abc");
    assert_eq!(truncate("日本語です", 4), "日");
    assert_eq!(truncate("日本語です", 8), "日本語");
    assert_eq!(truncate("a日本", 4), "a日");
}

#[test]
fn measures_and_cuts_by_grapheme_cluster() {
    for cluster in ["❤\u{fe0f}", "👨\u{200d}👩\u{200d}👧", "🧑🏽", "🇯🇵"] {
        assert_eq!(display_width(cluster), 2, "{cluster:?}");
        assert_eq!(truncate(cluster, 2), "", "{cluster:?}");
        assert_eq!(truncate(cluster, 3), cluster, "{cluster:?}");
    }
    assert_eq!(display_width("a\u{301}"), 1);
    assert_eq!(truncate("a\u{301}b", 3), "a\u{301}b");
}

#[test]
fn a_padded_row_is_exactly_one_line_wide() {
    for text in [
        "backend の環境変数を SSM から反映して再起動 >",
        "ascii only",
        "",
        "日",
        "deploy 🚀 ❤\u{fe0f} 👨\u{200d}👩\u{200d}👧",
    ] {
        let line = pad(&truncate(text, 40), 40);
        assert_eq!(
            display_width(&line),
            39,
            "a padded row must fill the line exactly once: {line:?}"
        );
    }
}

#[test]
fn a_long_command_is_wrapped_instead_of_cut() {
    let command = "$ ".to_string() + &"deploy --target production ".repeat(6);
    let rows = wrap(&command, 40, 10);

    assert!(rows.len() > 1, "a long command should use several rows");
    assert!(
        rows.iter().all(|row| display_width(row) <= 39),
        "no row may run past the edge: {rows:?}"
    );
    assert_eq!(rows.concat(), command);
}

#[test]
fn wrapping_stops_at_the_row_budget() {
    let command = "x".repeat(1000);
    let rows = wrap(&command, 40, 10);

    assert_eq!(rows.len(), 10);
    assert_eq!(rows.concat().chars().count(), 10 * 39);
}

#[test]
fn wrapping_replaces_control_characters_without_losing_the_rest() {
    let command = format!("$ echo {}", "a\u{1}".repeat(30));
    let rows = wrap(&command, 20, 10);

    assert!(rows.iter().all(|row| display_width(row) <= 19), "{rows:?}");
    assert!(!rows.concat().contains('\u{1}'), "{rows:?}");
    let clean: String = sanitize(&command).into_iter().collect();
    assert_eq!(rows.concat(), clean);
}

#[test]
fn a_short_command_still_uses_one_row() {
    assert_eq!(wrap("$ ls", 40, 10), vec!["$ ls".to_string()]);
    assert_eq!(wrap("", 40, 10), vec![String::new()]);
}

#[test]
fn a_one_column_terminal_still_gets_a_status_row() {
    assert_eq!(wrap("$ ls", 1, 10), vec![String::new()]);
}

#[test]
fn the_status_line_leaves_the_list_something_to_show() {
    assert_eq!(footer_budget(24, 0), 10);
    assert_eq!(footer_budget(24, 2), 10);
    assert_eq!(footer_budget(10, 0), 5);
    assert_eq!(footer_budget(10, 2), 5);
    assert_eq!(footer_budget(8, 2), 3);
    assert_eq!(footer_budget(4, 2), 1);
    assert_eq!(footer_budget(3, 0), 1);
    assert_eq!(footer_budget(1, 0), 1);
}

#[test]
fn the_list_keeps_at_least_one_row() {
    assert_eq!(list_height(24, 2, 3), 17);
    assert_eq!(list_height(4, 2, 1), 1);
}

#[test]
fn padding_leaves_a_row_that_is_already_full_alone() {
    let full = "x".repeat(39);
    assert_eq!(pad(&full, 40), full);
}

#[test]
fn strips_control_characters_from_repository_controlled_text() {
    assert_eq!(truncate("a\u{1b}[2Jb", 80), "a·[2Jb");
    assert_eq!(truncate("a\nb", 80), "a·b");
    assert_eq!(truncate("a\u{7}b", 80), "a·b");
    assert_eq!(truncate("a\u{9b}b", 80), "a·b", "C1 CSI must go too");
    assert_eq!(truncate("plain", 80), "plain", "ordinary text is untouched");
}

#[test]
fn pads_to_the_terminal_width() {
    assert_eq!(pad("ab", 5), "ab  ");
    assert_eq!(pad("abcdef", 4), "abcdef");
}

#[test]
fn previews_a_multi_line_script_on_one_line() {
    assert_eq!(one_line("cd x\nls\nmake"), "cd x ; ls ; make");
}

#[test]
fn splits_the_sigil_off_a_line() {
    assert_eq!(split_marker("*> build"), ("*>".to_string(), " build".to_string()));
    assert_eq!(split_marker("$"), ("$".to_string(), String::new()));
    assert_eq!(cursor_marker(true), "*>");
    assert_eq!(cursor_marker(false), "  ");
}

// ---------------------------------------------------------------------------
// Colour
// ---------------------------------------------------------------------------

#[test]
fn no_color_wins_over_everything() {
    assert!(!decide(Some(b"1".as_slice()), Some("xterm-256color")));
    assert!(!decide(Some(b"anything".as_slice()), None));
}

#[test]
fn an_empty_no_color_is_not_a_request_for_no_color() {
    assert!(decide(Some(b"".as_slice()), Some("xterm-256color")));
}

#[test]
fn a_no_color_that_is_not_utf8_still_counts() {
    assert!(!decide(Some([0xffu8].as_slice()), Some("xterm-256color")));
}

#[test]
fn a_dumb_or_empty_term_gets_no_color() {
    assert!(!decide(None, Some("dumb")));
    assert!(!decide(None, Some("")));
}

#[test]
fn an_ordinary_terminal_gets_color() {
    assert!(decide(None, Some("xterm-256color")));
    assert!(decide(None, Some("screen")));
    assert!(decide(None, None));
}

#[test]
fn a_second_stop_kills_even_when_it_arrives_later() {
    let mut stops = jj_menu::parallel::Stops::new(false);
    assert_eq!(stops.on_stops(1, libc::SIGTERM), libc::SIGTERM);
    assert_eq!(stops.on_stops(1, libc::SIGINT), libc::SIGKILL);
    let mut after_failed_start = jj_menu::parallel::Stops::new(true);
    assert_eq!(after_failed_start.on_stops(1, libc::SIGINT), libc::SIGKILL);
    let mut waiting = jj_menu::parallel::Stops::new(false);
    assert_eq!(waiting.on_wait_failure(), libc::SIGKILL);
    assert_eq!(waiting.on_stops(1, libc::SIGINT), libc::SIGKILL);
}

#[test]
fn a_cancelled_prompt_runs_nothing() {
    let mut item = MenuItem::command("search", "rg {pattern} {dir}");
    item.args = vec![
        ArgSpec { name: "pattern".into(), prompt: None, default: None },
        ArgSpec { name: "dir".into(), prompt: None, default: None },
    ];
    assert!(resolve_answers(&item, &vec![Some("TODO".into()), None]).is_none());
    assert_eq!(
        answered(&item.args, &vec![Some("TODO".into()), Some("src".into())]).unwrap(),
        vec![("pattern".to_string(), "TODO".to_string()), ("dir".to_string(), "src".to_string())]
    );
    let launch = resolve_answers(&item, &vec![Some("TODO".into()), Some("src".into())]).unwrap();
    assert_eq!(scripts(launch), ["rg TODO src"]);
    let plain = MenuItem::command("t", "echo {x}");
    assert_eq!(scripts(resolve_answers(&plain, &Vec::new()).unwrap()), ["echo {x}"]);
}

fn painted_hello(color: bool, style: RunStyle) -> String {
    painted(color, style, "hello")
}

fn run_style(fg: Option<Colour>, bg: Option<Colour>, bold: bool, highlight: bool) -> RunStyle {
    RunStyle { fg, bg, bold, highlight }
}

#[test]
fn ordinary_text_is_written_untouched_when_color_is_off() {
    assert_eq!(painted_hello(false, run_style(Some(Colour::Cyan), None, true, false)), "hello");
}

#[test]
fn a_highlight_falls_back_to_reverse_video_when_color_is_off() {
    let written = painted_hello(false, run_style(Some(Colour::White), Some(Colour::Blue), false, true));
    assert_eq!(written, "\u{1b}[7mhello\u{1b}[0m");
}

#[test]
fn color_is_emitted_and_reset_when_color_is_on() {
    let written = painted_hello(true, run_style(Some(Colour::Cyan), None, true, false));
    assert!(written.contains("hello"));
    assert!(written.starts_with('\u{1b}'), "got {written:?}");
    assert!(written.ends_with("\u{1b}[0m"), "got {written:?}");
}

#[test]
fn an_unstyled_run_carries_no_escapes_at_all() {
    assert_eq!(painted_hello(true, run_style(None, None, false, false)), "hello");
}

#[test]
fn a_highlight_is_not_reversed_when_color_is_on() {
    let written = painted_hello(true, run_style(Some(Colour::White), Some(Colour::Blue), false, true));
    assert!(!written.contains("\u{1b}[7m"), "got {written:?}");
}

#[test]
fn the_selection_bar_and_status_line_are_the_highlighted_runs() {
    for paint in [Paint::Marker, Paint::Selected, Paint::Sigil, Paint::Status] {
        assert!(style_for(paint).highlight);
        assert_eq!(paint_steps(false, style_for(paint)), [PaintStep::Reverse, PaintStep::Text, PaintStep::Reset]);
    }
    for paint in [Paint::Title, Paint::Muted, Paint::Help, Paint::Container, Paint::Plain, Paint::Error, Paint::Command] {
        assert_eq!(paint_steps(false, style_for(paint)), [PaintStep::Text]);
    }
    assert_eq!(
        paint_steps(true, style_for(Paint::Marker)),
        [
            PaintStep::Fg(Colour::Yellow),
            PaintStep::Bg(Colour::Blue),
            PaintStep::Bold,
            PaintStep::Text,
            PaintStep::Reset
        ]
    );
    assert_eq!(paint_steps(true, style_for(Paint::Plain)), [PaintStep::Text]);
}

#[test]
fn writes_the_palette_escapes_for_colours() {
    let written = painted(true, style_for(Paint::Status), "x");
    // crossterm leaves the colour out when its own NO_COLOR check says so.
    assert!(
        written == "\u{1b}[38;5;15m\u{1b}[48;5;8mx\u{1b}[0m" || written == "\u{1b}[m\u{1b}[mx\u{1b}[0m",
        "got {written:?}"
    );
}

#[test]
fn lays_out_the_prompt_and_its_cursor() {
    let mut editor = LineEditor::with_text("ab");
    let (prompt, value, column) = prompt_layout("Pattern", &editor, 40);
    assert_eq!(prompt, "Pattern:");
    assert_eq!(value, " ab");
    assert_eq!(column, 11);
    let (prompt, value, column) = prompt_layout("Pattern", &editor, 6);
    assert_eq!(prompt, "Patte");
    assert_eq!(value, "");
    assert_eq!(column, 5);
    editor.left();
    let (_, _, column) = prompt_layout("P", &editor, 40);
    assert_eq!(column, 4);
}
