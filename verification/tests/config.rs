use jj_menu::config::discovery::{Found, Scope, candidate_names, project_stems};
use jj_menu::config::loader::{Format, Loader, choose_shape, format_of, parse, validate};
use jj_menu::config::model::{
    AutoLauncherFlags, AutoLaunchers, ConfigFile, MenuItem, ParallelCommand, Shell,
};

fn file(menu: Vec<MenuItem>) -> ConfigFile {
    ConfigFile {
        menu,
        run_in_current_directory: None,
        merge: true,
        auto_launchers: None,
    }
}

fn project(path: &str) -> Found {
    Found {
        path: path.to_string(),
        scope: Scope::Project,
    }
}

fn both(title: &str) -> MenuItem {
    MenuItem {
        title: Some(title.into()),
        shell: Some(Shell::One("echo hi".into())),
        parallel: vec![ParallelCommand {
            title: None,
            shell: Shell::One("echo there".into()),
        }],
        ..Default::default()
    }
}

#[test]
fn rejects_an_entry_that_is_both_sequential_and_parallel() {
    let err = validate(&vec![both("t")], "a.yaml").unwrap_err();
    assert!(err.contains("both `shell` and `parallel`"), "{err}");
    assert!(err.contains("\"t\""), "the entry is named: {err}");
    assert!(err.starts_with("a.yaml: "), "{err}");
}

#[test]
fn rejects_the_same_entry_inside_a_submenu() {
    let parent = MenuItem {
        title: Some("t".into()),
        submenu: vec![both("inner")],
        ..Default::default()
    };
    assert!(validate(&vec![parent], "a.yaml").is_err());
}

#[test]
fn accepts_entries_that_are_one_or_the_other() {
    let items = vec![MenuItem::command("a", "true"), MenuItem::default()];
    assert!(validate(&items, "a.yaml").is_ok());
}

#[test]
fn rejects_unknown_extensions() {
    let err = format_of("a.cson").err().unwrap();
    assert_eq!(err, "unsupported configuration format: .cson");
    assert!(parse("a.cson", Ok(file(Vec::new())), Err("x".into())).is_err());
}

#[test]
fn reads_the_format_from_the_extension_in_any_case() {
    assert!(matches!(format_of("a.yaml"), Ok(Format::Yaml)));
    assert!(matches!(format_of("a.YML"), Ok(Format::Yaml)));
    assert!(matches!(format_of("a.toml"), Ok(Format::Toml)));
    assert!(matches!(format_of("dir/.jj-menu.json"), Ok(Format::Json)));
    assert!(format_of("Makefile").is_err());
}

#[test]
fn reports_the_error_of_the_documented_shape_not_the_shorthand() {
    let r = parse("a.yaml", Err("menu[0].shell: bad".into()), Err("expected a sequence".into()));
    assert_eq!(r.err().unwrap(), "menu[0].shell: bad");
}

#[test]
fn parses_a_bare_top_level_list_as_the_menu() {
    let r = parse(
        "a.yaml",
        Err("not a mapping".into()),
        Ok(vec![MenuItem::command("hello", "echo hello")]),
    )
    .unwrap();
    assert_eq!(r.menu.len(), 1);
    assert_eq!(r.menu[0].label(), "hello");
    assert!(r.merge, "a bare list merges like any other file");
    assert!(r.auto_launchers.is_none());
}

#[test]
fn toml_has_no_bare_list_shape() {
    let r = parse(
        "a.toml",
        Err("bad".into()),
        Ok(vec![MenuItem::command("hello", "echo hello")]),
    );
    assert_eq!(r.err().unwrap(), "bad");
}

#[test]
fn a_decoded_file_is_still_checked() {
    let r = parse("a.json", Ok(file(vec![both("t")])), Err("unused".into()));
    assert!(r.err().unwrap().contains("both `shell` and `parallel`"));
}

#[test]
fn the_documented_shape_wins_over_the_bare_list() {
    let documented = file(vec![MenuItem::command("a", "true")]);
    let r = choose_shape(Ok(documented), Ok(Vec::new())).unwrap();
    assert_eq!(r.menu.len(), 1);
}

#[test]
fn falls_back_to_the_command_when_no_title_is_given() {
    let item = MenuItem {
        shell: Some(Shell::One("echo hello\nmore".into())),
        ..Default::default()
    };
    assert_eq!(item.label(), "echo hello");
}

#[test]
fn joins_a_shell_list_into_one_script() {
    let item = MenuItem {
        title: Some("t".into()),
        shell: Some(Shell::Many(vec!["cd /tmp".into(), "ls".into()])),
        ..Default::default()
    };
    assert_eq!(item.script().unwrap(), "cd /tmp\nls");
}

#[test]
fn labels_a_parallel_group_with_its_commands_when_no_title_is_given() {
    let item = MenuItem {
        parallel: vec![
            ParallelCommand {
                title: None,
                shell: Shell::One("npm run dev".into()),
            },
            ParallelCommand {
                title: Some("api".into()),
                shell: Shell::Many(vec!["cd api".into(), "npm start".into()]),
            },
        ],
        ..Default::default()
    };
    assert_eq!(item.label(), "npm run dev & api");
    assert!(item.script().is_none(), "a group has no single script");
    assert_eq!(item.parallel[1].shell.script(), "cd api\nnpm start");
}

#[test]
fn auto_launchers_can_be_turned_off_at_once() {
    assert!(!AutoLaunchers::All(false).any());
    assert!(AutoLaunchers::default().any(), "the default is all enabled");
}

#[test]
fn auto_launchers_can_be_turned_off_individually() {
    let flags = AutoLaunchers::Each(AutoLauncherFlags {
        makefile: false,
        ..Default::default()
    });
    assert!(!flags.makefile());
    assert!(flags.package_json());
    assert!(flags.any());
}

#[test]
fn lists_every_candidate_name_shared_file_first() {
    let names = candidate_names(&project_stems());
    assert_eq!(names.len(), 24);
    assert_eq!(names[0], ".jj-menu.yaml");
    assert_eq!(names[1], ".jj-menu.yml");
    assert_eq!(names[3], ".jj-menu.json");
    assert!(!names.iter().any(|n| n.ends_with(".cson")));
    let shared = names.iter().position(|n| n == ".jj-menu.yaml").unwrap();
    let local = names.iter().position(|n| n == ".jj-menu.local.yaml").unwrap();
    assert!(shared < local);
}

// ---------------------------------------------------------------------------
// Merging
// ---------------------------------------------------------------------------

#[test]
fn merges_a_directory_with_its_ancestors() {
    let mut loader = Loader::new();
    assert!(loader.add(&project("/p/sub/.jj-menu.yaml"), file(vec![MenuItem::command("near", "a")])));
    assert!(loader.add(&project("/p/.jj-menu.yaml"), file(vec![MenuItem::command("far", "b")])));
    let config = loader.finish();
    let labels: Vec<String> = config.menu.iter().map(|i| i.label()).collect();
    assert_eq!(labels, ["near", "far"]);
    assert_eq!(config.sources.len(), 2);
}

#[test]
fn skips_a_fallback_file_when_a_nearer_one_exists() {
    let mut loader = Loader::new();
    assert!(loader.add(&project("/p/sub/.jj-menu.yaml"), file(vec![MenuItem::command("near", "a")])));
    assert!(loader.skips_fallback(true));
    let mut fallback = file(vec![MenuItem::command("fallback", "b")]);
    fallback.merge = false;
    assert!(!loader.add(&project("/p/.jj-menu.yaml"), fallback));
    let config = loader.finish();
    assert_eq!(config.menu.len(), 1);
    assert_eq!(config.sources.len(), 1);
}

#[test]
fn uses_a_fallback_file_when_nothing_nearer_exists() {
    let mut loader = Loader::new();
    assert!(!loader.skips_fallback(true));
    let mut fallback = file(vec![MenuItem::command("fallback", "b")]);
    fallback.merge = false;
    assert!(loader.add(&project("/p/.jj-menu.yaml"), fallback));
    assert_eq!(loader.finish().menu.len(), 1);
}

#[test]
fn reports_no_configuration_when_none_exists() {
    let config = Loader::new().finish();
    assert!(config.menu.is_empty());
    assert!(config.sources.is_empty());
    assert!(config.auto_launchers.any());
}

#[test]
fn reports_the_directory_each_file_runs_in() {
    let mut loader = Loader::new();
    loader.add(&project("/p/sub/.jj-menu.yaml"), file(vec![MenuItem::command("a", "true")]));
    let config = loader.finish();
    assert_eq!(config.sources[0].path, "/p/sub/.jj-menu.yaml");
    assert_eq!(config.sources[0].cwd.as_deref(), Some("/p/sub"));
    assert_eq!(config.menu[0].cwd.as_deref(), Some("/p/sub"));
}

#[test]
fn a_file_can_send_its_entries_back_to_the_working_directory() {
    let mut loader = Loader::new();
    let mut f = file(vec![MenuItem::command("a", "true")]);
    f.run_in_current_directory = Some(true);
    loader.add(&project("/p/.jj-menu.yaml"), f);
    let config = loader.finish();
    assert_eq!(config.sources[0].cwd, None);
    assert_eq!(config.menu[0].cwd, None);
}

#[test]
fn the_per_user_file_runs_in_the_working_directory_by_default() {
    let mut loader = Loader::new();
    let user = Found {
        path: "/home/u/.config/jj-menu/config.yaml".to_string(),
        scope: Scope::User,
    };
    loader.add(&user, file(vec![MenuItem::command("a", "true")]));
    let config = loader.finish();
    assert_eq!(config.sources[0].cwd, None);
    assert_eq!(config.menu[0].cwd, None);
}

#[test]
fn the_per_user_file_can_still_ask_for_its_own_directory() {
    let mut loader = Loader::new();
    let user = Found {
        path: "/home/u/.config/jj-menu/config.yaml".to_string(),
        scope: Scope::User,
    };
    let mut f = file(vec![MenuItem::command("a", "true")]);
    f.run_in_current_directory = Some(false);
    loader.add(&user, f);
    let config = loader.finish();
    assert_eq!(config.sources[0].cwd.as_deref(), Some("/home/u/.config/jj-menu"));
}

#[test]
fn an_entry_setting_of_its_own_overrides_the_file() {
    let mut loader = Loader::new();
    let mut item = MenuItem::command("a", "true");
    item.run_in_current_directory = Some(true);
    let mut parent = MenuItem::command("b", "true");
    parent.run_in_current_directory = Some(true);
    let mut child = MenuItem::command("c", "true");
    child.run_in_current_directory = Some(false);
    parent.submenu = vec![child, MenuItem::command("d", "true")];
    loader.add(&project("/p/.jj-menu.yaml"), file(vec![item, parent]));
    let config = loader.finish();
    assert_eq!(config.menu[0].cwd, None);
    assert_eq!(config.menu[1].cwd, None);
    assert_eq!(config.menu[1].submenu[0].cwd.as_deref(), Some("/p"));
    assert_eq!(config.menu[1].submenu[1].cwd, None, "a submenu inherits its parent's setting");
}

#[test]
fn the_nearest_file_that_sets_auto_launchers_takes_the_whole_block() {
    let mut loader = Loader::new();
    let mut near = file(Vec::new());
    near.auto_launchers = Some(AutoLaunchers::Each(AutoLauncherFlags {
        makefile: false,
        ..Default::default()
    }));
    let mut far = file(Vec::new());
    far.auto_launchers = Some(AutoLaunchers::Each(AutoLauncherFlags {
        cargo: false,
        ..Default::default()
    }));
    loader.add(&project("/p/sub/.jj-menu.yaml"), file(Vec::new()));
    loader.add(&project("/p/sub/.jj-menu.local.yaml"), near);
    loader.add(&project("/p/.jj-menu.yaml"), far);
    let config = loader.finish();
    assert!(!config.auto_launchers.makefile());
    assert!(config.auto_launchers.cargo(), "the ancestor's switch has no effect");
}

fn hello() -> MenuItem {
    MenuItem {
        title: Some("hello".into()),
        shell: Some(Shell::One("echo hello".into())),
        ..Default::default()
    }
}

#[test]
fn parses_the_documented_yaml_shape() {
    let config = parse("a.yaml", Ok(file(vec![hello()])), Err("not a list".into())).unwrap();
    assert_eq!(config.menu.len(), 1);
    assert_eq!(config.menu[0].label(), "hello");
    assert_eq!(config.menu[0].script().unwrap(), "echo hello");
    assert!(config.merge);
}

#[test]
fn parses_a_parallel_group() {
    let servers = MenuItem {
        title: Some("servers".into()),
        parallel: vec![
            ParallelCommand {
                title: None,
                shell: Shell::One("npm run dev".into()),
            },
            ParallelCommand {
                title: Some("api".into()),
                shell: Shell::Many(vec!["cd api".into(), "npm start".into()]),
            },
        ],
        ..Default::default()
    };
    let config = parse("a.yaml", Ok(file(vec![servers])), Err("not a list".into())).unwrap();
    let item = &config.menu[0];
    assert!(item.script().is_none(), "a group has no single script");
    assert_eq!(item.parallel.len(), 2);
    assert_eq!(item.parallel[0].label(), "npm run dev");
    assert_eq!(item.parallel[1].label(), "api");
    assert_eq!(item.parallel[1].shell.script(), "cd api\nnpm start");
}

#[test]
fn parses_toml() {
    let config = parse("a.toml", Ok(file(vec![hello()])), Err(String::new())).unwrap();
    assert_eq!(config.menu[0].label(), "hello");
}

#[test]
fn parses_json() {
    let config = parse("a.json", Ok(file(vec![hello()])), Err("not a list".into())).unwrap();
    assert_eq!(config.menu[0].label(), "hello");
}

#[test]
fn parses_a_bare_json_array_as_the_menu() {
    let config = parse("a.json", Err("not an object".into()), Ok(vec![hello()])).unwrap();
    assert_eq!(config.menu[0].label(), "hello");
}

#[test]
fn a_file_that_says_nothing_about_auto_launchers_leaves_it_undecided() {
    let config = parse("a.yaml", Ok(file(Vec::new())), Err("not a list".into())).unwrap();
    assert!(
        config.auto_launchers.is_none(),
        "otherwise this file would override a parent that did decide"
    );
    assert!(AutoLaunchers::default().any(), "the default is all enabled");
}
