use jj_menu::launchers::cargo::{self, BinEntry, BinSource, Manifest, Sources, Toml};
use jj_menu::paths::{candidate_paths, first_present_of};
use jj_menu::launchers::{LauncherGroup, Project, collect_groups, gradle, in_dir, package_json, quote};

#[test]
fn quotes_for_posix_shells() {
    assert_eq!(quote("plain"), "'plain'");
    assert_eq!(quote("with space"), "'with space'");
    assert_eq!(quote("it's"), r"'it'\''s'");
}

#[test]
fn skips_the_cd_prefix_when_already_in_the_directory() {
    assert_eq!(in_dir("/tmp/project", "make build", "/tmp/project"), "make build");
}

#[test]
fn prefixes_cd_when_the_project_is_in_an_ancestor() {
    assert_eq!(
        in_dir("/tmp/project", "make build", "/tmp/project/sub"),
        "cd '/tmp/project' && make build"
    );
}

#[test]
fn compares_directories_as_paths_not_as_text() {
    assert_eq!(in_dir("/tmp/project/", "make", "/tmp/project"), "make");
}

// ---------------------------------------------------------------------------
// package.json
// ---------------------------------------------------------------------------

fn names(v: &[&str]) -> Vec<String> {
    v.iter().map(|s| s.to_string()).collect()
}

fn group_labels(group: &jj_menu::launchers::LauncherGroup) -> Vec<String> {
    group.items.iter().map(|i| i.label()).collect()
}

#[test]
fn turns_scripts_into_entries_sorted_by_name() {
    let group = package_json::entries_for(names(&["test", "build"]), "npm").unwrap();
    assert_eq!(group_labels(&group), vec!["npm run build", "npm run test"]);
    assert_eq!(group.source, "package.json");
}

#[test]
fn skips_a_script_whose_name_would_be_read_as_an_option() {
    let group = package_json::entries_for(names(&["--silent", "build"]), "npm").unwrap();
    assert_eq!(group_labels(&group), vec!["npm run build"]);
}

#[test]
fn produces_nothing_when_every_script_is_option_like() {
    assert!(package_json::entries_for(names(&["--silent"]), "npm").is_none());
}

fn level(present: &[bool], boundary: bool) -> package_json::Level {
    package_json::Level {
        present: present.to_vec(),
        boundary,
    }
}

const NO_LOCK: [bool; 5] = [false, false, false, false, false];

#[test]
fn uses_the_package_manager_from_the_lock_file() {
    let runner = package_json::runner_for(&vec![level(&[true], false)]);
    assert_eq!(runner, "pnpm");
    let group = package_json::entries_for(names(&["dev"]), &runner).unwrap();
    assert_eq!(group.items[0].script().unwrap(), "pnpm run 'dev'");
}

#[test]
fn finds_the_lock_file_at_the_workspace_root() {
    let walk = vec![
        level(&NO_LOCK, false),
        level(&NO_LOCK, false),
        level(&[true], false),
    ];
    assert_eq!(package_json::runner_for(&walk), "pnpm");
}

#[test]
fn does_not_look_for_a_lock_file_outside_the_repository() {
    let walk = vec![level(&NO_LOCK, true), level(&[true], false)];
    assert_eq!(
        package_json::runner_for(&walk),
        "npm",
        "the lock file above the repository must not be used"
    );
}

#[test]
fn tries_the_lock_files_in_order_in_each_directory() {
    assert_eq!(package_json::runner_for(&vec![level(&[false, true], false)]), "yarn");
    assert_eq!(package_json::runner_for(&vec![level(&[false, false, true], false)]), "bun");
    assert_eq!(package_json::runner_for(&vec![level(&[false, false, false, true], false)]), "bun");
    assert_eq!(package_json::runner_for(&vec![level(&[false, false, false, false, true], false)]), "npm");
    assert_eq!(package_json::runner_for(&Vec::new()), "npm");
}

#[test]
fn quotes_a_script_name_that_carries_shell_metacharacters() {
    let group = package_json::entries_for(names(&["build; touch /tmp/pwned"]), "npm").unwrap();
    assert_eq!(
        group.items[0].script().unwrap(),
        "npm run 'build; touch /tmp/pwned'"
    );
}

#[test]
fn produces_nothing_for_an_empty_scripts_block() {
    assert!(package_json::entries_for(Vec::new(), "npm").is_none());
}

#[test]
fn sorts_names_by_code_point_with_a_prefix_first() {
    let group =
        package_json::entries_for(names(&["b", "B", "ab", "a", "é"]), "yarn").unwrap();
    assert_eq!(
        group_labels(&group),
        vec!["yarn run B", "yarn run a", "yarn run ab", "yarn run b", "yarn run é"]
    );
}

#[test]
fn a_package_json_without_a_directory_produces_nothing() {
    assert!(package_json::scan(r#"{"scripts": {"dev": "vite"}}"#, "").is_none());
}

#[test]
fn produces_nothing_without_scripts() {
    assert!(package_json::scan(r#"{"name": "x"}"#, "/srv/app/package.json").is_none());
}

#[test]
fn ignores_a_broken_package_json_instead_of_failing() {
    assert!(package_json::scan("{not json", "/srv/app/package.json").is_none());
}

#[test]
fn reads_the_script_names_from_the_scripts_block() {
    let group = package_json::scan(
        r#"{"scripts": {"test": "vitest", "build": "vite build"}}"#,
        "/nonexistent-jj-menu-dir/app/package.json",
    )
    .unwrap();
    let labels = group_labels(&group);
    assert_eq!(labels.len(), 2);
    assert!(labels[0].ends_with(" run build"), "{labels:?}");
    assert!(labels[1].ends_with(" run test"), "{labels:?}");
}

#[test]
fn the_detected_package_manager_is_one_of_the_runners() {
    let runner = package_json::detect_package_manager("/nonexistent-jj-menu-dir/app");
    assert!(["npm", "pnpm", "yarn", "bun"].contains(&runner.as_str()));
}

// ---------------------------------------------------------------------------
// Gradle
// ---------------------------------------------------------------------------

#[test]
fn prefers_the_wrapper_when_present() {
    let group = gradle::scan(Some("/srv/app/gradlew"), Some("/srv/app/build.gradle"), "/srv/app").unwrap();
    assert_eq!(group.source, "gradlew");
    assert!(group.items[0].script().unwrap().ends_with("/gradlew build"));
    assert_eq!(group.items[0].script().unwrap(), "'/srv/app'/gradlew build");
    assert_eq!(group.items[0].label(), "./gradlew build");
}

#[test]
fn falls_back_to_gradle_on_path_without_a_wrapper() {
    let group = gradle::scan(None, Some("/srv/app/build.gradle"), "/srv/app").unwrap();
    assert_eq!(group.source, "build.gradle");
    assert_eq!(group.items[0].script().unwrap(), "gradle build");
}

#[test]
fn uses_the_root_wrapper_for_a_subproject() {
    let group = gradle::scan(Some("/srv/root/gradlew"), Some("/srv/root/app/build.gradle"), "/srv/root/app/src")
        .unwrap();
    assert_eq!(group.source, "gradlew");
    assert_eq!(group.items[0].label(), "./gradlew build");
    assert_eq!(
        group.items[0].script().unwrap(),
        "cd '/srv/root/app' && '/srv/root'/gradlew build"
    );
}

#[test]
fn a_wrapper_alone_runs_in_its_own_directory() {
    let group = gradle::scan(Some("/srv/app/gradlew"), None, "/srv/app").unwrap();
    assert_eq!(group.items[0].script().unwrap(), "'/srv/app'/gradlew build");
    assert!(gradle::scan(None, None, "/srv/app").is_none());
}

#[test]
fn offers_the_lifecycle_tasks_in_order() {
    let group = gradle::entries("/srv/app", None, "/srv/app");
    assert_eq!(
        group_labels(&group),
        vec![
            "gradle build",
            "gradle test",
            "gradle clean",
            "gradle assemble",
            "gradle check",
            "gradle tasks"
        ]
    );
}

// ---------------------------------------------------------------------------
// Cargo
// ---------------------------------------------------------------------------

fn package() -> Manifest {
    Manifest {
        has_package: true,
        package_name: Some("x".to_string()),
        autobins: true,
        bins: Vec::new(),
    }
}

fn bin(name: &str, path: &str) -> BinEntry {
    BinEntry {
        name: Some(name.to_string()),
        path: Some(path.to_string()),
        required_features: Vec::new(),
    }
}

fn sources(main_rs: bool, bin_dir: &[(&str, bool)]) -> Sources {
    Sources {
        main_rs,
        bin_dir: bin_dir
            .iter()
            .map(|(f, d)| BinSource {
                file_name: f.to_string(),
                dir_with_main: *d,
            })
            .collect(),
    }
}

const PACKAGE: &str = "[package]\nname = \"x\"\nversion = \"0.1.0\"\n";

/// The group for the manifest text, with every optional component installed.
fn cargo_group(text: &str, s: &Sources) -> jj_menu::launchers::LauncherGroup {
    cargo::scan_manifest(text, Some(s), true, true).unwrap()
}

fn cargo_labels(text: &str, s: &Sources) -> Vec<String> {
    group_labels(&cargo_group(text, s))
}

fn cargo_scripts(text: &str, s: &Sources) -> Vec<String> {
    cargo_group(text, s).items.iter().filter_map(|i| i.script()).collect()
}

#[test]
fn offers_the_standard_subcommands() {
    let labels = cargo_labels(PACKAGE, &sources(true, &[]));
    assert!(labels.contains(&"cargo build".to_string()));
    assert!(labels.contains(&"cargo test".to_string()));
    assert!(labels.contains(&"cargo run".to_string()));
}

#[test]
fn offers_the_optional_subcommands_only_when_they_are_installed() {
    let s = sources(true, &[]);
    let all = group_labels(&cargo::scan_manifest(PACKAGE, Some(&s), true, true).unwrap());
    assert!(all.contains(&"cargo fmt".to_string()));
    assert!(all.contains(&"cargo clippy".to_string()));

    let minimal = group_labels(&cargo::scan_manifest(PACKAGE, Some(&s), false, false).unwrap());
    assert!(!minimal.contains(&"cargo fmt".to_string()));
    assert!(!minimal.contains(&"cargo clippy".to_string()));
    assert!(minimal.contains(&"cargo build".to_string()));
    assert!(minimal.contains(&"cargo check".to_string()));
}

#[test]
fn omits_run_for_a_virtual_workspace_where_it_cannot_resolve_a_target() {
    let text = "[workspace]\nmembers = [\"a\"]\n";
    assert!(!cargo_labels(text, &sources(false, &[])).iter().any(|l| l.starts_with("cargo run")));
}

#[test]
fn omits_run_for_a_library_only_package() {
    assert!(!cargo_labels(PACKAGE, &sources(false, &[])).iter().any(|l| l.starts_with("cargo run")));
}

#[test]
fn counts_the_implicit_binary_from_src_main_rs() {
    let text = format!("{PACKAGE}\n[[bin]]\nname = \"other\"\npath = \"other.rs\"\n");
    let labels = cargo_labels(&text, &sources(true, &[]));
    assert!(!labels.contains(&"cargo run".to_string()), "{labels:?}");
    assert!(labels.contains(&"cargo run --bin x".to_string()), "{labels:?}");
    assert!(labels.contains(&"cargo run --bin other".to_string()), "{labels:?}");
}

#[test]
fn counts_binaries_auto_discovered_from_src_bin() {
    let labels = cargo_labels(PACKAGE, &sources(false, &[("a.rs", false), ("b", true)]));
    assert!(labels.contains(&"cargo run --bin a".to_string()), "{labels:?}");
    assert!(labels.contains(&"cargo run --bin b".to_string()), "{labels:?}");
}

#[test]
fn honours_autobins_false() {
    let text = "[package]\nname = \"x\"\nversion = \"0.1.0\"\nautobins = false\n\n\
         [[bin]]\nname = \"only\"\npath = \"only.rs\"\n";
    let labels = cargo_labels(text, &sources(true, &[]));
    assert!(labels.contains(&"cargo run".to_string()), "{labels:?}");
}

#[test]
fn names_binaries_explicitly_only_when_there_are_several() {
    let one = "[package]\nname = \"x\"\nversion = \"0.1.0\"\n\n[[bin]]\nname = \"a\"\npath = \"a.rs\"\n";
    let one_labels = cargo_labels(one, &sources(false, &[]));
    assert!(!one_labels.iter().any(|l| l.contains("--bin")));
    assert!(one_labels.contains(&"cargo run".to_string()));

    let two = "[package]\nname = \"x\"\nversion = \"0.1.0\"\n\n[[bin]]\nname = \"a\"\npath = \"a.rs\"\n\n[[bin]]\nname = \"b\"\npath = \"b.rs\"\n";
    let two_labels = cargo_labels(two, &sources(false, &[]));
    assert!(two_labels.contains(&"cargo run --bin a".to_string()));
    assert!(two_labels.contains(&"cargo run --bin b".to_string()));
    assert!(
        !two_labels.contains(&"cargo run".to_string()),
        "a bare `cargo run` is ambiguous with several binaries"
    );
}

#[test]
fn quotes_a_binary_name_that_carries_shell_metacharacters() {
    let text = "[package]\nname = \"x\"\nversion = \"0.1.0\"\n\n             [[bin]]\nname = \"a; touch /tmp/pwned\"\npath = \"a.rs\"\n\n             [[bin]]\nname = \"b\"\npath = \"b.rs\"\n";
    let scripts = cargo_scripts(text, &sources(false, &[]));
    assert!(
        scripts.contains(&"cargo run --bin 'a; touch /tmp/pwned'".to_string()),
        "{scripts:?}"
    );
}

#[test]
fn does_not_invent_an_implicit_target_for_a_claimed_source_file() {
    let text = format!("{PACKAGE}\n[[bin]]\nname = \"renamed\"\npath = \"src/main.rs\"\n");
    let labels = cargo_labels(&text, &sources(true, &[]));
    assert!(
        !labels.iter().any(|l| l.contains("--bin x")),
        "no target named after the package exists: {labels:?}"
    );
    assert!(
        labels.contains(&"cargo run".to_string()),
        "one binary, so a bare run is unambiguous: {labels:?}"
    );
}

#[test]
fn does_not_invent_an_implicit_target_for_a_claimed_src_bin_file() {
    let text = format!("{PACKAGE}\n[[bin]]\nname = \"renamed\"\npath = \"./src/bin/a.rs\"\n");
    let labels = cargo_labels(&text, &sources(false, &[("a.rs", false)]));
    assert!(
        !labels.iter().any(|l| l.contains("--bin a")),
        "src/bin/a.rs belongs to \"renamed\": {labels:?}"
    );
}

#[test]
fn passes_required_features_of_a_single_binary() {
    let text = format!(
        "{PACKAGE}\n[features]\ncli = []\n\n\
         [[bin]]\nname = \"x\"\npath = \"src/main.rs\"\nrequired-features = [\"cli\"]\n"
    );
    let scripts = cargo_scripts(&text, &sources(true, &[]));
    assert!(scripts.contains(&"cargo run --features 'cli'".to_string()), "{scripts:?}");
}

#[test]
fn passes_required_features_of_a_named_binary() {
    let text = format!(
        "{PACKAGE}\n[features]\ncli = []\nextra = []\n\n\
         [[bin]]\nname = \"a\"\npath = \"a.rs\"\nrequired-features = [\"cli\", \"extra\"]\n\n\
         [[bin]]\nname = \"b\"\npath = \"b.rs\"\n"
    );
    let scripts = cargo_scripts(&text, &sources(false, &[]));
    assert!(
        scripts.contains(&"cargo run --bin 'a' --features 'cli,extra'".to_string()),
        "{scripts:?}"
    );
    assert!(
        scripts.contains(&"cargo run --bin 'b'".to_string()),
        "a target without required-features gets no flag: {scripts:?}"
    );
}

#[test]
fn ignores_a_broken_manifest_instead_of_failing() {
    assert!(cargo::read_manifest("this is not toml =").is_none());
    assert!(cargo::scan_manifest("this is not toml =", Some(&sources(false, &[])), true, true).is_none());
}

#[test]
fn reads_what_a_manifest_says_about_binaries() {
    let text = "[package]\nname = \"tool\"\nautobins = \"no\"\n\n[[bin]]\nname = \"a\"\npath = 3\n\
                required-features = [\"cli\", 7, \"extra\"]\n\n[[bin]]\npath = \"b.rs\"\n";
    let m = cargo::read_manifest(text).unwrap();
    assert!(m.has_package);
    assert_eq!(m.package_name.as_deref(), Some("tool"));
    // Only the boolean `false` turns auto-discovery off.
    assert!(m.autobins);
    assert_eq!(m.bins.len(), 2);
    assert_eq!(m.bins[0].name.as_deref(), Some("a"));
    assert_eq!(m.bins[0].path, None);
    assert_eq!(m.bins[0].required_features, ["cli", "extra"]);
    assert_eq!(m.bins[1].name, None);
    assert_eq!(m.bins[1].path.as_deref(), Some("b.rs"));
}

#[test]
fn a_package_key_of_any_kind_makes_a_package() {
    let doc = Toml::Table(vec![
        ("package".to_string(), Toml::Str("x".to_string())),
        ("bin".to_string(), Toml::Bool(true)),
    ]);
    let m = cargo::manifest_of(&doc);
    assert!(m.has_package);
    assert_eq!(m.package_name, None);
    assert!(m.autobins);
    assert!(m.bins.is_empty());
    let off = Toml::Table(vec![(
        "package".to_string(),
        Toml::Table(vec![("autobins".to_string(), Toml::Bool(false))]),
    )]);
    assert!(!cargo::manifest_of(&off).autobins);
    assert!(!cargo::manifest_of(&Toml::Other).has_package);
}

#[test]
fn normalises_manifest_paths_before_comparing_them() {
    assert_eq!(cargo::normalize_path("./src/main.rs"), "src/main.rs");
    assert_eq!(cargo::normalize_path("src\\main.rs"), "src/main.rs");
    assert_eq!(cargo::normalize_path("././src/bin/a.rs"), "src/bin/a.rs");
    assert_eq!(cargo::normalize_path("../x.rs"), "../x.rs");
}

#[test]
fn sorts_discovered_binaries_by_name() {
    let targets = cargo::binary_targets(
        &package(),
        Some(&sources(true, &[("zeta.rs", false), ("alpha", true), ("notes.txt", false)])),
    );
    let names: Vec<&str> = targets.iter().map(|t| t.name.as_str()).collect();
    assert_eq!(names, ["alpha", "x", "zeta"]);
}

#[test]
fn keeps_manifest_order_without_auto_discovery() {
    let mut m = package();
    m.autobins = false;
    m.bins.push(bin("b", "b.rs"));
    m.bins.push(bin("a", "a.rs"));
    let targets = cargo::binary_targets(&m, Some(&sources(true, &[])));
    let names: Vec<&str> = targets.iter().map(|t| t.name.as_str()).collect();
    assert_eq!(names, ["b", "a"]);
}

#[test]
fn entries_list_the_builtin_subcommands_first() {
    let group = cargo::entries(false, true, &Vec::new());
    assert_eq!(group.source, "Cargo.toml");
    assert_eq!(group_labels(&group), ["cargo build", "cargo test", "cargo check", "cargo clippy"]);
}

#[test]
fn finds_the_nearest_ancestor_holding_a_name() {
    let names = vec!["no-such-file-jj-menu".to_string(), "passwd".to_string()];
    assert_eq!(
        jj_menu::launchers::find_up("/etc/no-such-dir-jj-menu", &names).as_deref(),
        Some("/etc/passwd")
    );
    let absent = vec!["no-such-file-jj-menu".to_string()];
    assert_eq!(jj_menu::launchers::find_up("/etc/no-such-dir-jj-menu", &absent), None);
}

#[test]
fn discovers_nothing_with_every_launcher_off() {
    let off = jj_menu::config::model::AutoLaunchers::All(false);
    assert!(jj_menu::launchers::discover("/etc", &off).is_empty());
}

#[test]
fn keeps_the_groups_whose_scan_gave_one_in_order() {
    let group = |source: &str| LauncherGroup {
        source: source.to_string(),
        items: Vec::new(),
    };
    let scanned = vec![
        (Project::PackageJson("/p/package.json".into()), Some(group("package.json"))),
        (Project::Makefile("/p/Makefile".into()), None),
        (Project::Cargo("/p/Cargo.toml".into()), Some(group("Cargo.toml"))),
        (Project::Gradle(None, Some("/p/build.gradle".into())), Some(group("build.gradle"))),
    ];
    let sources: Vec<String> = collect_groups(scanned).into_iter().map(|g| g.source).collect();
    assert_eq!(sources, ["package.json", "Cargo.toml", "build.gradle"]);
}

#[test]
fn keeps_targets_with_equal_names_in_manifest_order_when_sorting() {
    let mut m = package();
    let mut first = bin("b", "b1.rs");
    first.required_features = vec!["one".to_string()];
    let mut second = bin("b", "b2.rs");
    second.required_features = vec!["two".to_string()];
    m.bins.push(first);
    m.bins.push(bin("a", "a.rs"));
    m.bins.push(second);
    let targets = cargo::binary_targets(&m, Some(&sources(false, &[])));
    let seen: Vec<(&str, Vec<String>)> = targets
        .iter()
        .map(|t| (t.name.as_str(), t.required_features.clone()))
        .collect();
    assert_eq!(
        seen,
        [
            ("a", Vec::new()),
            ("b", vec!["one".to_string()]),
            ("b", vec!["two".to_string()]),
        ]
    );
}

#[test]
fn builds_the_walk_from_the_filesystem_answers() {
    let dirs = vec!["/home/me/repo/pkg".to_string(), "/home/me/repo".to_string(), "/home/me".to_string()];
    let locks = vec![NO_LOCK.to_vec(), vec![false, true, false, false, false], NO_LOCK.to_vec()];
    let gits = vec![false, true, false];
    let levels = package_json::walk_levels(&dirs, Some("/home/me"), &locks, &gits);
    assert_eq!(levels.len(), 3);
    assert!(!levels[0].boundary);
    assert!(levels[1].boundary);
    assert!(levels[2].boundary, "the home directory is a boundary");
    assert_eq!(levels[1].present, locks[1]);
    assert_eq!(package_json::runner_for(&levels), "yarn");
    let no_home = package_json::walk_levels(&dirs, None, &vec![NO_LOCK.to_vec(); 3], &vec![false; 3]);
    assert!(no_home.iter().all(|l| !l.boundary));
    assert_eq!(package_json::runner_for(&no_home), "npm");
}

#[test]
fn takes_the_first_candidate_the_filesystem_reported() {
    let dirs = vec!["/a/b".to_string(), "/a".to_string()];
    let names = vec!["x".to_string(), "y".to_string()];
    let cands = candidate_paths(&dirs, &names);
    assert_eq!(cands, ["/a/b/x", "/a/b/y", "/a/x", "/a/y"]);
    assert_eq!(first_present_of(&cands, &vec![false, false, true, true]).as_deref(), Some("/a/x"));
    assert_eq!(first_present_of(&cands, &vec![false; 4]), None);
}
