use jj_menu::launchers::makefile::{parse_targets, scan};

#[test]
fn collects_plain_targets() {
    let targets = parse_targets("build:\n\tcargo build\n\ntest: build\n\tcargo test\n");
    assert_eq!(targets, vec!["build", "test"]);
}

#[test]
fn collects_every_name_of_a_multi_target_rule() {
    assert_eq!(parse_targets("a b c:\n\techo hi\n"), vec!["a", "b", "c"]);
}

#[test]
fn skips_special_targets() {
    assert_eq!(
        parse_targets(".PHONY: build\nbuild:\n\ttrue\n"),
        vec!["build"]
    );
}

#[test]
fn skips_the_body_of_a_define() {
    let targets = parse_targets("define recipe\nfake:\n\techo hi\nendef\n\nbuild:\n\ttrue\n");
    assert_eq!(targets, vec!["build"]);
}

#[test]
fn skips_the_body_of_an_assigning_or_overridden_define() {
    let targets = parse_targets("override define recipe :=\nfake:\nendef\nbuild:\n\ttrue\n");
    assert_eq!(targets, vec!["build"]);
}

#[test]
fn skips_pattern_rules_because_they_need_a_file_name() {
    assert!(parse_targets("%.o: %.c\n\t$(CC) -c $<\n").is_empty());
}

#[test]
fn skips_targets_built_from_variables() {
    assert!(parse_targets("$(BIN): main.o\n\ttrue\n").is_empty());
}

#[test]
fn skips_variable_assignments() {
    assert!(parse_targets("CC := gcc\nFLAGS ?= -O2\nX = 1\n").is_empty());
}

#[test]
fn skips_recipe_lines_that_contain_a_colon() {
    assert!(parse_targets("build:\n\techo a:b\n").contains(&"build".to_string()));
    assert_eq!(parse_targets("build:\n\techo a:b\n").len(), 1);
}

#[test]
fn skips_comments() {
    assert!(parse_targets("# note: this is a comment\n").is_empty());
}

#[test]
fn quotes_the_target_name_in_the_generated_command() {
    let group = scan("build:\n\ttrue\n", "/srv/project/Makefile", "/srv/project").unwrap();
    assert_eq!(group.items[0].script().unwrap(), "make 'build'");
    assert_eq!(group.items[0].label(), "make build");
}

#[test]
fn accepts_double_colon_rules() {
    assert_eq!(parse_targets("build::\n\ttrue\n"), vec!["build"]);
}

#[test]
fn runs_make_in_the_directory_of_a_makefile_found_in_an_ancestor() {
    let group = scan("build:\n\ttrue\n", "/srv/project/Makefile", "/srv/project/sub").unwrap();
    assert_eq!(group.source, "Makefile");
    assert_eq!(group.items[0].script().unwrap(), "cd '/srv/project' && make 'build'");
}

#[test]
fn puts_a_flag_like_target_after_a_double_dash() {
    let group = scan("-n:\n\ttrue\n", "/srv/p/Makefile", "/srv/p").unwrap();
    assert_eq!(group.items[0].script().unwrap(), "make -- '-n'");
    assert_eq!(group.items[0].label(), "make -n");
}

#[test]
fn offers_each_target_once_in_file_order() {
    let group = scan("b:\n\ttrue\na:\n\ttrue\nb:\n\ttrue\n", "/srv/p/Makefile", "/srv/p").unwrap();
    let labels: Vec<String> = group.items.iter().map(|i| i.label()).collect();
    assert_eq!(labels, ["make b", "make a"]);
}

#[test]
fn produces_nothing_for_a_makefile_without_targets() {
    assert!(scan("X = 1\n", "/srv/p/Makefile", "/srv/p").is_none());
}
