//! What the program does around the menu: the text it prints when there is
//! nothing to show, the report of the configuration it loaded, and what it
//! does with the entry that was picked.

use vstd::prelude::*;

use crate::config::loader::{Config, Source};
use crate::config::model::{Job, Launch, enables_any, job_view};
use crate::launchers::{in_dir, in_dir_spec};
use crate::menu::{decimal, write_decimal};
use crate::parallel::Output;
use crate::text::{opt_view, push_chars, push_str, string_of, strings_view};
use crate::ui::Outcome;

verus! {

/// The exit code when the menu is dismissed without choosing anything: the
/// conventional "terminated by Ctrl-C" code, which also keeps the shell
/// wrapper from evaluating an empty command.
pub const EXIT_CANCELLED: u8 = 130;

/// The text printed when there is nothing to show: an example configuration
/// and how to set up the shell wrapper.
pub open spec fn help_text() -> Seq<char> {
    "jj-menu: nothing to show.\n\nCreate a configuration file in this directory or an ancestor, for example\n.jj-menu.yaml:\n\n  menu:\n    - title: List files\n      shell: ls -la\n    - title: Git log\n      shell: git log --oneline --graph --decorate --all\n    - title: Dev servers\n      # Each entry gets its own shell and they all run at once; Ctrl-C\n      # stops the lot.\n      parallel:\n        - shell: npm run dev\n        - shell: npm run api\n\n    - title: Deploy\n      help: Pick the environment to deploy to.\n      submenu:\n        - title: staging\n          shell: ./deploy.sh staging\n        - title: production\n          shell: ./deploy.sh production\n    - title: Search\n      shell: rg {pattern}\n      args:\n        - name: pattern\n          prompt: Pattern\n          default: TODO\n\nEntries are also picked up automatically from package.json, Makefile,\nCargo.toml and Gradle builds.\n\nTo make `cd` inside a menu entry affect your shell, add the wrapper function:\n\n  # ~/.zshrc\n  eval \"$(jj-menu --shell-init zsh)\"\n"@
}

/// The text printed when there is nothing to show (see [`help_text`]).
pub fn no_entries_help() -> (r: String)
    ensures
        r@ == help_text(),
{
    "jj-menu: nothing to show.\n\nCreate a configuration file in this directory or an ancestor, for example\n.jj-menu.yaml:\n\n  menu:\n    - title: List files\n      shell: ls -la\n    - title: Git log\n      shell: git log --oneline --graph --decorate --all\n    - title: Dev servers\n      # Each entry gets its own shell and they all run at once; Ctrl-C\n      # stops the lot.\n      parallel:\n        - shell: npm run dev\n        - shell: npm run api\n\n    - title: Deploy\n      help: Pick the environment to deploy to.\n      submenu:\n        - title: staging\n          shell: ./deploy.sh staging\n        - title: production\n          shell: ./deploy.sh production\n    - title: Search\n      shell: rg {pattern}\n      args:\n        - name: pattern\n          prompt: Pattern\n          default: TODO\n\nEntries are also picked up automatically from package.json, Makefile,\nCargo.toml and Gradle builds.\n\nTo make `cd` inside a menu entry affect your shell, add the wrapper function:\n\n  # ~/.zshrc\n  eval \"$(jj-menu --shell-init zsh)\"\n".to_owned()
}

/// The report line of one merged file: where its entries run by default. An
/// entry with a setting of its own overrides it, hence "by default".
pub open spec fn source_line(path: Seq<char>, cwd: Option<Seq<char>>) -> Seq<char> {
    match cwd {
        Some(dir) => "  "@ + path + " (entries run in "@ + dir + " by default)"@,
        None => "  "@ + path + " (entries run in the working directory by default)"@,
    }
}

/// `true` or `false`.
pub open spec fn shown_bool(b: bool) -> Seq<char> {
    if b {
        "true"@
    } else {
        "false"@
    }
}

/// The lines of `--show-config` for what was loaded from `start_dir`: the
/// files in load order with the directory each one's entries run in (or that
/// none was found), how many entries the configuration holds, and whether
/// any built-in launcher is on.
pub open spec fn report(sources: Seq<(Seq<char>, Option<Seq<char>>)>, entries: nat, launchers: bool, start_dir: Seq<char>) -> Seq<Seq<char>> {
    let head = if sources.len() == 0 {
        seq!["no configuration file found (searched from "@ + start_dir + ")"@]
    } else {
        seq!["configuration files, in load order:"@] + sources.map_values(
            |s: (Seq<char>, Option<Seq<char>>)| source_line(s.0, s.1),
        )
    };
    head + seq![
        "menu entries from configuration: "@ + decimal(entries),
        "built-in launchers enabled: "@ + shown_bool(launchers),
    ]
}

fn source_line_exec(s: &Source) -> (r: String)
    ensures
        r@ == source_line(s.path@, opt_view(s.cwd)),
{
    let mut out: Vec<char> = Vec::new();
    push_str(&mut out, "  ");
    push_str(&mut out, s.path.as_str());
    proof {
        reveal_strlit("  ");
        reveal_strlit(" (entries run in ");
        reveal_strlit(" by default)");
        reveal_strlit(" (entries run in the working directory by default)");
    }
    match &s.cwd {
        Some(dir) => {
            push_str(&mut out, " (entries run in ");
            push_str(&mut out, dir.as_str());
            push_str(&mut out, " by default)");
        },
        None => {
            push_str(&mut out, " (entries run in the working directory by default)");
        },
    }
    assert(out@ =~= source_line(s.path@, opt_view(s.cwd)));
    string_of(&out)
}

/// The lines `--show-config` prints (see [`report`]).
pub fn report_lines(config: &Config, start_dir: &str) -> (r: Vec<String>)
    ensures
        strings_view(r@) == report(
            config.sources@.map_values(|s: Source| (s.path@, opt_view(s.cwd))),
            config.menu@.len(),
            enables_any(config.auto_launchers),
            start_dir@,
        ),
{
    let ghost sv = config.sources@.map_values(|s: Source| (s.path@, opt_view(s.cwd)));
    let mut lines: Vec<String> = Vec::new();
    proof {
        reveal_strlit("no configuration file found (searched from ");
        reveal_strlit(")");
        reveal_strlit("menu entries from configuration: ");
        reveal_strlit("built-in launchers enabled: ");
        reveal_strlit("true");
        reveal_strlit("false");
    }
    if config.sources.len() == 0 {
        let mut l: Vec<char> = Vec::new();
        push_str(&mut l, "no configuration file found (searched from ");
        push_str(&mut l, start_dir);
        push_str(&mut l, ")");
        lines.push(string_of(&l));
        assert(strings_view(lines@) =~= seq!["no configuration file found (searched from "@ + start_dir@ + ")"@]);
    } else {
        lines.push("configuration files, in load order:".to_owned());
        let mut i: usize = 0;
        while i < config.sources.len()
            invariant
                sv == config.sources@.map_values(|s: Source| (s.path@, opt_view(s.cwd))),
                i <= sv.len(),
                strings_view(lines@) == seq!["configuration files, in load order:"@] + sv.subrange(0, i as int).map_values(
                    |s: (Seq<char>, Option<Seq<char>>)| source_line(s.0, s.1),
                ),
            decreases sv.len() - i,
        {
            let ghost before = strings_view(lines@);
            lines.push(source_line_exec(&config.sources[i]));
            proof {
                assert(sv.subrange(0, i + 1) =~= sv.subrange(0, i as int).push(sv[i as int]));
                assert(strings_view(lines@) =~= before.push(lines@.last()@));
                assert(strings_view(lines@) =~= seq!["configuration files, in load order:"@] + sv.subrange(0, i + 1).map_values(
                    |s: (Seq<char>, Option<Seq<char>>)| source_line(s.0, s.1),
                ));
            }
            i = i + 1;
        }
        assert(sv.subrange(0, sv.len() as int) =~= sv);
    }
    let ghost head = strings_view(lines@);
    let mut count: Vec<char> = Vec::new();
    push_str(&mut count, "menu entries from configuration: ");
    push_chars(&mut count, &write_decimal(config.menu.len()));
    lines.push(string_of(&count));
    let mut on: Vec<char> = Vec::new();
    push_str(&mut on, "built-in launchers enabled: ");
    if config.auto_launchers.any() {
        push_str(&mut on, "true");
    } else {
        push_str(&mut on, "false");
    }
    lines.push(string_of(&on));
    assert(strings_view(lines@) =~= head + seq![
        "menu entries from configuration: "@ + decimal(config.menu@.len()),
        "built-in launchers enabled: "@ + shown_bool(enables_any(config.auto_launchers)),
    ]);
    lines
}

/// What the program does once the menu is closed.
#[derive(Debug)]
pub enum Plan {
    /// Nothing was picked: exit with this code.
    Exit(u8),
    /// `--print`: write this line to stdout for the shell wrapper to
    /// evaluate in the calling shell.
    Print(String),
    /// Echo `shown` on the terminal, then run `script` in `cwd`.
    Script { shown: String, script: String, cwd: String },
    /// Echo each of `lines`, then run the group in `cwd`, its output going to
    /// `output`.
    Group { lines: Vec<String>, jobs: Vec<Job>, cwd: String, output: Output },
}

/// Decide what to do with `outcome` when the menu was opened in `start_dir`,
/// and `print` says whether `--print` was given.
///
/// An entry runs in its own directory when it has one, else in `start_dir`.
/// A script is shown, and under `--print` written out, with the `cd` that
/// puts it there, since the calling shell sits in `start_dir`. A group is
/// run here even under `--print`: it is several processes, none of which
/// could change the calling shell, and its output then goes to stderr,
/// because stdout is what the wrapper evaluates.
pub fn plan(outcome: Outcome, print: bool, start_dir: &str) -> (r: Plan)
    ensures
        match outcome {
            Outcome::Cancelled => r == Plan::Exit(EXIT_CANCELLED),
            Outcome::Run(Launch::Script(script), cwd) => {
                let dir = match cwd {
                    Some(d) => d@,
                    None => start_dir@,
                };
                if print {
                    r matches Plan::Print(line) && line@ == in_dir_spec(dir, script@, start_dir@)
                } else {
                    r matches Plan::Script { shown, script: s, cwd: c } && shown@ == in_dir_spec(
                        dir,
                        script@,
                        start_dir@,
                    ) && s@ == script@ && c@ == dir
                }
            },
            Outcome::Run(Launch::Parallel(jobs), cwd) => {
                let dir = match cwd {
                    Some(d) => d@,
                    None => start_dir@,
                };
                r matches Plan::Group { lines, jobs: js, cwd: c, output } && c@ == dir && js@.map_values(
                    |j: Job| job_view(j),
                ) == jobs@.map_values(|j: Job| job_view(j)) && strings_view(lines@) == jobs@.map_values(
                    |j: Job| in_dir_spec(dir, j.script@, start_dir@),
                ) && output == if print {
                    Output::Stderr
                } else {
                    Output::Inherit
                }
            },
        },
{
    match outcome {
        Outcome::Cancelled => Plan::Exit(EXIT_CANCELLED),
        Outcome::Run(Launch::Script(script), cwd) => {
            let dir = match cwd {
                Some(d) => d,
                None => start_dir.to_owned(),
            };
            let shown = in_dir(dir.as_str(), script.as_str(), start_dir);
            if print {
                Plan::Print(shown)
            } else {
                Plan::Script { shown, script, cwd: dir }
            }
        },
        Outcome::Run(Launch::Parallel(jobs), cwd) => {
            let dir = match cwd {
                Some(d) => d,
                None => start_dir.to_owned(),
            };
            let mut shown: Vec<String> = Vec::new();
            let mut i: usize = 0;
            while i < jobs.len()
                invariant
                    i <= jobs@.len(),
                    strings_view(shown@) == jobs@.subrange(0, i as int).map_values(
                        |j: Job| in_dir_spec(dir@, j.script@, start_dir@),
                    ),
                decreases jobs@.len() - i,
            {
                let ghost before = strings_view(shown@);
                shown.push(in_dir(dir.as_str(), jobs[i].script.as_str(), start_dir));
                proof {
                    assert(strings_view(shown@) =~= before.push(shown@.last()@));
                    assert(jobs@.subrange(0, i + 1) =~= jobs@.subrange(0, i as int).push(jobs@[i as int]));
                    assert(strings_view(shown@) =~= jobs@.subrange(0, i + 1).map_values(
                        |j: Job| in_dir_spec(dir@, j.script@, start_dir@),
                    ));
                }
                i = i + 1;
            }
            assert(jobs@.subrange(0, jobs@.len() as int) =~= jobs@);
            let output = if print {
                Output::Stderr
            } else {
                Output::Inherit
            };
            Plan::Group { lines: shown, jobs, cwd: dir, output }
        },
    }
}

} // verus!
