//! Shell integration snippets.
//!
//! Running a command as a child process cannot change the calling shell, so
//! entries like `cd /tmp` or `export FOO=1` would have no lasting effect. The
//! wrapper function works around that: `--print` writes the chosen command to
//! stdout instead of running it, and the function evaluates it in the current
//! shell, putting it into the shell history too.

use vstd::prelude::*;

use crate::config::loader::{ascii_lowercase, to_ascii_lowercase};
use crate::text::{push_str, string_of};

verus! {

/// Shells with a ready-made snippet.
#[derive(Debug, Clone, Copy, PartialEq, Eq, Structural)]
pub enum ShellKind {
    Bash,
    Zsh,
    Fish,
}

/// The message for a shell name that is none of the supported ones, given
/// in lower case.
pub open spec fn unknown_shell(lower: Seq<char>) -> Seq<char> {
    "unknown shell: "@ + lower + " (expected bash, zsh or fish)"@
}

/// The shell a name stands for, compared without regard to ASCII case.
pub open spec fn shell_named(name: Seq<char>) -> Result<ShellKind, Seq<char>> {
    let lower = ascii_lowercase(name);
    if lower == "bash"@ {
        Ok(ShellKind::Bash)
    } else if lower == "zsh"@ {
        Ok(ShellKind::Zsh)
    } else if lower == "fish"@ {
        Ok(ShellKind::Fish)
    } else {
        Err(unknown_shell(lower))
    }
}

impl ShellKind {
    /// The shell named `value`, in any ASCII case (see [`shell_named`]).
    pub fn from_name(value: &str) -> (r: Result<ShellKind, String>)
        ensures
            match (r, shell_named(value@)) {
                (Ok(k), Ok(s)) => k == s,
                (Err(e), Err(m)) => e@ == m,
                _ => false,
            },
    {
        let lower = string_of(&to_ascii_lowercase(value));
        if lower == "bash".to_owned() {
            return Ok(ShellKind::Bash);
        }
        if lower == "zsh".to_owned() {
            return Ok(ShellKind::Zsh);
        }
        if lower == "fish".to_owned() {
            return Ok(ShellKind::Fish);
        }
        let mut msg: Vec<char> = Vec::new();
        push_str(&mut msg, "unknown shell: ");
        push_str(&mut msg, lower.as_str());
        push_str(&mut msg, " (expected bash, zsh or fish)");
        Err(string_of(&msg))
    }
}

impl std::str::FromStr for ShellKind {
    type Err = String;

    fn from_str(value: &str) -> (r: Result<ShellKind, String>)
        ensures
            match (r, shell_named(value@)) {
                (Ok(k), Ok(s)) => k == s,
                (Err(e), Err(m)) => e@ == m,
                _ => false,
            },
    {
        ShellKind::from_name(value)
    }
}

/// The bash snippet. `local` keeps the variable out of the interactive
/// shell, and the status check makes a cancelled menu (exit 130) a no-op.
pub open spec fn bash_snippet() -> Seq<char> {
    "jj() {\n  local __jj_command\n  __jj_command=\"$(command jj-menu --print \"$@\")\" || return $?\n  [ -n \"$__jj_command\" ] || return 0\n  history -s \"$__jj_command\"\n  eval \"$__jj_command\"\n}\n"@
}

/// The zsh snippet.
pub open spec fn zsh_snippet() -> Seq<char> {
    "jj() {\n  local __jj_command\n  __jj_command=\"$(command jj-menu --print \"$@\")\" || return $?\n  [ -n \"$__jj_command\" ] || return 0\n  print -s -- \"$__jj_command\"\n  eval \"$__jj_command\"\n}\n"@
}

/// The fish snippet. fish splits an unquoted command substitution on
/// newlines, which would turn a multi-line entry into several arguments; the
/// quoted form `"$(...)"` keeps it as one string (fish 3.4+).
pub open spec fn fish_snippet() -> Seq<char> {
    "function jj\n    set -l __jj_command \"$(command jj-menu --print $argv)\"\n    set -l __jj_status $status\n    test $__jj_status -eq 0; or return $__jj_status\n    test -n \"$__jj_command\"; or return 0\n    commandline -r -- \"$__jj_command\"\n    commandline -f execute\nend\n"@
}

/// The snippet to add to the startup file of a `kind` shell.
pub fn snippet(kind: ShellKind) -> (r: &'static str)
    ensures
        r@ == match kind {
            ShellKind::Bash => bash_snippet(),
            ShellKind::Zsh => zsh_snippet(),
            ShellKind::Fish => fish_snippet(),
        },
{
    match kind {
        ShellKind::Bash => "jj() {\n  local __jj_command\n  __jj_command=\"$(command jj-menu --print \"$@\")\" || return $?\n  [ -n \"$__jj_command\" ] || return 0\n  history -s \"$__jj_command\"\n  eval \"$__jj_command\"\n}\n",
        ShellKind::Zsh => "jj() {\n  local __jj_command\n  __jj_command=\"$(command jj-menu --print \"$@\")\" || return $?\n  [ -n \"$__jj_command\" ] || return 0\n  print -s -- \"$__jj_command\"\n  eval \"$__jj_command\"\n}\n",
        ShellKind::Fish => "function jj\n    set -l __jj_command \"$(command jj-menu --print $argv)\"\n    set -l __jj_status $status\n    test $__jj_status -eq 0; or return $__jj_status\n    test -n \"$__jj_command\"; or return 0\n    commandline -r -- \"$__jj_command\"\n    commandline -f execute\nend\n",
    }
}

} // verus!
