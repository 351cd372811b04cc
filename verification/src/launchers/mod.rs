//! Built-in launchers.
//!
//! When a project already describes its own tasks (npm scripts, make targets,
//! Cargo, Gradle) they are picked up automatically. An entry is only produced
//! when it can be run as-is, because a menu entry that always fails is worse
//! than a missing one.

pub mod cargo;
pub mod gradle;
pub mod makefile;
pub mod package_json;






use vstd::prelude::*;

use crate::config::model::{AutoLaunchers, ItemView, LauncherKind, MenuItem, enables, items_view};
use crate::paths::{self, ancestors, candidates, first_present};
use crate::text::{chars_of, opt_view, push_str, string_of, strings_view};

verus! {

/// A group of entries contributed by one launcher.
#[derive(Debug)]
pub struct LauncherGroup {
    /// Human readable source, e.g. `package.json`.
    pub source: String,
    pub items: Vec<MenuItem>,
}

/// The characters that stand for one character of a single-quoted word: a
/// `'` closes the quotes, adds an escaped `'`, and opens them again.
pub open spec fn escaped_char(c: char) -> Seq<char> {
    if c == '\'' {
        seq!['\'', '\\', '\'', '\'']
    } else {
        seq![c]
    }
}

/// The text of `v` with every `'` escaped for use between single quotes.
pub open spec fn escaped(v: Seq<char>) -> Seq<char>
    decreases v.len(),
{
    if v.len() == 0 {
        Seq::empty()
    } else {
        escaped(v.drop_last()) + escaped_char(v.last())
    }
}

/// `v` quoted for a POSIX shell: in single quotes, with every embedded `'`
/// written as `'\''`.
pub open spec fn quoted(v: Seq<char>) -> Seq<char> {
    seq!['\''] + escaped(v) + seq!['\'']
}

/// The word a POSIX shell reads from `s`, outside single quotes when
/// `inside` is false: a `'` opens or closes a quoted run, inside which every
/// character stands for itself; outside one, a `\` makes the next character
/// literal.
pub open spec fn shell_word(s: Seq<char>, inside: bool) -> Seq<char>
    decreases s.len(),
{
    if s.len() == 0 {
        Seq::empty()
    } else if inside {
        if s[0] == '\'' {
            shell_word(s.drop_first(), false)
        } else {
            seq![s[0]] + shell_word(s.drop_first(), true)
        }
    } else if s[0] == '\'' {
        shell_word(s.drop_first(), true)
    } else if s[0] == '\\' && s.len() > 1 {
        seq![s[1]] + shell_word(s.subrange(2, s.len() as int), false)
    } else {
        seq![s[0]] + shell_word(s.drop_first(), false)
    }
}

proof fn lemma_escaped_read(v: Seq<char>, rest: Seq<char>)
    ensures
        shell_word(escaped(v) + rest, true) == v + shell_word(rest, true),
    decreases v.len(),
{
    if v.len() == 0 {
        assert(escaped(v) + rest =~= rest);
        assert(v + shell_word(rest, true) =~= shell_word(rest, true));
    } else {
        let c = v.last();
        let x = escaped_char(c) + rest;
        assert(escaped(v) + rest =~= escaped(v.drop_last()) + x);
        lemma_escaped_read(v.drop_last(), x);
        if c == '\'' {
            let s1 = x.drop_first();
            assert(s1 =~= seq!['\\', '\'', '\''] + rest);
            assert(s1.subrange(2, s1.len() as int) =~= seq!['\''] + rest);
            assert((seq!['\''] + rest).drop_first() =~= rest);
            assert(x[0] == '\'');
            assert(s1[0] == '\\' && s1[1] == '\'');
            assert(shell_word(seq!['\''] + rest, false) == shell_word(rest, true));
            assert(shell_word(s1, false) == seq!['\''] + shell_word(seq!['\''] + rest, false));
            assert(shell_word(x, true) == shell_word(s1, false));
            assert(shell_word(x, true) == seq![c] + shell_word(rest, true));
        } else {
            assert(x.drop_first() =~= rest);
        }
        assert(v.drop_last() + (seq![c] + shell_word(rest, true)) =~= v + shell_word(rest, true));
    }
}

/// A quoted value is read back by a POSIX shell as one word that is exactly
/// the value, whatever characters it holds: nothing in it can end the word
/// or run as shell syntax.
pub proof fn quoting_is_read_back_verbatim(v: Seq<char>)
    ensures
        shell_word(quoted(v), false) == v,
{
    let q = quoted(v);
    assert(q.drop_first() =~= escaped(v) + seq!['\'']);
    assert(q[0] == '\'');
    lemma_escaped_read(v, seq!['\'']);
    assert(seq!['\''].drop_first() =~= Seq::<char>::empty());
    assert(shell_word(seq!['\''], true) == shell_word(Seq::<char>::empty(), false));
    assert(v + Seq::<char>::empty() =~= v);
}

/// Quote a string for POSIX shells.
pub fn quote(value: &str) -> (r: String)
    ensures
        r@ == quoted(value@),
{
    let v = chars_of(value);
    let mut out: Vec<char> = Vec::new();
    out.push('\'');
    let mut i: usize = 0;
    while i < v.len()
        invariant
            v@ == value@,
            i <= v@.len(),
            out@ == seq!['\''] + escaped(v@.subrange(0, i as int)),
        decreases v@.len() - i,
    {
        let c = v[i];
        if c == '\'' {
            out.push('\'');
            out.push('\\');
            out.push('\'');
            out.push('\'');
        } else {
            out.push(c);
        }
        proof {
            let pre = v@.subrange(0, i + 1);
            assert(pre.drop_last() =~= v@.subrange(0, i as int));
            assert(pre.last() == c);
            assert(out@ =~= seq!['\''] + escaped(pre));
        }
        i = i + 1;
    }
    out.push('\'');
    assert(v@.subrange(0, v@.len() as int) =~= v@);
    assert(out@ =~= quoted(value@));
    string_of(&out)
}

/// Whether two paths name the same location, as `Path`'s `==` decides.
pub uninterp spec fn same_path(a: Seq<char>, b: Seq<char>) -> bool;

/// `Path::eq`: component-wise comparison of two paths. `Path` is `Eq`, so
/// a path equals itself; beyond that the comparison is named, not restated.
#[verifier::external_body]
pub(crate) fn paths_equal(a: &str, b: &str) -> (r: bool)
    ensures
        r == same_path(a@, b@),
        a@ == b@ ==> r,
{
    std::path::Path::new(a) == std::path::Path::new(b)
}

/// `cd '<dir>' && ` in front of a command.
pub open spec fn cd_prefix(dir: Seq<char>) -> Seq<char> {
    seq!['c', 'd', ' '] + quoted(dir) + seq![' ', '&', '&', ' ']
}

/// A command run in `dir` when the menu was opened in `start_dir`: as it is
/// when they are the same place, otherwise with a `cd` in front.
pub open spec fn in_dir_spec(dir: Seq<char>, command: Seq<char>, start_dir: Seq<char>) -> Seq<char> {
    if same_path(dir, start_dir) {
        command
    } else {
        cd_prefix(dir) + command
    }
}

/// Prefix a command with `cd` when the project lives outside the working
/// directory, so entries found in an ancestor still run in the right place.
pub fn in_dir(dir: &str, command: &str, start_dir: &str) -> (r: String)
    ensures
        r@ == in_dir_spec(dir@, command@, start_dir@),
        dir@ == start_dir@ ==> r@ == command@,
{
    if paths_equal(dir, start_dir) {
        return command.to_owned();
    }
    let mut out: Vec<char> = Vec::new();
    out.push('c');
    out.push('d');
    out.push(' ');
    let q = quote(dir);
    push_str(&mut out, q.as_str());
    out.push(' ');
    out.push('&');
    out.push('&');
    out.push(' ');
    push_str(&mut out, command);
    assert(out@ =~= cd_prefix(dir@) + command@);
    string_of(&out)
}

/// The nearest ancestor of `start_dir` (inclusive) holding one of `names`.
///
/// `names` is ordered, so a directory holding several of them resolves to the
/// first one listed. Whether a file is there is the filesystem's answer; the
/// result is the first of the candidates `dir/name` (nearest directory first,
/// then name order) that the filesystem reported as a file.
pub fn find_up(start_dir: &str, names: &Vec<String>) -> (r: Option<String>)
    ensures
        exists|present: Seq<bool>|
            present.len() == candidates(ancestors(start_dir@), strings_view(names@)).len() && opt_view(r)
                == #[trigger] first_present(candidates(ancestors(start_dir@), strings_view(names@)), present),
{
    let dirs = paths::ancestor_chain(start_dir);
    let cands = paths::candidate_paths(&dirs, names);
    let present = paths::probe_files(&cands);
    let r = paths::first_present_of(&cands, &present);
    proof {
        assert(strings_view(dirs@) == ancestors(start_dir@));
        assert(opt_view(r) == first_present(candidates(ancestors(start_dir@), strings_view(names@)), present@));
    }
    r
}

/// Which project file a launcher is about, found by [`discover`].
#[derive(Debug)]
pub enum Project {
    /// A `package.json`.
    PackageJson(String),
    /// A `Makefile`, `makefile` or `GNUmakefile`.
    Makefile(String),
    /// A `Cargo.toml`.
    Cargo(String),
    /// A Gradle wrapper and build script, each looked up on its own; at least
    /// one of them was found.
    Gradle(Option<String>, Option<String>),
}

/// What a [`Project`] holds: a launcher's file, or Gradle's wrapper and
/// build script.
pub enum ProjectView {
    File(LauncherKind, Seq<char>),
    Gradle(Option<Seq<char>>, Option<Seq<char>>),
}

impl View for Project {
    type V = ProjectView;

    open spec fn view(&self) -> ProjectView {
        match self {
            Project::PackageJson(p) => ProjectView::File(LauncherKind::PackageJson, p@),
            Project::Makefile(p) => ProjectView::File(LauncherKind::Makefile, p@),
            Project::Cargo(p) => ProjectView::File(LauncherKind::Cargo, p@),
            Project::Gradle(w, s) => ProjectView::Gradle(opt_view(*w), opt_view(*s)),
        }
    }
}

/// The file names each launcher looks for, in order of preference; for
/// Gradle, the build scripts.
pub open spec fn project_names(k: LauncherKind) -> Seq<Seq<char>> {
    match k {
        LauncherKind::PackageJson => seq!["package.json"@],
        LauncherKind::Makefile => seq!["Makefile"@, "makefile"@, "GNUmakefile"@],
        LauncherKind::Cargo => seq!["Cargo.toml"@],
        LauncherKind::Gradle => seq!["build.gradle"@, "build.gradle.kts"@],
    }
}

/// The name of the Gradle wrapper, looked for apart from the build script.
pub open spec fn wrapper_names() -> Seq<Seq<char>> {
    seq!["gradlew"@]
}

/// The nearest of `names` for `start`, when the search is `on`: the first
/// of the candidates that the filesystem reported (`present`).
pub open spec fn nearest(start: Seq<char>, names: Seq<Seq<char>>, on: bool, present: Seq<bool>) -> Option<Seq<char>> {
    if on {
        first_present(candidates(ancestors(start), names), present)
    } else {
        None
    }
}

/// A launcher's project, when its file was found.
pub open spec fn file_found(k: LauncherKind, found: Option<Seq<char>>) -> Seq<ProjectView> {
    match found {
        Some(p) => seq![ProjectView::File(k, p)],
        None => Seq::empty(),
    }
}

/// The Gradle project, when its wrapper or its build script was found.
pub open spec fn gradle_found(wrapper: Option<Seq<char>>, script: Option<Seq<char>>) -> Seq<ProjectView> {
    if wrapper is Some || script is Some {
        seq![ProjectView::Gradle(wrapper, script)]
    } else {
        Seq::empty()
    }
}

fn names_for(Ghost(v): Ghost<Seq<Seq<char>>>, a: &str, b: Option<&str>, c: Option<&str>) -> (r: Vec<String>)
    requires
        v =~= seq![a@] + match b {
            Some(b) => seq![b@],
            None => Seq::empty(),
        } + match c {
            Some(c) => seq![c@],
            None => Seq::empty(),
        },
    ensures
        strings_view(r@) == v,
{
    let mut out: Vec<String> = Vec::new();
    out.push(a.to_owned());
    if let Some(b) = b {
        out.push(b.to_owned());
    }
    if let Some(c) = c {
        out.push(c.to_owned());
    }
    assert(strings_view(out@) =~= v);
    out
}

fn look(start_dir: &str, on: bool, names: &Vec<String>) -> (r: (Option<String>, Ghost<Seq<bool>>))
    ensures
        opt_view(r.0) == nearest(start_dir@, strings_view(names@), on, r.1@),
{
    if !on {
        return (None, Ghost(Seq::empty()));
    }
    let found = find_up(start_dir, names);
    let ghost present = choose|present: Seq<bool>|
        present.len() == candidates(ancestors(start_dir@), strings_view(names@)).len() && opt_view(found)
            == #[trigger] first_present(candidates(ancestors(start_dir@), strings_view(names@)), present);
    (found, Ghost(present))
}

/// The project files to scan for `start_dir` and its ancestors: for each
/// launcher in turn (`package.json`, Makefile, Cargo, Gradle) that `enabled`
/// turns on, the nearest of its files (see [`nearest`]). Gradle's wrapper is
/// looked up apart from its build script, so that a subproject's build is
/// run with the root's wrapper.
pub fn discover(start_dir: &str, enabled: &AutoLaunchers) -> (r: Vec<Project>)
    ensures
        exists|a: Seq<bool>, b: Seq<bool>, c: Seq<bool>, d: Seq<bool>, e: Seq<bool>|
            #![trigger nearest(start_dir@, project_names(LauncherKind::PackageJson), enables(*enabled, LauncherKind::PackageJson), a), nearest(start_dir@, project_names(LauncherKind::Makefile), enables(*enabled, LauncherKind::Makefile), b), nearest(start_dir@, project_names(LauncherKind::Cargo), enables(*enabled, LauncherKind::Cargo), c), nearest(start_dir@, wrapper_names(), enables(*enabled, LauncherKind::Gradle), d), nearest(start_dir@, project_names(LauncherKind::Gradle), enables(*enabled, LauncherKind::Gradle), e)]
            r@.map_values(|p: Project| p@) == file_found(
                LauncherKind::PackageJson,
                nearest(
                    start_dir@,
                    project_names(LauncherKind::PackageJson),
                    enables(*enabled, LauncherKind::PackageJson),
                    a,
                ),
            ) + file_found(
                LauncherKind::Makefile,
                nearest(start_dir@, project_names(LauncherKind::Makefile), enables(*enabled, LauncherKind::Makefile), b),
            ) + file_found(
                LauncherKind::Cargo,
                nearest(start_dir@, project_names(LauncherKind::Cargo), enables(*enabled, LauncherKind::Cargo), c),
            ) + gradle_found(
                nearest(start_dir@, wrapper_names(), enables(*enabled, LauncherKind::Gradle), d),
                nearest(start_dir@, project_names(LauncherKind::Gradle), enables(*enabled, LauncherKind::Gradle), e),
            ),
{
    proof {
        reveal_strlit("package.json");
        reveal_strlit("Makefile");
        reveal_strlit("makefile");
        reveal_strlit("GNUmakefile");
        reveal_strlit("Cargo.toml");
        reveal_strlit("gradlew");
        reveal_strlit("build.gradle");
        reveal_strlit("build.gradle.kts");
    }
    let pj = names_for(Ghost(project_names(LauncherKind::PackageJson)), "package.json", None, None);
    let mk = names_for(Ghost(project_names(LauncherKind::Makefile)), "Makefile", Some("makefile"), Some("GNUmakefile"));
    let cg = names_for(Ghost(project_names(LauncherKind::Cargo)), "Cargo.toml", None, None);
    let gw = names_for(Ghost(wrapper_names()), "gradlew", None, None);
    let gs = names_for(Ghost(project_names(LauncherKind::Gradle)), "build.gradle", Some("build.gradle.kts"), None);
    let (a, pa) = look(start_dir, enabled.package_json(), &pj);
    let (b, pb) = look(start_dir, enabled.makefile(), &mk);
    let (c, pc) = look(start_dir, enabled.cargo(), &cg);
    let (w, pd) = look(start_dir, enabled.gradle(), &gw);
    let (g, pe) = look(start_dir, enabled.gradle(), &gs);
    let ghost fa = opt_view(a);
    let ghost fb = opt_view(b);
    let ghost fc = opt_view(c);
    let ghost fw = opt_view(w);
    let ghost fg = opt_view(g);
    let mut found: Vec<Project> = Vec::new();
    if let Some(p) = a {
        found.push(Project::PackageJson(p));
    }
    if let Some(p) = b {
        found.push(Project::Makefile(p));
    }
    if let Some(p) = c {
        found.push(Project::Cargo(p));
    }
    if w.is_some() || g.is_some() {
        found.push(Project::Gradle(w, g));
    }
    proof {
        assert(found@.map_values(|p: Project| p@) =~= file_found(LauncherKind::PackageJson, fa) + file_found(
            LauncherKind::Makefile,
            fb,
        ) + file_found(LauncherKind::Cargo, fc) + gradle_found(fw, fg));
    }
    found
}

/// A launcher group as where its entries come from and the entries.
pub open spec fn group_view(g: LauncherGroup) -> (Seq<char>, Seq<ItemView>) {
    (g.source@, items_view(g.items@))
}

/// The groups of the projects found, in the order the projects were found:
/// a project whose scan gave nothing contributes nothing.
pub open spec fn scanned_groups(scanned: Seq<(Project, Option<LauncherGroup>)>) -> Seq<(Seq<char>, Seq<ItemView>)>
    decreases scanned.len(),
{
    if scanned.len() == 0 {
        Seq::empty()
    } else {
        let rest = scanned_groups(scanned.drop_last());
        match scanned.last().1 {
            Some(g) => rest.push(group_view(g)),
            None => rest,
        }
    }
}

/// The groups to show, from each project [`discover`] found paired with
/// what its launcher's scan made of it: a group appears, in the order of
/// the projects, exactly when its scan returned one (see
/// [`scanned_groups`]).
pub fn collect_groups(scanned: Vec<(Project, Option<LauncherGroup>)>) -> (r: Vec<LauncherGroup>)
    ensures
        r@.map_values(|g: LauncherGroup| group_view(g)) == scanned_groups(scanned@),
{
    let ghost all = scanned@;
    let n = scanned.len();
    let mut rest = scanned;
    let mut out: Vec<LauncherGroup> = Vec::new();
    let mut k: usize = 0;
    assert(rest@ =~= all.subrange(0, all.len() as int));
    assert(all.subrange(0, 0) =~= Seq::<(Project, Option<LauncherGroup>)>::empty());
    while rest.len() > 0
        invariant
            all.len() == n,
            k + rest@.len() == n,
            rest@ == all.subrange(k as int, all.len() as int),
            out@.map_values(|g: LauncherGroup| group_view(g)) == scanned_groups(all.subrange(0, k as int)),
        decreases rest@.len(),
    {
        let (_, found) = rest.remove(0);
        let ghost before = out@;
        proof {
            assert(all.subrange(0, k + 1).drop_last() =~= all.subrange(0, k as int));
            assert(all.subrange(0, k + 1).last() == all[k as int]);
        }
        if let Some(g) = found {
            out.push(g);
            assert(out@.map_values(|g: LauncherGroup| group_view(g)) =~= before.map_values(
                |g: LauncherGroup| group_view(g),
            ).push(group_view(out@.last())));
        }
        proof {
            assert(rest@ =~= all.subrange(k + 1, all.len() as int));
        }
        k = k + 1;
    }
    assert(all.subrange(0, n as int) =~= all);
    out
}

} // verus!
