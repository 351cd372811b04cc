//! Locating configuration files.
//!
//! Files are searched in the starting directory and every ancestor, nearest
//! first, followed by the per-user configuration directory. Nearest first
//! matters: entries defined closest to the working directory end up at the
//! top of the menu, and `merge: false` is evaluated against what was already
//! loaded.

use vstd::prelude::*;

use crate::paths::{
    self, ancestors, candidates, first_present, kept, lemma_candidates_push, path_join,
};
use crate::text::{opt_view, push_str, string_of, strings_view};

verus! {

/// Base names accepted for a project configuration file, in priority order.
///
/// `.local` variants come last so that, within a single directory, the shared
/// file is loaded before the personal override.
pub open spec fn project_stems_spec() -> Seq<Seq<char>> {
    seq![
        ".jj-menu"@,
        "_jj-menu"@,
        "jj-menu"@,
        ".jj-menu.local"@,
        "_jj-menu.local"@,
        "jj-menu.local"@,
    ]
}

/// Extensions accepted for a configuration file, in priority order. `.cson`
/// is intentionally absent.
pub open spec fn extensions_spec() -> Seq<Seq<char>> {
    seq!["yaml"@, "yml"@, "toml"@, "json"@]
}

/// The base name of the per-user configuration file.
pub open spec fn user_stem_spec() -> Seq<char> {
    "config"@
}

/// The directory under the per-user configuration directory.
pub open spec fn user_dir_name() -> Seq<char> {
    "jj-menu"@
}

fn strings(a: &[&str]) -> (r: Vec<String>)
    ensures
        r@.map_values(|s: String| s@) == a@.map_values(|s: &str| s@),
{
    let mut out: Vec<String> = Vec::new();
    let mut i: usize = 0;
    while i < a.len()
        invariant
            i <= a@.len(),
            out@.map_values(|s: String| s@) == a@.subrange(0, i as int).map_values(|s: &str| s@),
        decreases a@.len() - i,
    {
        let ghost before = out@;
        out.push(a[i].to_owned());
        proof {
            assert(out@.map_values(|s: String| s@) =~= before.map_values(|s: String| s@).push(a@[i as int]@));
            assert(a@.subrange(0, i + 1).map_values(|s: &str| s@) =~= a@.subrange(0, i as int).map_values(
                |s: &str| s@,
            ).push(a@[i as int]@));
        }
        i = i + 1;
    }
    assert(a@.subrange(0, a@.len() as int) =~= a@);
    out
}

/// Base names accepted for a project configuration file, in priority order.
pub fn project_stems() -> (r: Vec<String>)
    ensures
        r@.map_values(|s: String| s@) == project_stems_spec(),
{
    let a = [".jj-menu", "_jj-menu", "jj-menu", ".jj-menu.local", "_jj-menu.local", "jj-menu.local"];
    let r = strings(&a);
    assert(a@.map_values(|s: &str| s@) =~= project_stems_spec());
    r
}

/// Extensions accepted for a configuration file, in priority order.
pub fn extensions() -> (r: Vec<String>)
    ensures
        r@.map_values(|s: String| s@) == extensions_spec(),
{
    let a = ["yaml", "yml", "toml", "json"];
    let r = strings(&a);
    assert(a@.map_values(|s: &str| s@) =~= extensions_spec());
    r
}

/// `stem.ext` for every stem in turn and every extension in turn.
pub open spec fn names_for(stems: Seq<Seq<char>>, exts: Seq<Seq<char>>) -> Seq<Seq<char>>
    decreases stems.len(),
{
    if stems.len() == 0 {
        Seq::empty()
    } else {
        exts.map_values(|e: Seq<char>| stems[0] + seq!['.'] + e) + names_for(stems.drop_first(), exts)
    }
}

pub proof fn lemma_names_for_push(stems: Seq<Seq<char>>, exts: Seq<Seq<char>>)
    requires
        stems.len() > 0,
    ensures
        names_for(stems, exts) == names_for(stems.drop_last(), exts) + exts.map_values(
            |e: Seq<char>| stems.last() + seq!['.'] + e,
        ),
    decreases stems.len(),
{
    if stems.len() == 1 {
        assert(stems.drop_last() =~= Seq::<Seq<char>>::empty());
        assert(names_for(stems.drop_first(), exts) =~= Seq::<Seq<char>>::empty());
    } else {
        lemma_names_for_push(stems.drop_first(), exts);
        assert(stems.drop_first().drop_last() =~= stems.drop_last().drop_first());
        assert(stems.drop_last()[0] == stems[0]);
    }
}

/// Every candidate file name, in the order they should be loaded.
pub fn candidate_names(stems: &Vec<String>) -> (r: Vec<String>)
    ensures
        r@.map_values(|s: String| s@) == names_for(
            stems@.map_values(|s: String| s@),
            extensions_spec(),
        ),
{
    let exts = extensions();
    let ghost sv = stems@.map_values(|s: String| s@);
    let ghost ev = exts@.map_values(|s: String| s@);
    let mut names: Vec<String> = Vec::new();
    let mut i: usize = 0;
    while i < stems.len()
        invariant
            sv == stems@.map_values(|s: String| s@),
            ev == exts@.map_values(|s: String| s@),
            ev == extensions_spec(),
            i <= stems@.len(),
            names@.map_values(|s: String| s@) == names_for(sv.subrange(0, i as int), ev),
        decreases stems@.len() - i,
    {
        let ghost start = names@.map_values(|s: String| s@);
        let mut k: usize = 0;
        while k < exts.len()
            invariant
                sv == stems@.map_values(|s: String| s@),
                ev == exts@.map_values(|s: String| s@),
                i < stems@.len(),
                k <= exts@.len(),
                names@.map_values(|s: String| s@) == start + ev.subrange(0, k as int).map_values(
                    |e: Seq<char>| sv[i as int] + seq!['.'] + e,
                ),
            decreases exts@.len() - k,
        {
            let mut name: Vec<char> = Vec::new();
            push_str(&mut name, stems[i].as_str());
            name.push('.');
            push_str(&mut name, exts[k].as_str());
            assert(name@ =~= sv[i as int] + seq!['.'] + ev[k as int]);
            let ghost before = names@;
            names.push(string_of(&name));
            proof {
                assert(names@.map_values(|s: String| s@) =~= before.map_values(|s: String| s@).push(
                    sv[i as int] + seq!['.'] + ev[k as int],
                ));
                assert(ev.subrange(0, k + 1).map_values(|e: Seq<char>| sv[i as int] + seq!['.'] + e)
                    =~= ev.subrange(0, k as int).map_values(|e: Seq<char>| sv[i as int] + seq!['.'] + e).push(
                    sv[i as int] + seq!['.'] + ev[k as int],
                ));
            }
            k = k + 1;
        }
        proof {
            assert(ev.subrange(0, exts@.len() as int) =~= ev);
            let pre = sv.subrange(0, i + 1);
            lemma_names_for_push(pre, ev);
            assert(pre.drop_last() =~= sv.subrange(0, i as int));
        }
        i = i + 1;
    }
    assert(sv.subrange(0, stems@.len() as int) =~= sv);
    names
}

/// The candidate configuration files for `start_dir`: every candidate name in
/// the directory and in each ancestor, nearest directory first.
pub open spec fn project_candidates(start_dir: Seq<char>) -> Seq<Seq<char>> {
    candidates(ancestors(start_dir), names_for(project_stems_spec(), extensions_spec()))
}

/// The candidates the filesystem said are present.
pub open spec fn project_files(start_dir: Seq<char>, present: Seq<bool>) -> Seq<Seq<char>> {
    kept(project_candidates(start_dir), present)
}

/// The configuration files present among the candidates for `start_dir` and
/// its ancestors, nearest directory first and, within a directory, in
/// candidate-name order.
///
/// Which candidates are present is the filesystem's answer; the result is the
/// candidates filtered by that answer, in order.
pub fn project_config_paths(start_dir: &str) -> (r: Vec<String>)
    ensures
        exists|present: Seq<bool>|
            present.len() == project_candidates(start_dir@).len() && r@.map_values(|s: String| s@)
                == #[trigger] project_files(start_dir@, present),
{
    let names = candidate_names(&project_stems());
    let ghost nv = names@.map_values(|s: String| s@);
    let dirs = paths::ancestor_chain(start_dir);
    let ghost ds = dirs@.map_values(|s: String| s@);
    let ghost mut present: Seq<bool> = Seq::empty();
    let ghost mut seen: Seq<Seq<char>> = Seq::empty();
    let mut found: Vec<String> = Vec::new();
    let mut i: usize = 0;
    while i < dirs.len()
        invariant
            nv == names@.map_values(|s: String| s@),
            ds == dirs@.map_values(|s: String| s@),
            ds == ancestors(start_dir@),
            i <= dirs@.len(),
            seen == candidates(ds.subrange(0, i as int), nv),
            present.len() == seen.len(),
            found@.map_values(|s: String| s@) == kept(seen, present),
        decreases dirs@.len() - i,
    {
        let ghost seen_before = seen;
        let mut k: usize = 0;
        while k < names.len()
            invariant
                nv == names@.map_values(|s: String| s@),
                ds == dirs@.map_values(|s: String| s@),
                i < dirs@.len(),
                k <= names@.len(),
                seen == seen_before + nv.subrange(0, k as int).map_values(
                    |n: Seq<char>| path_join(ds[i as int], n),
                ),
                present.len() == seen.len(),
                found@.map_values(|s: String| s@) == kept(seen, present),
            decreases names@.len() - k,
        {
            let path = paths::join(dirs[i].as_str(), names[k].as_str());
            let here = paths::is_file(path.as_str());
            let ghost before = found@;
            let ghost p = path@;
            if here {
                found.push(path);
            }
            proof {
                let seen2 = seen.push(p);
                let present2 = present.push(here);
                assert(seen2.drop_last() =~= seen);
                assert(present2.drop_last() =~= present);
                if here {
                    assert(found@.map_values(|s: String| s@) =~= before.map_values(|s: String| s@).push(p));
                }
                assert(nv.subrange(0, k + 1).map_values(|n: Seq<char>| path_join(ds[i as int], n))
                    =~= nv.subrange(0, k as int).map_values(|n: Seq<char>| path_join(ds[i as int], n)).push(
                    p,
                ));
                seen = seen2;
                present = present2;
                assert(seen =~= seen_before + nv.subrange(0, k + 1).map_values(
                    |n: Seq<char>| path_join(ds[i as int], n),
                ));
            }
            k = k + 1;
        }
        proof {
            assert(nv.subrange(0, names@.len() as int) =~= nv);
            lemma_candidates_push(ds.subrange(0, i + 1), nv);
            assert(ds.subrange(0, i + 1).drop_last() =~= ds.subrange(0, i as int));
        }
        i = i + 1;
    }
    proof {
        assert(ds.subrange(0, dirs@.len() as int) =~= ds);
        assert(nv == names_for(project_stems_spec(), extensions_spec()));
        assert(found@.map_values(|s: String| s@) == project_files(start_dir@, present));
    }
    found
}

/// The candidate per-user files when the per-user configuration directory is
/// `base`: `base/jj-menu/config.{yaml,yml,toml,json}`.
pub open spec fn user_candidates(base: Seq<char>) -> Seq<Seq<char>> {
    names_for(seq![user_stem_spec()], extensions_spec()).map_values(
        |n: Seq<char>| path_join(path_join(base, user_dir_name()), n),
    )
}

/// The per-user configuration file under the per-user configuration
/// directory `base`: the first of `config.{yaml,yml,toml,json}` in its
/// `jj-menu` directory that the filesystem reports as a file.
pub fn user_config_in(base: &str) -> (r: Option<String>)
    ensures
        exists|present: Seq<bool>|
            present.len() == user_candidates(base@).len() && opt_view(r)
                == #[trigger] first_present(user_candidates(base@), present),
{
    let dir = paths::join(base, "jj-menu");
    let mut stems: Vec<String> = Vec::new();
    stems.push("config".to_owned());
    proof {
        assert(stems@.map_values(|s: String| s@) =~= seq![user_stem_spec()]);
    }
    let names = candidate_names(&stems);
    let mut dirs: Vec<String> = Vec::new();
    dirs.push(dir);
    let cands = paths::candidate_paths(&dirs, &names);
    proof {
        let ds = strings_view(dirs@);
        let ns = strings_view(names@);
        assert(ds.drop_first() =~= Seq::<Seq<char>>::empty());
        assert(candidates(ds.drop_first(), ns) =~= Seq::<Seq<char>>::empty());
        assert(ds[0] == path_join(base@, user_dir_name()));
        assert(ns == names_for(seq![user_stem_spec()], extensions_spec()));
        assert(candidates(ds, ns) =~= user_candidates(base@));
    }
    let present = paths::probe_files(&cands);
    let r = paths::first_present_of(&cands, &present);
    assert(opt_view(r) == first_present(user_candidates(base@), present@));
    r
}

/// Whether `p` is the per-user configuration file: the first of the per-user
/// candidates under some base directory that the filesystem reported.
pub open spec fn is_user_file(p: Seq<char>) -> bool {
    exists|base: Seq<char>, present: Seq<bool>|
        present.len() == user_candidates(base).len() && #[trigger] first_present(user_candidates(base), present)
            == Some(p)
}

/// The per-user configuration file, if present, under the platform's per-user
/// configuration directory (see [`user_config_in`]). Without such a directory
/// there is none.
pub fn user_config_path() -> (r: Option<String>)
    ensures
        r is Some ==> exists|base: Seq<char>, present: Seq<bool>|
            present.len() == user_candidates(base).len() && opt_view(r)
                == #[trigger] first_present(user_candidates(base), present),
{
    match paths::config_dir() {
        Some(base) => user_config_in(base.as_str()),
        None => None,
    }
}

/// Where a configuration file was found: a project file sits in the tree its
/// entries are about, while the per-user file belongs to no project at all.
#[derive(Debug, Clone, Copy, PartialEq, Eq, Structural)]
pub enum Scope {
    /// The starting directory or one of its ancestors.
    Project,
    /// The per-user configuration directory.
    User,
}

/// A configuration file to load, and where it was found.
#[derive(Debug)]
pub struct Found {
    pub path: String,
    pub scope: Scope,
}

/// All configuration files to load, in order: the project files nearest
/// first, then the per-user file.
pub fn all_config_paths(start_dir: &str) -> (r: Vec<Found>)
    ensures
        exists|present: Seq<bool>|
            {
                &&& present.len() == project_candidates(start_dir@).len()
                &&& #[trigger] project_files(start_dir@, present).len() <= r@.len()
                    <= project_files(start_dir@, present).len() + 1
                &&& forall|i: int|
                    0 <= i < project_files(start_dir@, present).len() ==> (#[trigger] r@[i]).path@
                        == project_files(start_dir@, present)[i] && r@[i].scope == Scope::Project
                &&& r@.len() > project_files(start_dir@, present).len() ==> r@.last().scope == Scope::User
                    && is_user_file(r@.last().path@)
            },
        forall|i: int| 0 <= i < r@.len() && (#[trigger] r@[i]).scope == Scope::User ==> i == r@.len() - 1,
{
    let project = project_config_paths(start_dir);
    let ghost pv = project@.map_values(|s: String| s@);
    let ghost present = choose|present: Seq<bool>|
        present.len() == project_candidates(start_dir@).len() && pv == #[trigger] project_files(
            start_dir@,
            present,
        );
    let mut out: Vec<Found> = Vec::new();
    let mut i: usize = 0;
    while i < project.len()
        invariant
            pv == project@.map_values(|s: String| s@),
            i <= project@.len(),
            out@.len() == i,
            forall|j: int| 0 <= j < i ==> (#[trigger] out@[j]).path@ == pv[j] && out@[j].scope == Scope::Project,
        decreases project@.len() - i,
    {
        out.push(Found { path: project[i].clone(), scope: Scope::Project });
        i = i + 1;
    }
    if let Some(path) = user_config_path() {
        let ghost p = path@;
        out.push(Found { path, scope: Scope::User });
        proof {
            let (base, up) = choose|base: Seq<char>, up: Seq<bool>|
                up.len() == user_candidates(base).len() && Some(p) == #[trigger] first_present(
                    user_candidates(base),
                    up,
                );
            assert(out@.last().path@ == p);
            assert(is_user_file(p));
        }
    }
    proof {
        assert(project_files(start_dir@, present).len() <= out@.len() <= project_files(start_dir@, present).len() + 1);
    }
    out
}

} // verus!
