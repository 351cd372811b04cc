//! Entries from the `scripts` block of a `package.json`.
//!
//! npm, pnpm, yarn and bun all resolve the package root themselves, so the
//! generated commands need no `cd` prefix.

use vstd::prelude::*;

use super::{LauncherGroup, paths_equal, quote, quoted, same_path};
use crate::config::model::{ItemView, MenuItem, command_view, item_view, items_view, lemma_items_view};
use crate::order::{sort_strings, sorted};
use crate::paths::{self, ancestors};
use crate::text::{chars_of, has_prefix, push_chars, push_str, starts_with, string_of, strings_view};

verus! {

/// The lock files looked for in each directory, in order, with the runner
/// each one stands for.
pub open spec fn lockfiles() -> Seq<(Seq<char>, Seq<char>)> {
    seq![
        ("pnpm-lock.yaml"@, "pnpm"@),
        ("yarn.lock"@, "yarn"@),
        ("bun.lockb"@, "bun"@),
        ("bun.lock"@, "bun"@),
        ("package-lock.json"@, "npm"@),
    ]
}

fn lockfile_table() -> (r: Vec<(String, String)>)
    ensures
        r@.len() == lockfiles().len(),
        forall|j: int|
            0 <= j < r@.len() ==> (#[trigger] r@[j]).0@ == lockfiles()[j].0 && r@[j].1@ == lockfiles()[j].1,
{
    let mut t: Vec<(String, String)> = Vec::new();
    t.push(("pnpm-lock.yaml".to_owned(), "pnpm".to_owned()));
    t.push(("yarn.lock".to_owned(), "yarn".to_owned()));
    t.push(("bun.lockb".to_owned(), "bun".to_owned()));
    t.push(("bun.lock".to_owned(), "bun".to_owned()));
    t.push(("package-lock.json".to_owned(), "npm".to_owned()));
    t
}

/// What the filesystem said about one directory of the walk up from a
/// `package.json`: which of the lock files of [`lockfiles`] were looked for
/// there, in order, and whether each was present; and whether the directory is a boundary the walk stops
/// at (it holds `.git`, or it is the home directory).
#[derive(Debug)]
pub struct Level {
    pub present: Vec<bool>,
    pub boundary: bool,
}

impl View for Level {
    type V = (Seq<bool>, bool);

    open spec fn view(&self) -> (Seq<bool>, bool) {
        (self.present@, self.boundary)
    }
}

/// The first lock file reported present, among those of [`lockfiles`].
pub open spec fn first_lock(present: Seq<bool>) -> Option<int>
    decreases present.len(),
{
    if present.len() == 0 || lockfiles().len() == 0 {
        None
    } else if present[0] {
        Some(0)
    } else {
        match first_lock(present.drop_first()) {
            Some(j) => if j + 1 < lockfiles().len() {
                Some(j + 1)
            } else {
                None
            },
            None => None,
        }
    }
}

/// The runner a walk decides on: the runner of the first lock file found,
/// nearest directory first; npm when a boundary or the end of the walk comes
/// before any.
pub open spec fn runner_of_walk(levels: Seq<(Seq<bool>, bool)>) -> Seq<char>
    decreases levels.len(),
{
    if levels.len() == 0 {
        "npm"@
    } else {
        match first_lock(levels[0].0) {
            Some(j) => lockfiles()[j].1,
            None => if levels[0].1 {
                "npm"@
            } else {
                runner_of_walk(levels.drop_first())
            },
        }
    }
}

proof fn lemma_first_lock_bound(present: Seq<bool>)
    ensures
        first_lock(present) matches Some(j) ==> 0 <= j < lockfiles().len() && j < present.len()
            && present[j],
    decreases present.len(),
{
    if present.len() > 0 && !present[0] {
        lemma_first_lock_bound(present.drop_first());
    }
}

fn first_lock_exec(present: &Vec<bool>) -> (r: Option<usize>)
    ensures
        match r {
            Some(j) => first_lock(present@) == Some(j as int),
            None => first_lock(present@) is None,
        },
{
    let n: usize = 5;
    let mut j: usize = 0;
    proof {
        assert(present@.subrange(0, present@.len() as int) =~= present@);
        lemma_first_lock_bound(present@);
    }
    while j < present.len() && j < n
        invariant
            n == lockfiles().len(),
            j <= present@.len(),
            j <= n,
            forall|k: int| 0 <= k < j ==> !present@[k],
            first_lock(present@) == match first_lock(present@.subrange(j as int, present@.len() as int)) {
                Some(i) => if i + j < n {
                    Some(i + j)
                } else {
                    None::<int>
                },
                None => None,
            },
        decreases present@.len() - j,
    {
        let ghost rest = present@.subrange(j as int, present@.len() as int);
        proof {
            assert(rest[0] == present@[j as int]);
            assert(rest.drop_first() =~= present@.subrange(j + 1, present@.len() as int));
        }
        if present[j] {
            return Some(j);
        }
        j = j + 1;
    }
    proof {
        let rest = present@.subrange(j as int, present@.len() as int);
        lemma_first_lock_bound(rest);
    }
    None
}

/// The runner a walk decides on (see [`runner_of_walk`]).
pub fn runner_for(levels: &Vec<Level>) -> (r: String)
    ensures
        r@ == runner_of_walk(levels@.map_values(|l: Level| l@)),
{
    let table = lockfile_table();
    let ghost lv = levels@.map_values(|l: Level| l@);
    let mut i: usize = 0;
    assert(lv.subrange(0, lv.len() as int) =~= lv);
    while i < levels.len()
        invariant
            table@.len() == lockfiles().len(),
            forall|j: int|
                0 <= j < table@.len() ==> (#[trigger] table@[j]).0@ == lockfiles()[j].0 && table@[j].1@
                    == lockfiles()[j].1,
            lv == levels@.map_values(|l: Level| l@),
            i <= lv.len(),
            runner_of_walk(lv.subrange(i as int, lv.len() as int)) == runner_of_walk(lv),
        decreases lv.len() - i,
    {
        let ghost rest = lv.subrange(i as int, lv.len() as int);
        proof {
            assert(rest[0] == levels@[i as int]@);
            assert(rest.drop_first() =~= lv.subrange(i + 1, lv.len() as int));
        }
        match first_lock_exec(&levels[i].present) {
            Some(j) => {
                proof {
                    lemma_first_lock_bound(levels@[i as int].present@);
                }
                return table[j].1.clone();
            },
            None => {
                if levels[i].boundary {
                    proof {
                        reveal_strlit("npm");
                    }
                    return "npm".to_owned();
                }
            },
        }
        i = i + 1;
    }
    proof {
        reveal_strlit("npm");
    }
    "npm".to_owned()
}

/// The walk up from a directory as the filesystem answered it, one level per
/// directory of `dirs` (nearest first): `locks[i][j]` is whether
/// `dirs[i]/lockfiles()[j].0` is a file, and the level is a boundary when
/// `gits[i]` (whether `dirs[i]/.git` exists) or when `dirs[i]` is the home
/// directory `home`.
pub open spec fn walk_of(
    dirs: Seq<Seq<char>>,
    home: Option<Seq<char>>,
    locks: Seq<Seq<bool>>,
    gits: Seq<bool>,
) -> Seq<(Seq<bool>, bool)> {
    Seq::new(dirs.len(), |i: int| (locks[i], gits[i] || (home is Some && same_path(home->0, dirs[i]))))
}

/// The answers, as a sequence of sequences.
pub open spec fn answers_view(locks: Seq<Vec<bool>>) -> Seq<Seq<bool>> {
    locks.map_values(|v: Vec<bool>| v@)
}

/// The levels of the walk up `dirs`, from the filesystem's answers (see
/// [`walk_of`]).
pub fn walk_levels(dirs: &Vec<String>, home: Option<&str>, locks: &Vec<Vec<bool>>, gits: &Vec<bool>) -> (r: Vec<Level>)
    requires
        locks@.len() == dirs@.len(),
        gits@.len() == dirs@.len(),
    ensures
        r@.map_values(|l: Level| l@) == walk_of(
            strings_view(dirs@),
            match home {
                Some(h) => Some(h@),
                None => None,
            },
            answers_view(locks@),
            gits@,
        ),
{
    let ghost hv = match home {
        Some(h) => Some(h@),
        None => None::<Seq<char>>,
    };
    let ghost target = walk_of(strings_view(dirs@), hv, answers_view(locks@), gits@);
    let mut out: Vec<Level> = Vec::new();
    let mut i: usize = 0;
    while i < dirs.len()
        invariant
            locks@.len() == dirs@.len(),
            gits@.len() == dirs@.len(),
            i <= dirs@.len(),
            target == walk_of(strings_view(dirs@), hv, answers_view(locks@), gits@),
            hv == match home {
                Some(h) => Some(h@),
                None => None::<Seq<char>>,
            },
            out@.map_values(|l: Level| l@) == target.subrange(0, i as int),
        decreases dirs@.len() - i,
    {
        let mut present: Vec<bool> = Vec::new();
        let mut j: usize = 0;
        while j < locks[i].len()
            invariant
                i < locks@.len(),
                j <= locks@[i as int]@.len(),
                present@ == locks@[i as int]@.subrange(0, j as int),
            decreases locks@[i as int]@.len() - j,
        {
            present.push(locks[i][j]);
            assert(present@ =~= locks@[i as int]@.subrange(0, j + 1));
            j = j + 1;
        }
        assert(present@ =~= locks@[i as int]@);
        let mut boundary = gits[i];
        if !boundary {
            if let Some(h) = home {
                boundary = paths_equal(h, dirs[i].as_str());
            }
        }
        let ghost before = out@.map_values(|l: Level| l@);
        out.push(Level { present, boundary });
        assert(out@.map_values(|l: Level| l@) =~= before.push(target[i as int]));
        assert(target.subrange(0, i + 1) =~= target.subrange(0, i as int).push(target[i as int]));
        i = i + 1;
    }
    assert(target.subrange(0, dirs@.len() as int) =~= target);
    out
}

/// The package manager for a `package.json` in `dir`, from the nearest lock
/// file.
///
/// The search walks up from `dir`, because in a workspace the lock file lives
/// at the root while each package has its own `package.json`. In each
/// directory the lock files are looked for in the order of [`lockfiles`]. It
/// stops at the first boundary: a directory holding `.git` (a directory in a
/// clone, a file in a worktree), the user's home directory, or the
/// filesystem root, so that an unrelated lock file above the project cannot
/// decide. Without a lock file it is npm, the one always present with Node.
///
/// The filesystem is asked about every lock file and `.git` of every
/// ancestor of `dir`, and the environment for the home directory; the runner
/// is the one [`runner_for`] decides on for the walk those answers make (see
/// [`walk_of`]).
pub fn detect_package_manager(dir: &str) -> (r: String)
    ensures
        exists|home: Option<Seq<char>>, locks: Seq<Seq<bool>>, gits: Seq<bool>|
            #![trigger walk_of(ancestors(dir@), home, locks, gits)]
            {
                &&& locks.len() == ancestors(dir@).len()
                &&& gits.len() == ancestors(dir@).len()
                &&& forall|i: int| 0 <= i < locks.len() ==> #[trigger] locks[i].len() == lockfiles().len()
                &&& r@ == runner_of_walk(walk_of(ancestors(dir@), home, locks, gits))
            },
{
    let table = lockfile_table();
    let mut names: Vec<String> = Vec::new();
    let mut k: usize = 0;
    while k < table.len()
        invariant
            k <= table@.len(),
            names@.len() == k,
        decreases table@.len() - k,
    {
        names.push(table[k].0.clone());
        k = k + 1;
    }
    let home = paths::home_dir();
    let dirs = paths::ancestor_chain(dir);
    let mut locks: Vec<Vec<bool>> = Vec::new();
    let mut gits: Vec<bool> = Vec::new();
    let mut i: usize = 0;
    while i < dirs.len()
        invariant
            i <= dirs@.len(),
            names@.len() == lockfiles().len(),
            locks@.len() == i,
            gits@.len() == i,
            forall|m: int| 0 <= m < i ==> (#[trigger] locks@[m])@.len() == lockfiles().len(),
        decreases dirs@.len() - i,
    {
        let mut here: Vec<String> = Vec::new();
        here.push(dirs[i].clone());
        let cands = paths::candidate_paths(&here, &names);
        proof {
            let hv = strings_view(here@);
            assert(hv.drop_first() =~= Seq::<Seq<char>>::empty());
            assert(paths::candidates(hv.drop_first(), strings_view(names@)) =~= Seq::<Seq<char>>::empty());
        }
        let answers = paths::probe_files(&cands);
        let git = paths::join(dirs[i].as_str(), ".git");
        locks.push(answers);
        gits.push(paths::is_present(git.as_str()));
        i = i + 1;
    }
    let levels = match &home {
        Some(h) => walk_levels(&dirs, Some(h.as_str()), &locks, &gits),
        None => walk_levels(&dirs, None, &locks, &gits),
    };
    let r = runner_for(&levels);
    proof {
        assert(strings_view(dirs@) == ancestors(dir@));
        let hv = match home {
            Some(h) => Some(h@),
            None => None::<Seq<char>>,
        };
        assert(r@ == runner_of_walk(walk_of(ancestors(dir@), hv, answers_view(locks@), gits@)));
        assert forall|m: int| 0 <= m < answers_view(locks@).len() implies #[trigger] answers_view(
            locks@,
        )[m].len() == lockfiles().len() by {
            assert(answers_view(locks@)[m] == locks@[m]@);
        }
    }
    r
}

/// A script name that every runner would read as one of its own options:
/// `npm run --silent` is npm's flag and exits without running anything, and
/// no runner has a way to say "this is a name". Such a script gets no entry.
pub open spec fn option_like(name: Seq<char>) -> bool {
    starts_with(name, seq!['-'])
}

/// `<runner> run <name>`: what the entry is called.
pub open spec fn script_label(runner: Seq<char>, name: Seq<char>) -> Seq<char> {
    runner + " run "@ + name
}

/// `<runner> run '<name>'`: the name is an arbitrary JSON key from a file in
/// the repository, so it is quoted and stays a single argument.
pub open spec fn script_command(runner: Seq<char>, name: Seq<char>) -> Seq<char> {
    runner + " run "@ + quoted(name)
}

/// The entry for script `name`.
pub open spec fn script_entry(runner: Seq<char>, name: Seq<char>) -> ItemView {
    command_view(script_label(runner, name), script_command(runner, name))
}

/// The entries for the scripts named `names` when run with `runner`: one per
/// script that is not option-like, in name order.
pub open spec fn script_entries(runner: Seq<char>, names: Seq<Seq<char>>) -> Seq<ItemView> {
    names.filter(|n: Seq<char>| !option_like(n)).map_values(|n: Seq<char>| script_entry(runner, n))
}

fn label_exec(runner: &str, name: &str) -> (r: String)
    ensures
        r@ == script_label(runner@, name@),
{
    let mut out = chars_of(runner);
    push_str(&mut out, " run ");
    push_str(&mut out, name);
    proof {
        reveal_strlit(" run ");
    }
    assert(out@ =~= script_label(runner@, name@));
    string_of(&out)
}

fn command_exec(runner: &str, name: &str) -> (r: String)
    ensures
        r@ == script_command(runner@, name@),
{
    let mut out = chars_of(runner);
    push_str(&mut out, " run ");
    let q = quote(name);
    push_chars(&mut out, &chars_of(q.as_str()));
    proof {
        reveal_strlit(" run ");
    }
    assert(out@ =~= script_command(runner@, name@));
    string_of(&out)
}

/// Whether every one of `names` is option-like, so that none gets an entry.
pub open spec fn all_option_like(names: Seq<Seq<char>>) -> bool {
    forall|k: int| 0 <= k < names.len() ==> option_like(#[trigger] names[k])
}

/// Two sequences holding the same names, each as many times, are all
/// option-like together.
proof fn lemma_same_elements(a: Seq<Seq<char>>, b: Seq<Seq<char>>)
    requires
        a.to_multiset() == b.to_multiset(),
    ensures
        all_option_like(a) <==> all_option_like(b),
{
    broadcast use vstd::seq_lib::group_to_multiset_ensures;

    if all_option_like(a) {
        assert forall|k: int| 0 <= k < b.len() implies option_like(#[trigger] b[k]) by {
            assert(b.contains(b[k]));
            assert(b.to_multiset().count(b[k]) > 0);
            assert(a.contains(b[k]));
            let j = choose|j: int| 0 <= j < a.len() && a[j] == b[k];
            assert(option_like(a[j]));
        }
    }
    if all_option_like(b) {
        assert forall|k: int| 0 <= k < a.len() implies option_like(#[trigger] a[k]) by {
            assert(a.contains(a[k]));
            assert(a.to_multiset().count(a[k]) > 0);
            assert(b.contains(a[k]));
            let j = choose|j: int| 0 <= j < b.len() && b[j] == a[k];
            assert(option_like(b[j]));
        }
    }
}

/// The `package.json` group for the scripts named `names`, run with
/// `runner`: the entries of [`script_entries`] over the names in ascending
/// order. `None` when no script is left to offer.
pub fn entries_for(names: Vec<String>, runner: &str) -> (r: Option<LauncherGroup>)
    ensures
        r is None <==> all_option_like(strings_view(names@)),
        exists|s: Seq<Seq<char>>|
            #![trigger sorted(s)]
            s.to_multiset() == strings_view(names@).to_multiset() && sorted(s) && match r {
                None => script_entries(runner@, s).len() == 0,
                Some(g) => g.source@ == "package.json"@ && items_view(g.items@) == script_entries(
                    runner@,
                    s,
                ),
            },
{
    let ordered = sort_strings(names);
    let ghost s = strings_view(ordered@);
    let ghost keep = |n: Seq<char>| !option_like(n);
    let dash = vec!['-'];
    assert(dash@ =~= seq!['-']);
    let mut items: Vec<MenuItem> = Vec::new();
    let mut i: usize = 0;
    while i < ordered.len()
        invariant
            s == strings_view(ordered@),
            dash@ == seq!['-'],
            keep == (|n: Seq<char>| !option_like(n)),
            i <= ordered@.len(),
            items_view(items@) == s.subrange(0, i as int).filter(keep).map_values(
                |n: Seq<char>| script_entry(runner@, n),
            ),
            items@.len() == 0 <==> all_option_like(s.subrange(0, i as int)),
        decreases ordered@.len() - i,
    {
        let name = &ordered[i];
        let ghost before = items@;
        proof {
            let pre = s.subrange(0, i + 1);
            assert(pre =~= s.subrange(0, i as int).push(s[i as int]));
            s.subrange(0, i as int).lemma_filter_push(s[i as int], keep);
        }
        proof {
            let pre = s.subrange(0, i + 1);
            assert(pre[i as int] == s[i as int]);
            assert forall|k: int| 0 <= k < i implies pre[k] == s.subrange(0, i as int)[k] by {}
        }
        if !has_prefix(&chars_of(name.as_str()), &dash) {
            let label = label_exec(runner, name.as_str());
            let command = command_exec(runner, name.as_str());
            items.push(MenuItem::command(label.as_str(), command.as_str()));
            proof {
                crate::config::model::lemma_items_view_add(before, seq![items@.last()]);
                assert(items@ =~= before + seq![items@.last()]);
                lemma_items_view(seq![items@.last()]);
                assert(items_view(seq![items@.last()]) =~= seq![item_view(items@.last())]);
                assert(s.subrange(0, i + 1).filter(keep).map_values(|n: Seq<char>| script_entry(runner@, n))
                    =~= s.subrange(0, i as int).filter(keep).map_values(|n: Seq<char>| script_entry(runner@, n)).push(
                    script_entry(runner@, s[i as int]),
                ));
            }
        }
        i = i + 1;
    }
    proof {
        assert(s.subrange(0, ordered@.len() as int) =~= s);
        lemma_items_view(items@);
        lemma_same_elements(s, strings_view(names@));
    }
    if items.len() == 0 {
        return None;
    }
    let source = "package.json".to_owned();
    Some(LauncherGroup { source, items })
}

/// The keys of the object under `field` of the JSON document `text`, as
/// `serde_json` reads them; `None` when the text is not JSON or there is no
/// such object.
pub uninterp spec fn json_member_keys(text: Seq<char>, field: Seq<char>) -> Option<Seq<Seq<char>>>;

/// `serde_json::from_str` into a `serde_json::Value`, then `Value::get` of
/// `field` and `Value::as_object`: the keys of that object, in the map's
/// order. Which keys and in what order is named, not restated.
#[verifier::external_body]
fn member_keys(text: &str, field: &str) -> (r: Option<Vec<String>>)
    ensures
        match r {
            Some(keys) => json_member_keys(text@, field@) == Some(strings_view(keys@)),
            None => json_member_keys(text@, field@) is None,
        },
{
    let value: serde_json::Value = serde_json::from_str(text).ok()?;
    let members = value.get(field)?.as_object()?;
    Some(members.keys().cloned().collect())
}

/// The `package.json` group for a `package.json` at `path` whose text is
/// `text`: its `scripts` run with the package manager of the nearest lock
/// file (see [`detect_package_manager`] and [`entries_for`]). `None` for a
/// file that is not JSON or has no `scripts` object, a path with no parent
/// directory, or no script left to offer: a broken `package.json` is left
/// out, not reported.
pub fn scan(text: &str, path: &str) -> (r: Option<LauncherGroup>)
    ensures
        r is None <==> (json_member_keys(text@, "scripts"@) is None || paths::path_parent(path@) is None
            || all_option_like(json_member_keys(text@, "scripts"@)->0)),
        r is Some ==> exists|home: Option<Seq<char>>, locks: Seq<Seq<bool>>, gits: Seq<bool>, s: Seq<Seq<char>>|
            #![trigger walk_of(ancestors(paths::path_parent(path@)->0), home, locks, gits), sorted(s)]
            {
                let dirs = ancestors(paths::path_parent(path@)->0);
                &&& locks.len() == dirs.len()
                &&& gits.len() == dirs.len()
                &&& forall|i: int| 0 <= i < locks.len() ==> #[trigger] locks[i].len() == lockfiles().len()
                &&& s.to_multiset() == json_member_keys(text@, "scripts"@)->0.to_multiset()
                &&& sorted(s)
                &&& r->0.source@ == "package.json"@
                &&& items_view(r->0.items@) == script_entries(runner_of_walk(walk_of(dirs, home, locks, gits)), s)
            },
{
    let names = match member_keys(text, "scripts") {
        Some(n) => n,
        None => return None,
    };
    let dir = match paths::parent(path) {
        Some(d) => d,
        None => return None,
    };
    let ghost keys = strings_view(names@);
    let runner = detect_package_manager(dir.as_str());
    let r = entries_for(names, runner.as_str());
    proof {
        let dirs = ancestors(dir@);
        let (h, l, g) = choose|h: Option<Seq<char>>, l: Seq<Seq<bool>>, g: Seq<bool>|
            {
                &&& l.len() == dirs.len()
                &&& g.len() == dirs.len()
                &&& forall|i: int| 0 <= i < l.len() ==> #[trigger] l[i].len() == lockfiles().len()
                &&& runner@ == runner_of_walk(walk_of(dirs, h, l, g))
            };
        let o = choose|o: Seq<Seq<char>>|
            o.to_multiset() == keys.to_multiset() && sorted(o) && match r {
                None => script_entries(runner@, o).len() == 0,
                Some(gr) => gr.source@ == "package.json"@ && items_view(gr.items@) == script_entries(runner@, o),
            };
        assert(dir@ == paths::path_parent(path@)->0);
        assert(keys == json_member_keys(text@, "scripts"@)->0);
        if r is Some {
            assert(items_view(r->0.items@) == script_entries(runner_of_walk(walk_of(dirs, h, l, g)), o));
        }
        assert(walk_of(dirs, h, l, g) == walk_of(dirs, h, l, g));
        assert(sorted(o));
    }
    r
}

} // verus!
