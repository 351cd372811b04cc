//! Entries for a Gradle project.
//!
//! Gradle can list a project's real tasks only by running `./gradlew tasks`,
//! which starts a JVM and evaluates the build script: far too slow and too
//! side-effecting for opening a menu. A fixed set of lifecycle tasks is
//! offered instead, plus a `tasks` entry for discovering the rest. The
//! commands run from the directory holding the build script.

use vstd::prelude::*;

use super::{LauncherGroup, in_dir, in_dir_spec, quote, quoted};
use crate::config::model::{ItemView, MenuItem, command_view, items_view, lemma_items_view};
use crate::paths::{self, path_parent};
use crate::text::{chars_of, push_chars, push_str, string_of};

verus! {

/// Lifecycle tasks present in essentially every Gradle build.
pub open spec fn tasks() -> Seq<Seq<char>> {
    seq!["build"@, "test"@, "clean"@, "assemble"@, "check"@, "tasks"@]
}

/// What runs Gradle: the wrapper in `wrapper_dir`, which pins the Gradle
/// version, when one was found, else a Gradle on `PATH`.
pub open spec fn gradle_runner(wrapper_dir: Option<Seq<char>>) -> Seq<char> {
    match wrapper_dir {
        Some(d) => quoted(d) + "/gradlew"@,
        None => "gradle"@,
    }
}

/// What the entry for task `t` is called.
pub open spec fn gradle_label(wrapper: bool, t: Seq<char>) -> Seq<char> {
    if wrapper {
        "./gradlew "@ + t
    } else {
        "gradle "@ + t
    }
}

/// The entry for task `t`, run in `run_dir` when the menu was opened in
/// `start_dir`: Gradle takes the project from the working directory, so the
/// command goes there first.
pub open spec fn gradle_entry(run_dir: Seq<char>, wrapper_dir: Option<Seq<char>>, t: Seq<char>, start_dir: Seq<char>) -> ItemView {
    command_view(
        gradle_label(wrapper_dir is Some, t),
        in_dir_spec(run_dir, gradle_runner(wrapper_dir) + " "@ + t, start_dir),
    )
}

/// The characters of an optional string slice.
pub open spec fn str_view(o: Option<&str>) -> Option<Seq<char>> {
    match o {
        Some(s) => Some(s@),
        None => None,
    }
}

/// Where the entries come from.
pub open spec fn gradle_source(wrapper: bool) -> Seq<char> {
    if wrapper {
        "gradlew"@
    } else {
        "build.gradle"@
    }
}

fn task_names() -> (r: Vec<String>)
    ensures
        r@.map_values(|s: String| s@) == tasks(),
{
    let mut v: Vec<String> = Vec::new();
    v.push("build".to_owned());
    v.push("test".to_owned());
    v.push("clean".to_owned());
    v.push("assemble".to_owned());
    v.push("check".to_owned());
    v.push("tasks".to_owned());
    assert(v@.map_values(|s: String| s@) =~= tasks());
    v
}

/// The Gradle group for a project run in `run_dir`, through the wrapper in
/// `wrapper_dir` when there is one, when the menu was opened in `start_dir`:
/// one entry per task of [`tasks`], in that order.
pub fn entries(run_dir: &str, wrapper_dir: Option<&str>, start_dir: &str) -> (r: LauncherGroup)
    ensures
        r.source@ == gradle_source(wrapper_dir is Some),
        items_view(r.items@) == tasks().map_values(
            |t: Seq<char>| gradle_entry(run_dir@, str_view(wrapper_dir), t, start_dir@),
        ),
{
    let ghost wd = str_view(wrapper_dir);
    let wrapper = wrapper_dir.is_some();
    let mut runner: Vec<char> = Vec::new();
    match wrapper_dir {
        Some(d) => {
            let q = quote(d);
            push_chars(&mut runner, &chars_of(q.as_str()));
            push_str(&mut runner, "/gradlew");
        },
        None => {
            push_str(&mut runner, "gradle");
        },
    }
    proof {
        reveal_strlit("/gradlew");
        reveal_strlit("gradle");
    }
    assert(runner@ =~= gradle_runner(wd));
    let names = task_names();
    let ghost tv = names@.map_values(|s: String| s@);
    let mut items: Vec<MenuItem> = Vec::new();
    let mut i: usize = 0;
    while i < names.len()
        invariant
            tv == names@.map_values(|s: String| s@),
            tv == tasks(),
            runner@ == gradle_runner(wd),
            wrapper == wd is Some,
            i <= names@.len(),
            items@.len() == i,
            forall|k: int| 0 <= k < i ==> (#[trigger] items@[k])@ == gradle_entry(run_dir@, wd, tv[k], start_dir@),
        decreases names@.len() - i,
    {
        let mut label: Vec<char> = Vec::new();
        if wrapper {
            push_str(&mut label, "./gradlew ");
        } else {
            push_str(&mut label, "gradle ");
        }
        push_str(&mut label, names[i].as_str());
        let mut command: Vec<char> = Vec::new();
        push_chars(&mut command, &runner);
        command.push(' ');
        push_str(&mut command, names[i].as_str());
        proof {
            reveal_strlit("./gradlew ");
            reveal_strlit("gradle ");
            reveal_strlit(" ");
        }
        assert(label@ =~= gradle_label(wrapper, tv[i as int]));
        assert(command@ =~= gradle_runner(wd) + " "@ + tv[i as int]);
        let placed = in_dir(run_dir, string_of(&command).as_str(), start_dir);
        items.push(MenuItem::command(string_of(&label).as_str(), placed.as_str()));
        i = i + 1;
    }
    proof {
        lemma_items_view(items@);
        assert(items_view(items@) =~= tasks().map_values(|t: Seq<char>| gradle_entry(run_dir@, wd, t, start_dir@)));
    }
    let source = if wrapper {
        "gradlew".to_owned()
    } else {
        "build.gradle".to_owned()
    };
    LauncherGroup { source, items }
}

/// The directory the entries run in: the build script's, since Gradle takes
/// the project from the working directory; the wrapper's when there is no
/// build script.
pub open spec fn gradle_run_dir(wrapper: Option<Seq<char>>, script: Option<Seq<char>>) -> Option<Seq<char>> {
    match script {
        Some(s) => path_parent(s),
        None => match wrapper {
            Some(w) => path_parent(w),
            None => None,
        },
    }
}

/// The directory of the wrapper found, if any.
pub open spec fn gradle_wrapper_dir(wrapper: Option<Seq<char>>) -> Option<Seq<char>> {
    match wrapper {
        Some(w) => path_parent(w),
        None => None,
    }
}

/// The Gradle group for the wrapper and the build script found, each looked
/// up on its own: in a multi-project build the wrapper lives at the root
/// while a subproject has its own build script, and the root's wrapper is
/// then the one to use. `None` when neither was found (or the one found has
/// no parent directory).
pub fn scan(wrapper: Option<&str>, script: Option<&str>, start_dir: &str) -> (r: Option<LauncherGroup>)
    ensures
        gradle_run_dir(str_view(wrapper), str_view(script)) is None <==> r is None,
        r is Some ==> {
            let run_dir = gradle_run_dir(str_view(wrapper), str_view(script))->0;
            let wd = gradle_wrapper_dir(str_view(wrapper));
            &&& r->0.source@ == gradle_source(wd is Some)
            &&& items_view(r->0.items@) == tasks().map_values(|t: Seq<char>| gradle_entry(run_dir, wd, t, start_dir@))
        },
{
    let run_dir = match script {
        Some(s) => paths::parent(s),
        None => match wrapper {
            Some(w) => paths::parent(w),
            None => None,
        },
    };
    let run_dir = match run_dir {
        Some(d) => d,
        None => return None,
    };
    let wrapper_dir = match wrapper {
        Some(w) => paths::parent(w),
        None => None,
    };
    let g = match &wrapper_dir {
        Some(d) => entries(run_dir.as_str(), Some(d.as_str()), start_dir),
        None => entries(run_dir.as_str(), None, start_dir),
    };
    Some(g)
}

} // verus!
