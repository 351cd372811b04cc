//! Paths, and the questions the library asks the filesystem about them.
//!
//! Paths are carried as `String`s. What `std::path` computes from a path's
//! text is named here and used by name; what the filesystem answers (whether
//! a file is there) is an outcome the callers are verified for whatever it is.

use vstd::prelude::*;

use crate::text::{opt_view, strings_view};

verus! {

/// The parent of a path, as `Path::parent` computes it.
pub uninterp spec fn path_parent(p: Seq<char>) -> Option<Seq<char>>;

/// `Path::parent`: the path without its final component, or `None` for a
/// path that ends in a root or is empty.
///
/// Besides naming the result, the contract claims only what "without its
/// final component" implies: the parent is shorter than the path.
#[verifier::external_body]
pub(crate) fn parent(p: &str) -> (r: Option<String>)
    ensures
        match r {
            Some(q) => path_parent(p@) == Some(q@) && q@.len() < p@.len(),
            None => path_parent(p@) is None,
        },
{
    std::path::Path::new(p).parent().map(|q| q.to_string_lossy().into_owned())
}

/// `base` with `name` appended as a further component, as `Path::join`
/// computes it.
pub uninterp spec fn path_join(base: Seq<char>, name: Seq<char>) -> Seq<char>;

/// `Path::join`: `name` appended to `base` as a further component.
#[verifier::external_body]
pub(crate) fn join(base: &str, name: &str) -> (r: String)
    ensures
        r@ == path_join(base@, name@),
{
    std::path::Path::new(base).join(name).to_string_lossy().into_owned()
}

/// The extension of the final component of a path, as `Path::extension`
/// computes it.
pub uninterp spec fn path_extension(p: Seq<char>) -> Option<Seq<char>>;

/// `Path::extension`: the text after the last `.` of the file name, if any.
#[verifier::external_body]
pub(crate) fn extension(p: &str) -> (r: Option<String>)
    ensures
        match r {
            Some(e) => path_extension(p@) == Some(e@),
            None => path_extension(p@) is None,
        },
{
    std::path::Path::new(p).extension().map(|e| e.to_string_lossy().into_owned())
}

/// `Path::is_file`: whether a regular file is at `p` right now.
///
/// The answer depends on the disk, so nothing is claimed about it.
#[verifier::external_body]
pub(crate) fn is_file(p: &str) -> bool {
    std::path::Path::new(p).is_file()
}

/// `Path::exists`: whether anything is at `p` right now.
///
/// The answer depends on the disk, so nothing is claimed about it.
#[verifier::external_body]
pub(crate) fn is_present(p: &str) -> bool {
    std::path::Path::new(p).exists()
}

/// `dirs::home_dir`: the user's home directory, as the environment says.
///
/// Depends on the environment, so nothing is claimed about it.
#[verifier::external_body]
pub(crate) fn home_dir() -> Option<String> {
    dirs::home_dir().map(|p| p.to_string_lossy().into_owned())
}

/// `dirs::config_dir`: the per-user configuration directory, as the
/// environment says.
///
/// Depends on the environment, so nothing is claimed about it.
#[verifier::external_body]
pub(crate) fn config_dir() -> Option<String> {
    dirs::config_dir().map(|p| p.to_string_lossy().into_owned())
}

/// `p` and every ancestor of it, nearest first, as repeated `Path::parent`
/// gives them.
pub open spec fn ancestors(p: Seq<char>) -> Seq<Seq<char>>
    decreases p.len(),
{
    match path_parent(p) {
        Some(q) => if q.len() < p.len() {
            seq![p] + ancestors(q)
        } else {
            seq![p]
        },
        None => seq![p],
    }
}

/// Every `dir/name`, for each directory in turn and each name in turn.
pub open spec fn candidates(dirs: Seq<Seq<char>>, names: Seq<Seq<char>>) -> Seq<Seq<char>>
    decreases dirs.len(),
{
    if dirs.len() == 0 {
        Seq::empty()
    } else {
        names.map_values(|n: Seq<char>| path_join(dirs[0], n)) + candidates(dirs.drop_first(), names)
    }
}

/// The elements of `s` whose flag in `keep` is set, in order.
pub open spec fn kept(s: Seq<Seq<char>>, keep: Seq<bool>) -> Seq<Seq<char>>
    decreases s.len(),
{
    if s.len() == 0 || keep.len() == 0 {
        Seq::empty()
    } else if keep.last() {
        kept(s.drop_last(), keep.drop_last()).push(s.last())
    } else {
        kept(s.drop_last(), keep.drop_last())
    }
}

/// The first of `cands` whose flag in `present` is set, if any.
pub open spec fn first_present(cands: Seq<Seq<char>>, present: Seq<bool>) -> Option<Seq<char>> {
    let found = kept(cands, present);
    if found.len() == 0 {
        None
    } else {
        Some(found[0])
    }
}

pub proof fn lemma_kept_none(s: Seq<Seq<char>>, keep: Seq<bool>)
    requires
        forall|i: int| 0 <= i < keep.len() ==> !keep[i],
    ensures
        kept(s, keep).len() == 0,
    decreases s.len(),
{
    if s.len() > 0 && keep.len() > 0 {
        lemma_kept_none(s.drop_last(), keep.drop_last());
    }
}

pub proof fn lemma_kept_first(s: Seq<Seq<char>>, keep: Seq<bool>, k: int)
    requires
        0 <= k < s.len(),
        keep.len() == s.len(),
        keep[k],
        forall|i: int| 0 <= i < k ==> !keep[i],
    ensures
        kept(s, keep).len() > 0,
        kept(s, keep)[0] == s[k],
    decreases s.len(),
{
    if k == s.len() - 1 {
        lemma_kept_none(s.drop_last(), keep.drop_last());
    } else {
        lemma_kept_first(s.drop_last(), keep.drop_last(), k);
    }
}

/// The candidates for one more directory come after those of the directories before it.
pub proof fn lemma_candidates_push(dirs: Seq<Seq<char>>, names: Seq<Seq<char>>)
    requires
        dirs.len() > 0,
    ensures
        candidates(dirs, names) == candidates(dirs.drop_last(), names) + names.map_values(
            |n: Seq<char>| path_join(dirs.last(), n),
        ),
    decreases dirs.len(),
{
    if dirs.len() == 1 {
        assert(dirs.drop_last() =~= Seq::<Seq<char>>::empty());
        assert(candidates(dirs.drop_first(), names) =~= Seq::<Seq<char>>::empty());
    } else {
        lemma_candidates_push(dirs.drop_first(), names);
        assert(dirs.drop_first().drop_last() =~= dirs.drop_last().drop_first());
        assert(dirs.drop_last()[0] == dirs[0]);
    }
}

/// The ancestors of `start`, nearest first.
pub fn ancestor_chain(start: &str) -> (r: Vec<String>)
    ensures
        r@.map_values(|s: String| s@) == ancestors(start@),
{
    let mut out: Vec<String> = Vec::new();
    let mut current: String = start.to_owned();
    loop
        invariant
            out@.map_values(|s: String| s@) + ancestors(current@) == ancestors(start@),
        decreases current@.len(),
    {
        let next = parent(current.as_str());
        let ghost before = out@;
        let ghost cur = current@;
        match next {
            Some(q) => {
                out.push(current);
                proof {
                    assert(out@.map_values(|s: String| s@) =~= before.map_values(|s: String| s@).push(cur));
                    assert(ancestors(cur) == seq![cur] + ancestors(q@));
                    assert(out@.map_values(|s: String| s@) + ancestors(q@) =~= before.map_values(|s: String| s@) + ancestors(cur));
                }
                current = q;
            }
            None => {
                out.push(current);
                proof {
                    assert(out@.map_values(|s: String| s@) =~= before.map_values(|s: String| s@).push(cur));
                    assert(ancestors(cur) == seq![cur]);
                    assert(out@.map_values(|s: String| s@) =~= before.map_values(|s: String| s@) + ancestors(cur));
                }
                return out;
            }
        }
    }
}


/// The first of `candidates` whose answer in `present` is yes, one answer
/// per candidate, in the same order.
pub fn first_present_of(candidates: &Vec<String>, present: &Vec<bool>) -> (r: Option<String>)
    requires
        candidates@.len() == present@.len(),
    ensures
        opt_view(r) == first_present(strings_view(candidates@), present@),
{
    let ghost all = strings_view(candidates@);
    let mut i: usize = 0;
    while i < candidates.len()
        invariant
            all == strings_view(candidates@),
            candidates@.len() == present@.len(),
            i <= candidates@.len(),
            forall|j: int| 0 <= j < i ==> !present@[j],
        decreases candidates@.len() - i,
    {
        if present[i] {
            proof {
                lemma_kept_first(all, present@, i as int);
            }
            return Some(candidates[i].clone());
        }
        i = i + 1;
    }
    proof {
        lemma_kept_none(all, present@);
    }
    None
}

/// Every `dir/name`, nearest directory first, then name order (see
/// [`candidates`]).
pub fn candidate_paths(dirs: &Vec<String>, names: &Vec<String>) -> (r: Vec<String>)
    ensures
        strings_view(r@) == candidates(strings_view(dirs@), strings_view(names@)),
{
    let ghost ds = strings_view(dirs@);
    let ghost ns = strings_view(names@);
    let mut out: Vec<String> = Vec::new();
    let mut i: usize = 0;
    assert(candidates(ds.subrange(0, 0), ns) =~= Seq::<Seq<char>>::empty()) by {
        assert(ds.subrange(0, 0) =~= Seq::<Seq<char>>::empty());
    }
    while i < dirs.len()
        invariant
            ds == strings_view(dirs@),
            ns == strings_view(names@),
            i <= dirs@.len(),
            strings_view(out@) == candidates(ds.subrange(0, i as int), ns),
        decreases dirs@.len() - i,
    {
        let ghost before = strings_view(out@);
        let mut k: usize = 0;
        while k < names.len()
            invariant
                ds == strings_view(dirs@),
                ns == strings_view(names@),
                i < dirs@.len(),
                k <= names@.len(),
                strings_view(out@) == before + ns.subrange(0, k as int).map_values(
                    |n: Seq<char>| path_join(ds[i as int], n),
                ),
            decreases names@.len() - k,
        {
            let p = join(dirs[i].as_str(), names[k].as_str());
            let ghost prev = strings_view(out@);
            out.push(p);
            assert(strings_view(out@) =~= prev.push(p@));
            assert(ns.subrange(0, k + 1).map_values(|n: Seq<char>| path_join(ds[i as int], n)) =~= ns.subrange(
                0,
                k as int,
            ).map_values(|n: Seq<char>| path_join(ds[i as int], n)).push(path_join(ds[i as int], ns[k as int])));
            k = k + 1;
        }
        proof {
            assert(ns.subrange(0, ns.len() as int) =~= ns);
            lemma_candidates_push(ds.subrange(0, i + 1), ns);
            assert(ds.subrange(0, i + 1).drop_last() =~= ds.subrange(0, i as int));
            assert(ds.subrange(0, i + 1).last() == ds[i as int]);
        }
        i = i + 1;
    }
    assert(ds.subrange(0, dirs@.len() as int) =~= ds);
    out
}

/// Ask the filesystem, for each of `paths` in turn, whether it is a file.
/// The answers are the disk's; only that there is one per path is known.
pub fn probe_files(paths: &Vec<String>) -> (r: Vec<bool>)
    ensures
        r@.len() == paths@.len(),
{
    let mut out: Vec<bool> = Vec::new();
    let mut i: usize = 0;
    while i < paths.len()
        invariant
            i <= paths@.len(),
            out@.len() == i,
        decreases paths@.len() - i,
    {
        out.push(is_file(paths[i].as_str()));
        i = i + 1;
    }
    out
}
} // verus!
