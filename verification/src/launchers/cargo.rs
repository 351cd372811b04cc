//! Entries for a Cargo project.
//!
//! Cargo finds the manifest itself, so the commands need no `cd` prefix. The
//! subcommands that ship as optional toolchain components (`rustfmt`,
//! `clippy`) are offered only once they are known to be installed: a
//! `cargo clippy` entry that fails for a missing component would be worse
//! than none. `cargo run` is offered only when it can resolve a target.

use vstd::prelude::*;

use super::{LauncherGroup, quote, quoted};
use crate::config::model::{ItemView, MenuItem, command_view, items_view, lemma_items_view};
use crate::order::{lex_le, lex_lt, lemma_lex_total, lemma_lex_transitive, less_than};
use crate::text::{
    chars_of, clone_strings, contains_string, join, join_strings, push_chars, push_str, same_chars,
    string_of, strings_view,
};

verus! {

/// One `[[bin]]` table of the manifest, as far as it matters here.
#[derive(Debug)]
pub struct BinEntry {
    /// `name`, when it is a string.
    pub name: Option<String>,
    /// `path`, when it is a string.
    pub path: Option<String>,
    /// The strings of `required-features`.
    pub required_features: Vec<String>,
}

/// What a `Cargo.toml` says about the package's binaries.
#[derive(Debug)]
pub struct Manifest {
    /// Whether there is a `[package]` table; a virtual workspace has none.
    pub has_package: bool,
    /// `package.name`, when it is a string.
    pub package_name: Option<String>,
    /// `package.autobins`, `true` unless set to `false`.
    pub autobins: bool,
    /// The `[[bin]]` tables, in order.
    pub bins: Vec<BinEntry>,
}

/// An entry of the package's `src/bin` directory.
#[derive(Debug)]
pub struct BinSource {
    /// The entry's file name.
    pub file_name: String,
    /// Whether it is a directory holding a `main.rs`.
    pub dir_with_main: bool,
}

/// What the disk says about the package's sources.
#[derive(Debug)]
pub struct Sources {
    /// Whether `src/main.rs` is a file.
    pub main_rs: bool,
    /// The entries of `src/bin`, in directory order; empty when there is none.
    pub bin_dir: Vec<BinSource>,
}

/// A binary target Cargo can run.
#[derive(Debug)]
pub struct BinTarget {
    pub name: String,
    /// `required-features` from the manifest: without passing these, Cargo
    /// refuses to run the target.
    pub required_features: Vec<String>,
}

impl BinTarget {
    /// A target named `name` that needs no features.
    pub fn new(name: &str) -> (r: BinTarget)
        ensures
            r@ == (name@, Seq::<Seq<char>>::empty()),
    {
        let r = BinTarget { name: name.to_owned(), required_features: Vec::new() };
        assert(strings_view(r.required_features@) =~= Seq::<Seq<char>>::empty());
        r
    }
}

/// A target as its name and required features.
pub type TargetView = (Seq<char>, Seq<Seq<char>>);

impl View for BinTarget {
    type V = TargetView;

    open spec fn view(&self) -> TargetView {
        (self.name@, strings_view(self.required_features@))
    }
}

/// A `[[bin]]` table as its name, path and required features.
pub type EntryView = (Option<Seq<char>>, Option<Seq<char>>, Seq<Seq<char>>);

impl View for BinEntry {
    type V = EntryView;

    open spec fn view(&self) -> EntryView {
        (crate::text::opt_view(self.name), crate::text::opt_view(self.path), strings_view(self.required_features@))
    }
}

impl View for BinSource {
    type V = (Seq<char>, bool);

    open spec fn view(&self) -> (Seq<char>, bool) {
        (self.file_name@, self.dir_with_main)
    }
}

// ---------------------------------------------------------------------------
// The manifest as TOML
// ---------------------------------------------------------------------------

/// A TOML value as far as a manifest is read here: strings, booleans, arrays
/// and tables, with numbers and dates all `Other`. A table keeps its keys in
/// the order the parser hands them out.
#[derive(Debug)]
pub enum Toml {
    Str(String),
    Bool(bool),
    Array(Vec<Toml>),
    Table(Vec<(String, Toml)>),
    Other,
}

/// A [`Toml`] value with its strings as character sequences.
pub enum TomlView {
    Str(Seq<char>),
    Bool(bool),
    Array(Seq<TomlView>),
    Table(Seq<(Seq<char>, TomlView)>),
    Other,
}

/// The view of a TOML value.
pub open spec fn toml_view(t: Toml) -> TomlView
    decreases t,
{
    match t {
        Toml::Str(s) => TomlView::Str(s@),
        Toml::Bool(b) => TomlView::Bool(b),
        Toml::Array(items) => TomlView::Array(
            Seq::new(
                items.len() as nat,
                |i: int|
                    if 0 <= i < items.len() {
                        toml_view(items@[i])
                    } else {
                        TomlView::Other
                    },
            ),
        ),
        Toml::Table(entries) => TomlView::Table(
            Seq::new(
                entries.len() as nat,
                |i: int|
                    if 0 <= i < entries.len() {
                        (entries@[i].0@, toml_view(entries@[i].1))
                    } else {
                        (Seq::empty(), TomlView::Other)
                    },
            ),
        ),
        Toml::Other => TomlView::Other,
    }
}

impl View for Toml {
    type V = TomlView;

    open spec fn view(&self) -> TomlView {
        toml_view(*self)
    }
}

/// Declares the `toml` crate's value type, which the parser hands out.
#[verifier::external_type_specification]
#[verifier::external_body]
pub struct ExTomlValue(toml::Value);

/// The value of the TOML document `text`, as `toml::from_str` parses it into
/// a `toml::Value`; `None` when the text is not a TOML document.
pub uninterp spec fn toml_of(text: Seq<char>) -> Option<TomlView>;

/// The view of a parsed document, if any.
pub open spec fn toml_opt_view(t: Option<Toml>) -> Option<TomlView> {
    match t {
        Some(v) => Some(v@),
        None => None,
    }
}

/// A `toml::Value` as a [`Toml`], variant for variant: strings, booleans,
/// arrays and tables keep their contents, every other value is `Other`.
#[verifier::external_body]
fn toml_tree(v: &toml::Value) -> Toml {
    match v {
        toml::Value::String(s) => Toml::Str(s.clone()),
        toml::Value::Boolean(b) => Toml::Bool(*b),
        toml::Value::Array(items) => Toml::Array(items.iter().map(toml_tree).collect()),
        toml::Value::Table(t) => Toml::Table(t.iter().map(|(k, x)| (k.clone(), toml_tree(x))).collect()),
        _ => Toml::Other,
    }
}

/// Parses `text` with `toml::from_str` into a `toml::Value`. The contract
/// claims that the result, seen through [`toml_tree`], is [`toml_of`] of the
/// text: a function of the text alone, `None` exactly when the parser
/// refuses it. What the parser accepts, and how it builds the value, is left
/// to the `toml` crate.
#[verifier::external_body]
pub(crate) fn parse_toml(text: &str) -> (r: Option<Toml>)
    ensures
        toml_opt_view(r) == toml_of(text@),
{
    toml::from_str::<toml::Value>(text).ok().map(|v| toml_tree(&v))
}

/// The value under `key` in the table `entries`: the first entry with that
/// key (a parsed table has each key once).
pub open spec fn lookup(entries: Seq<(Seq<char>, TomlView)>, key: Seq<char>) -> Option<TomlView>
    decreases entries.len(),
{
    if entries.len() == 0 {
        None
    } else if entries[0].0 == key {
        Some(entries[0].1)
    } else {
        lookup(entries.drop_first(), key)
    }
}

/// The value under `key` when `v` is a table holding it.
pub open spec fn field(v: TomlView, key: Seq<char>) -> Option<TomlView> {
    match v {
        TomlView::Table(entries) => lookup(entries, key),
        _ => None,
    }
}

/// The string that `v` is, if it is one.
pub open spec fn str_of(v: Option<TomlView>) -> Option<Seq<char>> {
    match v {
        Some(TomlView::Str(s)) => Some(s),
        _ => None,
    }
}

/// The items of `v` when it is an array; none otherwise.
pub open spec fn array_of(v: Option<TomlView>) -> Seq<TomlView> {
    match v {
        Some(TomlView::Array(items)) => items,
        _ => Seq::empty(),
    }
}

/// The strings among `items`, in order; other values are skipped.
pub open spec fn strings_in(items: Seq<TomlView>) -> Seq<Seq<char>>
    decreases items.len(),
{
    if items.len() == 0 {
        Seq::empty()
    } else {
        let rest = strings_in(items.drop_last());
        match items.last() {
            TomlView::Str(s) => rest.push(s),
            _ => rest,
        }
    }
}

/// A `[[bin]]` table read as its `name`, `path` and `required-features`.
pub open spec fn entry_spec(e: TomlView) -> EntryView {
    (str_of(field(e, "name"@)), str_of(field(e, "path"@)), strings_in(array_of(field(e, "required-features"@))))
}

/// What a manifest says about binaries, as [`Manifest`] holds it.
pub struct ManifestView {
    pub has_package: bool,
    pub package_name: Option<Seq<char>>,
    pub autobins: bool,
    pub bins: Seq<EntryView>,
}

impl View for Manifest {
    type V = ManifestView;

    open spec fn view(&self) -> ManifestView {
        ManifestView {
            has_package: self.has_package,
            package_name: crate::text::opt_view(self.package_name),
            autobins: self.autobins,
            bins: self.bins@.map_values(|e: BinEntry| e@),
        }
    }
}

/// The manifest that the document `v` is: a `package` key of any kind makes
/// a package, whose `name` counts when it is a string and whose `autobins`
/// is `true` unless it is the boolean `false`; the `[[bin]]` tables are the
/// items of the `bin` array.
pub open spec fn manifest_spec(v: TomlView) -> ManifestView {
    let package = field(v, "package"@);
    ManifestView {
        has_package: package is Some,
        package_name: match package {
            Some(p) => str_of(field(p, "name"@)),
            None => None,
        },
        autobins: match package {
            Some(p) => match field(p, "autobins"@) {
                Some(TomlView::Bool(b)) => b,
                _ => true,
            },
            None => true,
        },
        bins: array_of(field(v, "bin"@)).map_values(|e: TomlView| entry_spec(e)),
    }
}

/// The value under `key` when `v` is a table holding it.
fn field_of<'a>(v: &'a Toml, key: &str) -> (r: Option<&'a Toml>)
    ensures
        match r {
            Some(t) => field(v@, key@) == Some(t@),
            None => field(v@, key@) is None,
        },
{
    match v {
        Toml::Table(entries) => {
            let k = key.to_owned();
            let ghost ev = match v@ {
                TomlView::Table(e) => e,
                _ => Seq::empty(),
            };
            assert(ev.subrange(0, ev.len() as int) =~= ev);
            let mut i: usize = 0;
            while i < entries.len()
                invariant
                    v@ == TomlView::Table(ev),
                    i <= entries@.len(),
                    ev.len() == entries@.len(),
                    k@ == key@,
                    forall|j: int| 0 <= j < entries@.len() ==> #[trigger] ev[j] == (entries@[j].0@, entries@[j].1@),
                    lookup(ev, key@) == lookup(ev.subrange(i as int, ev.len() as int), key@),
                decreases entries@.len() - i,
            {
                let ghost rest = ev.subrange(i as int, ev.len() as int);
                assert(rest[0] == ev[i as int]);
                if entries[i].0 == k {
                    assert(rest[0].0 == key@);
                    assert(lookup(rest, key@) == Some(rest[0].1));
                    return Some(&entries[i].1);
                }
                assert(rest.drop_first() =~= ev.subrange(i + 1, ev.len() as int));
                i = i + 1;
            }
            None
        },
        _ => None,
    }
}

/// The strings of the array `v`, when it is one.
fn string_items(v: Option<&Toml>) -> (r: Vec<String>)
    ensures
        strings_view(r@) == strings_in(array_of(
            match v {
                Some(t) => Some(t@),
                None => None,
            },
        )),
{
    let mut out: Vec<String> = Vec::new();
    if let Some(Toml::Array(items)) = v {
        let ghost iv = array_of(Some(v->0@));
        let mut i: usize = 0;
        while i < items.len()
            invariant
                i <= items@.len(),
                iv.len() == items@.len(),
                forall|j: int| 0 <= j < items@.len() ==> #[trigger] iv[j] == items@[j]@,
                strings_view(out@) == strings_in(iv.subrange(0, i as int)),
            decreases items@.len() - i,
        {
            let ghost before = out@;
            assert(iv.subrange(0, i + 1).drop_last() =~= iv.subrange(0, i as int));
            if let Toml::Str(s) = &items[i] {
                out.push(s.clone());
                assert(strings_view(out@) =~= strings_view(before).push(s@));
            }
            i = i + 1;
        }
        assert(iv.subrange(0, iv.len() as int) =~= iv);
    }
    out
}

/// The string under `key` in `v`, if it is one.
fn str_field(v: &Toml, key: &str) -> (r: Option<String>)
    ensures
        crate::text::opt_view(r) == str_of(field(v@, key@)),
{
    match field_of(v, key) {
        Some(Toml::Str(s)) => Some(s.clone()),
        _ => None,
    }
}

/// A `[[bin]]` table as a [`BinEntry`].
fn entry_of(e: &Toml) -> (r: BinEntry)
    ensures
        r@ == entry_spec(e@),
{
    let name = str_field(e, "name");
    let path = str_field(e, "path");
    let required_features = string_items(field_of(e, "required-features"));
    BinEntry { name, path, required_features }
}

/// What the document `v` says about binaries: see [`manifest_spec`].
pub fn manifest_of(v: &Toml) -> (m: Manifest)
    ensures
        m@ == manifest_spec(v@),
{
    let package = field_of(v, "package");
    let (has_package, package_name, autobins) = match package {
        Some(p) => {
            let autobins = match field_of(p, "autobins") {
                Some(Toml::Bool(b)) => *b,
                _ => true,
            };
            (true, str_field(p, "name"), autobins)
        },
        None => (false, None, true),
    };
    let mut bins: Vec<BinEntry> = Vec::new();
    if let Some(Toml::Array(items)) = field_of(v, "bin") {
        let ghost iv = array_of(field(v@, "bin"@));
        let mut i: usize = 0;
        while i < items.len()
            invariant
                i <= items@.len(),
                iv.len() == items@.len(),
                forall|j: int| 0 <= j < items@.len() ==> #[trigger] iv[j] == items@[j]@,
                bins@.map_values(|e: BinEntry| e@) == iv.subrange(0, i as int).map_values(
                    |e: TomlView| entry_spec(e),
                ),
            decreases items@.len() - i,
        {
            let e = entry_of(&items[i]);
            let ghost before = bins@.map_values(|e: BinEntry| e@);
            bins.push(e);
            assert(bins@.map_values(|e: BinEntry| e@) =~= before.push(entry_spec(iv[i as int])));
            assert(iv.subrange(0, i + 1).map_values(|e: TomlView| entry_spec(e)) =~= iv.subrange(
                0,
                i as int,
            ).map_values(|e: TomlView| entry_spec(e)).push(entry_spec(iv[i as int])));
            assert(bins@.map_values(|e: BinEntry| e@) =~= iv.subrange(0, i + 1).map_values(
                |e: TomlView| entry_spec(e),
            ));
            i = i + 1;
        }
        assert(iv.subrange(0, iv.len() as int) =~= iv);
    }
    let m = Manifest { has_package, package_name, autobins, bins };
    assert(m@.bins =~= manifest_spec(v@).bins);
    m
}

// ---------------------------------------------------------------------------
// Paths as written in a manifest
// ---------------------------------------------------------------------------

/// `p` with every `\` written as `/`.
pub open spec fn slashes(p: Seq<char>) -> Seq<char> {
    p.map_values(|c: char| if c == '\\' { '/' } else { c })
}

/// `p` without any leading `./`.
pub open spec fn trim_dot_slash(p: Seq<char>) -> Seq<char>
    decreases p.len(),
{
    if p.len() >= 2 && p[0] == '.' && p[1] == '/' {
        trim_dot_slash(p.subrange(2, p.len() as int))
    } else {
        p
    }
}

/// A manifest path put in the form paths are compared in: `./src/main.rs`
/// and `src\main.rs` both become `src/main.rs`.
pub open spec fn normalized(p: Seq<char>) -> Seq<char> {
    trim_dot_slash(slashes(p))
}

/// Normalise a manifest path for comparison (see [`normalized`]).
pub fn normalize_path(path: &str) -> (r: String)
    ensures
        r@ == normalized(path@),
{
    let src = chars_of(path);
    let mut s: Vec<char> = Vec::new();
    let mut i: usize = 0;
    while i < src.len()
        invariant
            src@ == path@,
            i <= src@.len(),
            s@ == slashes(src@.subrange(0, i as int)),
        decreases src@.len() - i,
    {
        if src[i] == '\\' {
            s.push('/');
        } else {
            s.push(src[i]);
        }
        assert(slashes(src@.subrange(0, i + 1)) =~= slashes(src@.subrange(0, i as int)).push(s@.last()));
        i = i + 1;
    }
    assert(src@.subrange(0, src@.len() as int) =~= src@);
    let mut start: usize = 0;
    assert(s@.subrange(0, s@.len() as int) =~= s@);
    while start < s.len() && s.len() - start >= 2 && s[start] == '.' && s[start + 1] == '/'
        invariant
            start <= s@.len(),
            trim_dot_slash(s@.subrange(start as int, s@.len() as int)) == normalized(path@),
        decreases s@.len() - start,
    {
        proof {
            let rest = s@.subrange(start as int, s@.len() as int);
            assert(rest.subrange(2, rest.len() as int) =~= s@.subrange(start + 2, s@.len() as int));
        }
        start = start + 2;
    }
    let mut out: Vec<char> = Vec::new();
    let mut k: usize = start;
    while k < s.len()
        invariant
            start <= k <= s@.len(),
            out@ == s@.subrange(start as int, k as int),
        decreases s@.len() - k,
    {
        out.push(s[k]);
        assert(s@.subrange(start as int, k + 1) =~= out@);
        k = k + 1;
    }
    assert(trim_dot_slash(out@) == out@);
    string_of(&out)
}

// ---------------------------------------------------------------------------
// Which binaries Cargo sees
// ---------------------------------------------------------------------------

/// The explicit targets: every `[[bin]]` with a name, in order.
pub open spec fn explicit_targets(entries: Seq<EntryView>) -> Seq<TargetView>
    decreases entries.len(),
{
    if entries.len() == 0 {
        Seq::empty()
    } else {
        let rest = explicit_targets(entries.drop_last());
        let e = entries.last();
        if e.0 is Some {
            rest.push((e.0->0, e.2))
        } else {
            rest
        }
    }
}

/// The source files explicit targets own: the normalised `path` of every
/// `[[bin]]` that has one. Cargo does not auto-discover such a file.
pub open spec fn claimed_paths(entries: Seq<EntryView>) -> Seq<Seq<char>>
    decreases entries.len(),
{
    if entries.len() == 0 {
        Seq::empty()
    } else {
        let rest = claimed_paths(entries.drop_last());
        let e = entries.last();
        if e.1 is Some {
            rest.push(normalized(e.1->0))
        } else {
            rest
        }
    }
}

/// Whether a target named `name` is among `bins`.
pub open spec fn has_target(bins: Seq<TargetView>, name: Seq<char>) -> bool {
    exists|i: int| 0 <= i < bins.len() && (#[trigger] bins[i]).0 == name
}

/// `bins` with a target `name` added, unless one by that name is there.
pub open spec fn with_target(bins: Seq<TargetView>, name: Seq<char>) -> Seq<TargetView> {
    if has_target(bins, name) {
        bins
    } else {
        bins.push((name, Seq::empty()))
    }
}

/// The binary name and source file of a `src/bin` entry: `foo/main.rs` and
/// `foo.rs` are both the binary `foo`; anything else is none.
pub open spec fn bin_source(e: (Seq<char>, bool)) -> Option<(Seq<char>, Seq<char>)> {
    let (file, dir_with_main) = e;
    if dir_with_main {
        Some((file, "src/bin/"@ + file + "/main.rs"@))
    } else if file.len() > 3 && file.subrange(file.len() - 3, file.len() as int) == ".rs"@ {
        Some((file.subrange(0, file.len() - 3), "src/bin/"@ + file))
    } else {
        None
    }
}

/// `bins` after looking at the `src/bin` entries `dir`, in order: each one
/// names a binary unless an explicit target owns its source file or a
/// target by that name is already there.
pub open spec fn with_bin_dir(bins: Seq<TargetView>, claimed: Seq<Seq<char>>, dir: Seq<(Seq<char>, bool)>) -> Seq<TargetView>
    decreases dir.len(),
{
    if dir.len() == 0 {
        bins
    } else {
        let next = match bin_source(dir[0]) {
            Some((name, source)) => if claimed.contains(normalized(source)) {
                bins
            } else {
                with_target(bins, name)
            },
            None => bins,
        };
        with_bin_dir(next, claimed, dir.drop_first())
    }
}

/// The explicit targets, then the implicit one from `src/main.rs` (named
/// after the package, unless an explicit target owns that file), then those
/// of `src/bin`, before sorting.
pub open spec fn discovered(m: ManifestView, s: Sources) -> Seq<TargetView> {
    let entries = m.bins;
    let explicit = explicit_targets(entries);
    let claimed = claimed_paths(entries);
    let with_main = if s.main_rs && !claimed.contains("src/main.rs"@) && m.package_name is Some {
        with_target(explicit, m.package_name->0)
    } else {
        explicit
    };
    with_bin_dir(with_main, claimed, s.bin_dir@.map_values(|b: BinSource| b@))
}

/// Targets in ascending name order.
pub open spec fn by_name(bins: Seq<TargetView>) -> bool {
    forall|i: int, j: int| 0 <= i < j < bins.len() ==> lex_le((#[trigger] bins[i]).0, (#[trigger] bins[j]).0)
}

proof fn lemma_explicit_push(entries: Seq<EntryView>, e: EntryView)
    ensures
        explicit_targets(entries.push(e)) == if e.0 is Some {
            explicit_targets(entries).push((e.0->0, e.2))
        } else {
            explicit_targets(entries)
        },
        claimed_paths(entries.push(e)) == if e.1 is Some {
            claimed_paths(entries).push(normalized(e.1->0))
        } else {
            claimed_paths(entries)
        },
{
    assert(entries.push(e).drop_last() =~= entries);
}

fn has_target_exec(bins: &Vec<BinTarget>, name: &str) -> (r: bool)
    ensures
        r == has_target(bins@.map_values(|b: BinTarget| b@), name@),
{
    let ghost bv = bins@.map_values(|b: BinTarget| b@);
    let mut i: usize = 0;
    while i < bins.len()
        invariant
            bv == bins@.map_values(|b: BinTarget| b@),
            i <= bins@.len(),
            forall|k: int| 0 <= k < i ==> bv[k].0 != name@,
        decreases bins@.len() - i,
    {
        if same_chars(&chars_of(bins[i].name.as_str()), &chars_of(name)) {
            assert(bv[i as int].0 == name@);
            return true;
        }
        i = i + 1;
    }
    false
}

fn push_target(bins: &mut Vec<BinTarget>, name: &str)
    ensures
        final(bins)@.map_values(|b: BinTarget| b@) == with_target(old(bins)@.map_values(|b: BinTarget| b@), name@),
{
    if !has_target_exec(bins, name) {
        let ghost before = bins@;
        bins.push(BinTarget::new(name));
        proof {
            assert(bins@.map_values(|b: BinTarget| b@) =~= before.map_values(|b: BinTarget| b@).push(
                (name@, Seq::<Seq<char>>::empty()),
            ));
        }
    }
}

fn bin_source_exec(e: &BinSource) -> (r: Option<(String, String)>)
    ensures
        match r {
            None => bin_source(e@) is None,
            Some((n, s)) => bin_source(e@) == Some((n@, s@)),
        },
{
    let f = chars_of(e.file_name.as_str());
    proof {
        reveal_strlit("src/bin/");
        reveal_strlit("/main.rs");
        reveal_strlit(".rs");
    }
    if e.dir_with_main {
        let mut s: Vec<char> = Vec::new();
        push_str(&mut s, "src/bin/");
        push_chars(&mut s, &f);
        push_str(&mut s, "/main.rs");
        assert(s@ =~= "src/bin/"@ + f@ + "/main.rs"@);
        return Some((e.file_name.clone(), string_of(&s)));
    }
    let n = f.len();
    if n > 3 && f[n - 3] == '.' && f[n - 2] == 'r' && f[n - 1] == 's' {
        let stem = crate::text::slice(&f, 0, n - 3);
        let mut s: Vec<char> = Vec::new();
        push_str(&mut s, "src/bin/");
        push_chars(&mut s, &f);
        assert(f@.subrange(n - 3, n as int) =~= ".rs"@);
        assert(s@ =~= "src/bin/"@ + f@);
        return Some((string_of(&stem), string_of(&s)));
    }
    proof {
        if n > 3 && f@.subrange(n - 3, n as int) == ".rs"@ {
            assert(f@[n - 3] == f@.subrange(n - 3, n as int)[0]);
            assert(f@[n - 2] == f@.subrange(n - 3, n as int)[1]);
            assert(f@[n - 1] == f@.subrange(n - 3, n as int)[2]);
        }
    }
    None
}

/// The targets as views.
pub open spec fn targets_view(bins: Seq<BinTarget>) -> Seq<TargetView> {
    bins.map_values(|b: BinTarget| b@)
}

/// The targets of `bins` named `name`, in their order.
pub open spec fn named(bins: Seq<TargetView>, name: Seq<char>) -> Seq<TargetView> {
    bins.filter(|t: TargetView| t.0 == name)
}

proof fn lemma_named_push(s: Seq<TargetView>, x: TargetView, n: Seq<char>)
    ensures
        named(s.push(x), n) == if x.0 == n {
            named(s, n).push(x)
        } else {
            named(s, n)
        },
{
    reveal(Seq::filter);
    assert(s.push(x).drop_last() =~= s);
}

proof fn lemma_named_add(a: Seq<TargetView>, b: Seq<TargetView>, n: Seq<char>)
    ensures
        named(a + b, n) == named(a, n) + named(b, n),
    decreases b.len(),
{
    reveal(Seq::filter);
    if b.len() == 0 {
        assert(a + b =~= a);
        assert(named(b, n) =~= Seq::<TargetView>::empty());
        assert(named(a, n) + named(b, n) =~= named(a, n));
    } else {
        let c = b.drop_last();
        let y = b.last();
        assert(b =~= c.push(y));
        assert(a + b =~= (a + c).push(y));
        lemma_named_add(a, c, n);
        lemma_named_push(a + c, y, n);
        lemma_named_push(c, y, n);
        if y.0 == n {
            assert(named(a, n) + named(c, n).push(y) =~= (named(a, n) + named(c, n)).push(y));
        }
    }
}

proof fn lemma_named_none(b: Seq<TargetView>, n: Seq<char>)
    requires
        forall|k: int| 0 <= k < b.len() ==> (#[trigger] b[k]).0 != n,
    ensures
        named(b, n) == Seq::<TargetView>::empty(),
    decreases b.len(),
{
    reveal(Seq::filter);
    if b.len() > 0 {
        let c = b.drop_last();
        assert(b =~= c.push(b.last()));
        lemma_named_none(c, n);
        lemma_named_push(c, b.last(), n);
    } else {
        assert(named(b, n) =~= Seq::<TargetView>::empty());
    }
}

/// Insert-sort `bins` by name, keeping targets with equal names in order.
fn sort_by_name(bins: Vec<BinTarget>) -> (r: Vec<BinTarget>)
    ensures
        r@.map_values(|b: BinTarget| b@).to_multiset() == bins@.map_values(|b: BinTarget| b@).to_multiset(),
        by_name(r@.map_values(|b: BinTarget| b@)),
        forall|n: Seq<char>|
            #[trigger] named(targets_view(r@), n) == named(targets_view(bins@), n),
{
    let ghost nv = bins@.map_values(|b: BinTarget| b@);
    let mut rest = bins;
    let mut taken: usize = 0;
    let mut out: Vec<BinTarget> = Vec::new();
    let ghost orig = rest@;
    let n = rest.len();
    assert(rest@ =~= orig.subrange(0, orig.len() as int));
    assert(out@.map_values(|b: BinTarget| b@) =~= Seq::<TargetView>::empty());
    assert(nv.subrange(0, 0) =~= Seq::<TargetView>::empty());
    while rest.len() > 0
        invariant
            nv == orig.map_values(|b: BinTarget| b@),
            taken + rest@.len() == orig.len(),
            orig.len() == n,
            rest@ == orig.subrange(taken as int, orig.len() as int),
            out@.map_values(|b: BinTarget| b@).to_multiset() == nv.subrange(0, taken as int).to_multiset(),
            by_name(out@.map_values(|b: BinTarget| b@)),
            forall|n: Seq<char>|
                #[trigger] named(targets_view(out@), n) == named(nv.subrange(0, taken as int), n),
        decreases rest@.len(),
    {
        let x = rest.remove(0);
        proof {
            assert(x == orig[taken as int]);
        }
        let ghost ov = targets_view(out@);
        let mut p: usize = 0;
        while p < out.len() && !less_than(x.name.as_str(), out[p].name.as_str())
            invariant
                ov == out@.map_values(|b: BinTarget| b@),
                p <= out@.len(),
                forall|k: int| 0 <= k < p ==> lex_le((#[trigger] ov[k]).0, x.name@),
            decreases out@.len() - p,
        {
            proof {
                lemma_lex_total(x.name@, ov[p as int].0);
            }
            p = p + 1;
        }
        let ghost xv = x@;
        out.insert(p, x);
        proof {
            let nw = out@.map_values(|b: BinTarget| b@);
            assert(nw =~= ov.insert(p as int, xv));
            assert forall|a: int, b: int| 0 <= a < b < nw.len() implies lex_le(
                (#[trigger] nw[a]).0,
                (#[trigger] nw[b]).0,
            ) by {
                if b < p {
                    assert(nw[a] == ov[a] && nw[b] == ov[b]);
                } else if b == p {
                    assert(nw[a] == ov[a]);
                } else if a > p {
                    assert(nw[a] == ov[a - 1] && nw[b] == ov[b - 1]);
                } else if a == p {
                    assert(lex_lt(xv.0, ov[p as int].0));
                    assert(nw[b] == ov[b - 1]);
                    if b - 1 > p {
                        assert(lex_le(ov[p as int].0, ov[b - 1].0));
                        if ov[p as int].0 != ov[b - 1].0 {
                            lemma_lex_transitive(xv.0, ov[p as int].0, ov[b - 1].0);
                        }
                    }
                } else {
                    assert(nw[a] == ov[a] && nw[b] == ov[b - 1]);
                    assert(lex_le(ov[a].0, xv.0));
                    assert(lex_lt(xv.0, ov[p as int].0));
                    if b - 1 > p {
                        assert(lex_le(ov[p as int].0, ov[b - 1].0));
                    }
                    assert(lex_le(ov[a].0, ov[p as int].0)) by {
                        if ov[a].0 != xv.0 {
                            lemma_lex_transitive(ov[a].0, xv.0, ov[p as int].0);
                        }
                    }
                    if ov[a].0 != ov[p as int].0 && ov[p as int].0 != ov[b - 1].0 && b - 1 > p {
                        lemma_lex_transitive(ov[a].0, ov[p as int].0, ov[b - 1].0);
                    }
                }
            }
            vstd::seq_lib::to_multiset_insert(ov, p as int, xv);
            assert(nv.subrange(0, taken + 1) =~= nv.subrange(0, taken as int).push(nv[taken as int]));
            let front = ov.subrange(0, p as int);
            let back = ov.subrange(p as int, ov.len() as int);
            assert(nw =~= front + seq![xv] + back);
            assert(ov =~= front + back);
            assert forall|k: int| 0 <= k < back.len() implies (#[trigger] back[k]).0 != xv.0 by {
                assert(back[k] == ov[p + k]);
                assert(lex_lt(xv.0, ov[p as int].0));
                if k > 0 {
                    assert(lex_le(ov[p as int].0, ov[p + k].0));
                }
                if ov[p + k].0 == xv.0 {
                    if ov[p as int].0 != xv.0 {
                        lemma_lex_transitive(xv.0, ov[p as int].0, xv.0);
                    }
                    crate::order::lemma_lex_irreflexive(xv.0);
                }
            }
            assert forall|n: Seq<char>| #[trigger] named(nw, n) == named(nv.subrange(0, taken + 1), n) by {
                assert(named(ov, n) == named(nv.subrange(0, taken as int), n));
                lemma_named_add(front + seq![xv], back, n);
                lemma_named_add(front, seq![xv], n);
                lemma_named_add(front, back, n);
                lemma_named_push(Seq::<TargetView>::empty(), xv, n);
                assert(seq![xv] =~= Seq::<TargetView>::empty().push(xv));
                lemma_named_none(Seq::<TargetView>::empty(), n);
                lemma_named_push(nv.subrange(0, taken as int), nv[taken as int], n);
                if xv.0 == n {
                    lemma_named_none(back, n);
                    assert(named(front, n) + seq![xv] =~= named(front, n).push(xv));
                    assert(named(front, n) + named(back, n) =~= named(front, n));
                    assert(named(nw, n) =~= named(ov, n).push(xv));
                } else {
                    assert(named(seq![xv], n) =~= Seq::<TargetView>::empty());
                    assert(named(front, n) + Seq::<TargetView>::empty() =~= named(front, n));
                    assert(named(nw, n) =~= named(ov, n));
                }
            }
            vstd::seq_lib::to_multiset_build(nv.subrange(0, taken as int), nv[taken as int]);
            assert(rest@ =~= orig.subrange(taken + 1, orig.len() as int));
        }
        taken = taken + 1;
    }
    assert(nv.subrange(0, orig.len() as int) =~= nv);
    out
}

/// Every binary Cargo would see for this manifest, when `sources` says what
/// is on disk next to it (`None` when there is no directory to look in).
///
/// A virtual workspace (no `[package]`) has no targets of its own. Without
/// auto-discovery (`autobins = false`, or no directory) the targets are the
/// explicit ones, in manifest order. Otherwise they are the
/// [`discovered`] ones in ascending name order, those with equal names in
/// the order they were found: counting only `[[bin]]`
/// would make a library-only package look runnable and a package with
/// `src/main.rs` plus one `[[bin]]` look unambiguous.
pub fn binary_targets(m: &Manifest, sources: Option<&Sources>) -> (r: Vec<BinTarget>)
    ensures
        !m.has_package ==> r@.len() == 0,
        m.has_package && (!m.autobins || sources is None) ==> r@.map_values(|b: BinTarget| b@)
            == explicit_targets(m.bins@.map_values(|e: BinEntry| e@)),
        m.has_package && m.autobins && sources is Some ==> {
            &&& r@.map_values(|b: BinTarget| b@).to_multiset() == discovered(m@, *sources->0).to_multiset()
            &&& by_name(r@.map_values(|b: BinTarget| b@))
            &&& forall|n: Seq<char>|
                #[trigger] named(targets_view(r@), n) == named(discovered(m@, *sources->0), n)
        },
{
    if !m.has_package {
        return Vec::new();
    }
    let ghost entries = m.bins@.map_values(|e: BinEntry| e@);
    let mut bins: Vec<BinTarget> = Vec::new();
    let mut claimed: Vec<String> = Vec::new();
    let mut i: usize = 0;
    while i < m.bins.len()
        invariant
            entries == m.bins@.map_values(|e: BinEntry| e@),
            i <= m.bins@.len(),
            bins@.map_values(|b: BinTarget| b@) == explicit_targets(entries.subrange(0, i as int)),
            strings_view(claimed@) == claimed_paths(entries.subrange(0, i as int)),
        decreases m.bins@.len() - i,
    {
        let e = &m.bins[i];
        proof {
            assert(entries.subrange(0, i + 1) =~= entries.subrange(0, i as int).push(entries[i as int]));
            lemma_explicit_push(entries.subrange(0, i as int), entries[i as int]);
        }
        let ghost bb = bins@;
        let ghost cb = claimed@;
        if let Some(name) = &e.name {
            bins.push(BinTarget { name: name.clone(), required_features: clone_strings(&e.required_features) });
            assert(bins@.map_values(|b: BinTarget| b@) =~= bb.map_values(|b: BinTarget| b@).push(
                (name@, strings_view(e.required_features@)),
            ));
        }
        if let Some(path) = &e.path {
            claimed.push(normalize_path(path.as_str()));
            assert(strings_view(claimed@) =~= strings_view(cb).push(normalized(path@)));
        }
        i = i + 1;
    }
    assert(entries.subrange(0, m.bins@.len() as int) =~= entries);
    let s = match sources {
        Some(s) => s,
        None => return bins,
    };
    if !m.autobins {
        return bins;
    }
    let ghost cv = strings_view(claimed@);
    let main_rs = "src/main.rs".to_owned();
    if s.main_rs && !contains_string(&claimed, &main_rs) {
        if let Some(name) = &m.package_name {
            push_target(&mut bins, name.as_str());
        }
    }
    let ghost dir = s.bin_dir@.map_values(|b: BinSource| b@);
    let ghost target = discovered(m@, *s);
    assert(with_bin_dir(bins@.map_values(|b: BinTarget| b@), cv, dir.subrange(0, dir.len() as int)) == target) by {
        assert(dir.subrange(0, dir.len() as int) =~= dir);
    }
    let mut k: usize = 0;
    while k < s.bin_dir.len()
        invariant
            dir == s.bin_dir@.map_values(|b: BinSource| b@),
            cv == strings_view(claimed@),
            k <= dir.len(),
            with_bin_dir(bins@.map_values(|b: BinTarget| b@), cv, dir.subrange(k as int, dir.len() as int)) == target,
        decreases dir.len() - k,
    {
        let ghost before = bins@.map_values(|b: BinTarget| b@);
        proof {
            let rest = dir.subrange(k as int, dir.len() as int);
            assert(rest[0] == dir[k as int]);
            assert(rest.drop_first() =~= dir.subrange(k + 1, dir.len() as int));
        }
        match bin_source_exec(&s.bin_dir[k]) {
            Some((name, source)) => {
                let norm = normalize_path(source.as_str());
                if !contains_string(&claimed, &norm) {
                    push_target(&mut bins, name.as_str());
                }
            },
            None => {},
        }
        k = k + 1;
    }
    proof {
        assert(dir.subrange(dir.len() as int, dir.len() as int) =~= Seq::<(Seq<char>, bool)>::empty());
    }
    sort_by_name(bins)
}

// ---------------------------------------------------------------------------
// Entries
// ---------------------------------------------------------------------------

/// The `--features` argument a target needs, or nothing: the features joined
/// with `,` and quoted.
pub open spec fn features_flag(features: Seq<Seq<char>>) -> Seq<char> {
    if features.len() == 0 {
        Seq::empty()
    } else {
        " --features "@ + quoted(join(features, ","@))
    }
}

/// `cargo <c>`, both as label and as command.
pub open spec fn cargo_entry(c: Seq<char>) -> ItemView {
    command_view("cargo "@ + c, "cargo "@ + c)
}

/// The `cargo run` entries: none without a binary; a bare `cargo run` for a
/// single one; one `cargo run --bin` per binary when there are several,
/// since a bare `cargo run` would be ambiguous. The binary name comes from a
/// manifest in the repository, so it is quoted in the command.
pub open spec fn run_entries(bins: Seq<TargetView>) -> Seq<ItemView> {
    if bins.len() == 0 {
        Seq::empty()
    } else if bins.len() == 1 {
        seq![command_view("cargo run"@, "cargo run"@ + features_flag(bins[0].1))]
    } else {
        bins.map_values(
            |b: TargetView| command_view("cargo run --bin "@ + b.0, "cargo run --bin "@ + quoted(b.0) + features_flag(b.1)),
        )
    }
}

/// All entries: `build`, `test`, `check`, then `fmt` and `clippy` where
/// installed, then the `cargo run` entries.
pub open spec fn cargo_items(fmt: bool, clippy: bool, bins: Seq<TargetView>) -> Seq<ItemView> {
    seq![cargo_entry("build"@), cargo_entry("test"@), cargo_entry("check"@)] + (if fmt {
        seq![cargo_entry("fmt"@)]
    } else {
        Seq::empty()
    }) + (if clippy {
        seq![cargo_entry("clippy"@)]
    } else {
        Seq::empty()
    }) + run_entries(bins)
}

fn features_flag_exec(features: &Vec<String>) -> (r: Vec<char>)
    ensures
        r@ == features_flag(strings_view(features@)),
{
    let mut out: Vec<char> = Vec::new();
    if features.len() == 0 {
        return out;
    }
    push_str(&mut out, " --features ");
    let joined = string_of(&join_strings(features, ","));
    let q = quote(joined.as_str());
    push_chars(&mut out, &chars_of(q.as_str()));
    proof {
        reveal_strlit(" --features ");
    }
    assert(out@ =~= features_flag(strings_view(features@)));
    out
}

fn cargo_item(c: &str) -> (r: MenuItem)
    ensures
        r@ == cargo_entry(c@),
{
    let mut s: Vec<char> = Vec::new();
    push_str(&mut s, "cargo ");
    push_str(&mut s, c);
    proof {
        reveal_strlit("cargo ");
    }
    assert(s@ =~= "cargo "@ + c@);
    let t = string_of(&s);
    MenuItem::command(t.as_str(), t.as_str())
}

fn push_item(items: &mut Vec<MenuItem>, item: MenuItem)
    ensures
        items_view(final(items)@) == items_view(old(items)@).push(item@),
{
    let ghost before = items@;
    items.push(item);
    proof {
        lemma_items_view(before);
        lemma_items_view(items@);
        assert(items_view(items@) =~= items_view(before).push(item@));
    }
}

/// The Cargo group for the binaries `bins`, with `cargo fmt` and
/// `cargo clippy` offered when `fmt` and `clippy` say their components are
/// installed: the entries of [`cargo_items`].
pub fn entries(fmt: bool, clippy: bool, bins: &Vec<BinTarget>) -> (r: LauncherGroup)
    ensures
        r.source@ == "Cargo.toml"@,
        items_view(r.items@) == cargo_items(fmt, clippy, bins@.map_values(|b: BinTarget| b@)),
{
    let ghost bv = bins@.map_values(|b: BinTarget| b@);
    let mut items: Vec<MenuItem> = Vec::new();
    push_item(&mut items, cargo_item("build"));
    push_item(&mut items, cargo_item("test"));
    push_item(&mut items, cargo_item("check"));
    if fmt {
        push_item(&mut items, cargo_item("fmt"));
    }
    if clippy {
        push_item(&mut items, cargo_item("clippy"));
    }
    let ghost head = items_view(items@);
    proof {
        assert(items_view(Seq::<MenuItem>::empty()) =~= Seq::<ItemView>::empty());
        assert(head =~= seq![cargo_entry("build"@), cargo_entry("test"@), cargo_entry("check"@)] + (if fmt {
            seq![cargo_entry("fmt"@)]
        } else {
            Seq::empty()
        }) + (if clippy {
            seq![cargo_entry("clippy"@)]
        } else {
            Seq::empty()
        }));
        reveal_strlit("cargo run");
        reveal_strlit("cargo run --bin ");
    }
    if bins.len() == 1 {
        let mut c: Vec<char> = Vec::new();
        push_str(&mut c, "cargo run");
        push_chars(&mut c, &features_flag_exec(&bins[0].required_features));
        push_item(&mut items, MenuItem::command("cargo run", string_of(&c).as_str()));
        assert(items_view(items@) =~= head + run_entries(bv));
    } else if bins.len() > 1 {
        let mut i: usize = 0;
        while i < bins.len()
            invariant
                bv == bins@.map_values(|b: BinTarget| b@),
                bins@.len() > 1,
                i <= bins@.len(),
                items_view(items@) == head + bv.subrange(0, i as int).map_values(
                    |b: TargetView| command_view("cargo run --bin "@ + b.0, "cargo run --bin "@ + quoted(b.0) + features_flag(b.1)),
                ),
            decreases bins@.len() - i,
        {
            let b = &bins[i];
            let mut label: Vec<char> = Vec::new();
            push_str(&mut label, "cargo run --bin ");
            push_str(&mut label, b.name.as_str());
            let mut c: Vec<char> = Vec::new();
            push_str(&mut c, "cargo run --bin ");
            push_chars(&mut c, &chars_of(quote(b.name.as_str()).as_str()));
            push_chars(&mut c, &features_flag_exec(&b.required_features));
            let ghost before = items_view(items@);
            push_item(&mut items, MenuItem::command(string_of(&label).as_str(), string_of(&c).as_str()));
            proof {
                assert(bv[i as int] == b@);
                assert(bv.subrange(0, i + 1) =~= bv.subrange(0, i as int).push(bv[i as int]));
                assert(items_view(items@) =~= head + bv.subrange(0, i + 1).map_values(
                    |b: TargetView| command_view("cargo run --bin "@ + b.0, "cargo run --bin "@ + quoted(b.0) + features_flag(b.1)),
                ));
            }
            i = i + 1;
        }
        assert(bv.subrange(0, bins@.len() as int) =~= bv);
    } else {
        assert(items_view(items@) =~= head + run_entries(bv));
    }
    let source = "Cargo.toml".to_owned();
    LauncherGroup { source, items }
}

/// What [`scan`] gives for a manifest read as `m`: the entries over the
/// manifest's binary targets, which are none without a `[package]`, the
/// explicit ones when auto-discovery is off or the sources are unknown, and
/// otherwise the discovered ones in ascending name order, those with equal
/// names in the order they were found.
pub open spec fn cargo_group(
    m: ManifestView,
    sources: Option<&Sources>,
    fmt: bool,
    clippy: bool,
    r: LauncherGroup,
) -> bool {
    exists|bins: Seq<TargetView>|
        #![trigger cargo_items(fmt, clippy, bins)]
        {
            &&& !m.has_package ==> bins.len() == 0
            &&& m.has_package && (!m.autobins || sources is None) ==> bins == explicit_targets(m.bins)
            &&& m.has_package && m.autobins && sources is Some ==> bins.to_multiset() == discovered(
                m,
                *sources->0,
            ).to_multiset() && by_name(bins) && forall|n: Seq<char>|
                #[trigger] named(bins, n) == named(discovered(m, *sources->0), n)
            &&& r.source@ == "Cargo.toml"@
            &&& items_view(r.items@) == cargo_items(fmt, clippy, bins)
        }
}

/// The Cargo group for a manifest: [`entries`] over its
/// [`binary_targets`].
pub fn scan(m: &Manifest, sources: Option<&Sources>, fmt: bool, clippy: bool) -> (r: LauncherGroup)
    ensures
        cargo_group(m@, sources, fmt, clippy, r),
{
    let bins = binary_targets(m, sources);
    let r = entries(fmt, clippy, &bins);
    proof {
        let bv = targets_view(bins@);
        assert(items_view(r.items@) == cargo_items(fmt, clippy, bv));
        if m.has_package && m.autobins && sources is Some {
            assert(forall|n: Seq<char>| #[trigger] named(bv, n) == named(discovered(m@, *sources->0), n));
        }
    }
    r
}

/// What the manifest text `text` says about binaries: `None` when it is not
/// TOML, else [`manifest_of`] its document.
pub fn read_manifest(text: &str) -> (r: Option<Manifest>)
    ensures
        toml_of(text@) is None <==> r is None,
        r is Some ==> r->0@ == manifest_spec(toml_of(text@)->0),
{
    match parse_toml(text) {
        Some(doc) => Some(manifest_of(&doc)),
        None => None,
    }
}

/// The Cargo group for the manifest text `text`: `None` when it is not TOML,
/// else [`scan`] over what the document says about binaries.
pub fn scan_manifest(text: &str, sources: Option<&Sources>, fmt: bool, clippy: bool) -> (r: Option<
    LauncherGroup,
>)
    ensures
        toml_of(text@) is None <==> r is None,
        r is Some ==> cargo_group(manifest_spec(toml_of(text@)->0), sources, fmt, clippy, r->0),
{
    match read_manifest(text) {
        Some(m) => Some(scan(&m, sources, fmt, clippy)),
        None => None,
    }
}

} // verus!
