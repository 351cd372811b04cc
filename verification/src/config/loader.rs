//! Checking configuration files and merging them into one menu.
//!
//! Reading a file and decoding its YAML, TOML or JSON happen outside this
//! module; what is decided here is which format a file is in, which of the two
//! accepted shapes it has, whether its entries are consistent, whether it is
//! merged at all, and where its entries run.

use vstd::prelude::*;

use super::discovery::{Found, Scope};
use super::model::{
    AutoLaunchers, ConfigFile, ItemView, MenuItem, duplicate_args, duplicate_commands, item_label,
    item_view, items_view, lemma_items_view, lemma_items_view_add,
};
use crate::paths::{self, path_extension, path_parent};
use crate::text::{chars_of, clone_opt, opt_view, push_str, string_of};

verus! {

// ---------------------------------------------------------------------------
// Consistency of entries
// ---------------------------------------------------------------------------

/// An entry that is both sequential and parallel: which of the two Enter
/// should run would be a guess.
pub open spec fn conflicting(m: ItemView) -> bool {
    m.shell is Some && m.parallel.len() > 0
}

/// The first conflicting entry, looking at each entry before its submenu and
/// a submenu before the entries after it.
pub open spec fn first_conflict(items: Seq<ItemView>) -> Option<ItemView>
    decreases items,
{
    if items.len() == 0 {
        None
    } else if conflicting(items[0]) {
        Some(items[0])
    } else {
        match first_conflict(items[0].submenu) {
            Some(m) => Some(m),
            None => first_conflict(items.drop_first()),
        }
    }
}

fn first_conflict_label(items: &Vec<MenuItem>) -> (r: Option<String>)
    ensures
        match first_conflict(items_view(items@)) {
            Some(m) => r is Some && r->0@ == item_label(m),
            None => r is None,
        },
    decreases items,
{
    let mut i: usize = 0;
    assert(items@.subrange(0, items@.len() as int) =~= items@);
    while i < items.len()
        invariant
            i <= items@.len(),
            first_conflict(items_view(items@)) == first_conflict(
                items_view(items@.subrange(i as int, items@.len() as int)),
            ),
        decreases items@.len() - i,
    {
        let ghost rest = items@.subrange(i as int, items@.len() as int);
        proof {
            assert(rest[0] == items@[i as int]);
            assert(rest.drop_first() =~= items@.subrange(i + 1, items@.len() as int));
            assert(items_view(rest)[0] == item_view(items@[i as int]));
            assert(decreases_to!(items => items@[i as int]));
        }
        let item = &items[i];
        if item.shell.is_some() && item.parallel.len() > 0 {
            return Some(item.label());
        }
        match first_conflict_label(&item.submenu) {
            Some(l) => {
                return Some(l);
            },
            None => {},
        }
        proof {
            assert(items_view(rest).drop_first() == items_view(rest.drop_first()));
            assert(items_view(rest)[0].submenu == items_view(item.submenu@));
        }
        i = i + 1;
    }
    proof {
        assert(items@.subrange(items@.len() as int, items@.len() as int).len() == 0);
    }
    None
}

/// How `Debug` writes a string: in double quotes, with escapes.
pub uninterp spec fn debug_string(s: Seq<char>) -> Seq<char>;

/// `<str as Debug>::fmt`: the string in double quotes with `"`, `\` and
/// control characters escaped.
#[verifier::external_body]
fn debug_quoted(s: &str) -> (r: String)
    ensures
        r@ == debug_string(s@),
{
    format!("{:?}", s)
}

/// The message for a conflicting entry in the file at `path`.
pub open spec fn conflict_message(path: Seq<char>, label: Seq<char>) -> Seq<char> {
    path + ": entry "@ + debug_string(label)
        + " has both `shell` and `parallel`; use one or the other (a `shell` list already runs sequentially)"@
}

/// Check the entries of the file at `path`, submenus included: no entry may
/// have both `shell` and `parallel`. The error names the file and the first
/// such entry.
pub fn validate(items: &Vec<MenuItem>, path: &str) -> (r: Result<(), String>)
    ensures
        match first_conflict(items_view(items@)) {
            Some(m) => r is Err && r->Err_0@ == conflict_message(path@, item_label(m)),
            None => r is Ok,
        },
{
    match first_conflict_label(items) {
        None => Ok(()),
        Some(label) => {
            let mut msg: Vec<char> = Vec::new();
            push_str(&mut msg, path);
            push_str(&mut msg, ": entry ");
            push_str(&mut msg, debug_quoted(label.as_str()).as_str());
            push_str(
                &mut msg,
                " has both `shell` and `parallel`; use one or the other (a `shell` list already runs sequentially)",
            );
            Err(string_of(&msg))
        },
    }
}

// ---------------------------------------------------------------------------
// Formats and shapes
// ---------------------------------------------------------------------------

/// The formats a configuration file can be written in.
#[derive(Debug)]
pub enum Format {
    Yaml,
    Toml,
    Json,
}

/// `c` in lowercase when it is an ASCII letter, as
/// `char::to_ascii_lowercase` gives it.
pub open spec fn ascii_lower(c: char) -> char {
    if 'A' <= c <= 'Z' {
        ((c as u32) + 32) as char
    } else {
        c
    }
}

/// The ASCII-lowercase form of `s`.
pub open spec fn ascii_lowercase(s: Seq<char>) -> Seq<char> {
    s.map_values(|c: char| ascii_lower(c))
}

fn ascii_lower_exec(c: char) -> (r: char)
    ensures
        r == ascii_lower(c),
{
    if 'A' <= c && c <= 'Z' {
        let n = (c as u8) + 32;
        n as char
    } else {
        c
    }
}

/// ASCII-lowercase a string.
pub fn to_ascii_lowercase(s: &str) -> (r: Vec<char>)
    ensures
        r@ == ascii_lowercase(s@),
{
    let v = chars_of(s);
    let mut out: Vec<char> = Vec::new();
    let mut i: usize = 0;
    while i < v.len()
        invariant
            v@ == s@,
            i <= v@.len(),
            out@ == ascii_lowercase(v@.subrange(0, i as int)),
        decreases v@.len() - i,
    {
        out.push(ascii_lower_exec(v[i]));
        assert(out@ =~= ascii_lowercase(v@.subrange(0, i + 1)));
        i = i + 1;
    }
    assert(v@.subrange(0, v@.len() as int) =~= v@);
    out
}

/// The extension of the path, lowercased, or nothing.
pub open spec fn lower_extension(path: Seq<char>) -> Seq<char> {
    match path_extension(path) {
        Some(e) => ascii_lowercase(e),
        None => Seq::empty(),
    }
}

/// The format a file is read in, by its extension, whatever its case:
/// `yaml`/`yml`, `toml`, `json`; anything else is refused.
pub open spec fn format_spec(path: Seq<char>) -> Option<Format> {
    let e = lower_extension(path);
    if e == "yaml"@ || e == "yml"@ {
        Some(Format::Yaml)
    } else if e == "toml"@ {
        Some(Format::Toml)
    } else if e == "json"@ {
        Some(Format::Json)
    } else {
        None
    }
}

/// The format of the file at `path`.
pub fn format_of(path: &str) -> (r: Result<Format, String>)
    ensures
        match format_spec(path@) {
            Some(f) => r == Ok::<Format, String>(f),
            None => r is Err && r->Err_0@ == "unsupported configuration format: ."@ + lower_extension(
                path@,
            ),
        },
{
    let ext: Vec<char> = match paths::extension(path) {
        Some(e) => to_ascii_lowercase(e.as_str()),
        None => Vec::new(),
    };
    let yaml = chars_of("yaml");
    let yml = chars_of("yml");
    let toml = chars_of("toml");
    let json = chars_of("json");
    if crate::text::same_chars(&ext, &yaml) || crate::text::same_chars(&ext, &yml) {
        Ok(Format::Yaml)
    } else if crate::text::same_chars(&ext, &toml) {
        Ok(Format::Toml)
    } else if crate::text::same_chars(&ext, &json) {
        Ok(Format::Json)
    } else {
        let mut msg = chars_of("unsupported configuration format: .");
        crate::text::push_chars(&mut msg, &ext);
        Err(string_of(&msg))
    }
}

/// The file as decoded in the documented shape or, when that fails, as a bare
/// list of entries (the shortest possible configuration). The error reported
/// is the one from the documented shape: it is much more likely to point at
/// the real mistake.
pub fn choose_shape(
    documented: Result<ConfigFile, String>,
    bare_list: Result<Vec<MenuItem>, String>,
) -> (r: Result<ConfigFile, String>)
    ensures
        match documented {
            Ok(c) => r == Ok::<ConfigFile, String>(c),
            Err(e) => match bare_list {
                Ok(menu) => r is Ok && r->Ok_0.menu == menu && r->Ok_0.merge
                    && r->Ok_0.run_in_current_directory is None && r->Ok_0.auto_launchers is None,
                Err(_) => r == Err::<ConfigFile, String>(e),
            },
        },
{
    match documented {
        Ok(c) => Ok(c),
        Err(e) => match bare_list {
            Ok(menu) => Ok(ConfigFile { menu, run_in_current_directory: None, merge: true, auto_launchers: None }),
            Err(_) => Err(e),
        },
    }
}

/// A decoded file, once its entries have been checked.
pub fn checked(path: &str, decoded: Result<ConfigFile, String>) -> (r: Result<ConfigFile, String>)
    ensures
        match decoded {
            Err(e) => r == Err::<ConfigFile, String>(e),
            Ok(c) => match first_conflict(items_view(c.menu@)) {
                None => r == Ok::<ConfigFile, String>(c),
                Some(m) => r is Err && r->Err_0@ == conflict_message(path@, item_label(m)),
            },
        },
{
    let c = decoded?;
    match validate(&c.menu, path) {
        Ok(()) => Ok(c),
        Err(e) => Err(e),
    }
}

// ---------------------------------------------------------------------------
// Where entries run
// ---------------------------------------------------------------------------

/// What `checked` makes of a decoded file in `path`: the decoding error as it
/// is, else the file unless an entry both runs a script and a group.
pub open spec fn checked_spec(path: Seq<char>, decoded: Result<ConfigFile, String>, r: Result<ConfigFile, String>) -> bool {
    match decoded {
        Err(e) => r == Err::<ConfigFile, String>(e),
        Ok(c) => match first_conflict(items_view(c.menu@)) {
            None => r == Ok::<ConfigFile, String>(c),
            Some(m) => r is Err && r->Err_0@ == conflict_message(path, item_label(m)),
        },
    }
}

/// One configuration file at `path`, from what decoding its text gave in the
/// documented shape and as a bare list of entries.
///
/// The extension decides the format (see [`format_spec`]); any other is
/// refused. TOML has no top-level array, so only the documented shape
/// applies there; YAML and JSON fall back to the bare list when the
/// documented shape does not decode (see [`choose_shape`]). What decoded is
/// then checked (see [`checked`]).
pub fn parse(
    path: &str,
    documented: Result<ConfigFile, String>,
    bare_list: Result<Vec<MenuItem>, String>,
) -> (r: Result<ConfigFile, String>)
    ensures
        match format_spec(path@) {
            None => r is Err && r->Err_0@ == "unsupported configuration format: ."@ + lower_extension(path@),
            Some(Format::Toml) => checked_spec(path@, documented, r),
            Some(_) => match documented {
                Ok(_) => checked_spec(path@, documented, r),
                Err(e) => match bare_list {
                    Ok(menu) => exists|c: ConfigFile|
                        #![trigger checked_spec(path@, Ok::<ConfigFile, String>(c), r)]
                        c.menu == menu && c.merge && c.run_in_current_directory is None
                            && c.auto_launchers is None && checked_spec(path@, Ok::<ConfigFile, String>(c), r),
                    Err(_) => r == Err::<ConfigFile, String>(e),
                },
            },
        },
{
    let format = match format_of(path) {
        Ok(f) => f,
        Err(e) => return Err(e),
    };
    let decoded = match format {
        Format::Toml => documented,
        _ => choose_shape(documented, bare_list),
    };
    let ghost dec = decoded;
    let r = checked(path, decoded);
    proof {
        assert(checked_spec(path@, dec, r));
        if dec is Ok {
            let c = dec->Ok_0;
            assert(dec == Ok::<ConfigFile, String>(c));
            assert(checked_spec(path@, Ok::<ConfigFile, String>(c), r));
        }
    }
    r
}


/// Whether an entry runs in the working directory: its own setting, or the
/// one it inherits when it has none.
pub open spec fn runs_here(m: ItemView, inherited: bool) -> bool {
    match m.run_in_current_directory {
        Some(b) => b,
        None => inherited,
    }
}

/// An entry with its run directory filled in: none when it runs in the
/// working directory, `dir` otherwise; its submenu inherits its setting.
pub open spec fn placed(m: ItemView, inherited: bool, dir: Option<Seq<char>>) -> ItemView
    decreases m,
{
    let here = runs_here(m, inherited);
    ItemView {
        submenu: placed_all(m.submenu, here, dir),
        cwd: if here {
            None
        } else {
            dir
        },
        ..m
    }
}

/// Every entry of a list placed (see [`placed`]).
pub open spec fn placed_all(s: Seq<ItemView>, inherited: bool, dir: Option<Seq<char>>) -> Seq<ItemView>
    decreases s,
{
    if s.len() == 0 {
        Seq::empty()
    } else {
        seq![placed(s[0], inherited, dir)] + placed_all(s.drop_first(), inherited, dir)
    }
}

pub proof fn lemma_placed_all(s: Seq<ItemView>, inherited: bool, dir: Option<Seq<char>>)
    ensures
        placed_all(s, inherited, dir).len() == s.len(),
        forall|i: int|
            0 <= i < s.len() ==> #[trigger] placed_all(s, inherited, dir)[i] == placed(s[i], inherited, dir),
    decreases s.len(),
{
    if s.len() > 0 {
        lemma_placed_all(s.drop_first(), inherited, dir);
        assert forall|i: int| 0 <= i < s.len() implies #[trigger] placed_all(s, inherited, dir)[i]
            == placed(s[i], inherited, dir) by {
            if i > 0 {
                assert(s.drop_first()[i - 1] == s[i]);
            }
        }
    }
}

/// An entry with its run directory filled in (see [`placed`]).
pub fn place_item(m: &MenuItem, inherited: bool, dir: &Option<String>) -> (r: MenuItem)
    ensures
        r@ == placed(m@, inherited, opt_view(*dir)),
    decreases m,
{
    let here = match m.run_in_current_directory {
        Some(b) => b,
        None => inherited,
    };
    MenuItem {
        title: clone_opt(&m.title),
        shell: match &m.shell {
            Some(s) => Some(s.duplicate()),
            None => None,
        },
        parallel: duplicate_commands(&m.parallel),
        help: clone_opt(&m.help),
        submenu: place_items(&m.submenu, here, dir),
        args: duplicate_args(&m.args),
        run_in_current_directory: m.run_in_current_directory,
        cwd: if here {
            None
        } else {
            clone_opt(dir)
        },
    }
}

/// Every entry of a list with its run directory filled in.
pub fn place_items(items: &Vec<MenuItem>, inherited: bool, dir: &Option<String>) -> (r: Vec<MenuItem>)
    ensures
        items_view(r@) == placed_all(items_view(items@), inherited, opt_view(*dir)),
    decreases items,
{
    let mut out: Vec<MenuItem> = Vec::new();
    let mut i: usize = 0;
    while i < items.len()
        invariant
            i <= items@.len(),
            out@.len() == i,
            forall|k: int|
                0 <= k < i ==> item_view(#[trigger] out@[k]) == placed(
                    item_view(items@[k]),
                    inherited,
                    opt_view(*dir),
                ),
        decreases items@.len() - i,
    {
        proof {
            assert(decreases_to!(items => items@[i as int]));
        }
        out.push(place_item(&items[i], inherited, dir));
        i = i + 1;
    }
    proof {
        lemma_items_view(out@);
        lemma_items_view(items@);
        lemma_placed_all(items_view(items@), inherited, opt_view(*dir));
        assert(items_view(out@) =~= placed_all(items_view(items@), inherited, opt_view(*dir)));
    }
    out
}

/// The nearest setting wins: an entry that says where it runs runs there
/// whatever its file or parent entry says, and an entry that says nothing
/// runs where its parent does.
pub proof fn nearest_setting_wins(m: ItemView, a: bool, b: bool, dir: Option<Seq<char>>)
    ensures
        m.run_in_current_directory is Some ==> placed(m, a, dir).cwd == placed(m, b, dir).cwd,
        m.run_in_current_directory is None ==> placed(m, a, dir).cwd == (if a {
            None
        } else {
            dir
        }),
        m.run_in_current_directory == Some(true) ==> placed(m, a, dir).cwd is None,
        m.run_in_current_directory == Some(false) ==> placed(m, a, dir).cwd == dir,
{
}

// ---------------------------------------------------------------------------
// Merging
// ---------------------------------------------------------------------------

/// A configuration file that was merged, and where its entries run unless
/// they say otherwise (`None`: the working directory).
#[derive(Debug)]
pub struct Source {
    pub path: String,
    pub cwd: Option<String>,
}

/// The merged configuration used to build the menu.
#[derive(Debug)]
pub struct Config {
    pub menu: Vec<MenuItem>,
    pub auto_launchers: AutoLaunchers,
    /// Files that were actually merged, in load order.
    pub sources: Vec<Source>,
}

/// Whether the entries of a file run in the working directory by default: as
/// the file says, or, when it says nothing, no for a project file (it sits in
/// the tree its entries are about) and yes for the per-user file (it belongs
/// to no project).
pub open spec fn file_runs_here(file_setting: Option<bool>, scope: Scope) -> bool {
    match file_setting {
        Some(b) => b,
        None => scope == Scope::User,
    }
}

/// Merges configuration files in the order they are found, nearest first.
///
/// A driver reads each file, asks [`Loader::skips_fallback`] before decoding
/// it, hands the decoded file to [`Loader::add`], and takes the result from
/// [`Loader::finish`].
pub struct Loader {
    menu: Vec<MenuItem>,
    sources: Vec<Source>,
    auto_launchers: Option<AutoLaunchers>,
}

impl Loader {
    /// The entries merged so far.
    pub closed spec fn menu_view(&self) -> Seq<ItemView> {
        items_view(self.menu@)
    }

    /// How many files were merged so far.
    pub closed spec fn merged(&self) -> nat {
        self.sources@.len()
    }

    /// The files merged so far: each path, and where its entries run.
    pub closed spec fn sources_view(&self) -> Seq<(Seq<char>, Option<Seq<char>>)> {
        self.sources@.map_values(|s: Source| (s.path@, opt_view(s.cwd)))
    }

    /// The launcher switches of the nearest file that set them, if any did.
    pub closed spec fn launchers_view(&self) -> Option<AutoLaunchers> {
        self.auto_launchers
    }

    /// Nothing merged yet.
    pub fn new() -> (r: Loader)
        ensures
            r.menu_view().len() == 0,
            r.merged() == 0,
            r.sources_view().len() == 0,
            r.launchers_view() is None,
    {
        Loader { menu: Vec::new(), sources: Vec::new(), auto_launchers: None }
    }

    /// Whether a file that, read on its own, says `merge: false` is skipped
    /// without decoding the rest of it: exactly when something was merged
    /// already. Such a file is a fallback, and a fallback nobody reads must
    /// not be able to stop the menu from opening with an error.
    pub fn skips_fallback(&self, says_no_merge: bool) -> (r: bool)
        ensures
            r == (says_no_merge && self.merged() > 0),
    {
        says_no_merge && self.sources.len() > 0
    }

    /// Merge the decoded file found at `found`. Returns whether it was merged:
    /// a file with `merge: false` is skipped when another file was merged
    /// before it, which makes it a fallback.
    ///
    /// The nearest file that sets `auto_launchers` at all takes the whole
    /// block; its entries are appended after the ones merged so far, each
    /// with the directory it runs in filled in.
    pub fn add(&mut self, found: &Found, file: ConfigFile) -> (r: bool)
        ensures
            r == (file.merge || old(self).merged() == 0),
            !r ==> final(self).menu_view() == old(self).menu_view() && final(self).sources_view()
                == old(self).sources_view() && final(self).launchers_view()
                == old(self).launchers_view(),
            r ==> {
                let here = file_runs_here(file.run_in_current_directory, found.scope);
                let dir = path_parent(found.path@);
                &&& final(self).menu_view() == old(self).menu_view() + placed_all(
                    items_view(file.menu@),
                    here,
                    dir,
                )
                &&& final(self).sources_view() == old(self).sources_view().push(
                    (
                        found.path@,
                        if here {
                            None
                        } else {
                            dir
                        },
                    ),
                )
                &&& final(self).launchers_view() == if old(self).launchers_view() is Some {
                    old(self).launchers_view()
                } else {
                    file.auto_launchers
                }
            },
    {
        if !file.merge && self.sources.len() > 0 {
            return false;
        }
        if self.auto_launchers.is_none() {
            self.auto_launchers = file.auto_launchers;
        }
        let here = match file.run_in_current_directory {
            Some(b) => b,
            None => match found.scope {
                Scope::User => true,
                Scope::Project => false,
            },
        };
        let dir = paths::parent(found.path.as_str());
        let placed = place_items(&file.menu, here, &dir);
        let ghost before = self.menu@;
        let mut placed = placed;
        let ghost pv = placed@;
        self.menu.append(&mut placed);
        proof {
            lemma_items_view_add(before, pv);
        }
        let ghost sources_before = self.sources@;
        let cwd = if here {
            None
        } else {
            dir
        };
        self.sources.push(Source { path: found.path.clone(), cwd });
        proof {
            assert(self.sources@.map_values(|s: Source| (s.path@, opt_view(s.cwd))) =~= sources_before.map_values(
                |s: Source| (s.path@, opt_view(s.cwd)),
            ).push((found.path@, if here { None } else { path_parent(found.path@) })));
        }
        true
    }

    /// The merged configuration: the entries in load order, the files that
    /// were merged, and the launcher switches of the nearest file that set
    /// them, every launcher on when none did.
    pub fn finish(self) -> (r: Config)
        ensures
            items_view(r.menu@) == self.menu_view(),
            r.sources@.map_values(|s: Source| (s.path@, opt_view(s.cwd))) == self.sources_view(),
            r.auto_launchers == match self.launchers_view() {
                Some(a) => a,
                None => AutoLaunchers::All(true),
            },
    {
        let auto_launchers = match self.auto_launchers {
            Some(a) => a,
            None => AutoLaunchers::All(true),
        };
        Config { menu: self.menu, auto_launchers, sources: self.sources }
    }
}

} // verus!
