//! Data model for the menu configuration.
//!
//! The same model is produced from YAML, TOML and JSON; only the shape and the
//! rules that read it are described here.

use vstd::prelude::*;

use crate::text::{
    chars_of, clone_opt, clone_strings, first_line, first_line_of, join, join_strings, opt_view,
    string_of, strings_view,
};

verus! {

/// One or many shell commands.
#[derive(Debug)]
pub enum Shell {
    One(String),
    Many(Vec<String>),
}

/// What a [`Shell`] holds, as characters.
pub enum ShellView {
    One(Seq<char>),
    Many(Seq<Seq<char>>),
}

impl View for Shell {
    type V = ShellView;

    open spec fn view(&self) -> ShellView {
        match self {
            Shell::One(s) => ShellView::One(s@),
            Shell::Many(v) => ShellView::Many(strings_view(v@)),
        }
    }
}

/// The newline that joins the commands of a `shell` list.
pub open spec fn newline() -> Seq<char> {
    seq!['\n']
}

/// The single script a shell value stands for: a list is joined with
/// newlines, so its commands run one after the other in one shell.
pub open spec fn script_of(s: ShellView) -> Seq<char> {
    match s {
        ShellView::One(one) => one,
        ShellView::Many(many) => join(many, newline()),
    }
}

impl Shell {
    /// Render as a single script.
    pub fn script(&self) -> (r: String)
        ensures
            r@ == script_of(self@),
    {
        match self {
            Shell::One(s) => s.clone(),
            Shell::Many(v) => {
                let joined = join_strings(v, "\n");
                proof {
                    reveal_strlit("\n");
                    assert("\n"@ =~= newline());
                }
                string_of(&joined)
            }
        }
    }

    /// A copy of this value.
    pub fn duplicate(&self) -> (r: Shell)
        ensures
            r@ == self@,
    {
        match self {
            Shell::One(s) => Shell::One(s.clone()),
            Shell::Many(v) => Shell::Many(clone_strings(v)),
        }
    }
}

/// One command of a `parallel` group.
///
/// Has the same `title` / `shell` pair as a menu entry, but nothing else: a
/// group member is not a menu level of its own. Arguments belong to the entry
/// that owns the group and are substituted into every member.
#[derive(Debug)]
pub struct ParallelCommand {
    /// Name used when the group is announced before it runs. Falls back to
    /// `shell`.
    pub title: Option<String>,
    /// Command(s) this member runs, as one script in one shell.
    pub shell: Shell,
}

/// What a [`ParallelCommand`] holds.
pub struct CommandView {
    pub title: Option<Seq<char>>,
    pub shell: ShellView,
}

impl View for ParallelCommand {
    type V = CommandView;

    open spec fn view(&self) -> CommandView {
        CommandView { title: opt_view(self.title), shell: self.shell@ }
    }
}

/// Whether an optional title is present and not empty.
pub open spec fn has_title(t: Option<Seq<char>>) -> bool {
    t is Some && t->0.len() > 0
}

/// The label of a group member: its title, or the first line of its script.
pub open spec fn command_label(c: CommandView) -> Seq<char> {
    if has_title(c.title) {
        c.title->0
    } else {
        first_line(script_of(c.shell))
    }
}

/// The labels of a group's members, in order.
pub open spec fn command_labels(cs: Seq<CommandView>) -> Seq<Seq<char>> {
    cs.map_values(|c: CommandView| command_label(c))
}

/// What a parallel group is called when it has no title: its members joined
/// the way a shell would be told to run them at once.
pub open spec fn ampersand() -> Seq<char> {
    seq![' ', '&', ' ']
}

fn title_of(t: &Option<String>) -> (r: Option<String>)
    ensures
        has_title(opt_view(*t)) ==> r is Some && r->0@ == t->0@,
        !has_title(opt_view(*t)) ==> r is None,
{
    match t {
        Some(s) => {
            if s.as_str().is_empty() {
                None
            } else {
                Some(s.clone())
            }
        }
        None => None,
    }
}

impl ParallelCommand {
    /// Label for this member of the group.
    pub fn label(&self) -> (r: String)
        ensures
            r@ == command_label(self@),
    {
        match title_of(&self.title) {
            Some(t) => t,
            None => {
                let script = self.shell.script();
                let line = first_line_of(&chars_of(script.as_str()));
                string_of(&line)
            }
        }
    }

    /// A copy of this value.
    pub fn duplicate(&self) -> (r: ParallelCommand)
        ensures
            r@ == self@,
    {
        ParallelCommand { title: clone_opt(&self.title), shell: self.shell.duplicate() }
    }
}

/// Copy a group.
pub fn duplicate_commands(v: &Vec<ParallelCommand>) -> (r: Vec<ParallelCommand>)
    ensures
        r@.map_values(|c: ParallelCommand| c@) == v@.map_values(|c: ParallelCommand| c@),
{
    let mut out: Vec<ParallelCommand> = Vec::new();
    let mut i: usize = 0;
    while i < v.len()
        invariant
            i <= v@.len(),
            out@.map_values(|c: ParallelCommand| c@) == v@.subrange(0, i as int).map_values(
                |c: ParallelCommand| c@,
            ),
        decreases v@.len() - i,
    {
        out.push(v[i].duplicate());
        proof {
            assert(v@.subrange(0, i + 1).map_values(|c: ParallelCommand| c@) =~= v@.subrange(
                0,
                i as int,
            ).map_values(|c: ParallelCommand| c@).push(v@[i as int]@));
            assert(out@.map_values(|c: ParallelCommand| c@) =~= v@.subrange(0, i + 1).map_values(
                |c: ParallelCommand| c@,
            ));
        }
        i = i + 1;
    }
    assert(v@.subrange(0, v@.len() as int) =~= v@);
    out
}

/// What an entry runs when it is selected, with arguments already substituted.
#[derive(Debug)]
pub enum Launch {
    /// One script in one shell.
    Script(String),
    /// Several scripts at once, one shell each.
    Parallel(Vec<Job>),
}

/// One command of a `parallel` group, ready to be spawned.
#[derive(Debug)]
pub struct Job {
    pub title: String,
    pub script: String,
}

/// What a [`Job`] holds: its title and its script.
pub open spec fn job_view(j: Job) -> (Seq<char>, Seq<char>) {
    (j.title@, j.script@)
}

/// What a [`Launch`] holds.
pub enum LaunchView {
    Script(Seq<char>),
    Parallel(Seq<(Seq<char>, Seq<char>)>),
}

impl View for Launch {
    type V = LaunchView;

    open spec fn view(&self) -> LaunchView {
        match self {
            Launch::Script(s) => LaunchView::Script(s@),
            Launch::Parallel(jobs) => LaunchView::Parallel(jobs@.map_values(|j: Job| job_view(j))),
        }
    }
}

/// A value asked for interactively and substituted into `shell` as `{name}`.
#[derive(Debug)]
pub struct ArgSpec {
    /// Placeholder name. `{name}` in `shell` is replaced with the input.
    pub name: String,
    /// Text shown while asking. Falls back to `name`.
    pub prompt: Option<String>,
    /// Value used when the input is left empty.
    pub default: Option<String>,
}

/// What an [`ArgSpec`] holds.
pub struct ArgView {
    pub name: Seq<char>,
    pub prompt: Option<Seq<char>>,
    pub default: Option<Seq<char>>,
}

impl View for ArgSpec {
    type V = ArgView;

    open spec fn view(&self) -> ArgView {
        ArgView { name: self.name@, prompt: opt_view(self.prompt), default: opt_view(self.default) }
    }
}

impl ArgSpec {
    /// A copy of this value.
    pub fn duplicate(&self) -> (r: ArgSpec)
        ensures
            r@ == self@,
    {
        ArgSpec {
            name: self.name.clone(),
            prompt: clone_opt(&self.prompt),
            default: clone_opt(&self.default),
        }
    }
}

/// Copy a list of arguments.
pub fn duplicate_args(v: &Vec<ArgSpec>) -> (r: Vec<ArgSpec>)
    ensures
        r@.map_values(|a: ArgSpec| a@) == v@.map_values(|a: ArgSpec| a@),
{
    let mut out: Vec<ArgSpec> = Vec::new();
    let mut i: usize = 0;
    while i < v.len()
        invariant
            i <= v@.len(),
            out@.map_values(|a: ArgSpec| a@) == v@.subrange(0, i as int).map_values(|a: ArgSpec| a@),
        decreases v@.len() - i,
    {
        out.push(v[i].duplicate());
        proof {
            assert(v@.subrange(0, i + 1).map_values(|a: ArgSpec| a@) =~= v@.subrange(
                0,
                i as int,
            ).map_values(|a: ArgSpec| a@).push(v@[i as int]@));
            assert(out@.map_values(|a: ArgSpec| a@) =~= v@.subrange(0, i + 1).map_values(
                |a: ArgSpec| a@,
            ));
        }
        i = i + 1;
    }
    assert(v@.subrange(0, v@.len() as int) =~= v@);
    out
}

/// A single menu entry.
///
/// `shell` accepts either a single command or a list of commands; `parallel`
/// is the other way to run several commands, each in its own shell.
#[derive(Debug)]
pub struct MenuItem {
    /// Label shown in the menu. Falls back to `shell` when omitted.
    pub title: Option<String>,
    /// Command(s) to run.
    pub shell: Option<Shell>,
    /// Commands to run at the same time, each in its own shell.
    pub parallel: Vec<ParallelCommand>,
    /// Long description shown in the detail view.
    pub help: Option<String>,
    /// Nested entries, opened from the detail view.
    pub submenu: Vec<MenuItem>,
    /// Placeholders that are prompted for before running `shell`.
    pub args: Vec<ArgSpec>,
    /// Overrides the file's `run_in_current_directory` for this entry, and for
    /// its `submenu` unless a nested entry overrides it in turn.
    pub run_in_current_directory: Option<bool>,
    /// Directory this entry runs in, filled in while loading; `None` means the
    /// directory the menu was started from.
    pub cwd: Option<String>,
}

/// What a [`MenuItem`] holds, down to the characters of every string and the
/// whole of its submenu.
pub struct ItemView {
    pub title: Option<Seq<char>>,
    pub shell: Option<ShellView>,
    pub parallel: Seq<CommandView>,
    pub help: Option<Seq<char>>,
    pub submenu: Seq<ItemView>,
    pub args: Seq<ArgView>,
    pub run_in_current_directory: Option<bool>,
    pub cwd: Option<Seq<char>>,
}

/// The view of an optional shell value.
pub open spec fn shell_opt_view(s: Option<Shell>) -> Option<ShellView> {
    match s {
        Some(x) => Some(x@),
        None => None,
    }
}

/// The view of a menu entry.
pub open spec fn item_view(m: MenuItem) -> ItemView
    decreases m,
{
    ItemView {
        title: opt_view(m.title),
        shell: shell_opt_view(m.shell),
        parallel: m.parallel@.map_values(|c: ParallelCommand| c@),
        help: opt_view(m.help),
        submenu: items_view(m.submenu@),
        args: m.args@.map_values(|a: ArgSpec| a@),
        run_in_current_directory: m.run_in_current_directory,
        cwd: opt_view(m.cwd),
    }
}

/// The views of a list of entries, in order.
pub open spec fn items_view(s: Seq<MenuItem>) -> Seq<ItemView>
    decreases s,
{
    if s.len() == 0 {
        Seq::empty()
    } else {
        seq![item_view(s[0])] + items_view(s.drop_first())
    }
}

pub proof fn lemma_items_view(s: Seq<MenuItem>)
    ensures
        items_view(s).len() == s.len(),
        forall|i: int| 0 <= i < s.len() ==> #[trigger] items_view(s)[i] == item_view(s[i]),
    decreases s.len(),
{
    if s.len() > 0 {
        lemma_items_view(s.drop_first());
        assert forall|i: int| 0 <= i < s.len() implies #[trigger] items_view(s)[i] == item_view(
            s[i],
        ) by {
            if i > 0 {
                assert(s.drop_first()[i - 1] == s[i]);
            }
        }
    }
}

/// Two lists of entries have equal views when their entries do, one by one.
pub proof fn lemma_items_view_ext(a: Seq<MenuItem>, b: Seq<MenuItem>)
    requires
        a.len() == b.len(),
        forall|i: int| 0 <= i < a.len() ==> item_view(#[trigger] a[i]) == item_view(b[i]),
    ensures
        items_view(a) == items_view(b),
{
    lemma_items_view(a);
    lemma_items_view(b);
    assert(items_view(a) =~= items_view(b));
}

/// `items_view` distributes over concatenation.
pub proof fn lemma_items_view_add(a: Seq<MenuItem>, b: Seq<MenuItem>)
    ensures
        items_view(a + b) == items_view(a) + items_view(b),
{
    lemma_items_view(a);
    lemma_items_view(b);
    lemma_items_view(a + b);
    assert(items_view(a + b) =~= items_view(a) + items_view(b));
}

impl View for MenuItem {
    type V = ItemView;

    open spec fn view(&self) -> ItemView {
        item_view(*self)
    }
}

/// The label an entry is shown with: its title when it has a non-empty one,
/// otherwise the first line of its script, otherwise (a `parallel` entry) its
/// members' labels joined with ` & `.
pub open spec fn item_label(m: ItemView) -> Seq<char> {
    if has_title(m.title) {
        m.title->0
    } else if m.shell is Some {
        first_line(script_of(m.shell->0))
    } else {
        join(command_labels(m.parallel), ampersand())
    }
}

/// What Enter on an entry runs: its script, or one job per member of its
/// group, or nothing when the entry only opens.
pub open spec fn item_launch(m: ItemView) -> Option<LaunchView> {
    if m.shell is Some {
        Some(LaunchView::Script(script_of(m.shell->0)))
    } else if m.parallel.len() == 0 {
        None
    } else {
        Some(
            LaunchView::Parallel(
                m.parallel.map_values(
                    |c: CommandView| (command_label(c), script_of(c.shell)),
                ),
            ),
        )
    }
}

/// Whether the detail view has anything to show: a submenu or a help text.
pub open spec fn item_has_detail(m: ItemView) -> bool {
    m.submenu.len() > 0 || m.help is Some
}

/// The view of an entry built by [`MenuItem::command`].
pub open spec fn command_view(title: Seq<char>, shell: Seq<char>) -> ItemView {
    ItemView {
        title: Some(title),
        shell: Some(ShellView::One(shell)),
        parallel: Seq::empty(),
        help: None,
        submenu: Seq::empty(),
        args: Seq::empty(),
        run_in_current_directory: None,
        cwd: None,
    }
}

/// The view of an entry with nothing set.
pub open spec fn empty_item_view() -> ItemView {
    ItemView {
        title: None,
        shell: None,
        parallel: Seq::empty(),
        help: None,
        submenu: Seq::empty(),
        args: Seq::empty(),
        run_in_current_directory: None,
        cwd: None,
    }
}

impl MenuItem {
    /// Label to render in the menu.
    pub fn label(&self) -> (r: String)
        ensures
            r@ == item_label(self@),
    {
        if let Some(t) = title_of(&self.title) {
            return t;
        }
        if let Some(shell) = &self.shell {
            let script = shell.script();
            return string_of(&first_line_of(&chars_of(script.as_str())));
        }
        let mut labels: Vec<String> = Vec::new();
        let mut i: usize = 0;
        while i < self.parallel.len()
            invariant
                i <= self.parallel@.len(),
                strings_view(labels@) == command_labels(
                    self.parallel@.subrange(0, i as int).map_values(|c: ParallelCommand| c@),
                ),
            decreases self.parallel@.len() - i,
        {
            let ghost before = labels@;
            labels.push(self.parallel[i].label());
            proof {
                assert(strings_view(labels@) =~= strings_view(before).push(labels@[i as int]@));
                assert(self.parallel@.subrange(0, i + 1).map_values(|c: ParallelCommand| c@)
                    =~= self.parallel@.subrange(0, i as int).map_values(|c: ParallelCommand| c@).push(
                    self.parallel@[i as int]@,
                ));
                assert(strings_view(labels@) =~= command_labels(
                    self.parallel@.subrange(0, i + 1).map_values(|c: ParallelCommand| c@),
                ));
            }
            i = i + 1;
        }
        assert(self.parallel@.subrange(0, self.parallel@.len() as int) =~= self.parallel@);
        let joined = join_strings(&labels, " & ");
        proof {
            reveal_strlit(" & ");
            assert(" & "@ =~= ampersand());
        }
        string_of(&joined)
    }

    /// The script this entry runs, if any. A `parallel` entry has no single
    /// script; [`MenuItem::launch`] covers both kinds.
    pub fn script(&self) -> (r: Option<String>)
        ensures
            self.shell is Some ==> r is Some && r->0@ == script_of(self@.shell->0),
            self.shell is None ==> r is None,
    {
        match &self.shell {
            Some(s) => Some(s.script()),
            None => None,
        }
    }

    /// What Enter on this entry runs, or `None` when it only opens.
    ///
    /// `shell` comes first: an entry carrying both is rejected while loading,
    /// so the order only decides what a hand-built entry does.
    pub fn launch(&self) -> (r: Option<Launch>)
        ensures
            match r {
                Some(l) => item_launch(self@) == Some(l@),
                None => item_launch(self@) is None,
            },
    {
        if let Some(script) = self.script() {
            return Some(Launch::Script(script));
        }
        if self.parallel.len() == 0 {
            return None;
        }
        let mut jobs: Vec<Job> = Vec::new();
        let mut i: usize = 0;
        let ghost members = self.parallel@.map_values(|c: ParallelCommand| c@);
        while i < self.parallel.len()
            invariant
                i <= self.parallel@.len(),
                members == self.parallel@.map_values(|c: ParallelCommand| c@),
                jobs@.map_values(|j: Job| job_view(j)) == members.subrange(0, i as int).map_values(
                    |c: CommandView| (command_label(c), script_of(c.shell)),
                ),
            decreases self.parallel@.len() - i,
        {
            let job = Job { title: self.parallel[i].label(), script: self.parallel[i].shell.script() };
            let ghost before = jobs@;
            jobs.push(job);
            proof {
                assert(members[i as int] == self.parallel@[i as int]@);
                assert(jobs@.map_values(|j: Job| job_view(j)) =~= before.map_values(|j: Job| job_view(j)).push(job_view(jobs@[i as int])));
                assert(members.subrange(0, i + 1) =~= members.subrange(0, i as int).push(members[i as int]));
                assert(jobs@.map_values(|j: Job| job_view(j)) =~= members.subrange(
                    0,
                    i + 1,
                ).map_values(|c: CommandView| (command_label(c), script_of(c.shell))));
            }
            i = i + 1;
        }
        assert(members.subrange(0, self.parallel@.len() as int) =~= members);
        Some(Launch::Parallel(jobs))
    }

    /// Whether the detail view has anything to show for this entry.
    ///
    /// Arguments deliberately do not count: they are prompted for when the
    /// entry runs, so a detail view would add nothing.
    pub fn has_detail(&self) -> (r: bool)
        ensures
            r == item_has_detail(self@),
    {
        proof {
            lemma_items_view(self.submenu@);
        }
        self.submenu.len() > 0 || self.help.is_some()
    }

    /// Build a plain entry, used by the built-in launchers.
    pub fn command(title: &str, shell: &str) -> (r: MenuItem)
        ensures
            r@ == command_view(title@, shell@),
    {
        let r = MenuItem {
            title: Some(title.to_owned()),
            shell: Some(Shell::One(shell.to_owned())),
            parallel: Vec::new(),
            help: None,
            submenu: Vec::new(),
            args: Vec::new(),
            run_in_current_directory: None,
            cwd: None,
        };
        proof {
            assert(r@.parallel =~= Seq::<CommandView>::empty());
            assert(r@.args =~= Seq::<ArgView>::empty());
        }
        r
    }

    /// A copy of this entry, submenu included.
    pub fn duplicate(&self) -> (r: MenuItem)
        ensures
            r@ == self@,
        decreases self,
    {
        MenuItem {
            title: clone_opt(&self.title),
            shell: match &self.shell {
                Some(s) => Some(s.duplicate()),
                None => None,
            },
            parallel: duplicate_commands(&self.parallel),
            help: clone_opt(&self.help),
            submenu: duplicate_items(&self.submenu),
            args: duplicate_args(&self.args),
            run_in_current_directory: self.run_in_current_directory,
            cwd: clone_opt(&self.cwd),
        }
    }
}

/// Copy a list of entries.
pub fn duplicate_items(v: &Vec<MenuItem>) -> (r: Vec<MenuItem>)
    ensures
        items_view(r@) == items_view(v@),
    decreases v,
{
    let mut out: Vec<MenuItem> = Vec::new();
    let mut i: usize = 0;
    while i < v.len()
        invariant
            i <= v@.len(),
            out@.len() == i,
            forall|k: int| 0 <= k < i ==> item_view(#[trigger] out@[k]) == item_view(v@[k]),
        decreases v@.len() - i,
    {
        proof {
            assert(decreases_to!(v => v@[i as int]));
        }
        out.push(v[i].duplicate());
        i = i + 1;
    }
    proof {
        lemma_items_view_ext(out@, v@);
    }
    out
}

impl Default for MenuItem {
    fn default() -> (r: MenuItem)
        ensures
            r@ == empty_item_view(),
    {
        let r = MenuItem {
            title: None,
            shell: None,
            parallel: Vec::new(),
            help: None,
            submenu: Vec::new(),
            args: Vec::new(),
            run_in_current_directory: None,
            cwd: None,
        };
        proof {
            assert(r@.parallel =~= Seq::<CommandView>::empty());
            assert(r@.args =~= Seq::<ArgView>::empty());
        }
        r
    }
}

/// Per-launcher switches. Every launcher defaults to enabled, so a file only
/// needs to name the ones it wants to turn off.
#[derive(Clone, Copy, Debug)]
pub struct AutoLauncherFlags {
    pub package_json: bool,
    pub makefile: bool,
    pub cargo: bool,
    pub gradle: bool,
}

impl Default for AutoLauncherFlags {
    fn default() -> (r: AutoLauncherFlags)
        ensures
            r.package_json && r.makefile && r.cargo && r.gradle,
    {
        AutoLauncherFlags { package_json: true, makefile: true, cargo: true, gradle: true }
    }
}

/// Which built-in launchers to scan for.
#[derive(Clone, Copy, Debug)]
pub enum AutoLaunchers {
    /// `auto_launchers: false` turns every launcher off at once.
    All(bool),
    /// Per-launcher switches.
    Each(AutoLauncherFlags),
}

/// The four built-in launchers.
#[derive(Clone, Copy, Debug)]
pub enum LauncherKind {
    PackageJson,
    Makefile,
    Cargo,
    Gradle,
}

/// Whether `a` enables the launcher `k`.
pub open spec fn enables(a: AutoLaunchers, k: LauncherKind) -> bool {
    match a {
        AutoLaunchers::All(on) => on,
        AutoLaunchers::Each(f) => match k {
            LauncherKind::PackageJson => f.package_json,
            LauncherKind::Makefile => f.makefile,
            LauncherKind::Cargo => f.cargo,
            LauncherKind::Gradle => f.gradle,
        },
    }
}

/// Whether `a` enables at least one launcher.
pub open spec fn enables_any(a: AutoLaunchers) -> bool {
    ||| enables(a, LauncherKind::PackageJson)
    ||| enables(a, LauncherKind::Makefile)
    ||| enables(a, LauncherKind::Cargo)
    ||| enables(a, LauncherKind::Gradle)
}

impl Default for AutoLaunchers {
    fn default() -> (r: AutoLaunchers)
        ensures
            r == AutoLaunchers::All(true),
    {
        AutoLaunchers::All(true)
    }
}

impl AutoLaunchers {
    /// Whether the launcher `kind` is on.
    pub fn enabled(&self, kind: LauncherKind) -> (r: bool)
        ensures
            r == enables(*self, kind),
    {
        match self {
            AutoLaunchers::All(on) => *on,
            AutoLaunchers::Each(flags) => match kind {
                LauncherKind::PackageJson => flags.package_json,
                LauncherKind::Makefile => flags.makefile,
                LauncherKind::Cargo => flags.cargo,
                LauncherKind::Gradle => flags.gradle,
            },
        }
    }

    pub fn package_json(&self) -> (r: bool)
        ensures
            r == enables(*self, LauncherKind::PackageJson),
    {
        self.enabled(LauncherKind::PackageJson)
    }

    pub fn makefile(&self) -> (r: bool)
        ensures
            r == enables(*self, LauncherKind::Makefile),
    {
        self.enabled(LauncherKind::Makefile)
    }

    pub fn cargo(&self) -> (r: bool)
        ensures
            r == enables(*self, LauncherKind::Cargo),
    {
        self.enabled(LauncherKind::Cargo)
    }

    pub fn gradle(&self) -> (r: bool)
        ensures
            r == enables(*self, LauncherKind::Gradle),
    {
        self.enabled(LauncherKind::Gradle)
    }

    /// `true` when at least one launcher is enabled.
    pub fn any(&self) -> (r: bool)
        ensures
            r == enables_any(*self),
    {
        self.package_json() || self.makefile() || self.cargo() || self.gradle()
    }

    /// A copy of this value.
    pub fn duplicate(&self) -> (r: AutoLaunchers)
        ensures
            r == *self,
    {
        match self {
            AutoLaunchers::All(on) => AutoLaunchers::All(*on),
            AutoLaunchers::Each(f) => AutoLaunchers::Each(
                AutoLauncherFlags {
                    package_json: f.package_json,
                    makefile: f.makefile,
                    cargo: f.cargo,
                    gradle: f.gradle,
                },
            ),
        }
    }
}

/// A whole configuration file.
#[derive(Debug)]
pub struct ConfigFile {
    /// Menu entries defined by this file.
    pub menu: Vec<MenuItem>,
    /// When `true`, the entries of this file run in the directory the menu was
    /// started from instead of the directory holding the file. `None` means
    /// the file said nothing, which is not the same as `false`: the per-user
    /// file defaults the other way round.
    pub run_in_current_directory: Option<bool>,
    /// When `false`, this file is skipped if another configuration file has
    /// already been loaded. Defaults to `true` (files are merged).
    pub merge: bool,
    /// Controls the built-in launchers. `None` means the file said nothing:
    /// only a file that decides stops files further up from deciding.
    pub auto_launchers: Option<AutoLaunchers>,
}

impl Default for ConfigFile {
    fn default() -> (r: ConfigFile)
        ensures
            r.menu@.len() == 0,
            r.run_in_current_directory is None,
            r.merge,
            r.auto_launchers is None,
    {
        ConfigFile { menu: Vec::new(), run_in_current_directory: None, merge: true, auto_launchers: None }
    }
}

} // verus!
