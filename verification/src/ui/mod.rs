//! The interactive menu's logic: line editing and argument substitution, the
//! navigation and search state, key bindings and the text drawn on screen.
//! Drawing it and reading keys is left to whoever runs the menu.

pub mod keys;
pub mod prompt;
pub mod screen;
pub mod state;
pub mod theme;

use vstd::prelude::*;

use crate::config::model::{
    ArgSpec, ArgView, ItemView, Job, Launch, LaunchView, MenuItem, item_has_detail, item_label, item_launch,
    job_view,
};
use crate::menu::{decimal, write_decimal};
use crate::text::{chars_of, join, push_chars, push_str, slice, string_of, strings_view};
use keys::Action;
use prompt::{EditorView, LineEditor, pairs_view, substitute, substituted};
use screen::{
    budget_for, cursor_marker, footer_budget, list_height, list_rows, marker_split, minus, one_line, one_lined,
    pad, padded, rows_of, split_marker, truncate, truncated, wrap, wrapped,
};
use state::{Frame, MenuState, entered, left, scrolled};

verus! {

/// What the user picked.
#[derive(Debug)]
pub enum Outcome {
    /// Run this, with any arguments already filled in, in the entry's own
    /// directory when it has one and in the working directory otherwise.
    Run(Launch, Option<String>),
    /// Leave without running anything.
    Cancelled,
}

/// What an entry runs once its arguments are known: the placeholders of every
/// script replaced by `values`, the same values for every member of a
/// parallel group (one prompt, however many shells it starts). An entry
/// without arguments runs as written.
pub open spec fn resolved(l: LaunchView, has_args: bool, values: Seq<(Seq<char>, Seq<char>)>) -> LaunchView {
    if !has_args {
        l
    } else {
        match l {
            LaunchView::Script(s) => LaunchView::Script(substituted(s, values)),
            LaunchView::Parallel(jobs) => LaunchView::Parallel(
                jobs.map_values(|j: (Seq<char>, Seq<char>)| (j.0, substituted(j.1, values))),
            ),
        }
    }
}

/// What `item` runs with the argument `values` the user entered (see
/// [`resolved`]); `None` for an entry that only opens.
pub fn resolve(item: &MenuItem, values: &Vec<(String, String)>) -> (r: Option<Launch>)
    ensures
        match item_launch(item@) {
            None => r is None,
            Some(l) => r is Some && r->0@ == resolved(l, item@.args.len() > 0, pairs_view(values@)),
        },
{
    let launch = match item.launch() {
        Some(l) => l,
        None => return None,
    };
    if item.args.len() == 0 {
        return Some(launch);
    }
    match launch {
        Launch::Script(script) => Some(Launch::Script(substitute(script.as_str(), values))),
        Launch::Parallel(jobs) => {
            let ghost jv = jobs@.map_values(|j: Job| job_view(j));
            let mut out: Vec<Job> = Vec::new();
            let mut i: usize = 0;
            while i < jobs.len()
                invariant
                    jv == jobs@.map_values(|j: Job| job_view(j)),
                    i <= jobs@.len(),
                    out@.map_values(|j: Job| job_view(j)) == jv.subrange(0, i as int).map_values(
                        |j: (Seq<char>, Seq<char>)| (j.0, substituted(j.1, pairs_view(values@))),
                    ),
                decreases jobs@.len() - i,
            {
                let ghost before = out@;
                let title = jobs[i].title.clone();
                let script = substitute(jobs[i].script.as_str(), values);
                out.push(Job { title, script });
                proof {
                    assert(jv[i as int] == job_view(jobs@[i as int]));
                    assert(jv.subrange(0, i + 1) =~= jv.subrange(0, i as int).push(jv[i as int]));
                    assert(out@.map_values(|j: Job| job_view(j)) =~= before.map_values(|j: Job| job_view(j)).push(
                        job_view(out@.last()),
                    ));
                }
                i = i + 1;
            }
            assert(jv.subrange(0, jobs@.len() as int) =~= jv);
            Some(Launch::Parallel(out))
        },
    }
}

/// The argument values of an entry with arguments `args`, from the answers
/// given at their prompts, in order: nothing when a prompt was cancelled (an
/// answer is `None`), otherwise each argument's name paired with its answer.
pub open spec fn paired(args: Seq<ArgView>, answers: Seq<Option<Seq<char>>>) -> Option<Seq<(Seq<char>, Seq<char>)>> {
    if exists|i: int| 0 <= i < answers.len() && #[trigger] answers[i] is None {
        None
    } else {
        let n = if args.len() < answers.len() {
            args.len()
        } else {
            answers.len()
        };
        Some(Seq::new(n, |i: int| (args[i].name, answers[i]->0)))
    }
}

/// The characters of optional answers.
pub open spec fn answers_view(answers: Seq<Option<String>>) -> Seq<Option<Seq<char>>> {
    answers.map_values(|a: Option<String>| crate::text::opt_view(a))
}

/// The argument values from the answers to the prompts (see [`paired`]).
pub fn answered(args: &Vec<ArgSpec>, answers: &Vec<Option<String>>) -> (r: Option<Vec<(String, String)>>)
    ensures
        match r {
            None => paired(args@.map_values(|a: ArgSpec| a@), answers_view(answers@)) is None,
            Some(v) => paired(args@.map_values(|a: ArgSpec| a@), answers_view(answers@)) == Some(
                pairs_view(v@),
            ),
        },
{
    let ghost av = args@.map_values(|a: ArgSpec| a@);
    let ghost ans = answers_view(answers@);
    let n = if args.len() < answers.len() {
        args.len()
    } else {
        answers.len()
    };
    let mut k: usize = 0;
    while k < answers.len()
        invariant
            ans == answers_view(answers@),
            k <= answers@.len(),
            forall|i: int| 0 <= i < k ==> !(#[trigger] ans[i] is None),
        decreases answers@.len() - k,
    {
        if answers[k].is_none() {
            assert(ans[k as int] is None);
            return None;
        }
        k = k + 1;
    }
    let mut out: Vec<(String, String)> = Vec::new();
    let mut i: usize = 0;
    while i < n
        invariant
            ans == answers_view(answers@),
            av == args@.map_values(|a: ArgSpec| a@),
            n <= args@.len(),
            n <= answers@.len(),
            forall|j: int| 0 <= j < answers@.len() ==> !(#[trigger] ans[j] is None),
            i <= n,
            pairs_view(out@) == Seq::new(i as nat, |j: int| (av[j].name, ans[j]->0)),
        decreases n - i,
    {
        let value = match &answers[i] {
            Some(v) => v.clone(),
            None => String::new(),
        };
        assert(ans[i as int] == crate::text::opt_view(answers@[i as int]));
        let ghost before = pairs_view(out@);
        out.push((args[i].name.clone(), value));
        proof {
            assert(pairs_view(out@) =~= before.push((av[i as int].name, ans[i as int]->0)));
            assert(pairs_view(out@) =~= Seq::new((i + 1) as nat, |j: int| (av[j].name, ans[j]->0)));
        }
        i = i + 1;
    }
    Some(out)
}

/// What `item` runs once its prompts were answered with `answers`, in the
/// order of its arguments: nothing for an entry that only opens or when a
/// prompt was cancelled, otherwise [`resolve`] over the values
/// [`answered`] gives.
pub fn resolve_answers(item: &MenuItem, answers: &Vec<Option<String>>) -> (r: Option<Launch>)
    ensures
        match (item_launch(item@), paired(item@.args, answers_view(answers@))) {
            (Some(l), Some(values)) => r is Some && r->0@ == resolved(l, item@.args.len() > 0, values),
            _ => r is None,
        },
{
    match answered(&item.args, answers) {
        Some(values) => resolve(item, &values),
        None => None,
    }
}

/// What a key press in the menu leads to.
#[derive(Debug)]
pub enum Step {
    /// The menu stays open.
    Stay,
    /// The menu is left without running anything.
    Cancel,
    /// This entry is to be run, once its arguments are asked for.
    Run(MenuItem),
}

/// Act on a key press in the menu: the motions move the cursor, Forward opens
/// the selected entry's detail view, Back goes up a level and leaves the menu
/// at the root, Quit leaves it. Enter runs the selected entry; an entry with
/// nothing to run opens instead, so Enter never silently does nothing.
pub fn on_action(menu: &mut MenuState, action: Action) -> (r: Step)
    requires
        old(menu).wf(),
    ensures
        final(menu).wf(),
        match action {
            Action::Quit => r is Cancel && final(menu).frames_view() == old(menu).frames_view(),
            Action::Back => if old(menu).frames_view().len() > 1 {
                r is Stay && left(old(menu).frames_view(), final(menu).frames_view())
            } else {
                r is Cancel && final(menu).frames_view() == old(menu).frames_view()
            },
            Action::Select => match old(menu).top().selected_index() {
                None => r is Stay && final(menu).frames_view() == old(menu).frames_view(),
                Some(i) => {
                    let m = old(menu).top().entries()[i as int]@;
                    if item_launch(m) is Some {
                        &&& r matches Step::Run(it) && it@ == m
                        &&& final(menu).frames_view() == old(menu).frames_view()
                    } else if item_has_detail(m) {
                        r is Stay && entered(old(menu).frames_view(), final(menu).frames_view())
                    } else {
                        r is Stay && final(menu).frames_view() == old(menu).frames_view()
                    }
                },
            },
            Action::Down => r is Stay && final(menu).top().cursor_at() == if old(menu).top().cursor_at() + 1
                < old(menu).shown() {
                old(menu).top().cursor_at() + 1
            } else {
                old(menu).top().cursor_at() as int
            },
            Action::Up => r is Stay && final(menu).top().cursor_at() == if old(menu).top().cursor_at() > 0 {
                old(menu).top().cursor_at() - 1
            } else {
                0
            },
            Action::First => r is Stay && final(menu).top().cursor_at() == 0,
            Action::Last => r is Stay && final(menu).top().cursor_at() == if old(menu).shown() > 0 {
                old(menu).shown() - 1
            } else {
                0
            },
            Action::Forward => r is Stay && match old(menu).top().selected_index() {
                Some(i) => if item_has_detail(old(menu).top().entries()[i as int]@) {
                    entered(old(menu).frames_view(), final(menu).frames_view())
                } else {
                    final(menu).frames_view() == old(menu).frames_view()
                },
                None => final(menu).frames_view() == old(menu).frames_view(),
            },
            Action::Nothing => r is Stay && final(menu).frames_view() == old(menu).frames_view(),
        },
{
    match action {
        Action::Quit => Step::Cancel,
        Action::Down => {
            menu.move_down();
            Step::Stay
        },
        Action::Up => {
            menu.move_up();
            Step::Stay
        },
        Action::First => {
            menu.move_first();
            Step::Stay
        },
        Action::Last => {
            menu.move_last();
            Step::Stay
        },
        Action::Back => {
            if menu.leave_detail() {
                Step::Stay
            } else {
                Step::Cancel
            }
        },
        Action::Forward => {
            let _ = menu.enter_detail();
            Step::Stay
        },
        Action::Select => {
            let item = match menu.selected() {
                Some(it) => it.duplicate(),
                None => return Step::Stay,
            };
            if item.launch().is_none() {
                let _ = menu.enter_detail();
                return Step::Stay;
            }
            Step::Run(item)
        },
        Action::Nothing => Step::Stay,
    }
}

/// What the status line says about the entry `selected`: `$` and its
/// command; `&` and the commands of its group, joined the way a shell would
/// be told to run them at once; or `>` and how many entries it opens onto.
/// Nothing when no entry is selected.
pub open spec fn footer_for(selected: Option<crate::config::model::ItemView>) -> Seq<char> {
    match selected {
        None => Seq::empty(),
        Some(m) => match item_launch(m) {
            Some(LaunchView::Script(s)) => "$ "@ + one_lined(s),
            Some(LaunchView::Parallel(jobs)) => "& "@ + join(
                jobs.map_values(|j: (Seq<char>, Seq<char>)| one_lined(j.1)),
                " & "@,
            ),
            None => "> "@ + decimal(m.submenu.len()) + " entries"@,
        },
    }
}

/// What the status line says about the selected entry (see [`footer_for`]).
pub fn footer_text(menu: &MenuState) -> (r: String)
    requires
        menu.wf(),
    ensures
        r@ == footer_for(match menu.top().selected_index() {
            Some(i) => Some(menu.top().entries()[i as int]@),
            None => None,
        }),
{
    proof {
        reveal_strlit("$ ");
        reveal_strlit("& ");
        reveal_strlit(" & ");
        reveal_strlit("> ");
        reveal_strlit(" entries");
    }
    let item = match menu.selected() {
        Some(it) => it,
        None => return String::new(),
    };
    let mut out: Vec<char> = Vec::new();
    match item.launch() {
        Some(Launch::Script(script)) => {
            push_str(&mut out, "$ ");
            push_str(&mut out, one_line(script.as_str()).as_str());
            assert(out@ =~= "$ "@ + one_lined(script@));
        },
        Some(Launch::Parallel(jobs)) => {
            push_str(&mut out, "& ");
            let mut parts: Vec<String> = Vec::new();
            let ghost jv = jobs@.map_values(|j: Job| job_view(j));
            let mut i: usize = 0;
            while i < jobs.len()
                invariant
                    jv == jobs@.map_values(|j: Job| job_view(j)),
                    i <= jobs@.len(),
                    parts@.map_values(|p: String| p@) == jv.subrange(0, i as int).map_values(
                        |j: (Seq<char>, Seq<char>)| one_lined(j.1),
                    ),
                decreases jobs@.len() - i,
            {
                let ghost before = parts@;
                parts.push(one_line(jobs[i].script.as_str()));
                proof {
                    assert(jv[i as int] == job_view(jobs@[i as int]));
                    assert(jv.subrange(0, i + 1) =~= jv.subrange(0, i as int).push(jv[i as int]));
                    assert(parts@.map_values(|p: String| p@) =~= before.map_values(|p: String| p@).push(
                        parts@.last()@,
                    ));
                }
                i = i + 1;
            }
            assert(jv.subrange(0, jobs@.len() as int) =~= jv);
            let joined = crate::text::join_strings(&parts, " & ");
            push_chars(&mut out, &joined);
            assert(out@ =~= "& "@ + join(jv.map_values(|j: (Seq<char>, Seq<char>)| one_lined(j.1)), " & "@));
        },
        None => {
            push_str(&mut out, "> ");
            proof {
                crate::config::model::lemma_items_view(item.submenu@);
            }
            push_chars(&mut out, &write_decimal(item.submenu.len()));
            push_str(&mut out, " entries");
            assert(out@ =~= "> "@ + decimal(item@.submenu.len()) + " entries"@);
        },
    }
    string_of(&out)
}


// ---------------------------------------------------------------------------
// The frame on screen
// ---------------------------------------------------------------------------

/// How a run of text is painted (see [`theme::style_spec`]).
#[derive(Debug, Clone, Copy, PartialEq, Eq, Structural)]
pub enum Paint {
    /// The title of the level.
    Title,
    /// Hints and the note of an empty list.
    Muted,
    /// The help text above a level.
    Help,
    /// The `*>` of the selected entry, on the selection bar.
    Marker,
    /// The rest of the selection bar.
    Selected,
    /// An entry that opens onto more.
    Container,
    /// Any other entry.
    Plain,
    /// The sigil at the head of the status line.
    Sigil,
    /// The rest of the status line.
    Status,
    /// The program's name in front of an error.
    Error,
    /// The sigil in front of a command the program reports.
    Command,
}

/// Text painted one way.
#[derive(Debug)]
pub struct Run {
    pub text: String,
    pub paint: Paint,
}

/// One screen row: its index from the top and what is written from its
/// first column on.
#[derive(Debug)]
pub struct Row {
    pub row: u16,
    pub runs: Vec<Run>,
}

/// A run as its text and paint.
pub type RunView = (Seq<char>, Paint);

/// A row as its index and runs.
pub type RowView = (u16, Seq<RunView>);

impl View for Run {
    type V = RunView;

    open spec fn view(&self) -> RunView {
        (self.text@, self.paint)
    }
}

impl View for Row {
    type V = RowView;

    open spec fn view(&self) -> RowView {
        (self.row, runs_view(self.runs@))
    }
}

/// The runs of `runs`, as views.
pub open spec fn runs_view(runs: Seq<Run>) -> Seq<RunView> {
    runs.map_values(|r: Run| r@)
}

/// The rows of `rows`, as views.
pub open spec fn rows_view(rows: Seq<Row>) -> Seq<RowView> {
    rows.map_values(|r: Row| r@)
}

/// Rows taken by the help text of `f` and the blank line under it.
pub open spec fn help_rows_of(f: Frame) -> u16 {
    if f.help_view() is Some {
        2
    } else {
        0
    }
}

/// The entry under the cursor of `menu`, if any.
pub open spec fn selected_view(menu: MenuState) -> Option<ItemView> {
    match menu.top().selected_index() {
        Some(i) => Some(menu.top().entries()[i as int]@),
        None => None,
    }
}

/// The status line of `menu` on a terminal `cols` by `rows`, broken into
/// the rows it takes.
pub open spec fn status_lines(menu: MenuState, cols: u16, rows: u16) -> Seq<Seq<char>> {
    wrapped(footer_for(selected_view(menu)), cols, budget_for(rows, help_rows_of(menu.top())))
}

/// How many rows the list of `menu` gets.
pub open spec fn list_height_of(menu: MenuState, cols: u16, rows: u16) -> int {
    list_rows(rows, help_rows_of(menu.top()), status_lines(menu, cols, rows).len() as u16) as int
}

/// The entries on screen, in order.
pub open spec fn shown_items(menu: MenuState) -> Seq<ItemView> {
    Seq::new(
        menu.shown() as nat,
        |k: int| menu.top().entries()[menu.top().visible_view()[k] as int]@,
    )
}

/// The hint after the title of a nested level.
pub open spec fn back_hint() -> Seq<char> {
    " (h/← to go back)"@
}

/// The title row: the title, and on a nested level the way back, in what
/// the title leaves of the line.
pub open spec fn title_runs(title: Seq<char>, nested: bool, cols: u16) -> Seq<RunView> {
    let t = truncated(title, cols);
    if nested {
        seq![(t, Paint::Title), (truncated(back_hint(), minus(cols as int, t.len() as int) as u16), Paint::Muted)]
    } else {
        seq![(t, Paint::Title)]
    }
}

/// The text of an entry's row: the cursor mark, the label and, for an entry
/// that opens onto more, ` >`.
pub open spec fn entry_line(m: ItemView, selected: bool) -> Seq<char> {
    (if selected {
        "*>"@
    } else {
        "  "@
    }) + " "@ + item_label(m) + (if item_has_detail(m) {
        " >"@
    } else {
        "  "@
    })
}

/// An entry's row: cut to the width; the selected one filled out to the
/// width as a bar, with its mark painted apart.
pub open spec fn entry_runs(m: ItemView, selected: bool, cols: u16) -> Seq<RunView> {
    let line = truncated(entry_line(m, selected), cols);
    if selected {
        let parts = marker_split(padded(line, cols));
        seq![(parts.0, Paint::Marker), (parts.1, Paint::Selected)]
    } else {
        seq![(line, if item_has_detail(m) { Paint::Container } else { Paint::Plain })]
    }
}

/// A row of the status line, filled out to the width; the first has its
/// sigil painted apart.
pub open spec fn status_runs(line: Seq<char>, first: bool, cols: u16) -> Seq<RunView> {
    let full = padded(line, cols);
    if first {
        let parts = marker_split(full);
        seq![(parts.0, Paint::Sigil), (parts.1, Paint::Status)]
    } else {
        seq![(full, Paint::Status)]
    }
}

/// The smaller of `a` and `b`.
pub open spec fn least(a: int, b: int) -> int {
    if a < b {
        a
    } else {
        b
    }
}

/// The title row and the help row, those that fit on the screen.
pub open spec fn head_rows(top: Frame, nested: bool, cols: u16, rows: u16) -> Seq<RowView> {
    let title: Seq<RowView> = if 0 < rows {
        seq![(0u16, title_runs(top.title_view(), nested, cols))]
    } else {
        Seq::empty()
    };
    if top.help_view() is Some && 1 < rows {
        title.push((1u16, seq![(truncated(top.help_view()->0, cols), Paint::Help)]))
    } else {
        title
    }
}

/// How many entries are listed: those from the offset on, as many as the
/// list height and the screen below the list's first row allow.
pub open spec fn listed(menu: MenuState, cols: u16, rows: u16) -> int {
    let start = 2 + help_rows_of(menu.top());
    let room = minus(rows as int, start as int);
    minus(least(least(list_height_of(menu, cols, rows), menu.shown() - menu.offset_view()), room), 0)
}

/// The rows from the list's first on: the note of an empty list, then the
/// entries from the offset on, one per row.
pub open spec fn list_rows_of(menu: MenuState, cols: u16, rows: u16) -> Seq<RowView> {
    let start = 2 + help_rows_of(menu.top());
    let note: Seq<RowView> = if menu.shown() == 0 && start < rows {
        seq![(start as u16, seq![("  (no entries)"@, Paint::Muted)])]
    } else {
        Seq::empty()
    };
    note + Seq::new(listed(menu, cols, rows) as nat, |k: int| entry_row_at(menu, cols, k))
}

/// The row of the `k`-th listed entry, counted from the offset.
pub open spec fn entry_row_at(menu: MenuState, cols: u16, k: int) -> RowView {
    let start = 2 + help_rows_of(menu.top());
    let index = menu.offset_view() + k;
    ((start + k) as u16, entry_runs(shown_items(menu)[index], index == menu.top().cursor_at(), cols))
}

/// The status line's rows, at the bottom of the screen, those that fit.
pub open spec fn status_rows_of(menu: MenuState, cols: u16, rows: u16) -> Seq<RowView> {
    status_rows_for(status_lines(menu, cols, rows), cols, rows)
}

/// The rows `lines` take at the bottom of a screen `rows` tall, those that
/// fit.
pub open spec fn status_rows_for(lines: Seq<Seq<char>>, cols: u16, rows: u16) -> Seq<RowView> {
    Seq::new(least(lines.len() as int, rows as int) as nat, |j: int| status_row_at(lines, cols, rows, j))
}

/// The row of the `j`-th line of the status line.
pub open spec fn status_row_at(lines: Seq<Seq<char>>, cols: u16, rows: u16, j: int) -> RowView {
    ((minus(rows as int, lines.len() as int) + j) as u16, status_runs(lines[j], j == 0, cols))
}

/// Everything written on the screen for `menu`, top to bottom, the status
/// line last.
pub open spec fn screen_rows(menu: MenuState, cols: u16, rows: u16) -> Seq<RowView> {
    head_rows(menu.top(), menu.frames_view().len() > 1, cols, rows) + list_rows_of(menu, cols, rows)
        + status_rows_of(menu, cols, rows)
}

/// The rows of `rows_of` are at most `budget`.
proof fn lemma_rows_of_len(rest: Seq<char>, room: int, budget: nat)
    ensures
        rows_of(rest, room, budget).len() <= budget,
    decreases budget,
{
    if rest.len() > 0 && budget > 0 {
        let row = screen::fit(screen::grapheme_clusters(rest), room);
        if row.len() > 0 {
            lemma_rows_of_len(rest.subrange(row.len() as int, rest.len() as int), room, (budget - 1) as nat);
        }
    }
}

/// The status line takes between one and ten rows.
proof fn lemma_status_len(menu: MenuState, cols: u16, rows: u16)
    ensures
        1 <= status_lines(menu, cols, rows).len() <= 10,
{
    let budget = budget_for(rows, help_rows_of(menu.top()));
    assert(budget <= 10);
    lemma_rows_of_len(screen::sanitized(footer_for(selected_view(menu))), screen::usable(cols), budget as nat);
}

/// Scrolling leaves the cursor inside the window, and the window's first row
/// no further than the entries go.
proof fn lemma_scrolled(offset: int, cursor: int, len: int, height: int)
    requires
        height >= 1,
        0 <= offset,
        (0 <= cursor < len) || (len == 0 && cursor == 0),
    ensures
        0 <= scrolled(offset, cursor, len, height) <= cursor,
        scrolled(offset, cursor, len, height) <= len,
        len > 0 ==> cursor < scrolled(offset, cursor, len, height) + height,
{
}

/// Every row of [`screen_rows`] is on the screen.
pub proof fn screen_rows_stay_on_screen(menu: MenuState, cols: u16, rows: u16)
    ensures
        forall|i: int| 0 <= i < screen_rows(menu, cols, rows).len() ==> #[trigger] screen_rows(menu, cols, rows)[i].0 < rows,
{
    let head = head_rows(menu.top(), menu.frames_view().len() > 1, cols, rows);
    let list = list_rows_of(menu, cols, rows);
    let status = status_rows_of(menu, cols, rows);
    lemma_status_len(menu, cols, rows);
    assert forall|i: int| 0 <= i < screen_rows(menu, cols, rows).len() implies #[trigger] screen_rows(
        menu,
        cols,
        rows,
    )[i].0 < rows by {
        if i >= head.len() + list.len() {
            assert(screen_rows(menu, cols, rows)[i] == status[i - head.len() - list.len()]);
        } else if i >= head.len() {
            assert(screen_rows(menu, cols, rows)[i] == list[i - head.len()]);
        } else {
            assert(screen_rows(menu, cols, rows)[i] == head[i]);
        }
    }
}

/// The title row and the help row of `frame`, those that fit.
fn push_head(out: &mut Vec<Row>, frame: &Frame, nested: bool, cols: u16, rows: u16)
    ensures
        rows_view(final(out)@) == rows_view(old(out)@) + head_rows(*frame, nested, cols, rows),
{
    let ghost start = rows_view(out@);
    if rows > 0 {
        let title = truncate(frame.title_text(), cols);
        let n = chars_of(title.as_str()).len();
        let room: u16 = if n >= cols as usize {
            0
        } else {
            cols - n as u16
        };
        let mut runs: Vec<Run> = Vec::new();
        runs.push(Run { text: title, paint: Paint::Title });
        if nested {
            runs.push(Run { text: truncate(" (h/← to go back)", room), paint: Paint::Muted });
        }
        assert(runs_view(runs@) =~= title_runs(frame.title_view(), nested, cols));
        out.push(Row { row: 0, runs });
    }
    if let Some(help) = frame.help_text() {
        if rows > 1 {
            let mut runs: Vec<Run> = Vec::new();
            runs.push(Run { text: truncate(help.as_str(), cols), paint: Paint::Help });
            assert(runs_view(runs@) =~= seq![(truncated(frame.help_view()->0, cols), Paint::Help)]);
            out.push(Row { row: 1, runs });
        }
    }
    assert(rows_view(out@) =~= start + head_rows(*frame, nested, cols, rows));
}

/// The runs of an entry's row (see [`entry_runs`]).
fn entry_row_runs(item: &MenuItem, selected: bool, cols: u16) -> (r: Vec<Run>)
    ensures
        runs_view(r@) == entry_runs(item@, selected, cols),
{
    let mut line: Vec<char> = Vec::new();
    push_str(&mut line, cursor_marker(selected));
    push_str(&mut line, " ");
    push_str(&mut line, item.label().as_str());
    let detail = item.has_detail();
    push_str(
        &mut line,
        if detail {
            " >"
        } else {
            "  "
        },
    );
    assert(line@ =~= entry_line(item@, selected));
    let cut = truncate(string_of(&line).as_str(), cols);
    let mut runs: Vec<Run> = Vec::new();
    if selected {
        let (mark, rest) = split_marker(pad(cut.as_str(), cols).as_str());
        runs.push(Run { text: mark, paint: Paint::Marker });
        runs.push(Run { text: rest, paint: Paint::Selected });
    } else {
        let paint = if detail {
            Paint::Container
        } else {
            Paint::Plain
        };
        runs.push(Run { text: cut, paint });
    }
    assert(runs_view(runs@) =~= entry_runs(item@, selected, cols));
    runs
}

/// The runs of a row of the status line (see [`status_runs`]).
fn status_row_runs(line: &str, first: bool, cols: u16) -> (r: Vec<Run>)
    ensures
        runs_view(r@) == status_runs(line@, first, cols),
{
    let full = pad(line, cols);
    let mut runs: Vec<Run> = Vec::new();
    if first {
        let (sigil, rest) = split_marker(full.as_str());
        runs.push(Run { text: sigil, paint: Paint::Sigil });
        runs.push(Run { text: rest, paint: Paint::Status });
    } else {
        runs.push(Run { text: full, paint: Paint::Status });
    }
    assert(runs_view(runs@) =~= status_runs(line@, first, cols));
    runs
}

/// The list's rows for `menu`, once scrolled (see [`list_rows_of`]).
fn push_list(out: &mut Vec<Row>, menu: &MenuState, cols: u16, rows: u16, height: u16)
    requires
        menu.wf(),
        height == list_height_of(*menu, cols, rows),
        menu.offset_view() <= menu.shown(),
    ensures
        rows_view(final(out)@) == rows_view(old(out)@) + list_rows_of(*menu, cols, rows),
{
    let ghost before = rows_view(out@);
    let help_rows: u16 = if menu.frame().help_text().is_some() {
        2
    } else {
        0
    };
    let start: u16 = 2 + help_rows;
    let items = menu.items();
    let n = items.len();
    let offset = menu.offset();
    let cursor = menu.cursor();
    if items.len() == 0 && start < rows {
        let mut runs: Vec<Run> = Vec::new();
        runs.push(Run { text: "  (no entries)".to_owned(), paint: Paint::Muted });
        assert(runs_view(runs@) =~= seq![("  (no entries)"@, Paint::Muted)]);
        out.push(Row { row: start, runs });
    }
    let ghost note = if menu.shown() == 0 && start < rows {
        seq![(start as u16, seq![("  (no entries)"@, Paint::Muted)])]
    } else {
        Seq::<RowView>::empty()
    };
    assert(rows_view(out@) =~= before + note);
    let mut count: usize = height as usize;
    if items.len() - offset < count {
        count = items.len() - offset;
    }
    let room: usize = if rows > start {
        (rows - start) as usize
    } else {
        0
    };
    if room < count {
        count = room;
    }
    assert(count == listed(*menu, cols, rows));
    let ghost shown = shown_items(*menu);
    let mut k: usize = 0;
    while k < count
        invariant
            k <= count,
            n == items@.len(),
            offset + count <= n,
            count == 0 || start + count <= rows,
            items@.len() == menu.shown(),
            shown == shown_items(*menu),
            forall|i: int| 0 <= i < items@.len() ==> (*#[trigger] items@[i])@ == shown[i],
            start == 2 + help_rows_of(menu.top()),
            offset == menu.offset_view(),
            cursor == menu.top().cursor_at(),
            rows_view(out@) == before + note + Seq::new(k as nat, |k: int| entry_row_at(*menu, cols, k)),
        decreases count - k,
    {
        let index = offset + k;
        let runs = entry_row_runs(items[index], index == cursor, cols);
        let ghost prev = rows_view(out@);
        out.push(Row { row: start + k as u16, runs });
        assert(rows_view(out@) =~= prev.push(entry_row_at(*menu, cols, k as int)));
        assert(Seq::new((k + 1) as nat, |k: int| entry_row_at(*menu, cols, k)) =~= Seq::new(
            k as nat,
            |k: int| entry_row_at(*menu, cols, k),
        ).push(entry_row_at(*menu, cols, k as int)));
        k = k + 1;
    }
    assert(note + Seq::new(count as nat, |k: int| entry_row_at(*menu, cols, k)) =~= list_rows_of(
        *menu,
        cols,
        rows,
    ));
    assert(rows_view(out@) =~= before + list_rows_of(*menu, cols, rows));
}

/// The status line's rows at the bottom of the screen, those that fit.
fn push_status(out: &mut Vec<Row>, lines: &Vec<String>, cols: u16, rows: u16)
    requires
        lines@.len() <= 10,
    ensures
        rows_view(final(out)@) == rows_view(old(out)@) + status_rows_for(strings_view(lines@), cols, rows),
{
    let ghost before = rows_view(out@);
    let ghost lv = strings_view(lines@);
    let footer_rows = lines.len() as u16;
    let first: u16 = if rows >= footer_rows {
        rows - footer_rows
    } else {
        0
    };
    let fcount: usize = if footer_rows < rows {
        footer_rows as usize
    } else {
        rows as usize
    };
    let mut j: usize = 0;
    while j < fcount
        invariant
            j <= fcount,
            lv == strings_view(lines@),
            fcount == least(lines@.len() as int, rows as int),
            first == minus(rows as int, lines@.len() as int),
            first + fcount <= rows,
            rows_view(out@) == before + Seq::new(j as nat, |j: int| status_row_at(lv, cols, rows, j)),
        decreases fcount - j,
    {
        let runs = status_row_runs(lines[j].as_str(), j == 0, cols);
        let ghost prev = rows_view(out@);
        out.push(Row { row: first + j as u16, runs });
        assert(rows_view(out@) =~= prev.push(status_row_at(lv, cols, rows, j as int)));
        assert(Seq::new((j + 1) as nat, |j: int| status_row_at(lv, cols, rows, j)) =~= Seq::new(
            j as nat,
            |j: int| status_row_at(lv, cols, rows, j),
        ).push(status_row_at(lv, cols, rows, j as int)));
        j = j + 1;
    }
    assert(Seq::new(fcount as nat, |j: int| status_row_at(lv, cols, rows, j)) =~= status_rows_for(lv, cols, rows));
}

/// Lay out the frame for `menu` on a terminal `cols` by `rows`: the window
/// is first scrolled to keep the cursor in the list, then every row to be
/// written is listed (see [`screen_rows`]). Whatever would fall below the
/// screen is left out.
#[verifier::rlimit(30)]
pub fn layout(menu: &mut MenuState, cols: u16, rows: u16) -> (r: Vec<Row>)
    requires
        old(menu).wf(),
    ensures
        final(menu).wf(),
        final(menu).frames_view() == old(menu).frames_view(),
        final(menu).offset_view() == scrolled(
            old(menu).offset_view() as int,
            old(menu).top().cursor_at() as int,
            old(menu).shown(),
            list_height_of(*old(menu), cols, rows),
        ),
        rows_view(r@) == screen_rows(*final(menu), cols, rows),
        forall|i: int| 0 <= i < r@.len() ==> #[trigger] r@[i].row < rows,
        final(menu).offset_view() <= final(menu).top().cursor_at(),
        final(menu).shown() > 0 ==> final(menu).top().cursor_at() < final(menu).offset_view() + list_height_of(
            *final(menu),
            cols,
            rows,
        ),
{
    let help_rows: u16 = if menu.frame().help_text().is_some() {
        2
    } else {
        0
    };
    let status = footer_text(menu);
    let budget = footer_budget(rows, help_rows);
    let lines = wrap(status.as_str(), cols, budget);
    proof {
        lemma_status_len(*menu, cols, rows);
    }
    let footer_rows = lines.len() as u16;
    let height = list_height(rows, help_rows, footer_rows);
    let ghost before = *menu;
    proof {
        assert(before.top().wf());
        lemma_scrolled(before.offset_view() as int, before.top().cursor_at() as int, before.shown(), height as int);
    }
    menu.scroll_into_view(height as usize);
    let ghost m = *menu;
    assert(m.top() == before.top());
    let mut out: Vec<Row> = Vec::new();
    push_head(&mut out, menu.frame(), menu.depth() > 1, cols, rows);
    push_list(&mut out, menu, cols, rows, height);
    push_status(&mut out, &lines, cols, rows);
    assert(rows_view(out@) =~= screen_rows(m, cols, rows));
    proof {
        lemma_rows_on_screen(out@, m, cols, rows);
    }
    out
}

/// Rows laid out as [`screen_rows`] are all on the screen.
proof fn lemma_rows_on_screen(out: Seq<Row>, m: MenuState, cols: u16, rows: u16)
    requires
        rows_view(out) == screen_rows(m, cols, rows),
    ensures
        forall|i: int| 0 <= i < out.len() ==> #[trigger] out[i].row < rows,
{
    screen_rows_stay_on_screen(m, cols, rows);
    assert forall|i: int| 0 <= i < out.len() implies #[trigger] out[i].row < rows by {
        assert(rows_view(out)[i] == out[i]@);
        assert(rows_view(out)[i] == screen_rows(m, cols, rows)[i]);
        assert(screen_rows(m, cols, rows)[i].0 < rows);
    }
}

/// The prompt for an argument on the bottom row: `label: text` cut to the
/// width and split after the colon, so the label can be painted apart from
/// the value, and the column the cursor goes to (after the label, the colon,
/// the space and the characters before the editor's cursor; at most the
/// last usable column).
pub open spec fn prompt_line(label: Seq<char>, e: EditorView, cols: u16) -> (Seq<char>, Seq<char>, int) {
    let line = truncated(label + ": "@ + e.text, cols);
    let at = label.len() + 1;
    let parts = if line.len() > at {
        (line.subrange(0, at as int), line.subrange(at as int, line.len() as int))
    } else {
        (line, Seq::empty())
    };
    (parts.0, parts.1, least(label.len() + 2 + e.cursor, cols - 1))
}

/// Lay out the prompt for `label` (see [`prompt_line`]).
pub fn prompt_layout(label: &str, editor: &LineEditor, cols: u16) -> (r: (String, String, u16))
    requires
        cols >= 1,
    ensures
        (r.0@, r.1@, r.2 as int) == prompt_line(label@, editor@, cols),
{
    proof {
        reveal_strlit(": ");
    }
    let mut line: Vec<char> = Vec::new();
    push_str(&mut line, label);
    push_str(&mut line, ": ");
    let text = editor.text();
    push_str(&mut line, text.as_str());
    assert(line@ =~= label@ + ": "@ + editor@.text);
    let cut = chars_of(truncate(string_of(&line).as_str(), cols).as_str());
    let n = chars_of(label).len();
    let (prompt, value) = if cut.len() > n && cut.len() - n > 1 {
        (string_of(&slice(&cut, 0, n + 1)), string_of(&slice(&cut, n + 1, cut.len())))
    } else {
        (string_of(&cut), String::new())
    };
    let limit: usize = (cols - 1) as usize;
    let cursor = editor.cursor();
    let column: usize = if n >= limit || limit - n <= 2 || cursor >= limit - n - 2 {
        limit
    } else {
        n + 2 + cursor
    };
    (prompt, value, column as u16)
}

} // verus!
