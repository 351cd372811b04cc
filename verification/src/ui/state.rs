//! Navigation state of the menu.
//!
//! Free of any terminal handling: a value that key presses change.

use vstd::prelude::*;

use crate::config::model::{
    ItemView, MenuItem, duplicate_args, duplicate_commands, duplicate_items, item_has_detail,
    item_label, item_launch, item_view, items_view, lemma_items_view, lemma_items_view_add,
};
use crate::text::{chars_of, clone_opt, contains_infix, has_infix, lowercase, push_str, string_of, to_lowercase};

verus! {

/// The search text `query` is matched with: its lowercase form, and nothing
/// for an empty query.
pub open spec fn needle_of(query: Seq<char>) -> Seq<char> {
    if query.len() == 0 {
        Seq::empty()
    } else {
        lowercase(query)
    }
}

/// Whether an entry stays on screen for a search: the search is empty, or the
/// lowercase label contains it.
pub open spec fn item_matches(m: ItemView, needle: Seq<char>) -> bool {
    needle.len() == 0 || has_infix(lowercase(item_label(m)), needle)
}

/// The positions among the first `k` entries that match, in order.
pub open spec fn matching(items: Seq<ItemView>, needle: Seq<char>, k: int) -> Seq<usize>
    decreases k,
{
    if k <= 0 {
        Seq::empty()
    } else {
        let p = matching(items, needle, k - 1);
        if item_matches(items[k - 1], needle) {
            p.push((k - 1) as usize)
        } else {
            p
        }
    }
}

/// Every position is below `k`, and they increase.
pub open spec fn ascending_below(v: Seq<usize>, k: int) -> bool {
    &&& forall|i: int| 0 <= i < v.len() ==> #[trigger] v[i] < k
    &&& forall|i: int, j: int| 0 <= i < j < v.len() ==> v[i] < v[j]
}

pub proof fn lemma_matching(items: Seq<ItemView>, needle: Seq<char>, k: int)
    requires
        0 <= k <= items.len(),
        k <= usize::MAX,
    ensures
        ascending_below(matching(items, needle, k), k),
        matching(items, needle, k).len() <= k,
        needle.len() == 0 ==> matching(items, needle, k) == Seq::new(k as nat, |i: int| i as usize),
    decreases k,
{
    if k > 0 {
        lemma_matching(items, needle, k - 1);
        let p = matching(items, needle, k - 1);
        let m = matching(items, needle, k);
        assert forall|i: int, j: int| 0 <= i < j < m.len() implies m[i] < m[j] by {
            if j < p.len() {
                assert(m[i] == p[i] && m[j] == p[j]);
            } else {
                assert(m[i] == p[i]);
            }
        }
        if needle.len() == 0 {
            assert(matching(items, needle, k) =~= Seq::new(k as nat, |i: int| i as usize));
        }
    }
}

/// One level of the menu. Opening a submenu pushes a frame; going back pops
/// it, which is what keeps the cursor position of the parent level.
pub struct Frame {
    pub title: String,
    /// Help text of the entry this frame was opened from.
    pub help: Option<String>,
    pub items: Vec<MenuItem>,
    /// Index into the entries the search left, not into `items`.
    pub cursor: usize,
    /// The incremental search string. Empty means no filtering.
    query: String,
    /// Indices into `items` that match `query`, in the original order.
    visible: Vec<usize>,
}

impl Frame {
    /// The entries of this level, filtered or not.
    pub closed spec fn entries(&self) -> Seq<MenuItem> {
        self.items@
    }

    /// The cursor, as a position among the entries on screen.
    pub closed spec fn cursor_at(&self) -> usize {
        self.cursor
    }

    /// The title of this level.
    pub closed spec fn title_view(&self) -> Seq<char> {
        self.title@
    }

    /// The help text shown above this level.
    pub closed spec fn help_view(&self) -> Option<Seq<char>> {
        crate::text::opt_view(self.help)
    }

    /// The search string of this level.
    pub closed spec fn query_view(&self) -> Seq<char> {
        self.query@
    }

    /// The positions in `items` of the entries on screen, in order.
    pub closed spec fn visible_view(&self) -> Seq<usize> {
        self.visible@
    }

    /// The entries on screen are exactly those matching the search, and the
    /// cursor is on one of them (or at 0 when there are none).
    pub open spec fn wf(&self) -> bool {
        &&& self.visible_view() == matching(
            items_view(self.entries()),
            needle_of(self.query_view()),
            self.entries().len() as int,
        )
        &&& (self.cursor_at() < self.visible_view().len() || (self.visible_view().len() == 0
            && self.cursor_at() == 0))
    }

    /// The position in `items` of the entry under the cursor, if any.
    pub open spec fn selected_index(&self) -> Option<usize> {
        if self.cursor_at() < self.visible_view().len() {
            Some(self.visible_view()[self.cursor_at() as int])
        } else {
            None
        }
    }

    pub proof fn lemma_wf(&self)
        requires
            self.wf(),
        ensures
            ascending_below(self.visible_view(), self.entries().len() as int),
            self.visible_view().len() <= self.entries().len(),
    {
        assert(self.items@.len() == self.items.len());
        lemma_items_view(self.items@);
        lemma_matching(
            items_view(self.items@),
            needle_of(self.query_view()),
            self.items@.len() as int,
        );
    }

    /// A level holding `items`, unfiltered, with the cursor on the first.
    pub fn new(title: &str, items: Vec<MenuItem>) -> (r: Frame)
        ensures
            r.wf(),
            r.title_view() == title@,
            r.help_view() is None,
            r.entries() == items@,
            r.cursor_at() == 0,
            r.query_view().len() == 0,
    {
        let mut visible: Vec<usize> = Vec::new();
        let mut i: usize = 0;
        proof {
            lemma_items_view(items@);
        }
        while i < items.len()
            invariant
                i <= items@.len(),
                visible@ == Seq::new(i as nat, |k: int| k as usize),
            decreases items@.len() - i,
        {
            visible.push(i);
            assert(visible@ =~= Seq::new((i + 1) as nat, |k: int| k as usize));
            i = i + 1;
        }
        proof {
            assert(items@.len() == items.len());
            lemma_matching(items_view(items@), Seq::empty(), items@.len() as int);
        }
        let r = Frame { title: title.to_owned(), help: None, items, cursor: 0, query: String::new(), visible };
        assert(needle_of(r.query_view()) =~= Seq::<char>::empty());
        r
    }

    /// The title of this level.
    pub fn title_text(&self) -> (r: &str)
        ensures
            r@ == self.title_view(),
    {
        self.title.as_str()
    }

    /// The help text shown above this level, if any.
    pub fn help_text(&self) -> (r: Option<&String>)
        ensures
            match r {
                Some(h) => self.help_view() == Some(h@),
                None => self.help_view() is None,
            },
    {
        match &self.help {
            Some(h) => Some(h),
            None => None,
        }
    }

    /// The search string.
    pub fn query(&self) -> (r: &str)
        ensures
            r@ == self.query_view(),
    {
        self.query.as_str()
    }

    /// The entries the search leaves, in the original order.
    pub fn visible(&self) -> (r: Vec<&MenuItem>)
        requires
            self.wf(),
        ensures
            r@.len() == self.visible_view().len(),
            forall|k: int| 0 <= k < r@.len() ==> *#[trigger] r@[k] == self.entries()[self.visible_view()[k] as int],
    {
        proof {
            self.lemma_wf();
        }
        let mut out: Vec<&MenuItem> = Vec::new();
        let mut k: usize = 0;
        while k < self.visible.len()
            invariant
                self.wf(),
                ascending_below(self.visible_view(), self.items@.len() as int),
                k <= self.visible_view().len(),
                out@.len() == k,
                forall|j: int| 0 <= j < k ==> *#[trigger] out@[j] == self.items@[self.visible_view()[j] as int],
            decreases self.visible_view().len() - k,
        {
            let index = self.visible[k];
            assert(index < self.items@.len());
            out.push(&self.items[index]);
            k = k + 1;
        }
        out
    }

    /// Apply `query` and put the cursor on the first match.
    ///
    /// Matching is a case-insensitive substring of the label, the text on
    /// screen.
    fn set_query(&mut self, query: String)
        ensures
            final(self).wf(),
            final(self).title == old(self).title,
            final(self).help == old(self).help,
            final(self).items == old(self).items,
            final(self).query_view() == query@,
            final(self).cursor_at() == 0,
    {
        let needle_string = to_lowercase(query.as_str());
        let needle = chars_of(needle_string.as_str());
        let ghost iv = items_view(self.items@);
        proof {
            lemma_items_view(self.items@);
        }
        let mut visible: Vec<usize> = Vec::new();
        let mut i: usize = 0;
        while i < self.items.len()
            invariant
                iv == items_view(self.items@),
                iv.len() == self.items@.len(),
                forall|k: int| 0 <= k < self.items@.len() ==> #[trigger] iv[k] == item_view(self.items@[k]),
                needle@ == needle_of(query@),
                i <= self.items@.len(),
                visible@ == matching(iv, needle@, i as int),
            decreases self.items@.len() - i,
        {
            let keep = if needle.len() == 0 {
                true
            } else {
                let label = self.items[i].label();
                let lower = to_lowercase(label.as_str());
                contains_infix(&chars_of(lower.as_str()), &needle)
            };
            if keep {
                visible.push(i);
            }
            i = i + 1;
        }
        self.visible = visible;
        self.query = query;
        self.cursor = 0;
    }
}

/// A level is entered by putting a new frame on top; nothing under it changes.
pub open spec fn entered(before: Seq<Frame>, after: Seq<Frame>) -> bool {
    after.len() == before.len() + 1 && after.drop_last() == before
}

/// A level is left by taking the top frame off; the root is never left.
pub open spec fn left(before: Seq<Frame>, after: Seq<Frame>) -> bool {
    before.len() > 1 && after == before.drop_last()
}

/// Opening a level and going back returns the menu to the level it was on,
/// with that level's entries, search and cursor as they were.
pub proof fn going_back_restores_the_level(a: Seq<Frame>, b: Seq<Frame>, c: Seq<Frame>)
    requires
        a.len() >= 1,
        entered(a, b),
        left(b, c),
    ensures
        c == a,
{
}

/// What one call on the menu does to its stack of levels: the level on
/// screen changes in place (a move, the search, scrolling), a level is
/// entered, or one is left. Every call that changes the menu is one step.
pub open spec fn one_step(before: Seq<Frame>, after: Seq<Frame>) -> bool {
    ||| after.len() == before.len() && after.drop_last() == before.drop_last()
    ||| entered(before, after)
    ||| left(before, after)
}

/// A run of calls that always keeps more than `d` levels leaves the lowest
/// `d` levels as they were.
pub proof fn lower_levels_outlast_the_calls(trace: Seq<Seq<Frame>>, d: int)
    requires
        trace.len() >= 1,
        0 <= d,
        forall|i: int| 0 <= i < trace.len() ==> #[trigger] trace[i].len() > d,
        forall|i: int| 0 <= i < trace.len() - 1 ==> one_step(#[trigger] trace[i], trace[i + 1]),
    ensures
        trace.last().take(d) == trace[0].take(d),
    decreases trace.len(),
{
    if trace.len() > 1 {
        let front = trace.drop_last();
        assert forall|i: int| 0 <= i < front.len() - 1 implies one_step(#[trigger] front[i], front[i + 1]) by {
            assert(one_step(trace[i], trace[i + 1]));
        }
        assert forall|i: int| 0 <= i < front.len() implies #[trigger] front[i].len() > d by {
            assert(trace[i].len() > d);
        }
        lower_levels_outlast_the_calls(front, d);
        let a = trace[trace.len() - 2];
        let b = trace.last();
        assert(one_step(a, b));
        assert(a.len() > d && b.len() > d);
        if b.len() == a.len() && b.drop_last() == a.drop_last() {
            assert(b.take(d) =~= b.drop_last().take(d));
            assert(a.take(d) =~= a.drop_last().take(d));
        } else if entered(a, b) {
            assert(b.take(d) =~= b.drop_last().take(d));
        } else {
            assert(b.take(d) =~= a.drop_last().take(d));
            assert(a.take(d) =~= a.drop_last().take(d));
        }
    }
}

/// Going back from a level restores the menu as it was when that level was
/// opened: the same levels, each with its entries, search and cursor,
/// whatever calls were made on the level and on any level opened from it in
/// between, as long as they came back to it before going back.
pub proof fn going_back_restores_after_any_calls(before: Seq<Frame>, trace: Seq<Seq<Frame>>, after: Seq<Frame>)
    requires
        before.len() >= 1,
        trace.len() >= 1,
        entered(before, trace[0]),
        forall|i: int| 0 <= i < trace.len() ==> #[trigger] trace[i].len() > before.len(),
        forall|i: int| 0 <= i < trace.len() - 1 ==> one_step(#[trigger] trace[i], trace[i + 1]),
        trace.last().len() == before.len() + 1,
        left(trace.last(), after),
    ensures
        after == before,
{
    lower_levels_outlast_the_calls(trace, before.len() as int);
    assert(trace[0].take(before.len() as int) =~= before);
    assert(after =~= trace.last().take(before.len() as int));
}

/// The `Run: ...` line of a detail view: the entry's own command under a
/// label saying so, with its arguments, run where the entry runs. It opens
/// nothing, so the view cannot nest into itself.
pub open spec fn run_entry(m: ItemView) -> ItemView {
    ItemView {
        title: Some(seq!['R', 'u', 'n', ':', ' '] + item_label(m)),
        shell: m.shell,
        parallel: m.parallel,
        help: None,
        submenu: Seq::empty(),
        args: m.args,
        run_in_current_directory: None,
        cwd: m.cwd,
    }
}

/// The entries of an entry's detail view: its own command when it has one,
/// then its submenu.
pub open spec fn detail_items(m: ItemView) -> Seq<ItemView> {
    if item_launch(m) is Some {
        seq![run_entry(m)] + m.submenu
    } else {
        m.submenu
    }
}

/// The whole menu, as a stack of frames.
pub struct MenuState {
    frames: Vec<Frame>,
    /// Index of the first visible row, updated as the cursor moves.
    offset: usize,
}

impl MenuState {
    /// The frames, the root first.
    pub closed spec fn frames_view(&self) -> Seq<Frame> {
        self.frames@
    }

    /// The first row shown.
    pub closed spec fn offset_view(&self) -> usize {
        self.offset
    }

    /// The level on screen.
    pub open spec fn top(&self) -> Frame {
        self.frames_view().last()
    }

    /// There is always a root level, and every level is consistent.
    pub open spec fn wf(&self) -> bool {
        &&& self.frames_view().len() >= 1
        &&& forall|i: int| 0 <= i < self.frames_view().len() ==> (#[trigger] self.frames_view()[i]).wf()
    }

    /// How many entries are on screen.
    pub open spec fn shown(&self) -> int {
        self.top().visible_view().len() as int
    }

    /// A menu showing `root`.
    pub fn new(root: Frame) -> (r: MenuState)
        requires
            root.wf(),
        ensures
            r.wf(),
            r.frames_view() == seq![root],
            r.offset_view() == 0,
    {
        let mut frames: Vec<Frame> = Vec::new();
        frames.push(root);
        assert(frames@ =~= seq![root]);
        MenuState { frames, offset: 0 }
    }

    /// The level on screen.
    pub fn frame(&self) -> (r: &Frame)
        requires
            self.wf(),
        ensures
            *r == self.top(),
            r.wf(),
    {
        assert(self.frames_view()[self.frames_view().len() - 1].wf());
        &self.frames[self.frames.len() - 1]
    }

    /// The entries currently on screen: what the search left.
    pub fn items(&self) -> (r: Vec<&MenuItem>)
        requires
            self.wf(),
        ensures
            r@.len() == self.shown(),
            forall|k: int| 0 <= k < r@.len() ==> *#[trigger] r@[k] == self.top().entries()[self.top().visible_view()[k] as int],
    {
        self.frame().visible()
    }

    /// The search string of this level; empty when the search is not in use.
    pub fn query(&self) -> (r: &str)
        requires
            self.wf(),
        ensures
            r@ == self.top().query_view(),
    {
        self.frame().query()
    }

    /// Replace the search string of this level. The cursor goes to the first
    /// match and the window back to the top.
    pub fn set_query(&mut self, query: String)
        requires
            old(self).wf(),
        ensures
            final(self).wf(),
            one_step(old(self).frames_view(), final(self).frames_view()),
            final(self).frames_view().len() == old(self).frames_view().len(),
            final(self).frames_view().drop_last() == old(self).frames_view().drop_last(),
            final(self).top().entries() == old(self).top().entries(),
            final(self).top().title_view() == old(self).top().title_view(),
            final(self).top().help_view() == old(self).top().help_view(),
            final(self).top().query_view() == query@,
            final(self).top().cursor_at() == 0,
            final(self).offset_view() == 0,
    {
        let n = self.frames.len();
        let mut f = self.frames.remove(n - 1);
        f.set_query(query);
        self.frames.push(f);
        self.offset = 0;
        proof {
            assert(self.frames@.drop_last() =~= old(self).frames@.drop_last());
            assert forall|i: int| 0 <= i < self.frames_view().len() implies (#[trigger] self.frames_view()[i]).wf() by {
                if i < n - 1 {
                    assert(self.frames_view()[i] == old(self).frames_view()[i]);
                }
            }
        }
    }

    /// Drop the search, keeping the cursor on the entry it is on.
    pub fn clear_query(&mut self)
        requires
            old(self).wf(),
        ensures
            final(self).wf(),
            one_step(old(self).frames_view(), final(self).frames_view()),
            final(self).frames_view().len() == old(self).frames_view().len(),
            final(self).frames_view().drop_last() == old(self).frames_view().drop_last(),
            final(self).top().entries() == old(self).top().entries(),
            final(self).top().query_view().len() == 0,
            final(self).shown() == final(self).top().entries().len(),
            old(self).top().selected_index() is Some ==> final(self).top().selected_index()
                == old(self).top().selected_index(),
            old(self).top().selected_index() is None ==> final(self).top().cursor_at() == 0,
            final(self).offset_view() == 0,
    {
        let n = self.frames.len();
        let ghost old_top = self.frames@[n - 1];
        proof {
            assert(self.frames@[n - 1].wf());
            self.frames@[n - 1].lemma_wf();
        }
        let selected: Option<usize> = if self.frames[n - 1].cursor < self.frames[n - 1].visible.len() {
            Some(self.frames[n - 1].visible[self.frames[n - 1].cursor])
        } else {
            None
        };
        let mut f = self.frames.remove(n - 1);
        f.set_query(String::new());
        proof {
            lemma_items_view(f.items@);
            assert(f.items@.len() == f.items.len());
            lemma_matching(items_view(f.items@), Seq::empty(), f.items@.len() as int);
            assert(needle_of(f.query_view()) =~= Seq::<char>::empty());
        }
        if let Some(index) = selected {
            f.cursor = index;
        }
        self.frames.push(f);
        self.offset = 0;
        proof {
            assert(self.frames@.drop_last() =~= old(self).frames@.drop_last());
            assert forall|i: int| 0 <= i < self.frames_view().len() implies (#[trigger] self.frames_view()[i]).wf() by {
                if i < n - 1 {
                    assert(self.frames_view()[i] == old(self).frames_view()[i]);
                }
            }
        }
    }

    /// The cursor: a position among the entries on screen.
    pub fn cursor(&self) -> (r: usize)
        requires
            self.wf(),
        ensures
            r == self.top().cursor_at(),
    {
        self.frame().cursor
    }

    /// The first row on screen.
    pub fn offset(&self) -> (r: usize)
        ensures
            r == self.offset_view(),
    {
        self.offset
    }

    /// Depth of the stack; 1 means the root menu.
    pub fn depth(&self) -> (r: usize)
        ensures
            r == self.frames_view().len(),
    {
        self.frames.len()
    }

    /// The entry under the cursor, if any.
    pub fn selected(&self) -> (r: Option<&MenuItem>)
        requires
            self.wf(),
        ensures
            match self.top().selected_index() {
                Some(i) => r is Some && *r->0 == self.top().entries()[i as int],
                None => r is None,
            },
    {
        let f = self.frame();
        proof {
            f.lemma_wf();
        }
        if f.cursor < f.visible.len() {
            let index = f.visible[f.cursor];
            Some(&f.items[index])
        } else {
            None
        }
    }

    /// Whether no entry is on screen.
    pub fn is_empty(&self) -> (r: bool)
        requires
            self.wf(),
        ensures
            r == (self.shown() == 0),
    {
        self.frame().visible.len() == 0
    }

    /// Set the cursor of the level on screen.
    fn set_cursor(&mut self, cursor: usize)
        requires
            old(self).wf(),
            cursor < old(self).shown() || (old(self).shown() == 0 && cursor == 0),
        ensures
            final(self).wf(),
            final(self).frames_view().len() == old(self).frames_view().len(),
            final(self).frames_view().drop_last() == old(self).frames_view().drop_last(),
            final(self).top().cursor_at() == cursor,
            final(self).top().entries() == old(self).top().entries(),
            final(self).top().visible_view() == old(self).top().visible_view(),
            final(self).top().query_view() == old(self).top().query_view(),
            final(self).top().title_view() == old(self).top().title_view(),
            final(self).top().help_view() == old(self).top().help_view(),
            final(self).offset_view() == old(self).offset_view(),
    {
        let n = self.frames.len();
        let mut f = self.frames.remove(n - 1);
        f.cursor = cursor;
        self.frames.push(f);
        proof {
            assert(self.frames@.drop_last() =~= old(self).frames@.drop_last());
            assert forall|i: int| 0 <= i < self.frames_view().len() implies (#[trigger] self.frames_view()[i]).wf() by {
                if i < n - 1 {
                    assert(self.frames_view()[i] == old(self).frames_view()[i]);
                }
            }
        }
    }

    /// One entry down, stopping at the last.
    pub fn move_down(&mut self)
        requires
            old(self).wf(),
        ensures
            final(self).wf(),
            one_step(old(self).frames_view(), final(self).frames_view()),
            final(self).top().cursor_at() == if old(self).top().cursor_at() + 1 < old(self).shown() {
                old(self).top().cursor_at() + 1
            } else {
                old(self).top().cursor_at() as int
            },
            final(self).frames_view().len() == old(self).frames_view().len(),
            final(self).frames_view().drop_last() == old(self).frames_view().drop_last(),
            final(self).top().entries() == old(self).top().entries(),
            final(self).top().visible_view() == old(self).top().visible_view(),
            final(self).top().query_view() == old(self).top().query_view(),
            final(self).offset_view() == old(self).offset_view(),
    {
        let len = self.frame().visible.len();
        let cursor = self.cursor();
        if len > 0 && cursor + 1 < len {
            self.set_cursor(cursor + 1);
        } else {
            self.set_cursor(cursor);
        }
    }

    /// One entry up, stopping at the first.
    pub fn move_up(&mut self)
        requires
            old(self).wf(),
        ensures
            final(self).wf(),
            one_step(old(self).frames_view(), final(self).frames_view()),
            final(self).top().cursor_at() == if old(self).top().cursor_at() > 0 {
                old(self).top().cursor_at() - 1
            } else {
                0
            },
            final(self).frames_view().len() == old(self).frames_view().len(),
            final(self).frames_view().drop_last() == old(self).frames_view().drop_last(),
            final(self).top().entries() == old(self).top().entries(),
            final(self).top().visible_view() == old(self).top().visible_view(),
            final(self).top().query_view() == old(self).top().query_view(),
            final(self).offset_view() == old(self).offset_view(),
    {
        let cursor = self.cursor();
        if cursor > 0 {
            self.set_cursor(cursor - 1);
        } else {
            self.set_cursor(0);
        }
    }

    /// To the first entry.
    pub fn move_first(&mut self)
        requires
            old(self).wf(),
        ensures
            final(self).wf(),
            one_step(old(self).frames_view(), final(self).frames_view()),
            final(self).top().cursor_at() == 0,
            final(self).frames_view().len() == old(self).frames_view().len(),
            final(self).frames_view().drop_last() == old(self).frames_view().drop_last(),
            final(self).top().entries() == old(self).top().entries(),
            final(self).top().visible_view() == old(self).top().visible_view(),
            final(self).top().query_view() == old(self).top().query_view(),
            final(self).offset_view() == old(self).offset_view(),
    {
        self.set_cursor(0);
    }

    /// To the last entry on screen.
    pub fn move_last(&mut self)
        requires
            old(self).wf(),
        ensures
            final(self).wf(),
            one_step(old(self).frames_view(), final(self).frames_view()),
            final(self).top().cursor_at() == if old(self).shown() > 0 {
                old(self).shown() - 1
            } else {
                0
            },
            final(self).frames_view().len() == old(self).frames_view().len(),
            final(self).frames_view().drop_last() == old(self).frames_view().drop_last(),
            final(self).top().entries() == old(self).top().entries(),
            final(self).top().visible_view() == old(self).top().visible_view(),
            final(self).top().query_view() == old(self).top().query_view(),
            final(self).offset_view() == old(self).offset_view(),
    {
        let len = self.frame().visible.len();
        if len > 0 {
            self.set_cursor(len - 1);
        } else {
            self.set_cursor(0);
        }
    }

    /// Open the detail view of the selected entry. Returns `false` when no
    /// entry is selected or the entry has no detail to show.
    ///
    /// The view holds the entry's help text, its own command (so it can still
    /// be run from in here) and its submenu. It starts unfiltered, with the
    /// cursor on its first entry; the level it was opened from keeps its
    /// search and cursor underneath.
    pub fn enter_detail(&mut self) -> (r: bool)
        requires
            old(self).wf(),
        ensures
            final(self).wf(),
            one_step(old(self).frames_view(), final(self).frames_view()),
            r == match old(self).top().selected_index() {
                Some(i) => item_has_detail(old(self).top().entries()[i as int]@),
                None => false,
            },
            !r ==> final(self).frames_view() == old(self).frames_view() && final(self).offset_view()
                == old(self).offset_view(),
            r ==> {
                let m = old(self).top().entries()[old(self).top().selected_index()->0 as int]@;
                &&& entered(old(self).frames_view(), final(self).frames_view())
                &&& final(self).top().title_view() == item_label(m)
                &&& final(self).top().help_view() == m.help
                &&& items_view(final(self).top().entries()) == detail_items(m)
                &&& final(self).top().query_view().len() == 0
                &&& final(self).top().cursor_at() == 0
                &&& final(self).offset_view() == 0
            },
    {
        let n = self.frames.len();
        proof {
            assert(self.frames@[n - 1].wf());
            self.frames@[n - 1].lemma_wf();
        }
        let f = &self.frames[n - 1];
        if f.cursor >= f.visible.len() {
            return false;
        }
        let item = &f.items[f.visible[f.cursor]];
        if !item.has_detail() {
            return false;
        }
        let ghost m = item@;
        let mut items: Vec<MenuItem> = Vec::new();
        let launch = item.launch();
        if launch.is_some() {
            let label = item.label();
            let mut title: Vec<char> = vec!['R', 'u', 'n', ':', ' '];
            push_str(&mut title, label.as_str());
            let run = MenuItem {
                title: Some(string_of(&title)),
                shell: match &item.shell {
                    Some(s) => Some(s.duplicate()),
                    None => None,
                },
                parallel: duplicate_commands(&item.parallel),
                help: None,
                submenu: Vec::new(),
                args: duplicate_args(&item.args),
                run_in_current_directory: None,
                cwd: clone_opt(&item.cwd),
            };
            proof {
                lemma_items_view(run.submenu@);
                assert(run@ == run_entry(m));
            }
            items.push(run);
        }
        let ghost head = items@;
        let mut sub = duplicate_items(&item.submenu);
        let ghost subv = sub@;
        items.append(&mut sub);
        proof {
            assert(items@ =~= head + subv);
            lemma_items_view_add(head, subv);
            assert(items_view(subv) == m.submenu);
            lemma_items_view(head);
            if launch.is_some() {
                assert(items_view(head) =~= seq![run_entry(m)]);
            } else {
                assert(items_view(head) =~= Seq::<ItemView>::empty());
            }
            assert(items_view(items@) == detail_items(m));
        }
        let label = item.label();
        let mut frame = Frame::new(label.as_str(), items);
        frame.help = clone_opt(&item.help);
        self.frames.push(frame);
        self.offset = 0;
        proof {
            assert(self.frames@.drop_last() =~= old(self).frames@);
            assert forall|i: int| 0 <= i < self.frames_view().len() implies (#[trigger] self.frames_view()[i]).wf() by {
                if i < n {
                    assert(self.frames_view()[i] == old(self).frames_view()[i]);
                }
            }
            assert(m == old(self).top().entries()[old(self).top().selected_index()->0 as int]@);
            assert(entered(old(self).frames_view(), self.frames_view()));
            assert(self.top().title_view() == item_label(m));
            assert(self.top().help_view() == m.help);
            assert(items_view(self.top().entries()) == detail_items(m));
        }
        true
    }

    /// Go back to the parent level. Returns `false` at the root.
    pub fn leave_detail(&mut self) -> (r: bool)
        requires
            old(self).wf(),
        ensures
            final(self).wf(),
            one_step(old(self).frames_view(), final(self).frames_view()),
            r == (old(self).frames_view().len() > 1),
            r ==> left(old(self).frames_view(), final(self).frames_view()) && final(self).offset_view() == 0,
            !r ==> final(self).frames_view() == old(self).frames_view() && final(self).offset_view()
                == old(self).offset_view(),
    {
        if self.frames.len() <= 1 {
            return false;
        }
        let _ = self.frames.pop();
        self.offset = 0;
        proof {
            assert forall|i: int| 0 <= i < self.frames_view().len() implies (#[trigger] self.frames_view()[i]).wf() by {
                assert(self.frames_view()[i] == old(self).frames_view()[i]);
            }
        }
        true
    }

    /// Scroll so that the cursor is visible in a window of `height` rows.
    ///
    /// `height` can change at any time because the terminal can be resized
    /// while the menu is open.
    pub fn scroll_into_view(&mut self, height: usize)
        requires
            old(self).wf(),
        ensures
            final(self).wf(),
            one_step(old(self).frames_view(), final(self).frames_view()),
            final(self).frames_view() == old(self).frames_view(),
            final(self).offset_view() == scrolled(
                old(self).offset_view() as int,
                old(self).top().cursor_at() as int,
                old(self).shown(),
                height as int,
            ),
    {
        if height == 0 {
            self.offset = 0;
            return;
        }
        let cursor = self.cursor();
        if cursor < self.offset {
            self.offset = cursor;
        } else if cursor - self.offset >= height {
            self.offset = cursor - height + 1;
        }
        let len = self.frame().visible.len();
        let max_offset = if len > height { len - height } else { 0 };
        if self.offset > max_offset {
            self.offset = max_offset;
        }
    }
}

/// The first row shown after scrolling: moved just enough to bring the cursor
/// into a window of `height` rows, then pulled back so that the window does
/// not run past the last entry.
pub open spec fn scrolled(offset: int, cursor: int, len: int, height: int) -> int {
    if height == 0 {
        0
    } else {
        let o = if cursor < offset {
            cursor
        } else if cursor >= offset + height {
            cursor + 1 - height
        } else {
            offset
        };
        let max = if len > height {
            len - height
        } else {
            0
        };
        if o > max {
            max
        } else {
            o
        }
    }
}

/// After scrolling, the entry under the cursor is inside the window, and the
/// window starts no further down than it has to.
pub proof fn scrolling_shows_the_cursor(offset: int, cursor: int, len: int, height: int)
    requires
        0 <= cursor < len,
        0 <= offset,
        height > 0,
    ensures
        scrolled(offset, cursor, len, height) <= cursor < scrolled(offset, cursor, len, height)
            + height,
        0 <= scrolled(offset, cursor, len, height),
        scrolled(offset, cursor, len, height) + height <= len || scrolled(offset, cursor, len, height)
            == 0,
{
}

} // verus!
