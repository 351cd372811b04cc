//! The text drawn on screen: labels cut to the terminal's width, the status
//! line wrapped over several rows, and the sizes the layout works with.
//!
//! Widths are measured in terminal columns, per grapheme cluster: a CJK
//! character takes two columns, and an emoji built from several code points
//! is one cluster drawn as one unit. Text is only ever cut between clusters.

use vstd::prelude::*;

use crate::text::{chars_of, push_str, slice, starts_with, string_of, strings_view};

verus! {

// ---------------------------------------------------------------------------
// Clusters and widths
// ---------------------------------------------------------------------------

/// The extended grapheme clusters of `s`, in order (Unicode Standard Annex
/// #29).
pub uninterp spec fn grapheme_clusters(s: Seq<char>) -> Seq<Seq<char>>;

/// `UnicodeSegmentation::graphemes(s, true)` of `unicode-segmentation`: the
/// extended grapheme clusters of `s`. The iterator hands out consecutive,
/// non-empty slices of `s` from its start to its end, so the clusters put
/// back together are `s`. Where the boundaries fall is not stated.
#[verifier::external_body]
fn graphemes(s: &str) -> (r: Vec<String>)
    ensures
        strings_view(r@) == grapheme_clusters(s@),
        strings_view(r@).flatten() == s@,
        forall|i: int| 0 <= i < r@.len() ==> (#[trigger] r@[i])@.len() > 0,
{
    unicode_segmentation::UnicodeSegmentation::graphemes(s, true).map(|g| g.to_owned()).collect()
}

/// How many terminal columns `s` takes, by Unicode Standard Annex #11.
pub uninterp spec fn column_width(s: Seq<char>) -> nat;

/// `UnicodeWidthStr::width` of `unicode-width`: the columns `s` takes. Its
/// tables are not restated here.
#[verifier::external_body]
fn width_of(s: &str) -> (r: usize)
    ensures
        r == column_width(s@),
{
    unicode_width::UnicodeWidthStr::width(s)
}

/// A control character: general category `Cc`, which is `U+0000`–`U+001F`
/// and `U+007F`–`U+009F`. The C1 half matters too: in a UTF-8 terminal
/// those are alternative forms of the escape sequences.
pub open spec fn is_control(c: char) -> bool {
    (c as u32) <= 0x1f || (0x7f <= (c as u32) && (c as u32) <= 0x9f)
}

/// `s` with every control character replaced by `·`, so text from a file in
/// the checkout (a script name, a make target) cannot reach the terminal as
/// a command.
pub open spec fn sanitized(s: Seq<char>) -> Seq<char> {
    s.map_values(|c: char| if is_control(c) { '·' } else { c })
}

/// Replace every control character of `text` with `·`.
pub fn sanitize(text: &str) -> (r: Vec<char>)
    ensures
        r@ == sanitized(text@),
{
    let v = chars_of(text);
    let mut out: Vec<char> = Vec::new();
    let mut i: usize = 0;
    while i < v.len()
        invariant
            v@ == text@,
            i <= v@.len(),
            out@ == sanitized(v@.subrange(0, i as int)),
        decreases v@.len() - i,
    {
        let c = v[i];
        let code = c as u32;
        if code <= 0x1f || (0x7f <= code && code <= 0x9f) {
            out.push('·');
        } else {
            out.push(c);
        }
        assert(sanitized(v@.subrange(0, i + 1)) =~= sanitized(v@.subrange(0, i as int)).push(out@.last()));
        i = i + 1;
    }
    assert(v@.subrange(0, v@.len() as int) =~= v@);
    out
}

/// The columns a line of `cols` columns may use: one is held back at the
/// right edge, since writing the last cell leaves some terminals in a
/// pending wrap that they resolve into a blank line of their own.
pub open spec fn usable(cols: u16) -> int {
    if cols == 0 {
        0
    } else {
        cols - 1
    }
}

/// The clusters from the front of `clusters` that fit in `room` columns,
/// put together: a cluster that would cross the edge is left out whole, and
/// so is everything after it.
pub open spec fn fit(clusters: Seq<Seq<char>>, room: int) -> Seq<char>
    decreases clusters.len(),
{
    if clusters.len() == 0 || column_width(clusters[0]) > room {
        Seq::empty()
    } else {
        clusters[0] + fit(clusters.drop_first(), room - column_width(clusters[0]))
    }
}

/// What fits is where the text begins.
pub proof fn lemma_fit_prefix(clusters: Seq<Seq<char>>, room: int)
    ensures
        fit(clusters, room).len() <= clusters.flatten().len(),
        fit(clusters, room) == clusters.flatten().subrange(0, fit(clusters, room).len() as int),
    decreases clusters.len(),
{
    if clusters.len() > 0 && column_width(clusters[0]) <= room {
        lemma_fit_prefix(clusters.drop_first(), room - column_width(clusters[0]));
        let rest = fit(clusters.drop_first(), room - column_width(clusters[0]));
        let all = clusters.flatten();
        assert(all == clusters[0] + clusters.drop_first().flatten());
        assert(fit(clusters, room) =~= all.subrange(0, (clusters[0].len() + rest.len()) as int));
    } else {
        assert(fit(clusters, room) =~= clusters.flatten().subrange(0, 0));
    }
}

/// A cut line is whole clusters from the front of the text, together no
/// wider than the room: a cluster is never split, and the line never runs
/// past the edge.
pub proof fn cutting_keeps_whole_clusters_within_the_width(clusters: Seq<Seq<char>>, room: int)
    requires
        room >= 0,
    ensures
        exists|n: int|
            0 <= n <= clusters.len() && fit(clusters, room) == clusters.take(n).flatten() && #[trigger] total_width(
                clusters.take(n),
            ) <= room,
    decreases clusters.len(),
{
    if clusters.len() == 0 || column_width(clusters[0]) > room {
        assert(clusters.take(0) =~= Seq::<Seq<char>>::empty());
        assert(fit(clusters, room) == clusters.take(0).flatten());
        assert(total_width(clusters.take(0)) <= room);
    } else {
        let w = column_width(clusters[0]);
        let rest = clusters.drop_first();
        cutting_keeps_whole_clusters_within_the_width(rest, room - w);
        let n = choose|n: int|
            0 <= n <= rest.len() && fit(rest, room - w) == rest.take(n).flatten() && #[trigger] total_width(
                rest.take(n),
            ) <= room - w;
        let t = clusters.take(n + 1);
        assert(t[0] == clusters[0]);
        assert(t.drop_first() =~= rest.take(n));
        assert(fit(clusters, room) == t.flatten());
        assert(total_width(t) <= room);
    }
}

fn fit_exec(clusters: &Vec<String>, room: usize) -> (r: Vec<char>)
    ensures
        r@ == fit(strings_view(clusters@), room as int),
{
    let ghost cv = strings_view(clusters@);
    let mut out: Vec<char> = Vec::new();
    let mut used: usize = 0;
    let mut i: usize = 0;
    assert(cv.subrange(0, cv.len() as int) =~= cv);
    assert(out@ + fit(cv, room as int) =~= fit(cv, room as int));
    while i < clusters.len()
        invariant
            cv == strings_view(clusters@),
            i <= cv.len(),
            used <= room,
            out@ + fit(cv.subrange(i as int, cv.len() as int), room - used) == fit(cv, room as int),
        decreases cv.len() - i,
    {
        let ghost rest = cv.subrange(i as int, cv.len() as int);
        proof {
            assert(rest[0] == cv[i as int]);
            assert(rest.drop_first() =~= cv.subrange(i + 1, cv.len() as int));
        }
        let advance = width_of(clusters[i].as_str());
        if advance > room - used {
            assert(out@ + Seq::<char>::empty() =~= out@);
            return out;
        }
        let ghost before = out@;
        push_str(&mut out, clusters[i].as_str());
        assert(before + fit(rest, room - used) =~= out@ + fit(rest.drop_first(), room - used - advance));
        used = used + advance;
        i = i + 1;
    }
    proof {
        assert(cv.subrange(i as int, cv.len() as int).len() == 0);
        assert(out@ + Seq::<char>::empty() =~= out@);
    }
    out
}

/// `text` cut to what fits on a line of `cols` columns, after its control
/// characters are replaced.
pub open spec fn truncated(text: Seq<char>, cols: u16) -> Seq<char> {
    fit(grapheme_clusters(sanitized(text)), usable(cols))
}

/// Cut a line to the terminal width (see [`truncated`]).
pub fn truncate(text: &str, cols: u16) -> (r: String)
    ensures
        r@ == truncated(text@, cols),
        r@.len() <= text@.len(),
        starts_with(sanitized(text@), r@),
{
    let clean = string_of(&sanitize(text));
    let clusters = graphemes(clean.as_str());
    let room: usize = if cols == 0 {
        0
    } else {
        (cols - 1) as usize
    };
    let cut = fit_exec(&clusters, room);
    proof {
        lemma_fit_prefix(strings_view(clusters@), room as int);
        assert(room as int == usable(cols));
    }
    string_of(&cut)
}

/// The columns of `clusters` together.
pub open spec fn total_width(clusters: Seq<Seq<char>>) -> nat
    decreases clusters.len(),
{
    if clusters.len() == 0 {
        0
    } else {
        column_width(clusters[0]) + total_width(clusters.drop_first())
    }
}

/// How many columns `text` takes, cluster by cluster: an emoji built from
/// several code points counts once, and a character with a variation
/// selector counts as the form the terminal draws. A count beyond what a
/// `usize` holds is given as `usize::MAX`.
pub open spec fn text_width(text: Seq<char>) -> nat {
    let w = total_width(grapheme_clusters(text));
    if w > usize::MAX {
        usize::MAX as nat
    } else {
        w
    }
}

/// How many terminal columns `text` takes (see [`text_width`]).
pub fn display_width(text: &str) -> (r: usize)
    ensures
        r == text_width(text@),
{
    let clusters = graphemes(text);
    let ghost cv = strings_view(clusters@);
    let mut total: usize = 0;
    let mut i: usize = 0;
    assert(cv.subrange(0, cv.len() as int) =~= cv);
    while i < clusters.len()
        invariant
            cv == strings_view(clusters@),
            cv == grapheme_clusters(text@),
            i <= cv.len(),
            total + total_width(cv.subrange(i as int, cv.len() as int)) == total_width(cv),
        decreases cv.len() - i,
    {
        let ghost rest = cv.subrange(i as int, cv.len() as int);
        proof {
            assert(rest[0] == cv[i as int]);
            assert(rest.drop_first() =~= cv.subrange(i + 1, cv.len() as int));
        }
        let w = width_of(clusters[i].as_str());
        if w > usize::MAX - total {
            return usize::MAX;
        }
        total = total + w;
        i = i + 1;
    }
    total
}

/// `n` spaces.
pub open spec fn spaces(n: nat) -> Seq<char> {
    Seq::new(n, |i: int| ' ')
}

/// `text` filled out with spaces to the usable width of `cols` columns; left
/// as it is when it already takes that much.
pub open spec fn padded(text: Seq<char>, cols: u16) -> Seq<char> {
    if text_width(text) >= usable(cols) {
        text
    } else {
        text + spaces((usable(cols) - text_width(text)) as nat)
    }
}

/// Fill `text` out to `cols`, measured in terminal columns (see [`padded`]).
pub fn pad(text: &str, cols: u16) -> (r: String)
    ensures
        r@ == padded(text@, cols),
{
    let width: usize = if cols == 0 {
        0
    } else {
        (cols - 1) as usize
    };
    let len = display_width(text);
    if len >= width {
        return text.to_owned();
    }
    let mut out = chars_of(text);
    let n = width - len;
    let mut k: usize = 0;
    while k < n
        invariant
            k <= n,
            out@ == text@ + spaces(k as nat),
        decreases n - k,
    {
        out.push(' ');
        assert(out@ =~= text@ + spaces((k + 1) as nat));
        k = k + 1;
    }
    string_of(&out)
}

/// The rows `rest` is broken into, at most `budget` of them, each the
/// clusters that fit in `room` columns. It stops early when nothing fits: a
/// terminal one column wide, or a cluster wider than the whole line.
pub open spec fn rows_of(rest: Seq<char>, room: int, budget: nat) -> Seq<Seq<char>>
    decreases budget,
{
    if rest.len() == 0 || budget == 0 {
        Seq::empty()
    } else {
        let row = fit(grapheme_clusters(rest), room);
        if row.len() == 0 {
            Seq::empty()
        } else {
            seq![row] + rows_of(rest.subrange(row.len() as int, rest.len() as int), room, (budget - 1) as nat)
        }
    }
}

/// `text` broken into rows of at most `cols` columns, at most `max_rows` of
/// them, with its control characters replaced: rows are cut at whatever
/// cluster reaches the width, and what does not fit in `max_rows` is left
/// out. Always at least one row, so a status line exists whether or not
/// anything is selected.
pub open spec fn wrapped(text: Seq<char>, cols: u16, max_rows: u16) -> Seq<Seq<char>> {
    let rows = rows_of(sanitized(text), usable(cols), max_rows as nat);
    if rows.len() == 0 {
        seq![Seq::empty()]
    } else {
        rows
    }
}

/// Break `text` into rows for the status line (see [`wrapped`]).
pub fn wrap(text: &str, cols: u16, max_rows: u16) -> (r: Vec<String>)
    ensures
        strings_view(r@) == wrapped(text@, cols, max_rows),
        starts_with(sanitized(text@), strings_view(r@).flatten()),
{
    let room: usize = if cols == 0 {
        0
    } else {
        (cols - 1) as usize
    };
    let mut rest = sanitize(text);
    let ghost target = rows_of(sanitized(text@), room as int, max_rows as nat);
    let ghost whole = sanitized(text@);
    let mut rows: Vec<String> = Vec::new();
    let mut made: u16 = 0;
    assert(room as int == usable(cols));
    assert(strings_view(rows@) =~= Seq::<Seq<char>>::empty());
    assert(strings_view(rows@).flatten() + rest@ =~= whole);
    assert(whole.subrange(0, 0) =~= strings_view(rows@).flatten());
    assert(strings_view(rows@) + target =~= target);
    while rest.len() > 0 && made < max_rows
        invariant
            made <= max_rows,
            rows@.len() == made,
            strings_view(rows@) + rows_of(rest@, room as int, (max_rows - made) as nat) == target,
            strings_view(rows@).flatten() + rest@ == whole,
            starts_with(whole, strings_view(rows@).flatten()),
        ensures
            strings_view(rows@) == target,
            starts_with(whole, strings_view(rows@).flatten()),
        decreases rest@.len(),
    {
        let clusters = graphemes(string_of(&rest).as_str());
        let row = fit_exec(&clusters, room);
        proof {
            lemma_fit_prefix(strings_view(clusters@), room as int);
        }
        if row.len() == 0 {
            assert(rows_of(rest@, room as int, (max_rows - made) as nat) =~= Seq::<Seq<char>>::empty());
            assert(strings_view(rows@) + Seq::<Seq<char>>::empty() =~= strings_view(rows@));
            break;
        }
        let ghost before = strings_view(rows@);
        let next = slice(&rest, row.len(), rest.len());
        rows.push(string_of(&row));
        proof {
            assert(strings_view(rows@) =~= before.push(row@));
            assert(before + rows_of(rest@, room as int, (max_rows - made) as nat) =~= strings_view(rows@)
                + rows_of(next@, room as int, (max_rows - made - 1) as nat));
            lemma_flatten_push(before, row@);
            assert(row@ + next@ =~= rest@);
            assert(strings_view(rows@).flatten() + next@ =~= before.flatten() + rest@);
            lemma_prefix_of_concat(strings_view(rows@).flatten(), next@);
        }
        rest = next;
        made = made + 1;
    }
    if rows.len() == 0 {
        rows.push(String::new());
        assert(strings_view(rows@) =~= seq![Seq::<char>::empty()]);
        proof {
            lemma_flatten_push(Seq::<Seq<char>>::empty(), Seq::<char>::empty());
            assert(whole.subrange(0, 0) =~= Seq::<char>::empty());
        }
    }
    rows
}

proof fn lemma_prefix_of_concat(a: Seq<char>, b: Seq<char>)
    ensures
        starts_with(a + b, a),
{
    assert((a + b).subrange(0, a.len() as int) =~= a);
}

proof fn lemma_flatten_push(s: Seq<Seq<char>>, x: Seq<char>)
    ensures
        s.push(x).flatten() == s.flatten() + x,
    decreases s.len(),
{
    if s.len() == 0 {
        assert(s.push(x).drop_first() =~= Seq::<Seq<char>>::empty());
        assert(s.push(x).drop_first().flatten() =~= Seq::<char>::empty());
        assert(s.push(x)[0] == x);
        assert(s.push(x).flatten() =~= x + Seq::<char>::empty());
        assert(s.flatten() + x =~= x);
    } else {
        lemma_flatten_push(s.drop_first(), x);
        assert(s.push(x).drop_first() =~= s.drop_first().push(x));
        assert(s.push(x)[0] == s[0]);
        assert(s[0] + (s.drop_first().flatten() + x) =~= (s[0] + s.drop_first().flatten()) + x);
    }
}

// ---------------------------------------------------------------------------
// The status line
// ---------------------------------------------------------------------------

/// A multi-line script as a one-line preview: every line break becomes
/// ` ; `.
pub open spec fn one_lined(script: Seq<char>) -> Seq<char>
    decreases script.len(),
{
    if script.len() == 0 {
        Seq::empty()
    } else {
        one_lined(script.drop_last()) + if script.last() == '\n' {
            " ; "@
        } else {
            seq![script.last()]
        }
    }
}

/// A multi-line script as one status-line-sized preview (see [`one_lined`]).
pub fn one_line(script: &str) -> (r: String)
    ensures
        r@ == one_lined(script@),
{
    let v = chars_of(script);
    let mut out: Vec<char> = Vec::new();
    let mut i: usize = 0;
    proof {
        reveal_strlit(" ; ");
    }
    while i < v.len()
        invariant
            v@ == script@,
            i <= v@.len(),
            out@ == one_lined(v@.subrange(0, i as int)),
            " ; "@ == seq![' ', ';', ' '],
        decreases v@.len() - i,
    {
        if v[i] == '\n' {
            out.push(' ');
            out.push(';');
            out.push(' ');
        } else {
            out.push(v[i]);
        }
        proof {
            let pre = v@.subrange(0, i + 1);
            assert(pre.drop_last() =~= v@.subrange(0, i as int));
            assert(out@ =~= one_lined(pre));
        }
        i = i + 1;
    }
    assert(v@.subrange(0, v@.len() as int) =~= v@);
    string_of(&out)
}

/// The two-character sigil (`*>`, `$ `, `> `, `& `) off the front of a line,
/// and the rest, so the sigil can be coloured on its own. On a very narrow
/// terminal the line may be shorter than the sigil.
pub open spec fn marker_split(line: Seq<char>) -> (Seq<char>, Seq<char>) {
    if line.len() <= 2 {
        (line, Seq::empty())
    } else {
        (line.subrange(0, 2), line.subrange(2, line.len() as int))
    }
}

/// Split the sigil off the front of a line (see [`marker_split`]).
pub fn split_marker(line: &str) -> (r: (String, String))
    ensures
        (r.0@, r.1@) == marker_split(line@),
{
    let v = chars_of(line);
    if v.len() <= 2 {
        return (line.to_owned(), String::new());
    }
    let head = slice(&v, 0, 2);
    let tail = slice(&v, 2, v.len());
    (string_of(&head), string_of(&tail))
}

/// The mark in front of an entry: `*>` on the selected one.
pub fn cursor_marker(selected: bool) -> (r: &'static str)
    ensures
        r@ == if selected {
            "*>"@
        } else {
            "  "@
        },
{
    if selected {
        "*>"
    } else {
        "  "
    }
}

// ---------------------------------------------------------------------------
// Layout
// ---------------------------------------------------------------------------

/// Rows reserved around the list besides the status line: the title and the
/// blank line under it.
pub const CHROME_ROWS: u16 = 2;

/// How many rows the status line may grow to when the command does not fit
/// on one: enough for a deploy pipeline written as several commands, while
/// still leaving a short terminal a list to scroll.
pub const MAX_FOOTER_ROWS: u16 = 10;

/// `a - b`, or 0 when `b` is larger.
pub open spec fn minus(a: int, b: int) -> int {
    if a >= b {
        a - b
    } else {
        0
    }
}

/// How many rows the status line may use on a terminal `rows` tall with
/// `help_rows` of help text: at most [`MAX_FOOTER_ROWS`], half the screen,
/// and what is left once the title, the blank line, the help and one row of
/// list are placed; but always at least one.
pub open spec fn budget_for(rows: u16, help_rows: u16) -> u16 {
    let spare = minus(rows as int, 3 + help_rows);
    let cap = if rows / 2 < 10 {
        rows / 2
    } else {
        10
    };
    let b = if spare < cap {
        spare
    } else {
        cap as int
    };
    if b < 1 {
        1
    } else {
        b as u16
    }
}

/// How many rows the status line may use (see [`budget_for`]).
pub fn footer_budget(rows: u16, help_rows: u16) -> (r: u16)
    requires
        help_rows + 3 <= u16::MAX,
    ensures
        r == budget_for(rows, help_rows),
{
    let spare = rows.saturating_sub(CHROME_ROWS + help_rows + 1);
    let mut b = MAX_FOOTER_ROWS;
    if rows / 2 < b {
        b = rows / 2;
    }
    if spare < b {
        b = spare;
    }
    if b < 1 {
        1
    } else {
        b
    }
}

/// How many rows the list gets on a terminal `rows` tall, once the title,
/// the blank line, `help_rows` of help and `footer_rows` of status line are
/// placed: never fewer than one.
pub open spec fn list_rows(rows: u16, help_rows: u16, footer_rows: u16) -> u16 {
    let left = minus(rows as int, 2 + help_rows + footer_rows);
    if left < 1 {
        1
    } else {
        left as u16
    }
}

/// How many rows the list gets (see [`list_rows`]).
pub fn list_height(rows: u16, help_rows: u16, footer_rows: u16) -> (r: u16)
    requires
        help_rows + footer_rows + 2 <= u16::MAX,
    ensures
        r == list_rows(rows, help_rows, footer_rows),
{
    let left = rows.saturating_sub(CHROME_ROWS + help_rows + footer_rows);
    if left < 1 {
        1
    } else {
        left
    }
}

/// The terminal size to lay out for: what the terminal reported, with 80
/// columns or 24 rows standing in for a zero or for no answer. A PTY that was
/// never given a size reports `0x0`, and every line would be cut to nothing.
pub open spec fn usable_dims(reported: Option<(u16, u16)>) -> (u16, u16) {
    let (cols, rows) = match reported {
        Some(d) => d,
        None => (0, 0),
    };
    (if cols == 0 {
        80
    } else {
        cols
    }, if rows == 0 {
        24
    } else {
        rows
    })
}

/// The terminal size to lay out for (see [`usable_dims`]).
pub fn usable_size(reported: Option<(u16, u16)>) -> (r: (u16, u16))
    ensures
        r == usable_dims(reported),
{
    let (cols, rows) = match reported {
        Some(d) => d,
        None => (0, 0),
    };
    (if cols == 0 {
        80
    } else {
        cols
    }, if rows == 0 {
        24
    } else {
        rows
    })
}

} // verus!
