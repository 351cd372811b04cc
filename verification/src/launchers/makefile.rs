//! Entries from the targets of a `Makefile`.
//!
//! The Makefile is read line by line rather than handed to `make -qp`,
//! because running make just to list targets can execute `$(shell ...)` in
//! the file. Reading cannot have side effects.

use vstd::prelude::*;

use super::{LauncherGroup, in_dir, in_dir_spec, quote, quoted};
use crate::config::model::{MenuItem, command_view, item_view, items_view, lemma_items_view};
use crate::paths::{self, path_parent};
use crate::text::{
    chars_of, contains_string, find_char, first_index_of, has_char, has_prefix, is_white, is_whitespace,
    lemma_leading_white, leading_white, push_chars, same_chars, slice, starts_with, string_of,
    trim_start, trim_start_of,
};

verus! {

// ---------------------------------------------------------------------------
// Lines
// ---------------------------------------------------------------------------

/// `l` without a final `\r`.
pub open spec fn strip_cr(l: Seq<char>) -> Seq<char> {
    if l.len() > 0 && l.last() == '\r' {
        l.drop_last()
    } else {
        l
    }
}

/// The lines of `s` as `str::lines` yields them: split after every `\n`, the
/// `\n` dropped together with a `\r` just before it, and no empty line after
/// a final `\n`.
pub open spec fn lines_of(s: Seq<char>) -> Seq<Seq<char>>
    decreases s.len(),
{
    if s.len() == 0 {
        Seq::empty()
    } else {
        match first_index_of(s, '\n') {
            Some(i) => if 0 <= i < s.len() {
                seq![strip_cr(s.subrange(0, i))] + lines_of(s.subrange(i + 1, s.len() as int))
            } else {
                seq![s]
            },
            None => seq![s],
        }
    }
}

/// Split text into lines (see [`lines_of`]).
pub fn split_lines(text: &Vec<char>) -> (r: Vec<Vec<char>>)
    ensures
        r@.map_values(|l: Vec<char>| l@) == lines_of(text@),
{
    let mut out: Vec<Vec<char>> = Vec::new();
    let mut rest: Vec<char> = slice(text, 0, text.len());
    assert(text@.subrange(0, text@.len() as int) =~= text@);
    loop
        invariant
            out@.map_values(|l: Vec<char>| l@) + lines_of(rest@) == lines_of(text@),
        decreases rest@.len(),
    {
        if rest.len() == 0 {
            assert(out@.map_values(|l: Vec<char>| l@) + lines_of(rest@) =~= out@.map_values(
                |l: Vec<char>| l@,
            ));
            return out;
        }
        let ghost before = out@;
        match find_char(&rest, '\n') {
            Some(i) => {
                let mut line = slice(&rest, 0, i);
                if line.len() > 0 && line[line.len() - 1] == '\r' {
                    line = slice(&line, 0, line.len() - 1);
                    proof {
                        assert(line@ =~= strip_cr(rest@.subrange(0, i as int)));
                    }
                }
                let next = slice(&rest, i + 1, rest.len());
                out.push(line);
                proof {
                    assert(out@.map_values(|l: Vec<char>| l@) =~= before.map_values(
                        |l: Vec<char>| l@,
                    ).push(strip_cr(rest@.subrange(0, i as int))));
                    assert(lines_of(rest@) == seq![strip_cr(rest@.subrange(0, i as int))]
                        + lines_of(next@));
                    assert(out@.map_values(|l: Vec<char>| l@) + lines_of(next@) =~= before.map_values(
                        |l: Vec<char>| l@,
                    ) + lines_of(rest@));
                }
                rest = next;
            }
            None => {
                let line = slice(&rest, 0, rest.len());
                assert(rest@.subrange(0, rest@.len() as int) =~= rest@);
                out.push(line);
                proof {
                    assert(lines_of(rest@) == seq![rest@]);
                    assert(out@.map_values(|l: Vec<char>| l@) =~= before.map_values(
                        |l: Vec<char>| l@,
                    ) + lines_of(rest@));
                }
                return out;
            }
        }
    }
}

// ---------------------------------------------------------------------------
// Words
// ---------------------------------------------------------------------------

/// How many leading characters of `s` are not whitespace.
pub open spec fn word_len(s: Seq<char>) -> int
    decreases s.len(),
{
    if s.len() > 0 && !is_white(s[0]) {
        1 + word_len(s.drop_first())
    } else {
        0
    }
}

pub proof fn lemma_word_len(s: Seq<char>)
    ensures
        0 <= word_len(s) <= s.len(),
        forall|k: int| 0 <= k < word_len(s) ==> !is_white(#[trigger] s[k]),
        word_len(s) < s.len() ==> is_white(s[word_len(s)]),
        s.len() > 0 && !is_white(s[0]) ==> word_len(s) > 0,
    decreases s.len(),
{
    if s.len() > 0 && !is_white(s[0]) {
        lemma_word_len(s.drop_first());
        assert forall|k: int| 0 <= k < word_len(s) implies !is_white(#[trigger] s[k]) by {
            if k > 0 {
                assert(s[k] == s.drop_first()[k - 1]);
            }
        }
    }
}

/// The whitespace-separated words of `s`, as `str::split_whitespace` yields
/// them.
pub open spec fn words(s: Seq<char>) -> Seq<Seq<char>>
    decreases s.len(),
{
    let t = trim_start(s);
    if t.len() == 0 {
        Seq::empty()
    } else {
        let w = word_len(t);
        if 0 < w <= t.len() && t.len() <= s.len() {
            seq![t.subrange(0, w)] + words(t.subrange(w, t.len() as int))
        } else {
            Seq::empty()
        }
    }
}

/// Every word is non-empty and holds no whitespace.
pub open spec fn is_word(w: Seq<char>) -> bool {
    w.len() > 0 && forall|k: int| 0 <= k < w.len() ==> !is_white(#[trigger] w[k])
}

pub proof fn lemma_trim_shape(s: Seq<char>)
    ensures
        trim_start(s).len() <= s.len(),
        trim_start(s).len() > 0 ==> !is_white(trim_start(s)[0]),
        trim_start(s) == s.subrange(leading_white(s), s.len() as int),
{
    lemma_leading_white(s);
}

pub proof fn lemma_words_are_words(s: Seq<char>)
    ensures
        forall|i: int| 0 <= i < words(s).len() ==> is_word(#[trigger] words(s)[i]),
    decreases s.len(),
{
    let t = trim_start(s);
    lemma_trim_shape(s);
    if t.len() > 0 {
        lemma_word_len(t);
        let w = word_len(t);
        lemma_words_are_words(t.subrange(w, t.len() as int));
        let rest = words(t.subrange(w, t.len() as int));
        assert forall|i: int| 0 <= i < words(s).len() implies is_word(#[trigger] words(s)[i]) by {
            if i == 0 {
                let first = t.subrange(0, w);
                assert forall|k: int| 0 <= k < first.len() implies !is_white(#[trigger] first[k]) by {
                    assert(first[k] == t[k]);
                }
            } else {
                assert(words(s)[i] == rest[i - 1]);
            }
        }
    }
}

/// Split `s` at whitespace (see [`words`]).
pub fn split_words(s: &Vec<char>) -> (r: Vec<Vec<char>>)
    ensures
        r@.map_values(|w: Vec<char>| w@) == words(s@),
{
    let mut out: Vec<Vec<char>> = Vec::new();
    let mut rest = trim_start_of(s);
    proof {
        lemma_trim_shape(s@);
    }
    // `words` of the text not yet split is `words(rest)`, and `rest` never
    // starts with whitespace.
    assert(words(s@) == words(rest@)) by {
        lemma_trim_idempotent(s@);
        lemma_words_trim(s@);
    }
    loop
        invariant
            out@.map_values(|w: Vec<char>| w@) + words(rest@) == words(s@),
            rest@.len() > 0 ==> !is_white(rest@[0]),
        decreases rest@.len(),
    {
        if rest.len() == 0 {
            assert(words(rest@) =~= Seq::<Seq<char>>::empty()) by {
                lemma_trim_shape(rest@);
            }
            assert(out@.map_values(|w: Vec<char>| w@) + words(rest@) =~= out@.map_values(
                |w: Vec<char>| w@,
            ));
            return out;
        }
        let mut end: usize = 0;
        proof {
            lemma_word_len(rest@);
        }
        while end < rest.len() && !is_whitespace(rest[end])
            invariant
                end <= rest@.len(),
                forall|k: int| 0 <= k < end ==> !is_white(#[trigger] rest@[k]),
                end <= word_len(rest@),
                word_len(rest@) < rest@.len() ==> is_white(rest@[word_len(rest@)]),
                0 <= word_len(rest@) <= rest@.len(),
                forall|k: int| 0 <= k < word_len(rest@) ==> !is_white(#[trigger] rest@[k]),
            decreases rest@.len() - end,
        {
            end = end + 1;
        }
        assert(end == word_len(rest@));
        let word = slice(&rest, 0, end);
        let after = slice(&rest, end, rest.len());
        let next = trim_start_of(&after);
        proof {
            lemma_leading_white(rest@);
            assert(leading_white(rest@) == 0);
            assert(trim_start(rest@) =~= rest@);
            assert(words(rest@) == seq![word@] + words(after@));
            lemma_trim_idempotent(after@);
            lemma_words_trim(after@);
            lemma_trim_shape(after@);
        }
        let ghost before = out@;
        out.push(word);
        proof {
            assert(out@.map_values(|w: Vec<char>| w@) =~= before.map_values(|w: Vec<char>| w@).push(
                word@,
            ));
            assert(out@.map_values(|w: Vec<char>| w@) + words(next@) =~= before.map_values(
                |w: Vec<char>| w@,
            ) + (seq![word@] + words(after@)));
        }
        rest = next;
    }
}

pub proof fn lemma_trim_idempotent(s: Seq<char>)
    ensures
        trim_start(trim_start(s)) == trim_start(s),
{
    let t = trim_start(s);
    lemma_trim_shape(s);
    lemma_leading_white(t);
    if t.len() > 0 {
        assert(leading_white(t) == 0);
    } else {
        assert(leading_white(t) == 0);
    }
    assert(t.subrange(0, t.len() as int) =~= t);
}

pub proof fn lemma_words_trim(s: Seq<char>)
    ensures
        words(trim_start(s)) == words(s),
{
    lemma_trim_idempotent(s);
    lemma_trim_shape(s);
}

// ---------------------------------------------------------------------------
// The scan
// ---------------------------------------------------------------------------

pub open spec fn kw_endef() -> Seq<char> {
    seq!['e', 'n', 'd', 'e', 'f']
}

pub open spec fn kw_define() -> Seq<char> {
    seq!['d', 'e', 'f', 'i', 'n', 'e']
}

pub open spec fn kw_override() -> Seq<char> {
    seq!['o', 'v', 'e', 'r', 'r', 'i', 'd', 'e', ' ']
}

pub open spec fn kw_endif() -> Seq<char> {
    seq!['e', 'n', 'd', 'i', 'f']
}

pub open spec fn kw_ifeq() -> Seq<char> {
    seq!['i', 'f', 'e', 'q']
}

pub open spec fn kw_ifneq() -> Seq<char> {
    seq!['i', 'f', 'n', 'e', 'q']
}

pub open spec fn kw_ifdef() -> Seq<char> {
    seq!['i', 'f', 'd', 'e', 'f']
}

pub open spec fn kw_ifndef() -> Seq<char> {
    seq!['i', 'f', 'n', 'd', 'e', 'f']
}

pub open spec fn kw_recipe_prefix() -> Seq<char> {
    seq!['.', 'R', 'E', 'C', 'I', 'P', 'E', 'P', 'R', 'E', 'F', 'I', 'X']
}

/// What is known while reading a Makefile top to bottom.
pub struct ScanState {
    /// Inside the body of a `define`, which make does not read as makefile
    /// syntax until the variable is expanded.
    pub in_define: bool,
    /// How many conditionals (`ifeq` ... `endif`) are open.
    pub depth: nat,
    /// The recipe prefix: tab, or what `.RECIPEPREFIX` last set.
    pub prefix: char,
}

/// The state before the first line.
pub open spec fn initial_state() -> ScanState {
    ScanState { in_define: false, depth: 0, prefix: '\t' }
}

/// `d` begins with the directive `kw`, as a word of its own.
pub open spec fn directive(d: Seq<char>, kw: Seq<char>) -> bool {
    &&& starts_with(d, kw)
    &&& (d.len() == kw.len() || is_white(d[kw.len() as int]) || d[kw.len() as int] == '('
        || d[kw.len() as int] == '#')
}

/// `d` opens a conditional.
pub open spec fn opens_conditional(d: Seq<char>) -> bool {
    directive(d, kw_ifeq()) || directive(d, kw_ifneq()) || directive(d, kw_ifdef()) || directive(
        d,
        kw_ifndef(),
    )
}

/// `d` opens a `define`.
pub open spec fn opens_define(d: Seq<char>) -> bool {
    starts_with(d, kw_define().push(' ')) || d == kw_define()
}

/// A line after the whitespace and an `override ` in front of it.
pub open spec fn directive_text(start: Seq<char>) -> Seq<char> {
    if starts_with(start, kw_override()) {
        trim_start(start.subrange(kw_override().len() as int, start.len() as int))
    } else {
        trim_start(start)
    }
}

/// How long the assignment operator at the front of `s` is: `::=`, `:=` or
/// `=`; zero for anything else.
pub open spec fn assignment_len(s: Seq<char>) -> int {
    if starts_with(s, seq![':', ':', '=']) {
        3
    } else if starts_with(s, seq![':', '=']) {
        2
    } else if starts_with(s, seq!['=']) {
        1
    } else {
        0
    }
}

/// The recipe prefix a `.RECIPEPREFIX` assignment sets: the first character
/// of its value, or tab for an empty value. `None` when `d` is not such an
/// assignment.
pub open spec fn recipe_prefix_set(d: Seq<char>) -> Option<char> {
    if starts_with(d, kw_recipe_prefix()) {
        let rest = trim_start(d.subrange(kw_recipe_prefix().len() as int, d.len() as int));
        let op = assignment_len(rest);
        if op > 0 {
            let value = trim_start(rest.subrange(op, rest.len() as int));
            if value.len() > 0 {
                Some(value[0])
            } else {
                Some('\t')
            }
        } else {
            None
        }
    } else {
        None
    }
}

/// A name that can be run without extra arguments: not a special target
/// (`.PHONY`), not a pattern (`%.o`), not built from a variable (`$(BIN)`).
pub open spec fn runnable_name(w: Seq<char>) -> bool {
    &&& !starts_with(w, seq!['.'])
    &&& !w.contains('%')
    &&& !w.contains('$')
}

/// The words of `ws` that name runnable targets, in order.
pub open spec fn runnable(ws: Seq<Seq<char>>) -> Seq<Seq<char>>
    decreases ws.len(),
{
    if ws.len() == 0 {
        Seq::empty()
    } else if runnable_name(ws.last()) {
        runnable(ws.drop_last()).push(ws.last())
    } else {
        runnable(ws.drop_last())
    }
}

/// The targets a rule line names: the runnable words before its first `:`,
/// unless the line is an assignment (`A := b`, `A ?= b`, `A = b`).
pub open spec fn rule_targets(line: Seq<char>) -> Seq<Seq<char>> {
    match first_index_of(line, ':') {
        None => Seq::empty(),
        Some(i) => {
            let left = line.subrange(0, i);
            let right = line.subrange(i + 1, line.len() as int);
            let right = if starts_with(right, seq![':']) {
                right.drop_first()
            } else {
                right
            };
            if starts_with(right, seq!['=']) || left.contains('=') {
                Seq::empty()
            } else {
                runnable(words(left))
            }
        },
    }
}

/// Read one line: the state after it, and the targets it names.
pub open spec fn scan_line(st: ScanState, line: Seq<char>) -> (ScanState, Seq<Seq<char>>) {
    let start = trim_start(line);
    if st.in_define {
        (ScanState { in_define: !starts_with(start, kw_endef()), ..st }, Seq::empty())
    } else {
        let d = directive_text(start);
        if opens_define(d) {
            (ScanState { in_define: true, ..st }, Seq::empty())
        } else if starts_with(line, seq![st.prefix]) || starts_with(start, seq!['#']) {
            (st, Seq::empty())
        } else if opens_conditional(d) {
            (ScanState { depth: st.depth + 1, ..st }, Seq::empty())
        } else if st.depth > 0 {
            if directive(d, kw_endif()) {
                (ScanState { depth: (st.depth - 1) as nat, ..st }, Seq::empty())
            } else {
                (st, Seq::empty())
            }
        } else {
            match recipe_prefix_set(d) {
                Some(p) => (ScanState { prefix: p, ..st }, Seq::empty()),
                None => (st, rule_targets(line)),
            }
        }
    }
}

/// The state after the first `k` lines, and the targets they name, in order.
pub open spec fn scan_upto(lines: Seq<Seq<char>>, k: int) -> (ScanState, Seq<Seq<char>>)
    decreases k,
{
    if k <= 0 {
        (initial_state(), Seq::empty())
    } else {
        let (st, ts) = scan_upto(lines, k - 1);
        let (st2, new) = scan_line(st, lines[k - 1]);
        (st2, ts + new)
    }
}

/// Target names in a Makefile, in order, repeats included.
pub open spec fn targets_of(text: Seq<char>) -> Seq<Seq<char>> {
    let lines = lines_of(text);
    scan_upto(lines, lines.len() as int).1
}

/// Read `lines` from the state `st`: the state after them, and the targets
/// they name, in order.
pub open spec fn scan_from(st: ScanState, lines: Seq<Seq<char>>) -> (ScanState, Seq<Seq<char>>)
    decreases lines.len(),
{
    if lines.len() == 0 {
        (st, Seq::empty())
    } else {
        let (s1, t1) = scan_line(st, lines[0]);
        let (s2, t2) = scan_from(s1, lines.drop_first());
        (s2, t1 + t2)
    }
}

proof fn lemma_scan_from_one(st: ScanState, x: Seq<char>)
    ensures
        scan_from(st, seq![x]).0 == scan_line(st, x).0,
        scan_from(st, seq![x]).1 == scan_line(st, x).1,
{
    let one = seq![x];
    assert(one.drop_first() =~= Seq::<Seq<char>>::empty());
    assert(one[0] == x);
    let s1 = scan_line(st, x).0;
    assert(scan_from(s1, one.drop_first()) == (s1, Seq::<Seq<char>>::empty()));
    assert(scan_line(st, x).1 + Seq::<Seq<char>>::empty() =~= scan_line(st, x).1);
}

proof fn lemma_scan_from_push(st: ScanState, a: Seq<Seq<char>>, x: Seq<char>)
    ensures
        scan_from(st, a.push(x)) == ({
            let (s1, t1) = scan_from(st, a);
            let (s2, t2) = scan_line(s1, x);
            (s2, t1 + t2)
        }),
    decreases a.len(),
{
    if a.len() == 0 {
        assert(a.push(x) =~= seq![x]);
        lemma_scan_from_one(st, x);
        let t1 = scan_line(st, x).1;
        assert(Seq::<Seq<char>>::empty() + t1 =~= t1);
    } else {
        assert(a.push(x).drop_first() =~= a.drop_first().push(x));
        assert(a.push(x)[0] == a[0]);
        let (s1, t1) = scan_line(st, a[0]);
        lemma_scan_from_push(s1, a.drop_first(), x);
        let (s2, t2) = scan_from(s1, a.drop_first());
        let (s3, t3) = scan_line(s2, x);
        assert(t1 + (t2 + t3) =~= (t1 + t2) + t3);
    }
}

/// Reading a file from the top is reading its lines from the initial state.
pub proof fn lemma_scan_upto_from(lines: Seq<Seq<char>>, k: int)
    requires
        0 <= k <= lines.len(),
    ensures
        scan_upto(lines, k) == scan_from(initial_state(), lines.subrange(0, k)),
    decreases k,
{
    if k == 0 {
        assert(lines.subrange(0, 0) =~= Seq::<Seq<char>>::empty());
    } else {
        lemma_scan_upto_from(lines, k - 1);
        assert(lines.subrange(0, k) =~= lines.subrange(0, k - 1).push(lines[k - 1]));
        lemma_scan_from_push(initial_state(), lines.subrange(0, k - 1), lines[k - 1]);
    }
}

/// Reading `a` then `b` is reading `a`, then `b` from where `a` left off.
pub proof fn lemma_scan_from_append(st: ScanState, a: Seq<Seq<char>>, b: Seq<Seq<char>>)
    ensures
        scan_from(st, a + b) == ({
            let (s1, t1) = scan_from(st, a);
            let (s2, t2) = scan_from(s1, b);
            (s2, t1 + t2)
        }),
    decreases a.len(),
{
    if a.len() == 0 {
        assert(a + b =~= b);
        let (s2, t2) = scan_from(st, b);
        assert(Seq::<Seq<char>>::empty() + t2 =~= t2);
    } else {
        assert((a + b).drop_first() =~= a.drop_first() + b);
        assert((a + b)[0] == a[0]);
        let (s1, t1) = scan_line(st, a[0]);
        lemma_scan_from_append(s1, a.drop_first(), b);
        let (s2, t2) = scan_from(s1, a.drop_first());
        let (s3, t3) = scan_from(s2, b);
        assert(t1 + (t2 + t3) =~= (t1 + t2) + t3);
    }
}

/// What a line is to the scanner once its whitespace and `override ` are
/// dropped.
pub open spec fn directive_of(l: Seq<char>) -> Seq<char> {
    directive_text(trim_start(l))
}

/// A line make reads as a directive, with recipe prefix `p`: not a recipe
/// line, not a comment, and not opening a `define`.
pub open spec fn read_as_directive(l: Seq<char>, p: char) -> bool {
    &&& !starts_with(l, seq![p])
    &&& !starts_with(trim_start(l), seq!['#'])
    &&& !opens_define(directive_of(l))
}

/// A conditional block with recipe prefix `p`: an `ifeq`, `ifneq`, `ifdef`
/// or `ifndef` line, lines that neither open a `define` nor open or close a
/// conditional, and the `endif` that closes it.
pub open spec fn conditional_block(c: Seq<Seq<char>>, p: char) -> bool {
    &&& c.len() >= 2
    &&& read_as_directive(c[0], p) && opens_conditional(directive_of(c[0]))
    &&& read_as_directive(c.last(), p) && directive(directive_of(c.last()), kw_endif())
        && !opens_conditional(directive_of(c.last()))
    &&& forall|i: int|
        0 < i < c.len() - 1 ==> {
            let d = directive_of(#[trigger] c[i]);
            !opens_define(d) && !opens_conditional(d) && !directive(d, kw_endif())
        }
}

/// A conditional block read outside any conditional and `define` names no
/// target and leaves the scanner as it found it: its `endif` closes it.
pub proof fn conditional_block_is_closed_by_its_endif(st: ScanState, c: Seq<Seq<char>>)
    requires
        st.depth == 0,
        !st.in_define,
        conditional_block(c, st.prefix),
    ensures
        scan_from(st, c) == (st, Seq::<Seq<char>>::empty()),
{
    let inside = ScanState { depth: 1, ..st };
    let body = c.subrange(1, c.len() - 1);
    assert forall|k: int| 0 <= k <= body.len() implies scan_from(inside, #[trigger] body.subrange(0, k)) == (
        inside,
        Seq::<Seq<char>>::empty(),
    ) by {
        lemma_body_inert(inside, body, k, c);
    }
    assert(body.subrange(0, body.len() as int) =~= body);
    assert(c =~= seq![c[0]] + body + seq![c.last()]);
    lemma_scan_from_append(st, seq![c[0]] + body, seq![c.last()]);
    lemma_scan_from_append(st, seq![c[0]], body);
    assert(seq![c[0]].drop_first() =~= Seq::<Seq<char>>::empty());
    assert(seq![c.last()].drop_first() =~= Seq::<Seq<char>>::empty());
    assert(scan_line(st, c[0]) == (inside, Seq::<Seq<char>>::empty()));
    lemma_scan_from_one(st, c[0]);
    assert(scan_line(inside, c.last()) == (st, Seq::<Seq<char>>::empty()));
    lemma_scan_from_one(inside, c.last());
    assert(Seq::<Seq<char>>::empty() + Seq::<Seq<char>>::empty() =~= Seq::<Seq<char>>::empty());
}

proof fn lemma_body_inert(inside: ScanState, body: Seq<Seq<char>>, k: int, c: Seq<Seq<char>>)
    requires
        inside.depth == 1,
        !inside.in_define,
        0 <= k <= body.len(),
        c.len() >= 2,
        body == c.subrange(1, c.len() - 1),
        forall|i: int|
            0 < i < c.len() - 1 ==> {
                let d = directive_of(#[trigger] c[i]);
                !opens_define(d) && !opens_conditional(d) && !directive(d, kw_endif())
            },
    ensures
        scan_from(inside, body.subrange(0, k)) == (inside, Seq::<Seq<char>>::empty()),
    decreases k,
{
    if k == 0 {
        assert(body.subrange(0, 0) =~= Seq::<Seq<char>>::empty());
    } else {
        lemma_body_inert(inside, body, k - 1, c);
        assert(body.subrange(0, k) =~= body.subrange(0, k - 1).push(body[k - 1]));
        lemma_scan_from_push(inside, body.subrange(0, k - 1), body[k - 1]);
        assert(body[k - 1] == c[k]);
        let d = directive_of(c[k]);
        assert(!opens_define(d) && !opens_conditional(d) && !directive(d, kw_endif()));
        assert(scan_line(inside, body[k - 1]) == (inside, Seq::<Seq<char>>::empty()));
        assert(Seq::<Seq<char>>::empty() + Seq::<Seq<char>>::empty() =~= Seq::<Seq<char>>::empty());
    }
}

/// A conditional block changes nothing about what follows it: the lines
/// after a block, read from outside any conditional and `define`, name the
/// same targets and leave the same state as they do with the block left
/// out.
pub proof fn conditional_block_leaves_the_rest_alone(st: ScanState, c: Seq<Seq<char>>, r: Seq<Seq<char>>)
    requires
        st.depth == 0,
        !st.in_define,
        conditional_block(c, st.prefix),
    ensures
        scan_from(st, c + r) == scan_from(st, r),
{
    conditional_block_is_closed_by_its_endif(st, c);
    lemma_scan_from_append(st, c, r);
    let (s2, t2) = scan_from(st, r);
    assert(Seq::<Seq<char>>::empty() + t2 =~= t2);
}

/// The targets of a Makefile whose lines start with a conditional block are
/// those of the same Makefile without it.
pub proof fn a_leading_conditional_block_names_no_targets(c: Seq<Seq<char>>, r: Seq<Seq<char>>)
    requires
        conditional_block(c, '\t'),
    ensures
        scan_upto(c + r, (c + r).len() as int).1 == scan_upto(r, r.len() as int).1,
{
    lemma_scan_upto_from(c + r, (c + r).len() as int);
    lemma_scan_upto_from(r, r.len() as int);
    assert((c + r).subrange(0, (c + r).len() as int) =~= c + r);
    assert(r.subrange(0, r.len() as int) =~= r);
    conditional_block_leaves_the_rest_alone(initial_state(), c, r);
}

// ---------------------------------------------------------------------------
// The scan, executed
// ---------------------------------------------------------------------------

struct Scanner {
    in_define: bool,
    depth: usize,
    prefix: char,
}

impl Scanner {
    spec fn state(&self) -> ScanState {
        ScanState { in_define: self.in_define, depth: self.depth as nat, prefix: self.prefix }
    }
}

fn is_directive(d: &Vec<char>, kw: &Vec<char>) -> (r: bool)
    ensures
        r == directive(d@, kw@),
{
    if !has_prefix(d, kw) {
        return false;
    }
    let n = kw.len();
    n == d.len() || is_whitespace(d[n]) || d[n] == '(' || d[n] == '#'
}

fn opens_conditional_exec(d: &Vec<char>) -> (r: bool)
    ensures
        r == opens_conditional(d@),
{
    let a = vec!['i', 'f', 'e', 'q'];
    let b = vec!['i', 'f', 'n', 'e', 'q'];
    let c = vec!['i', 'f', 'd', 'e', 'f'];
    let e = vec!['i', 'f', 'n', 'd', 'e', 'f'];
    assert(a@ =~= kw_ifeq());
    assert(b@ =~= kw_ifneq());
    assert(c@ =~= kw_ifdef());
    assert(e@ =~= kw_ifndef());
    is_directive(d, &a) || is_directive(d, &b) || is_directive(d, &c) || is_directive(d, &e)
}

fn assignment_len_exec(s: &Vec<char>) -> (r: usize)
    ensures
        r as int == assignment_len(s@),
        r <= s@.len(),
{
    let a = vec![':', ':', '='];
    let b = vec![':', '='];
    let c = vec!['='];
    assert(a@ =~= seq![':', ':', '=']);
    assert(b@ =~= seq![':', '=']);
    assert(c@ =~= seq!['=']);
    if has_prefix(s, &a) {
        3
    } else if has_prefix(s, &b) {
        2
    } else if has_prefix(s, &c) {
        1
    } else {
        0
    }
}

fn recipe_prefix_exec(d: &Vec<char>) -> (r: Option<char>)
    ensures
        r == recipe_prefix_set(d@),
{
    let kw = vec!['.', 'R', 'E', 'C', 'I', 'P', 'E', 'P', 'R', 'E', 'F', 'I', 'X'];
    assert(kw@ =~= kw_recipe_prefix());
    if !has_prefix(d, &kw) {
        return None;
    }
    let rest = trim_start_of(&slice(d, kw.len(), d.len()));
    let op = assignment_len_exec(&rest);
    if op == 0 {
        return None;
    }
    let value = trim_start_of(&slice(&rest, op, rest.len()));
    if value.len() > 0 {
        Some(value[0])
    } else {
        Some('\t')
    }
}

fn runnable_name_exec(w: &Vec<char>) -> (r: bool)
    ensures
        r == runnable_name(w@),
{
    let dot = vec!['.'];
    assert(dot@ =~= seq!['.']);
    !has_prefix(w, &dot) && !has_char(w, '%') && !has_char(w, '$')
}

fn rule_targets_exec(line: &Vec<char>, out: &mut Vec<Vec<char>>)
    ensures
        final(out)@.map_values(|w: Vec<char>| w@) == old(out)@.map_values(|w: Vec<char>| w@)
            + rule_targets(line@),
{
    let i = match find_char(line, ':') {
        None => {
            assert(old(out)@.map_values(|w: Vec<char>| w@) + rule_targets(line@) =~= old(
                out,
            )@.map_values(|w: Vec<char>| w@));
            return;
        }
        Some(i) => i,
    };
    assert(line@.len() == line.len());
    let left = slice(line, 0, i);
    let mut right = slice(line, i + 1, line.len());
    let colon = vec![':'];
    let eq = vec!['='];
    assert(colon@ =~= seq![':']);
    assert(eq@ =~= seq!['=']);
    if has_prefix(&right, &colon) {
        right = slice(&right, 1, right.len());
        assert(right@ =~= line@.subrange(i + 1, line@.len() as int).drop_first());
    }
    if has_prefix(&right, &eq) || has_char(&left, '=') {
        assert(old(out)@.map_values(|w: Vec<char>| w@) + rule_targets(line@) =~= old(
            out,
        )@.map_values(|w: Vec<char>| w@));
        return;
    }
    let ws = split_words(&left);
    let ghost wv = ws@.map_values(|w: Vec<char>| w@);
    let ghost start = out@.map_values(|w: Vec<char>| w@);
    let mut k: usize = 0;
    while k < ws.len()
        invariant
            wv == ws@.map_values(|w: Vec<char>| w@),
            k <= ws@.len(),
            out@.map_values(|w: Vec<char>| w@) == start + runnable(wv.subrange(0, k as int)),
        decreases ws@.len() - k,
    {
        let ghost before = out@;
        if runnable_name_exec(&ws[k]) {
            out.push(slice(&ws[k], 0, ws[k].len()));
            proof {
                assert(ws@[k as int]@.subrange(0, ws@[k as int]@.len() as int) =~= ws@[k as int]@);
                assert(out@.map_values(|w: Vec<char>| w@) =~= before.map_values(|w: Vec<char>| w@).push(
                    wv[k as int],
                ));
            }
        }
        proof {
            let pre = wv.subrange(0, k + 1);
            assert(pre.drop_last() =~= wv.subrange(0, k as int));
            assert(pre.last() == wv[k as int]);
            assert(out@.map_values(|w: Vec<char>| w@) =~= start + runnable(pre));
        }
        k = k + 1;
    }
    assert(wv.subrange(0, ws@.len() as int) =~= wv);
}

fn scan_line_exec(sc: &mut Scanner, line: &Vec<char>, out: &mut Vec<Vec<char>>)
    requires
        old(sc).depth < usize::MAX,
    ensures
        (final(sc).state(), final(out)@.map_values(|w: Vec<char>| w@)) == ({
            let (st, new) = scan_line(old(sc).state(), line@);
            (st, old(out)@.map_values(|w: Vec<char>| w@) + new)
        }),
        final(sc).depth <= old(sc).depth + 1,
{
    let ghost outs = old(out)@.map_values(|w: Vec<char>| w@);
    let start = trim_start_of(line);
    if sc.in_define {
        let endef = vec!['e', 'n', 'd', 'e', 'f'];
        assert(endef@ =~= kw_endef());
        sc.in_define = !has_prefix(&start, &endef);
        assert(outs + Seq::<Seq<char>>::empty() =~= outs);
        return;
    }
    let over = vec!['o', 'v', 'e', 'r', 'r', 'i', 'd', 'e', ' '];
    assert(over@ =~= kw_override());
    let d = if has_prefix(&start, &over) {
        trim_start_of(&slice(&start, over.len(), start.len()))
    } else {
        trim_start_of(&start)
    };
    let define = vec!['d', 'e', 'f', 'i', 'n', 'e'];
    let define_sp = vec!['d', 'e', 'f', 'i', 'n', 'e', ' '];
    assert(define@ =~= kw_define());
    assert(define_sp@ =~= kw_define().push(' '));
    if has_prefix(&d, &define_sp) || same_chars(&d, &define) {
        sc.in_define = true;
        assert(outs + Seq::<Seq<char>>::empty() =~= outs);
        return;
    }
    let pre = vec![sc.prefix];
    let hash = vec!['#'];
    assert(pre@ =~= seq![sc.prefix]);
    assert(hash@ =~= seq!['#']);
    if has_prefix(line, &pre) || has_prefix(&start, &hash) {
        assert(outs + Seq::<Seq<char>>::empty() =~= outs);
        return;
    }
    if opens_conditional_exec(&d) {
        sc.depth = sc.depth + 1;
        assert(outs + Seq::<Seq<char>>::empty() =~= outs);
        return;
    }
    if sc.depth > 0 {
        let endif = vec!['e', 'n', 'd', 'i', 'f'];
        assert(endif@ =~= kw_endif());
        if is_directive(&d, &endif) {
            sc.depth = sc.depth - 1;
        }
        assert(outs + Seq::<Seq<char>>::empty() =~= outs);
        return;
    }
    match recipe_prefix_exec(&d) {
        Some(p) => {
            sc.prefix = p;
            assert(outs + Seq::<Seq<char>>::empty() =~= outs);
        }
        None => {
            rule_targets_exec(line, out);
        }
    }
}

pub proof fn lemma_scan_depth(lines: Seq<Seq<char>>, k: int)
    requires
        0 <= k,
    ensures
        scan_upto(lines, k).0.depth <= k,
    decreases k,
{
    if k > 0 {
        lemma_scan_depth(lines, k - 1);
    }
}

/// Target names that can be run without extra arguments, in file order,
/// repeats included.
///
/// Skipped on purpose: special targets (`.PHONY`), pattern rules (`%.o`),
/// names built from variables (`$(BIN)`), assignments, recipe lines (those
/// starting with the active recipe prefix, tab unless `.RECIPEPREFIX` says
/// otherwise), comments, the body of a `define`, and everything inside a
/// conditional, since which branch make takes depends on variables that
/// cannot be expanded here.
pub fn parse_targets(text: &str) -> (r: Vec<String>)
    ensures
        r@.map_values(|s: String| s@) == targets_of(text@),
{
    let chars = chars_of(text);
    let lines = split_lines(&chars);
    let ghost lv = lines@.map_values(|l: Vec<char>| l@);
    let mut sc = Scanner { in_define: false, depth: 0, prefix: '\t' };
    let mut found: Vec<Vec<char>> = Vec::new();
    let mut i: usize = 0;
    while i < lines.len()
        invariant
            lv == lines@.map_values(|l: Vec<char>| l@),
            lv == lines_of(text@),
            i <= lines@.len(),
            (sc.state(), found@.map_values(|w: Vec<char>| w@)) == scan_upto(lv, i as int),
        decreases lines@.len() - i,
    {
        proof {
            lemma_scan_depth(lv, i as int);
        }
        scan_line_exec(&mut sc, &lines[i], &mut found);
        i = i + 1;
    }
    let mut out: Vec<String> = Vec::new();
    let mut k: usize = 0;
    while k < found.len()
        invariant
            k <= found@.len(),
            out@.map_values(|s: String| s@) == found@.subrange(0, k as int).map_values(
                |w: Vec<char>| w@,
            ),
        decreases found@.len() - k,
    {
        let ghost before = out@;
        out.push(string_of(&found[k]));
        proof {
            assert(out@.map_values(|s: String| s@) =~= before.map_values(|s: String| s@).push(found@[k as int]@));
            assert(found@.subrange(0, k + 1).map_values(|w: Vec<char>| w@) =~= found@.subrange(0, k as int).map_values(|w: Vec<char>| w@).push(found@[k as int]@));
            assert(out@.map_values(|s: String| s@) =~= found@.subrange(0, k + 1).map_values(
                |w: Vec<char>| w@,
            ));
        }
        k = k + 1;
    }
    assert(found@.subrange(0, found@.len() as int) =~= found@);
    out
}


// ---------------------------------------------------------------------------
// What every target looks like
// ---------------------------------------------------------------------------

/// A target the menu offers: a single word that names a runnable target.
pub open spec fn good_target(t: Seq<char>) -> bool {
    is_word(t) && runnable_name(t)
}

pub proof fn lemma_runnable(ws: Seq<Seq<char>>)
    ensures
        forall|i: int|
            0 <= i < runnable(ws).len() ==> runnable_name(#[trigger] runnable(ws)[i]) && ws.contains(
                runnable(ws)[i],
            ),
    decreases ws.len(),
{
    if ws.len() > 0 {
        lemma_runnable(ws.drop_last());
        let r = runnable(ws);
        let p = runnable(ws.drop_last());
        assert forall|i: int| 0 <= i < r.len() implies runnable_name(#[trigger] r[i]) && ws.contains(r[i]) by {
            if i < p.len() {
                assert(r[i] == p[i]);
                let j = choose|j: int| 0 <= j < ws.drop_last().len() && ws.drop_last()[j] == p[i];
                assert(ws[j] == p[i]);
            } else {
                assert(r[i] == ws.last());
                assert(ws[ws.len() - 1] == ws.last());
            }
        }
    }
}

pub proof fn lemma_rule_targets_good(line: Seq<char>)
    ensures
        forall|i: int| 0 <= i < rule_targets(line).len() ==> good_target(#[trigger] rule_targets(line)[i]),
{
    match first_index_of(line, ':') {
        None => {},
        Some(i) => {
            let left = line.subrange(0, i);
            lemma_runnable(words(left));
            lemma_words_are_words(left);
            assert forall|k: int| 0 <= k < rule_targets(line).len() implies good_target(
                #[trigger] rule_targets(line)[k],
            ) by {
                let t = rule_targets(line)[k];
                let ws = words(left);
                let j = choose|j: int| 0 <= j < ws.len() && ws[j] == t;
                assert(is_word(ws[j]));
            }
        },
    }
}

pub proof fn lemma_scan_targets_good(lines: Seq<Seq<char>>, k: int)
    ensures
        forall|i: int|
            0 <= i < scan_upto(lines, k).1.len() ==> good_target(#[trigger] scan_upto(lines, k).1[i]),
    decreases k,
{
    if k > 0 {
        lemma_scan_targets_good(lines, k - 1);
        lemma_rule_targets_good(lines[k - 1]);
        let (st, ts) = scan_upto(lines, k - 1);
        let (st2, new) = scan_line(st, lines[k - 1]);
        assert(forall|i: int| 0 <= i < new.len() ==> good_target(#[trigger] new[i]));
        assert forall|i: int| 0 <= i < (ts + new).len() implies good_target(#[trigger] (ts + new)[i]) by {
            if i < ts.len() {
                assert((ts + new)[i] == ts[i]);
            } else {
                assert((ts + new)[i] == new[i - ts.len()]);
            }
        }
    }
}

/// Every target found in a Makefile is one word, does not start with `.`,
/// and holds no `%` and no `$`: special targets, pattern rules and names
/// built from variables are never offered.
pub proof fn targets_are_runnable_names(text: Seq<char>)
    ensures
        forall|i: int| 0 <= i < targets_of(text).len() ==> good_target(#[trigger] targets_of(text)[i]),
{
    lemma_scan_targets_good(lines_of(text), lines_of(text).len() as int);
}

// ---------------------------------------------------------------------------
// Entries
// ---------------------------------------------------------------------------

/// `s` with later repeats of an earlier element dropped.
pub open spec fn first_occurrences(s: Seq<Seq<char>>) -> Seq<Seq<char>>
    decreases s.len(),
{
    if s.len() == 0 {
        Seq::empty()
    } else {
        let d = first_occurrences(s.drop_last());
        if d.contains(s.last()) {
            d
        } else {
            d.push(s.last())
        }
    }
}


/// Drop every repeat of a name seen earlier, keeping the first.
pub fn first_of_each(v: &Vec<String>) -> (r: Vec<String>)
    ensures
        r@.map_values(|x: String| x@) == first_occurrences(v@.map_values(|x: String| x@)),
{
    let ghost vv = v@.map_values(|x: String| x@);
    let mut out: Vec<String> = Vec::new();
    let mut i: usize = 0;
    while i < v.len()
        invariant
            vv == v@.map_values(|x: String| x@),
            i <= v@.len(),
            out@.map_values(|x: String| x@) == first_occurrences(vv.subrange(0, i as int)),
        decreases v@.len() - i,
    {
        let ghost before = out@;
        proof {
            let pre = vv.subrange(0, i + 1);
            assert(pre.drop_last() =~= vv.subrange(0, i as int));
            assert(pre.last() == v@[i as int]@);
        }
        if !contains_string(&out, &v[i]) {
            out.push(v[i].clone());
            assert(out@.map_values(|x: String| x@) =~= before.map_values(|x: String| x@).push(v@[i as int]@));
        }
        i = i + 1;
    }
    assert(vv.subrange(0, v@.len() as int) =~= vv);
    out
}

/// `make ` in front of a target.
pub open spec fn make_label(t: Seq<char>) -> Seq<char> {
    seq!['m', 'a', 'k', 'e', ' '] + t
}

/// The command that builds target `t`: the name is quoted, since it comes from
/// a file in the repository, and a name that looks like a flag is put after
/// `--` so make reads it as a target.
pub open spec fn make_command(t: Seq<char>) -> Seq<char> {
    if starts_with(t, seq!['-']) {
        seq!['m', 'a', 'k', 'e', ' ', '-', '-', ' '] + quoted(t)
    } else {
        seq!['m', 'a', 'k', 'e', ' '] + quoted(t)
    }
}

fn make_command_exec(t: &str) -> (r: String)
    ensures
        r@ == make_command(t@),
{
    let tc = chars_of(t);
    let dash = vec!['-'];
    assert(dash@ =~= seq!['-']);
    let mut out: Vec<char> = vec!['m', 'a', 'k', 'e', ' '];
    if has_prefix(&tc, &dash) {
        out.push('-');
        out.push('-');
        out.push(' ');
    }
    let q = quote(t);
    let qc = chars_of(q.as_str());
    push_chars(&mut out, &qc);
    assert(out@ =~= make_command(t@));
    string_of(&out)
}

fn make_label_exec(t: &str) -> (r: String)
    ensures
        r@ == make_label(t@),
{
    let mut out: Vec<char> = vec!['m', 'a', 'k', 'e', ' '];
    let tc = chars_of(t);
    push_chars(&mut out, &tc);
    string_of(&out)
}

/// The entry for target `t` of a Makefile in `dir`.
pub open spec fn make_entry(dir: Seq<char>, t: Seq<char>, start_dir: Seq<char>) -> crate::config::model::ItemView {
    command_view(make_label(t), in_dir_spec(dir, make_command(t), start_dir))
}

/// The menu entries for a Makefile at `makefile` whose text is `text`, when
/// the menu was opened in `start_dir`: one `make <target>` per distinct
/// target, in file order, prefixed with a `cd` when the Makefile lives in an
/// ancestor (make, unlike npm or cargo, does not search upwards).
///
/// `None` when the path has no parent directory or the file names no target.
pub fn scan(text: &str, makefile: &str, start_dir: &str) -> (r: Option<LauncherGroup>)
    ensures
        match r {
            None => path_parent(makefile@) is None || first_occurrences(targets_of(text@)).len() == 0,
            Some(g) => {
                &&& path_parent(makefile@) is Some
                &&& g.source@ == seq!['M', 'a', 'k', 'e', 'f', 'i', 'l', 'e']
                &&& items_view(g.items@) == first_occurrences(targets_of(text@)).map_values(
                    |t: Seq<char>| make_entry(path_parent(makefile@)->0, t, start_dir@),
                )
            },
        },
{
    let dir = match paths::parent(makefile) {
        Some(d) => d,
        None => return None,
    };
    let targets = first_of_each(&parse_targets(text));
    let ghost tv = targets@.map_values(|x: String| x@);
    if targets.len() == 0 {
        return None;
    }
    let mut items: Vec<MenuItem> = Vec::new();
    let mut i: usize = 0;
    while i < targets.len()
        invariant
            tv == targets@.map_values(|x: String| x@),
            i <= targets@.len(),
            items@.len() == i,
            forall|k: int| 0 <= k < i ==> item_view(#[trigger] items@[k]) == make_entry(dir@, tv[k], start_dir@),
        decreases targets@.len() - i,
    {
        let label = make_label_exec(targets[i].as_str());
        let command = in_dir(dir.as_str(), make_command_exec(targets[i].as_str()).as_str(), start_dir);
        items.push(MenuItem::command(label.as_str(), command.as_str()));
        i = i + 1;
    }
    proof {
        lemma_items_view(items@);
        assert(items_view(items@) =~= tv.map_values(|t: Seq<char>| make_entry(dir@, t, start_dir@)));
    }
    let source = string_of(&vec!['M', 'a', 'k', 'e', 'f', 'i', 'l', 'e']);
    Some(LauncherGroup { source, items })
}

} // verus!
