//! Assembling the menu from the configuration and the built-in launchers.

use vstd::prelude::*;

use crate::config::loader::Config;
use crate::config::model::{
    ItemView, MenuItem, duplicate_items, empty_item_view, enables_any, item_view, items_view,
    lemma_items_view, lemma_items_view_add,
};
use crate::launchers::LauncherGroup;
use crate::text::{push_chars, push_str, string_of};

verus! {

/// The decimal digits of `n`, most significant first, with no leading zero.
pub open spec fn decimal(n: nat) -> Seq<char>
    decreases n,
{
    if n < 10 {
        seq![digit(n)]
    } else {
        decimal(n / 10).push(digit(n % 10))
    }
}

/// The digit for `d`, which is below ten.
pub open spec fn digit(d: nat) -> char {
    if d == 0 {
        '0'
    } else if d == 1 {
        '1'
    } else if d == 2 {
        '2'
    } else if d == 3 {
        '3'
    } else if d == 4 {
        '4'
    } else if d == 5 {
        '5'
    } else if d == 6 {
        '6'
    } else if d == 7 {
        '7'
    } else if d == 8 {
        '8'
    } else {
        '9'
    }
}

fn digit_exec(d: usize) -> (r: char)
    requires
        d < 10,
    ensures
        r == digit(d as nat),
{
    if d == 0 {
        '0'
    } else if d == 1 {
        '1'
    } else if d == 2 {
        '2'
    } else if d == 3 {
        '3'
    } else if d == 4 {
        '4'
    } else if d == 5 {
        '5'
    } else if d == 6 {
        '6'
    } else if d == 7 {
        '7'
    } else if d == 8 {
        '8'
    } else {
        '9'
    }
}

/// `n` written in decimal.
pub fn write_decimal(n: usize) -> (r: Vec<char>)
    ensures
        r@ == decimal(n as nat),
    decreases n,
{
    if n < 10 {
        let mut v: Vec<char> = Vec::new();
        v.push(digit_exec(n));
        v
    } else {
        let mut v = write_decimal(n / 10);
        v.push(digit_exec(n % 10));
        v
    }
}

/// The value of a decimal digit character.
pub open spec fn digit_value(c: char) -> int {
    (c as int) - ('0' as int)
}

/// The number a string of decimal digits reads as, most significant first.
pub open spec fn read_decimal(s: Seq<char>) -> int
    decreases s.len(),
{
    if s.len() == 0 {
        0
    } else {
        read_decimal(s.drop_last()) * 10 + digit_value(s.last())
    }
}

/// [`decimal`] writes `n` the way it reads back: nothing but the digits `0`
/// to `9`, at least one of them, no leading zero, and read most significant
/// first they make `n`.
pub proof fn decimal_reads_back(n: nat)
    ensures
        decimal(n).len() >= 1,
        forall|i: int| 0 <= i < decimal(n).len() ==> '0' <= #[trigger] decimal(n)[i] <= '9',
        n > 0 ==> decimal(n)[0] != '0',
        read_decimal(decimal(n)) == n,
    decreases n,
{
    if n < 10 {
        let s = decimal(n);
        assert(s == seq![digit(n)]);
        assert(s.drop_last() =~= Seq::<char>::empty());
        assert(s.last() == digit(n));
        assert(read_decimal(s.drop_last()) == 0);
        assert(digit_value(digit(n)) == n) by {
            if n == 0 {
            } else if n == 1 {
            } else if n == 2 {
            } else if n == 3 {
            } else if n == 4 {
            } else if n == 5 {
            } else if n == 6 {
            } else if n == 7 {
            } else if n == 8 {
            } else {
            }
        }
    } else {
        let q = n / 10;
        let d = n % 10;
        decimal_reads_back(q);
        decimal_reads_back(d);
        let s = decimal(n);
        assert(s == decimal(q).push(digit(d)));
        assert(s.drop_last() =~= decimal(q));
        assert(decimal(d) == seq![digit(d)]);
        assert(read_decimal(decimal(d)) == digit_value(digit(d))) by {
            assert(decimal(d).drop_last() =~= Seq::<char>::empty());
        }
        assert forall|i: int| 0 <= i < s.len() implies '0' <= #[trigger] s[i] <= '9' by {
            if i < s.len() - 1 {
                assert(s[i] == decimal(q)[i]);
            } else {
                assert(s[i] == decimal(d)[0]);
            }
        }
        assert(s[0] == decimal(q)[0]);
        assert(n == q * 10 + d);
        assert(s.last() == digit(d));
        assert(digit_value(digit(d)) == d);
        assert(read_decimal(s) == read_decimal(decimal(q)) * 10 + digit_value(digit(d)));
    }
}

/// The entry standing for a launcher's group: titled with where the entries
/// come from and how many there are, opening onto them.
pub open spec fn group_item(source: Seq<char>, items: Seq<ItemView>) -> ItemView {
    ItemView {
        title: Some(source + " ("@ + decimal(items.len()) + " entries)"@),
        submenu: items,
        ..empty_item_view()
    }
}

/// The view of a launcher group as the entry standing for it.
pub open spec fn group_view(g: LauncherGroup) -> ItemView {
    group_item(g.source@, items_view(g.items@))
}

/// The menu for `configured` entries and the launchers' `groups`: the
/// configured entries first, since somebody wrote them on purpose, then one
/// entry per group. With nothing configured, a lone group is unwrapped, so
/// that the menu in a Node project is directly the list of its scripts.
pub open spec fn assembled(configured: Seq<ItemView>, groups: Seq<ItemView>) -> Seq<ItemView> {
    if configured.len() == 0 && groups.len() == 1 {
        groups[0].submenu
    } else {
        configured + groups
    }
}

fn group_entry(g: LauncherGroup) -> (r: MenuItem)
    ensures
        r@ == group_view(g),
{
    let mut title: Vec<char> = Vec::new();
    push_str(&mut title, g.source.as_str());
    push_str(&mut title, " (");
    push_chars(&mut title, &write_decimal(g.items.len()));
    push_str(&mut title, " entries)");
    proof {
        reveal_strlit(" (");
        reveal_strlit(" entries)");
        lemma_items_view(g.items@);
    }
    assert(title@ =~= g.source@ + " ("@ + decimal(items_view(g.items@).len()) + " entries)"@);
    let r = MenuItem { title: Some(string_of(&title)), submenu: g.items, ..Default::default() };
    assert(r@.submenu == items_view(g.items@));
    r
}

/// The entries to show: [`assembled`] from the configured entries and, when
/// any launcher is enabled, the groups the launchers produced.
pub fn build(config: &Config, groups: Vec<LauncherGroup>) -> (r: Vec<MenuItem>)
    ensures
        items_view(r@) == assembled(
            items_view(config.menu@),
            if enables_any(config.auto_launchers) {
                groups@.map_values(|g: LauncherGroup| group_view(g))
            } else {
                Seq::empty()
            },
        ),
{
    let mut items = duplicate_items(&config.menu);
    let ghost configured = items_view(items@);
    let ghost gv = if enables_any(config.auto_launchers) {
        groups@.map_values(|g: LauncherGroup| group_view(g))
    } else {
        Seq::<ItemView>::empty()
    };
    let ghost all = groups@;
    if config.auto_launchers.any() {
        let mut rest = groups;
        let n = rest.len();
        let mut k: usize = 0;
        assert(rest@ =~= all.subrange(0, all.len() as int));
        while rest.len() > 0
            invariant
                k + rest@.len() == all.len(),
                all.len() == n,
                rest@ == all.subrange(k as int, all.len() as int),
                items_view(items@) == configured + all.subrange(0, k as int).map_values(
                    |g: LauncherGroup| group_view(g),
                ),
            decreases rest@.len(),
        {
            let g = rest.remove(0);
            let ghost before = items@;
            let entry = group_entry(g);
            items.push(entry);
            proof {
                assert(g == all[k as int]);
                lemma_items_view_add(before, seq![items@.last()]);
                assert(items@ =~= before + seq![items@.last()]);
                lemma_items_view(seq![items@.last()]);
                assert(all.subrange(0, k + 1) =~= all.subrange(0, k as int).push(all[k as int]));
                assert(all.subrange(0, k + 1).map_values(|g: LauncherGroup| group_view(g))
                    =~= all.subrange(0, k as int).map_values(|g: LauncherGroup| group_view(g)).push(
                    group_view(all[k as int]),
                ));
                assert(rest@ =~= all.subrange(k + 1, all.len() as int));
            }
            k = k + 1;
        }
        assert(all.subrange(0, all.len() as int) =~= all);
    } else {
        assert(configured + gv =~= configured);
    }
    proof {
        lemma_items_view(items@);
        lemma_items_view(config.menu@);
    }
    if config.menu.len() == 0 && items.len() == 1 {
        let only = items.remove(0);
        proof {
            assert(item_view(only) == (configured + gv)[0]);
        }
        return only.submenu;
    }
    items
}

} // verus!
