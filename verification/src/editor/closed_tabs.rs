//! The stack of recently closed editor tabs, for "reopen closed tab".
use vstd::prelude::*;

use crate::paths::{path_eq, paths_equal};

verus! {

pub const MAX_CLOSED_TABS: usize = 20;

#[derive(Clone, Debug, PartialEq, Eq)]
pub struct ClosedTab {
    pub path: String,
    pub cursor_offset: i32,
}

impl ClosedTab {
    pub open spec fn view(&self) -> (Seq<char>, i32) {
        (self.path@, self.cursor_offset)
    }
}

/// Closed tabs, the most recent last; no path occurs twice, at most
/// `MAX_CLOSED_TABS` are kept.
#[derive(Debug)]
pub struct ClosedTabs {
    stack: Vec<ClosedTab>,
}

pub open spec fn tab_views(v: Seq<ClosedTab>) -> Seq<(Seq<char>, i32)> {
    v.map_values(|t: ClosedTab| t.view())
}

/// `s` without the entries whose path equals `p`.
pub open spec fn without_path(s: Seq<(Seq<char>, i32)>, p: Seq<char>) -> Seq<(Seq<char>, i32)> {
    s.filter(|e: (Seq<char>, i32)| !path_eq(e.0, p))
}

/// The last `MAX_CLOSED_TABS` entries of `s`.
pub open spec fn keep_last(s: Seq<(Seq<char>, i32)>) -> Seq<(Seq<char>, i32)> {
    if s.len() > MAX_CLOSED_TABS {
        s.subrange(s.len() - MAX_CLOSED_TABS, s.len() as int)
    } else {
        s
    }
}

/// The stack after closing `t`: older entries for its path dropped, `t` on top,
/// the oldest dropped beyond the cap.
pub open spec fn push_spec(s: Seq<(Seq<char>, i32)>, t: (Seq<char>, i32)) -> Seq<(Seq<char>, i32)> {
    keep_last(without_path(s, t.0).push(t))
}

impl ClosedTabs {
    pub closed spec fn entries(&self) -> Seq<(Seq<char>, i32)> {
        tab_views(self.stack@)
    }

    pub fn new() -> (res: Self)
        ensures
            res.entries() == Seq::<(Seq<char>, i32)>::empty(),
    {
        let r = ClosedTabs { stack: Vec::new() };
        assert(r.entries() =~= Seq::<(Seq<char>, i32)>::empty());
        r
    }
}

fn copy_tab(t: &ClosedTab) -> (res: ClosedTab)
    ensures
        res.view() == t.view(),
{
    ClosedTab { path: t.path.clone(), cursor_offset: t.cursor_offset }
}

/// Records a closed tab.
pub fn push(tabs: &mut ClosedTabs, tab: ClosedTab)
    ensures
        final(tabs).entries() == push_spec(old(tabs).entries(), tab.view()),
{
    let ghost s = tab_views(tabs.stack@);
    let ghost p = tab.path@;
    let mut kept: Vec<ClosedTab> = Vec::new();
    let mut i: usize = 0;
    while i < tabs.stack.len()
        invariant
            0 <= i <= tabs.stack.len(),
            s == tab_views(tabs.stack@),
            p == tab.path@,
            tab_views(kept@) == without_path(s.subrange(0, i as int), p),
        decreases tabs.stack.len() - i,
    {
        let ghost pre = s.subrange(0, i as int);
        assert(s.subrange(0, i + 1) =~= pre.push(s[i as int]));
        assert(s.subrange(0, i + 1).drop_last() =~= pre);
        reveal_with_fuel(Seq::filter, 1);
        let ghost old_kept = kept@;
        if !paths_equal(&tabs.stack[i].path, &tab.path) {
            kept.push(copy_tab(&tabs.stack[i]));
            assert(tab_views(kept@) =~= tab_views(old_kept).push(s[i as int]));
        }
        i += 1;
    }
    assert(s.subrange(0, s.len() as int) =~= s);
    let ghost tv = tab.view();
    let ghost before = kept@;
    kept.push(tab);
    assert(tab_views(kept@) =~= tab_views(before).push(tv));
    if kept.len() > MAX_CLOSED_TABS {
        let start = kept.len() - MAX_CLOSED_TABS;
        let mut last: Vec<ClosedTab> = Vec::new();
        let mut k = start;
        while k < kept.len()
            invariant
                start <= k <= kept.len(),
                tab_views(last@) == tab_views(kept@).subrange(start as int, k as int),
            decreases kept.len() - k,
        {
            let ghost old_last = last@;
            last.push(copy_tab(&kept[k]));
            assert(tab_views(last@) =~= tab_views(old_last).push(kept@[k as int].view()));
            assert(tab_views(kept@)[k as int] == kept@[k as int].view());
            assert(tab_views(kept@).subrange(start as int, k + 1) =~= tab_views(kept@).subrange(
                start as int,
                k as int,
            ).push(kept@[k as int].view()));
            k += 1;
        }
        tabs.stack = last;
    } else {
        tabs.stack = kept;
    }
}

/// Takes the most recently closed tab.
pub fn pop(tabs: &mut ClosedTabs) -> (res: Option<ClosedTab>)
    ensures
        old(tabs).entries().len() == 0 ==> res is None && final(tabs).entries() == old(
            tabs,
        ).entries(),
        old(tabs).entries().len() > 0 ==> (res matches Some(t) && t.view() == old(
            tabs,
        ).entries().last() && final(tabs).entries() == old(tabs).entries().drop_last()),
{
    if tabs.stack.len() == 0 {
        return None;
    }
    let r = tabs.stack.pop();
    assert(tab_views(tabs.stack@) =~= tab_views(old(tabs).stack@).drop_last());
    r
}

/// Forgets every closed tab.
pub fn clear(tabs: &mut ClosedTabs)
    ensures
        final(tabs).entries().len() == 0,
{
    tabs.stack = Vec::new();
    assert(tab_views(tabs.stack@) =~= Seq::<(Seq<char>, i32)>::empty());
}

/// Reopening right after closing gives back the tab just closed.
pub proof fn push_then_top(s: Seq<(Seq<char>, i32)>, t: (Seq<char>, i32))
    ensures
        push_spec(s, t).len() > 0,
        push_spec(s, t).last() == t,
{
}

/// The stack never holds more than `MAX_CLOSED_TABS` entries.
pub proof fn push_is_capped(s: Seq<(Seq<char>, i32)>, t: (Seq<char>, i32))
    ensures
        push_spec(s, t).len() <= MAX_CLOSED_TABS,
{
}

/// After a push, the closed tab's path occurs exactly once: at the top.
pub proof fn push_dedupes(s: Seq<(Seq<char>, i32)>, t: (Seq<char>, i32), i: int)
    requires
        0 <= i < push_spec(s, t).len() - 1,
    ensures
        !path_eq(push_spec(s, t)[i].0, t.0),
{
    let w = without_path(s, t.0).push(t);
    let f = without_path(s, t.0);
    let k = push_spec(s, t);
    let off = w.len() - k.len();
    assert(k[i] == w[i + off]);
    assert(i + off < f.len());
    s.lemma_filter_pred(|e: (Seq<char>, i32)| !path_eq(e.0, t.0), i + off);
}

} // verus!
