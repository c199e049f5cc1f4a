//! Orders on text and on destinations, and stable insertion sorts by them.
use vstd::prelude::*;
use vstd::relations::sorted_by;

use crate::cli::{app_rank, TerminalApplication};
use crate::display::TerminalTarget;
use crate::text::chars_of;

verus! {

broadcast use vstd::seq_lib::to_multiset_insert, vstd::seq_lib::group_to_multiset_ensures, vstd::multiset::group_multiset_axioms;

/// `a` comes no later than `b` in the order of their characters' code
/// points, which for UTF-8 text is the order of its bytes.
pub open spec fn text_le(a: Seq<char>, b: Seq<char>) -> bool
    decreases a.len(),
{
    if a.len() == 0 {
        true
    } else if b.len() == 0 {
        false
    } else if a[0] != b[0] {
        a[0] < b[0]
    } else {
        text_le(a.drop_first(), b.drop_first())
    }
}

pub proof fn lemma_text_le_total(a: Seq<char>, b: Seq<char>)
    ensures
        text_le(a, b) || text_le(b, a),
    decreases a.len(),
{
    if a.len() > 0 && b.len() > 0 && a[0] == b[0] {
        lemma_text_le_total(a.drop_first(), b.drop_first());
    }
}

pub proof fn lemma_text_le_transitive(a: Seq<char>, b: Seq<char>, c: Seq<char>)
    requires
        text_le(a, b),
        text_le(b, c),
    ensures
        text_le(a, c),
    decreases a.len(),
{
    if a.len() > 0 && b.len() > 0 && c.len() > 0 && a[0] == b[0] && b[0] == c[0] {
        lemma_text_le_transitive(a.drop_first(), b.drop_first(), c.drop_first());
    }
}

/// Whether `a` comes no later than `b`.
pub fn text_le_exec(a: &[char], b: &[char]) -> (res: bool)
    ensures
        res == text_le(a@, b@),
{
    let mut i: usize = 0;
    assert(a@.skip(0) =~= a@ && b@.skip(0) =~= b@);
    while i < a.len()
        invariant
            i <= a@.len(),
            i <= b@.len(),
            text_le(a@, b@) == text_le(a@.skip(i as int), b@.skip(i as int)),
        decreases a@.len() - i,
    {
        assert(a@.skip(i as int).drop_first() =~= a@.skip(i + 1));
        if i == b.len() {
            return false;
        }
        assert(b@.skip(i as int).drop_first() =~= b@.skip(i + 1));
        if a[i] != b[i] {
            return a[i] < b[i];
        }
        i += 1;
    }
    true
}

/// The order of destinations: by application, window, tab and pane, then
/// by identifier.
pub open spec fn target_le(a: TerminalTarget, b: TerminalTarget) -> bool {
    let (x, y) = (a.terminal, b.terminal);
    if app_rank(a.application) != app_rank(b.application) {
        app_rank(a.application) < app_rank(b.application)
    } else if x.window_index != y.window_index {
        x.window_index < y.window_index
    } else if x.tab_index != y.tab_index {
        x.tab_index < y.tab_index
    } else if x.terminal_index != y.terminal_index {
        x.terminal_index < y.terminal_index
    } else {
        text_le(x.id@, y.id@)
    }
}

pub proof fn lemma_target_le_total(a: TerminalTarget, b: TerminalTarget)
    ensures
        target_le(a, b) || target_le(b, a),
{
    lemma_text_le_total(a.terminal.id@, b.terminal.id@);
}

pub proof fn lemma_target_le_transitive(a: TerminalTarget, b: TerminalTarget, c: TerminalTarget)
    requires
        target_le(a, b),
        target_le(b, c),
    ensures
        target_le(a, c),
{
    let (x, y, z) = (a.terminal, b.terminal, c.terminal);
    if app_rank(a.application) == app_rank(b.application) && app_rank(b.application) == app_rank(c.application)
        && x.window_index == y.window_index && y.window_index == z.window_index && x.tab_index
        == y.tab_index && y.tab_index == z.tab_index && x.terminal_index == y.terminal_index
        && y.terminal_index == z.terminal_index {
        lemma_text_le_transitive(x.id@, y.id@, z.id@);
    }
}

/// Inserting `x` into sorted `s` after the elements no later than it and
/// before the first that is not keeps `s` sorted.
proof fn lemma_insert_sorted<T>(s: Seq<T>, x: T, p: int, leq: spec_fn(T, T) -> bool)
    requires
        sorted_by(s, leq),
        0 <= p <= s.len(),
        forall|i: int| 0 <= i < p ==> #[trigger] leq(s[i], x),
        p < s.len() ==> leq(x, s[p]),
        forall|a: T, b: T, c: T| #[trigger] leq(a, b) && #[trigger] leq(b, c) ==> leq(a, c),
    ensures
        sorted_by(s.insert(p, x), leq),
{
    let t = s.insert(p, x);
    assert forall|i: int, j: int| 0 <= i < j < t.len() implies #[trigger] leq(t[i], t[j]) by {
        if j < p {
            assert(leq(s[i], s[j]));
        } else if j == p {
            assert(leq(s[i], x));
        } else if i < p {
            assert(leq(s[i], s[j - 1]));
        } else if i == p {
            if j - 1 > p {
                assert(leq(s[p], s[j - 1]));
            }
        } else {
            assert(leq(s[i - 1], s[j - 1]));
        }
    }
}

fn app_rank_exec(app: TerminalApplication) -> (res: u8)
    ensures
        res == app_rank(app),
{
    match app {
        TerminalApplication::Ghostty => 0,
        TerminalApplication::Iterm2 => 1,
        TerminalApplication::Tmux => 2,
    }
}

/// Whether destination `a` comes no later than `b`.
pub fn target_le_exec(a: &TerminalTarget, b: &TerminalTarget) -> (res: bool)
    ensures
        res == target_le(*a, *b),
{
    let (ra, rb) = (app_rank_exec(a.application), app_rank_exec(b.application));
    let (x, y) = (&a.terminal, &b.terminal);
    if ra != rb {
        ra < rb
    } else if x.window_index != y.window_index {
        x.window_index < y.window_index
    } else if x.tab_index != y.tab_index {
        x.tab_index < y.tab_index
    } else if x.terminal_index != y.terminal_index {
        x.terminal_index < y.terminal_index
    } else {
        text_le_exec(&chars_of(x.id.as_str()), &chars_of(y.id.as_str()))
    }
}

/// Sorts destinations by application, window, tab, pane and identifier,
/// keeping equal ones in their order.
pub fn sort_targets(targets: Vec<TerminalTarget>) -> (res: Vec<TerminalTarget>)
    ensures
        res@.to_multiset() == targets@.to_multiset(),
        sorted_by(res@, |a: TerminalTarget, b: TerminalTarget| target_le(a, b)),
{
    let ghost leq = |a: TerminalTarget, b: TerminalTarget| target_le(a, b);
    proof {
        assert forall|a: TerminalTarget, b: TerminalTarget, c: TerminalTarget|
            #[trigger] leq(a, b) && #[trigger] leq(b, c) implies leq(a, c) by {
            lemma_target_le_transitive(a, b, c);
        }
    }
    let mut res: Vec<TerminalTarget> = Vec::new();
    let mut rest = targets;
    assert(res@.to_multiset().add(rest@.to_multiset()) =~= rest@.to_multiset());
    while rest.len() > 0
        invariant
            res@.to_multiset().add(rest@.to_multiset()) == targets@.to_multiset(),
            leq == (|a: TerminalTarget, b: TerminalTarget| target_le(a, b)),
            sorted_by(res@, leq),
            forall|a: TerminalTarget, b: TerminalTarget, c: TerminalTarget|
                #[trigger] leq(a, b) && #[trigger] leq(b, c) ==> leq(a, c),
        decreases rest.len(),
    {
        let ghost before = rest@;
        let x = rest.remove(0);
        proof {
            vstd::seq_lib::to_multiset_remove(before, 0);
        }
        let mut p: usize = 0;
        while p < res.len() && target_le_exec(&res[p], &x)
            invariant
                p <= res.len(),
                leq == (|a: TerminalTarget, b: TerminalTarget| target_le(a, b)),
                forall|i: int| 0 <= i < p ==> #[trigger] leq(res@[i], x),
            decreases res.len() - p,
        {
            p += 1;
        }
        proof {
            if p < res.len() {
                lemma_target_le_total(res@[p as int], x);
            }
            lemma_insert_sorted(res@, x, p as int, leq);
        }
        let ghost placed = res@;
        res.insert(p, x);
        proof {
            assert(res@.to_multiset() == placed.to_multiset().insert(x));
            assert(res@.to_multiset().add(rest@.to_multiset()) =~= placed.to_multiset().add(before.to_multiset()));
        }
    }
    assert(rest@ =~= Seq::empty());
    assert(res@.to_multiset().add(rest@.to_multiset()) =~= res@.to_multiset());
    res
}

/// Sorts pairs of a path and its file name by file name, keeping equal
/// ones in their order.
pub fn sort_by_name(entries: Vec<(String, String)>) -> (res: Vec<(String, String)>)
    ensures
        res@.to_multiset() == entries@.to_multiset(),
        sorted_by(res@, |a: (String, String), b: (String, String)| text_le(a.1@, b.1@)),
{
    let ghost leq = |a: (String, String), b: (String, String)| text_le(a.1@, b.1@);
    proof {
        assert forall|a: (String, String), b: (String, String), c: (String, String)|
            #[trigger] leq(a, b) && #[trigger] leq(b, c) implies leq(a, c) by {
            lemma_text_le_transitive(a.1@, b.1@, c.1@);
        }
    }
    let mut res: Vec<(String, String)> = Vec::new();
    let mut rest = entries;
    assert(res@.to_multiset().add(rest@.to_multiset()) =~= rest@.to_multiset());
    while rest.len() > 0
        invariant
            res@.to_multiset().add(rest@.to_multiset()) == entries@.to_multiset(),
            leq == (|a: (String, String), b: (String, String)| text_le(a.1@, b.1@)),
            sorted_by(res@, leq),
            forall|a: (String, String), b: (String, String), c: (String, String)|
                #[trigger] leq(a, b) && #[trigger] leq(b, c) ==> leq(a, c),
        decreases rest.len(),
    {
        let ghost before = rest@;
        let x = rest.remove(0);
        proof {
            vstd::seq_lib::to_multiset_remove(before, 0);
        }
        let mut p: usize = 0;
        while p < res.len() && text_le_exec(&chars_of(res[p].1.as_str()), &chars_of(x.1.as_str()))
            invariant
                p <= res.len(),
                leq == (|a: (String, String), b: (String, String)| text_le(a.1@, b.1@)),
                forall|i: int| 0 <= i < p ==> #[trigger] leq(res@[i], x),
            decreases res.len() - p,
        {
            p += 1;
        }
        proof {
            if p < res.len() {
                lemma_text_le_total(res@[p as int].1@, x.1@);
            }
            lemma_insert_sorted(res@, x, p as int, leq);
        }
        let ghost placed = res@;
        res.insert(p, x);
        proof {
            assert(res@.to_multiset() == placed.to_multiset().insert(x));
            assert(res@.to_multiset().add(rest@.to_multiset()) =~= placed.to_multiset().add(before.to_multiset()));
        }
    }
    assert(rest@ =~= Seq::empty());
    assert(res@.to_multiset().add(rest@.to_multiset()) =~= res@.to_multiset());
    res
}

} // verus!
