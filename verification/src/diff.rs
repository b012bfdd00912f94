//! The diff engine: computes which shows of the current run are new,
//! that is, structurally absent from the previous snapshot.
use vstd::prelude::*;

use crate::shows::{show_views, Show, ShowView};

verus! {

/// Whether some show in `prev` is structurally equal to `s`.
pub open spec fn in_prev(prev: Seq<ShowView>, s: ShowView) -> bool {
    exists|i: int| 0 <= i < prev.len() && prev[i] == s
}

/// The new shows: the order-preserving filter of `current` keeping the
/// records that appear nowhere in `previous`.
pub open spec fn new_shows(previous: Seq<ShowView>, current: Seq<ShowView>) -> Seq<ShowView> {
    current.filter(|s: ShowView| !in_prev(previous, s))
}

/// Whether some show of `prev` equals `s`.
fn contains_show(prev: &Vec<Show>, s: &Show) -> (r: bool)
    ensures
        r == in_prev(show_views(prev@), s@),
{
    let mut i: usize = 0;
    while i < prev.len()
        invariant
            i <= prev@.len(),
            forall|j: int| 0 <= j < i ==> prev@[j]@ != s@,
        decreases prev@.len() - i,
    {
        if prev[i] == *s {
            proof {
                assert(show_views(prev@)[i as int] == prev@[i as int]@);
            }
            return true;
        }
        i += 1;
    }
    proof {
        assert(forall|j: int|
            0 <= j < show_views(prev@).len() ==> show_views(prev@)[j] == prev@[j]@);
    }
    false
}

/// Character-for-character equality of two show lists, used for the
/// equal-snapshot fast path.
pub fn shows_equal(a: &Vec<Show>, b: &Vec<Show>) -> (r: bool)
    ensures
        r == (show_views(a@) == show_views(b@)),
{
    if a.len() != b.len() {
        proof {
            assert(show_views(a@).len() != show_views(b@).len());
        }
        return false;
    }
    let mut i: usize = 0;
    while i < a.len()
        invariant
            a@.len() == b@.len(),
            i <= a@.len(),
            forall|j: int| 0 <= j < i ==> a@[j]@ == b@[j]@,
        decreases a@.len() - i,
    {
        if !(a[i] == b[i]) {
            proof {
                assert(show_views(a@)[i as int] == a@[i as int]@);
                assert(show_views(b@)[i as int] == b@[i as int]@);
            }
            return false;
        }
        i += 1;
    }
    proof {
        assert(show_views(a@) =~= show_views(b@));
    }
    true
}

/// Compares the previous and the current list and hands back the new
/// shows, or `None` when every current show was already known.
pub fn check_for_new_shows(prev_shows_vec: Vec<Show>, current_shows: &Vec<Show>) -> (r: Option<
    Vec<Show>,
>)
    ensures
        new_shows(show_views(prev_shows_vec@), show_views(current_shows@)).len() == 0 ==> r
            is None,
        new_shows(show_views(prev_shows_vec@), show_views(current_shows@)).len() > 0 ==> (
        r matches Some(v) && show_views(v@) == new_shows(
            show_views(prev_shows_vec@),
            show_views(current_shows@),
        )),
{
    let mut out: Vec<Show> = Vec::new();
    let mut i: usize = 0;
    while i < current_shows.len()
        invariant
            i <= current_shows@.len(),
            show_views(out@) == new_shows(
                show_views(prev_shows_vec@),
                show_views(current_shows@.subrange(0, i as int)),
            ),
        decreases current_shows@.len() - i,
    {
        let c = &current_shows[i];
        let known = contains_show(&prev_shows_vec, c);
        proof {
            reveal(Seq::filter);
            let pref0 = current_shows@.subrange(0, i as int);
            let pref1 = current_shows@.subrange(0, i + 1 as int);
            assert(pref1.drop_last() =~= pref0);
            assert(show_views(pref1).drop_last() =~= show_views(pref0));
            assert(show_views(pref1).last() == c@);
        }
        if !known {
            let ghost oldout = out@;
            out.push(c.duplicate());
            proof {
                assert(show_views(out@) =~= show_views(oldout).push(c@));
            }
        }
        i += 1;
    }
    proof {
        assert(current_shows@.subrange(0, current_shows@.len() as int) =~= current_shows@);
        assert(show_views(out@).len() == out@.len());
    }
    if out.len() == 0 {
        None
    } else {
        Some(out)
    }
}

/// Every show that the filter keeps is in `s` too.
proof fn lemma_filter_subset(s: Seq<ShowView>, pred: spec_fn(ShowView) -> bool, x: ShowView)
    requires
        s.filter(pred).contains(x),
    ensures
        s.contains(x),
    decreases s.len(),
{
    reveal(Seq::filter);
    if s.len() > 0 {
        if s.drop_last().filter(pred).contains(x) {
            lemma_filter_subset(s.drop_last(), pred, x);
            let j = choose|j: int| 0 <= j < s.drop_last().len() && s.drop_last()[j] == x;
            assert(s[j] == x);
        } else {
            assert(x == s.last());
            assert(s[s.len() - 1] == x);
        }
    }
}

/// The diff law: the result reports only shows of `current` that are
/// absent from `previous`; it reports every such show; a show present in
/// `previous` but gone from `current` is never reported (the diff is
/// asymmetric); and identical snapshots yield an empty diff.
pub proof fn lemma_diff_properties(previous: Seq<ShowView>, current: Seq<ShowView>)
    ensures
        forall|s: ShowView| #[trigger]
            new_shows(previous, current).contains(s) ==> current.contains(s) && !in_prev(
                previous,
                s,
            ),
        forall|s: ShowView|
            current.contains(s) && !in_prev(previous, s) ==> #[trigger] new_shows(
                previous,
                current,
            ).contains(s),
        previous == current ==> new_shows(previous, current).len() == 0,
{
    broadcast use vstd::seq_lib::group_filter_ensures;

    let pred = |s: ShowView| !in_prev(previous, s);
    let d = new_shows(previous, current);
    assert forall|s: ShowView| #[trigger] d.contains(s) implies current.contains(s) && !in_prev(
        previous,
        s,
    ) by {
        lemma_filter_subset(current, pred, s);
        let i = choose|i: int| 0 <= i < d.len() && d[i] == s;
        assert(pred(d[i]));
    }
    assert forall|s: ShowView| current.contains(s) && !in_prev(previous, s) implies #[trigger] d
        .contains(s) by {
        let i = choose|i: int| 0 <= i < current.len() && current[i] == s;
        assert(pred(current[i]));
        assert(d.contains(current[i]));
    }
    if previous == current && d.len() > 0 {
        assert(d.contains(d[0]));
        lemma_filter_subset(current, pred, d[0]);
        assert(pred(d[0]));
        let i = choose|i: int| 0 <= i < current.len() && current[i] == d[0];
        assert(in_prev(previous, d[0]));
    }
}

} // verus!
