//! Stable sorting of shows by (date, time): the specification is an
//! insertion sort that places each record after every earlier record
//! ordered at or below it, so records with equal keys keep their
//! relative order.
use vstd::prelude::*;

use crate::dates::{date_le, time_le, Date, Time};
use crate::shows::{show_views, Show, ShowView};

verus! {

/// Sort order: by date ascending, then by time ascending.
pub open spec fn show_le(a: ShowView, b: ShowView) -> bool {
    (a.date != b.date && date_le(a.date, b.date)) || (a.date == b.date && time_le(
        a.time,
        b.time,
    ))
}

/// `x` placed after every trailing element ordered at or below it.
pub open spec fn insert_sorted(s: Seq<ShowView>, x: ShowView) -> Seq<ShowView>
    decreases s.len(),
{
    if s.len() == 0 {
        seq![x]
    } else if show_le(s.last(), x) {
        s.push(x)
    } else {
        insert_sorted(s.drop_last(), x).push(s.last())
    }
}

/// Stable insertion sort by (date, time).
pub open spec fn sort_spec(s: Seq<ShowView>) -> Seq<ShowView>
    decreases s.len(),
{
    if s.len() == 0 {
        Seq::empty()
    } else {
        insert_sorted(sort_spec(s.drop_last()), s.last())
    }
}

pub open spec fn sorted_shows(s: Seq<ShowView>) -> bool {
    forall|i: int, j: int| 0 <= i < j < s.len() ==> show_le(s[i], s[j])
}

/// The subsequence of shows carrying a given (date, time) key.
pub open spec fn key_class(s: Seq<ShowView>, d: Date, t: Time) -> Seq<ShowView> {
    s.filter(|x: ShowView| x.date == d && x.time == t)
}

proof fn lemma_show_le_total(a: ShowView, b: ShowView)
    ensures
        show_le(a, b) || show_le(b, a),
{
}

proof fn lemma_show_le_trans(a: ShowView, b: ShowView, c: ShowView)
    requires
        show_le(a, b),
        show_le(b, c),
    ensures
        show_le(a, c),
{
}

/// The position where `insert_sorted` places its element.
pub open spec fn insert_pos(s: Seq<ShowView>, x: ShowView) -> int
    decreases s.len(),
{
    if s.len() == 0 {
        0
    } else if show_le(s.last(), x) {
        s.len() as int
    } else {
        insert_pos(s.drop_last(), x)
    }
}

proof fn lemma_insert_pos_props(s: Seq<ShowView>, x: ShowView)
    ensures
        0 <= insert_pos(s, x) <= s.len(),
        forall|k: int| insert_pos(s, x) <= k < s.len() ==> !show_le(s[k], x),
        insert_pos(s, x) > 0 ==> show_le(s[insert_pos(s, x) - 1], x),
    decreases s.len(),
{
    if s.len() > 0 && !show_le(s.last(), x) {
        lemma_insert_pos_props(s.drop_last(), x);
        assert forall|k: int| insert_pos(s, x) <= k < s.len() implies !show_le(s[k], x) by {
            if k < s.len() - 1 {
                assert(s.drop_last()[k] == s[k]);
            }
        }
        if insert_pos(s, x) > 0 {
            assert(s.drop_last()[insert_pos(s, x) - 1] == s[insert_pos(s, x) - 1]);
        }
    }
}

/// Where the scan conditions pin the position `p`, the insertion is the
/// concatenation around `p`.
proof fn lemma_insert_sorted_at(s: Seq<ShowView>, x: ShowView, p: int)
    requires
        0 <= p <= s.len(),
        forall|k: int| p <= k < s.len() ==> !show_le(s[k], x),
        p > 0 ==> show_le(s[p - 1], x),
    ensures
        insert_sorted(s, x) == s.subrange(0, p) + seq![x] + s.subrange(p, s.len() as int),
    decreases s.len(),
{
    if s.len() == 0 {
        assert(insert_sorted(s, x) =~= s.subrange(0, p) + seq![x] + s.subrange(
            p,
            s.len() as int,
        ));
    } else if show_le(s.last(), x) {
        assert(p == s.len());
        assert(insert_sorted(s, x) =~= s.subrange(0, p) + seq![x] + s.subrange(
            p,
            s.len() as int,
        ));
    } else {
        let s0 = s.drop_last();
        assert(p < s.len());
        assert forall|k: int| p <= k < s0.len() implies !show_le(s0[k], x) by {
            assert(s0[k] == s[k]);
        }
        if p > 0 {
            assert(s0[p - 1] == s[p - 1]);
        }
        lemma_insert_sorted_at(s0, x, p);
        assert(insert_sorted(s, x) =~= s.subrange(0, p) + seq![x] + s.subrange(
            p,
            s.len() as int,
        ));
    }
}

proof fn lemma_insert_sorted_sorted(s: Seq<ShowView>, x: ShowView)
    requires
        sorted_shows(s),
    ensures
        sorted_shows(insert_sorted(s, x)),
{
    lemma_insert_pos_props(s, x);
    let p = insert_pos(s, x);
    lemma_insert_sorted_at(s, x, p);
    let r = insert_sorted(s, x);
    assert forall|i: int, j: int| 0 <= i < j < r.len() implies show_le(r[i], r[j]) by {
        if i < p && j == p {
            if i < p - 1 {
                lemma_show_le_trans(s[i], s[p - 1], x);
            }
        } else if i == p && j > p {
            lemma_show_le_total(s[j - 1], x);
        } else if i < p && j > p {
            assert(show_le(s[i], s[j - 1]));
        } else if i > p && j > p {
            assert(show_le(s[i - 1], s[j - 1]));
        }
    }
}

/// Sorting law (order): the result is sorted by (date, time).
pub proof fn lemma_sort_spec_sorted(s: Seq<ShowView>)
    ensures
        sorted_shows(sort_spec(s)),
    decreases s.len(),
{
    if s.len() > 0 {
        lemma_sort_spec_sorted(s.drop_last());
        lemma_insert_sorted_sorted(sort_spec(s.drop_last()), s.last());
    }
}

proof fn lemma_filter_none_shows(s: Seq<ShowView>, pred: spec_fn(ShowView) -> bool)
    requires
        forall|i: int| 0 <= i < s.len() ==> !pred(s[i]),
    ensures
        s.filter(pred) == Seq::<ShowView>::empty(),
    decreases s.len(),
{
    reveal(Seq::filter);
    if s.len() > 0 {
        assert forall|i: int| 0 <= i < s.drop_last().len() implies !pred(s.drop_last()[i]) by {
            assert(s.drop_last()[i] == s[i]);
        }
        lemma_filter_none_shows(s.drop_last(), pred);
    }
}

proof fn lemma_filter_singleton_shows(x: ShowView, pred: spec_fn(ShowView) -> bool)
    ensures
        pred(x) ==> seq![x].filter(pred) == seq![x],
        !pred(x) ==> seq![x].filter(pred) == Seq::<ShowView>::empty(),
{
    reveal(Seq::filter);
    assert(seq![x].drop_last() =~= Seq::<ShowView>::empty());
    assert(seq![x].last() == x);
    assert(Seq::<ShowView>::empty().filter(pred) =~= Seq::<ShowView>::empty());
    if pred(x) {
        assert(seq![x].filter(pred) =~= seq![x]);
    } else {
        assert(seq![x].filter(pred) =~= Seq::<ShowView>::empty());
    }
}

/// Inserting `x` appends it to its own key class and leaves every other
/// key class unchanged.
proof fn lemma_insert_key_class(s: Seq<ShowView>, x: ShowView, d: Date, t: Time)
    ensures
        x.date == d && x.time == t ==> key_class(insert_sorted(s, x), d, t) == key_class(
            s,
            d,
            t,
        ).push(x),
        !(x.date == d && x.time == t) ==> key_class(insert_sorted(s, x), d, t) == key_class(
            s,
            d,
            t,
        ),
{
    broadcast use vstd::seq_lib::group_seq_properties;

    let pred = |y: ShowView| y.date == d && y.time == t;
    lemma_insert_pos_props(s, x);
    let p = insert_pos(s, x);
    lemma_insert_sorted_at(s, x, p);
    let a = s.subrange(0, p);
    let b = s.subrange(p, s.len() as int);
    Seq::filter_distributes_over_add(a + seq![x], b, pred);
    Seq::filter_distributes_over_add(a, seq![x], pred);
    Seq::filter_distributes_over_add(a, b, pred);
    lemma_filter_singleton_shows(x, pred);
    assert(s =~= a + b);
    if pred(x) {
        // every element at or after the position has a strictly larger
        // key, so none of them is in x's class
        assert forall|i: int| 0 <= i < b.len() implies !pred(b[i]) by {
            assert(b[i] == s[p + i]);
            assert(!show_le(s[p + i], x));
        }
        lemma_filter_none_shows(b, pred);
        assert(key_class(insert_sorted(s, x), d, t) =~= key_class(s, d, t).push(x));
    } else {
        assert(key_class(insert_sorted(s, x), d, t) =~= key_class(s, d, t));
    }
}

/// Sorting law (stability): for every (date, time) key, sorting keeps
/// the records with that key in their original relative order — the
/// sorted sequence's key class equals the input's key class.
pub proof fn lemma_sort_spec_stable(s: Seq<ShowView>, d: Date, t: Time)
    ensures
        key_class(sort_spec(s), d, t) == key_class(s, d, t),
    decreases s.len(),
{
    reveal(Seq::filter);
    if s.len() > 0 {
        let pred = |y: ShowView| y.date == d && y.time == t;
        lemma_sort_spec_stable(s.drop_last(), d, t);
        lemma_insert_key_class(sort_spec(s.drop_last()), s.last(), d, t);
    }
}

/// Sorting law (permutation): the sorted sequence holds exactly the
/// input's records, each as many times as it appears.
pub proof fn lemma_sort_spec_permutes(s: Seq<ShowView>)
    ensures
        sort_spec(s).to_multiset() == s.to_multiset(),
    decreases s.len(),
{
    broadcast use vstd::seq_lib::lemma_multiset_commutative, vstd::seq_lib::group_to_multiset_ensures, vstd::multiset::group_multiset_axioms;

    if s.len() > 0 {
        lemma_sort_spec_permutes(s.drop_last());
        let s0 = sort_spec(s.drop_last());
        let x = s.last();
        lemma_insert_pos_props(s0, x);
        let p = insert_pos(s0, x);
        lemma_insert_sorted_at(s0, x, p);
        let a = s0.subrange(0, p);
        let b = s0.subrange(p, s0.len() as int);
        assert(s0 =~= a + b);
        assert(a + seq![x] =~= a.push(x));
        assert(insert_sorted(s0, x).to_multiset() =~= s0.to_multiset().insert(x));
        assert(s =~= s.drop_last().push(x));
        assert(sort_spec(s).to_multiset() =~= s.to_multiset());
    }
}

fn show_le_exec(a: &Show, b: &Show) -> (r: bool)
    ensures
        r == show_le(a@, b@),
{
    if a.date.year != b.date.year || a.date.month != b.date.month || a.date.day != b.date.day {
        a.date.year < b.date.year || (a.date.year == b.date.year && (a.date.month < b.date.month
            || (a.date.month == b.date.month && a.date.day <= b.date.day)))
    } else {
        a.time.hour < b.time.hour || (a.time.hour == b.time.hour && (a.time.minute
            < b.time.minute || (a.time.minute == b.time.minute && a.time.second
            <= b.time.second)))
    }
}

/// Sorts the shows in place, stably, by (date, time).
pub fn sort_shows(v: &mut Vec<Show>)
    ensures
        show_views(final(v)@) == sort_spec(show_views(old(v)@)),
{
    let ghost orig = old(v)@;
    if v.len() == 0 {
        proof {
            broadcast use crate::shows::lemma_show_views_len;

            assert(show_views(v@) =~= sort_spec(show_views(orig)));
        }
        return ;
    }
    let mut i: usize = 1;
    proof {
        broadcast use crate::shows::lemma_show_views_len, crate::shows::lemma_show_views_index;

        let pv1 = show_views(orig.subrange(0, 1));
        assert(pv1.drop_last() =~= Seq::<ShowView>::empty());
        assert(sort_spec(Seq::<ShowView>::empty()) =~= Seq::<ShowView>::empty());
        assert(sort_spec(pv1) == insert_sorted(Seq::<ShowView>::empty(), pv1.last()));
        assert(insert_sorted(Seq::<ShowView>::empty(), pv1.last()) =~= seq![pv1.last()]);
        assert(pv1.last() == orig[0]@);
        assert(show_views(v@) =~= sort_spec(show_views(orig.subrange(0, 1))) + show_views(
            orig.subrange(1, orig.len() as int),
        ));
    }
    while i < v.len()
        invariant
            1 <= i <= v@.len(),
            v@.len() == orig.len(),
            show_views(v@) == sort_spec(show_views(orig.subrange(0, i as int))) + show_views(
                orig.subrange(i as int, orig.len() as int),
            ),
        decreases v@.len() - i,
    {
        let ghost v0 = v@;
        let ghost sorted_pre = sort_spec(show_views(orig.subrange(0, i as int)));
        let x = v.remove(i);
        proof {
            broadcast use crate::shows::lemma_show_views_len, crate::shows::lemma_show_views_index;

            assert(show_views(v0)[i as int] == v0[i as int]@);
            assert(x@ == orig[i as int]@);
            assert forall|k: int| 0 <= k < v@.len() implies show_views(v@)[k] == (sorted_pre
                + show_views(orig.subrange(i + 1 as int, orig.len() as int)))[k] by {
                if k < i {
                    assert(v@[k] == v0[k]);
                    assert(show_views(v0)[k] == v0[k]@);
                } else {
                    assert(v@[k] == v0[k + 1]);
                    assert(show_views(v0)[k + 1] == v0[k + 1]@);
                    assert(show_views(orig.subrange(i as int, orig.len() as int))[k + 1 - i]
                        == orig.subrange(i as int, orig.len() as int)[k + 1 - i]@);
                    assert(show_views(orig.subrange(i + 1 as int, orig.len() as int))[k - i]
                        == orig.subrange(i + 1 as int, orig.len() as int)[k - i]@);
                }
            }
            assert(show_views(v@) =~= sorted_pre + show_views(
                orig.subrange(i + 1 as int, orig.len() as int),
            ));
        }
        let mut j: usize = i;
        while j > 0 && !show_le_exec(&v[j - 1], &x)
            invariant
                j <= i,
                i < orig.len(),
                v@.len() == orig.len() - 1,
                show_views(v@) == sorted_pre + show_views(
                    orig.subrange(i + 1 as int, orig.len() as int),
                ),
                sorted_pre.len() == i,
                forall|k: int| j <= k < i ==> !show_le(sorted_pre[k], x@),
            decreases j,
        {
            proof {
                broadcast use crate::shows::lemma_show_views_len, crate::shows::lemma_show_views_index;

                assert(show_views(v@)[j - 1] == v@[j - 1]@);
                assert(sorted_pre[j - 1] == show_views(v@)[j - 1]);
            }
            j -= 1;
        }
        proof {
            broadcast use crate::shows::lemma_show_views_len, crate::shows::lemma_show_views_index;

            if j > 0 {
                assert(show_views(v@)[j - 1] == v@[j - 1]@);
                assert(sorted_pre[j - 1] == show_views(v@)[j - 1]);
                assert(show_le(sorted_pre[j - 1], x@));
            }
            lemma_insert_sorted_at(sorted_pre, x@, j as int);
        }
        let ghost v1 = v@;
        v.insert(j, x);
        proof {
            broadcast use crate::shows::lemma_show_views_len, crate::shows::lemma_show_views_index;

            let pv0 = show_views(orig.subrange(0, i as int));
            let pv1 = show_views(orig.subrange(0, i + 1 as int));
            assert(pv1.drop_last() =~= pv0);
            assert(pv1.last() == orig[i as int]@);
            assert(sort_spec(pv1) == insert_sorted(sorted_pre, x@));
            let tail = show_views(orig.subrange(i + 1 as int, orig.len() as int));
            assert forall|k: int| 0 <= k < v@.len() implies show_views(v@)[k] == (sort_spec(pv1)
                + tail)[k] by {
                assert(show_views(v@)[k] == v@[k]@);
                if k < j {
                    assert(v@[k] == v1[k]);
                    assert(show_views(v1)[k] == v1[k]@);
                } else if k == j {
                    assert(v@[k] == x);
                } else {
                    assert(v@[k] == v1[k - 1]);
                    assert(show_views(v1)[k - 1] == v1[k - 1]@);
                }
            }
            assert(show_views(v@) =~= sort_spec(pv1) + tail);
        }
        i += 1;
    }
    proof {
        broadcast use crate::shows::lemma_show_views_len;

        assert(orig.subrange(0, orig.len() as int) =~= orig);
        assert(show_views(orig.subrange(i as int, orig.len() as int)).len() == 0);
        assert(show_views(v@) =~= sort_spec(show_views(orig)));
    }
}

} // verus!
