use vstd::prelude::*;

use crate::model::{entry_views, EntryView, NormalizedEntry};

verus! {

/// Sorted newest-first: publication times never increase along the
/// sequence.
pub open spec fn sorted_desc(s: Seq<EntryView>) -> bool {
    forall|i: int, j: int| 0 <= i < j < s.len() ==> s[i].published >= s[j].published
}

/// Places `e` before the first element strictly older than it, hence
/// after every element at least as new: a stable insertion.
pub open spec fn insert_desc(e: EntryView, s: Seq<EntryView>) -> Seq<EntryView>
    decreases s.len(),
{
    if s.len() == 0 {
        seq![e]
    } else if e.published > s[0].published {
        seq![e] + s
    } else {
        seq![s[0]] + insert_desc(e, s.subrange(1, s.len() as int))
    }
}

/// Stable insertion sort, newest first: each element, taken left to
/// right, is inserted after its equals.
pub open spec fn sort_desc_spec(s: Seq<EntryView>) -> Seq<EntryView>
    decreases s.len(),
{
    if s.len() == 0 {
        Seq::empty()
    } else {
        insert_desc(s.last(), sort_desc_spec(s.drop_last()))
    }
}

/// The subsequence of entries published exactly at `t`, in order.
pub open spec fn ties(s: Seq<EntryView>, t: i64) -> Seq<EntryView>
    decreases s.len(),
{
    if s.len() == 0 {
        Seq::empty()
    } else if s[0].published == t {
        seq![s[0]] + ties(s.subrange(1, s.len() as int), t)
    } else {
        ties(s.subrange(1, s.len() as int), t)
    }
}

proof fn lemma_insert_desc_props(e: EntryView, s: Seq<EntryView>)
    requires
        sorted_desc(s),
    ensures
        insert_desc(e, s).len() == s.len() + 1,
        insert_desc(e, s).to_multiset() == s.to_multiset().insert(e),
        sorted_desc(insert_desc(e, s)),
    decreases s.len(),
{
    broadcast use vstd::seq_lib::group_seq_properties;

    let r = insert_desc(e, s);
    if s.len() == 0 {
        assert(r =~= Seq::empty().push(e));
        assert(Seq::<EntryView>::empty().push(e).to_multiset() =~= Seq::<
            EntryView,
        >::empty().to_multiset().insert(e));
        Seq::<EntryView>::empty().to_multiset_ensures();
    } else if e.published > s[0].published {
        assert(r =~= seq![e] + s);
        lemma_multiset_prepend(e, s);
        assert forall|i: int, j: int| 0 <= i < j < r.len() implies r[i].published
            >= r[j].published by {
            if i > 0 {
                assert(r[i] == s[i - 1]);
                assert(r[j] == s[j - 1]);
            } else {
                assert(r[j] == s[j - 1]);
                if j - 1 > 0 {
                    assert(s[0].published >= s[j - 1].published);
                }
            }
        }
    } else {
        let tail = s.subrange(1, s.len() as int);
        assert(sorted_desc(tail));
        lemma_insert_desc_props(e, tail);
        let rt = insert_desc(e, tail);
        assert(r =~= seq![s[0]] + rt);
        lemma_multiset_prepend(s[0], rt);
        lemma_multiset_prepend(s[0], tail);
        assert(s =~= seq![s[0]] + tail);
        assert(r.to_multiset() =~= s.to_multiset().insert(e));
        // Every element of rt is either e (no newer than s[0]) or an
        // element of tail (no newer than s[0]); so prepending s[0] keeps
        // the order.
        assert forall|i: int, j: int| 0 <= i < j < r.len() implies r[i].published
            >= r[j].published by {
            if i > 0 {
                assert(r[i] == rt[i - 1]);
                assert(r[j] == rt[j - 1]);
            } else {
                assert(r[j] == rt[j - 1]);
                lemma_insert_desc_members(e, tail, j - 1);
            }
        }
    }
}

/// Each element of `insert_desc(e, s)` is `e` or an element of `s`.
proof fn lemma_insert_desc_members(e: EntryView, s: Seq<EntryView>, k: int)
    requires
        0 <= k < insert_desc(e, s).len(),
    ensures
        insert_desc(e, s)[k] == e || s.contains(insert_desc(e, s)[k]),
    decreases s.len(),
{
    let r = insert_desc(e, s);
    if s.len() == 0 {
    } else if e.published > s[0].published {
    } else {
        let tail = s.subrange(1, s.len() as int);
        if k > 0 {
            lemma_insert_desc_members(e, tail, k - 1);
            if tail.contains(r[k]) {
                let w = choose|w: int| 0 <= w < tail.len() && tail[w] == r[k];
                assert(s[w + 1] == r[k]);
            }
        }
    }
}

proof fn lemma_multiset_prepend(e: EntryView, s: Seq<EntryView>)
    ensures
        (seq![e] + s).to_multiset() == s.to_multiset().insert(e),
    decreases s.len(),
{
    broadcast use vstd::seq_lib::group_seq_properties;

    if s.len() == 0 {
        assert(seq![e] + s =~= Seq::empty().push(e));
        Seq::<EntryView>::empty().to_multiset_ensures();
        assert((Seq::<EntryView>::empty().push(e)).to_multiset() =~= Seq::<
            EntryView,
        >::empty().to_multiset().insert(e));
    } else {
        lemma_multiset_prepend(e, s.drop_last());
        assert(seq![e] + s =~= (seq![e] + s.drop_last()).push(s.last()));
        (seq![e] + s.drop_last()).to_multiset_ensures();
        s.drop_last().to_multiset_ensures();
        assert(s =~= s.drop_last().push(s.last()));
        assert((seq![e] + s).to_multiset() =~= (seq![e]
            + s.drop_last()).to_multiset().insert(s.last()));
        assert(s.to_multiset() =~= s.drop_last().to_multiset().insert(s.last()));
        assert(s.drop_last().to_multiset().insert(e).insert(s.last())
            =~= s.drop_last().to_multiset().insert(s.last()).insert(e));
    }
}

/// The sort permutes its input, keeps its length, and orders it newest
/// first.
pub proof fn lemma_sort_desc_spec_props(s: Seq<EntryView>)
    ensures
        sort_desc_spec(s).len() == s.len(),
        sort_desc_spec(s).to_multiset() == s.to_multiset(),
        sorted_desc(sort_desc_spec(s)),
    decreases s.len(),
{
    broadcast use vstd::seq_lib::group_seq_properties;

    if s.len() == 0 {
    } else {
        lemma_sort_desc_spec_props(s.drop_last());
        lemma_insert_desc_props(s.last(), sort_desc_spec(s.drop_last()));
        assert(s =~= s.drop_last().push(s.last()));
        s.drop_last().to_multiset_ensures();
        sort_desc_spec(s.drop_last()).to_multiset_ensures();
        assert(s.to_multiset() =~= s.drop_last().to_multiset().insert(s.last()));
        assert(sort_desc_spec(s).to_multiset() =~= sort_desc_spec(
            s.drop_last(),
        ).to_multiset().insert(s.last()));
    }
}

/// Sort correctness on distinct times: when no two entries share a
/// publication time, the sorted sequence is strictly newest first, so
/// entries with times t1 > t2 > ... > tn appear in exactly that order.
pub proof fn lemma_sort_distinct_strict(s: Seq<EntryView>)
    requires
        forall|i: int, j: int| 0 <= i < j < s.len() ==> s[i].published != s[j].published,
    ensures
        sort_desc_spec(s).len() == s.len(),
        forall|i: int, j: int|
            0 <= i < j < s.len() ==> sort_desc_spec(s)[i].published > sort_desc_spec(
                s,
            )[j].published,
{
    broadcast use vstd::seq_lib::group_seq_properties;

    lemma_sort_desc_spec_props(s);
    let r = sort_desc_spec(s);
    assert(s.no_duplicates());
    s.lemma_multiset_has_no_duplicates();
    s.to_multiset_ensures();
    r.to_multiset_ensures();
    r.lemma_multiset_has_no_duplicates_conv();
    assert forall|i: int, j: int| 0 <= i < j < s.len() implies r[i].published
        > r[j].published by {
        assert(r[i].published >= r[j].published);
        if r[i].published == r[j].published {
            assert(r[i] != r[j]);
            assert(r.contains(r[i]));
            assert(r.contains(r[j]));
            assert(r.to_multiset().count(r[i]) > 0);
            assert(r.to_multiset().count(r[j]) > 0);
            assert(s.to_multiset().count(r[i]) > 0);
            assert(s.to_multiset().count(r[j]) > 0);
            assert(s.contains(r[i]));
            assert(s.contains(r[j]));
            let k = choose|k: int| 0 <= k < s.len() && s[k] == r[i];
            let l = choose|l: int| 0 <= l < s.len() && s[l] == r[j];
            assert(k != l);
            assert(s[k].published != s[l].published);
        }
    }
}

/// Two strictly newest-first sequences holding the same entries are the
/// same sequence.
proof fn lemma_strictly_sorted_unique(r1: Seq<EntryView>, r2: Seq<EntryView>)
    requires
        forall|i: int, j: int| 0 <= i < j < r1.len() ==> r1[i].published > r1[j].published,
        forall|i: int, j: int| 0 <= i < j < r2.len() ==> r2[i].published > r2[j].published,
        r1.to_multiset() == r2.to_multiset(),
    ensures
        r1 == r2,
    decreases r1.len(),
{
    broadcast use vstd::seq_lib::group_seq_properties;

    r1.to_multiset_ensures();
    r2.to_multiset_ensures();
    if r1.len() == 0 {
        assert(r1 =~= r2);
    } else {
        assert(r2.len() == r1.len());
        assert(r1.contains(r1[0]));
        assert(r1.to_multiset().count(r1[0]) > 0);
        assert(r2.to_multiset().count(r1[0]) > 0);
        assert(r2.contains(r1[0]));
        let j = choose|j: int| 0 <= j < r2.len() && r2[j] == r1[0];
        assert(j == 0) by {
            if j != 0 {
                // Then the head of r2 is strictly newer than the head of
                // r1, yet it also occurs in r1 — below a strictly older
                // head, which is impossible.
                assert(r2[0].published > r1[0].published);
                assert(r2.contains(r2[0]));
                assert(r2.to_multiset().count(r2[0]) > 0);
                assert(r1.to_multiset().count(r2[0]) > 0);
                assert(r1.contains(r2[0]));
                let i = choose|i: int| 0 <= i < r1.len() && r1[i] == r2[0];
                if i > 0 {
                    assert(r1[0].published > r1[i].published);
                }
            }
        }
        let t1 = r1.remove(0);
        let t2 = r2.remove(0);
        assert(t1.to_multiset() =~= r1.to_multiset().remove(r1[0]));
        assert(t2.to_multiset() =~= r2.to_multiset().remove(r2[0]));
        assert(r2[0] == r1[0]);
        assert(t1.to_multiset() == t2.to_multiset());
        r1.remove_ensures(0);
        r2.remove_ensures(0);
        assert(forall|i: int, j: int|
            0 <= i < j < t1.len() ==> t1[i].published > t1[j].published);
        assert(forall|i: int, j: int|
            0 <= i < j < t2.len() ==> t2[i].published > t2[j].published);
        lemma_strictly_sorted_unique(t1, t2);
        assert(r1 =~= r2) by {
            assert forall|k: int| 0 <= k < r1.len() implies r1[k] == r2[k] by {
                if k > 0 {
                    assert(r1[k] == t1[k - 1]);
                    assert(r2[k] == t2[k - 1]);
                }
            }
        }
    }
}

/// Concurrency does not reorder the result: two collections of the same
/// entries — however the concurrent requests interleaved them — sort to
/// the identical sequence whenever publication times are pairwise
/// distinct. (Entries sharing a time instead follow the tie-stability
/// law relative to their own collection order.)
pub proof fn lemma_sort_order_independent(s1: Seq<EntryView>, s2: Seq<EntryView>)
    requires
        s1.to_multiset() == s2.to_multiset(),
        forall|i: int, j: int| 0 <= i < j < s1.len() ==> s1[i].published != s1[j].published,
    ensures
        sort_desc_spec(s1) == sort_desc_spec(s2),
{
    broadcast use vstd::seq_lib::group_seq_properties;

    s1.to_multiset_ensures();
    s2.to_multiset_ensures();
    assert(s1.no_duplicates());
    s1.lemma_multiset_has_no_duplicates();
    s2.lemma_multiset_has_no_duplicates_conv();
    assert forall|i: int, j: int| 0 <= i < j < s2.len() implies s2[i].published
        != s2[j].published by {
        if s2[i].published == s2[j].published {
            assert(s2[i] != s2[j]);
            assert(s2.contains(s2[i]));
            assert(s2.contains(s2[j]));
            assert(s1.to_multiset().count(s2[i]) > 0);
            assert(s1.to_multiset().count(s2[j]) > 0);
            assert(s1.contains(s2[i]));
            assert(s1.contains(s2[j]));
            let k = choose|k: int| 0 <= k < s1.len() && s1[k] == s2[i];
            let l = choose|l: int| 0 <= l < s1.len() && s1[l] == s2[j];
            assert(k != l);
            assert(s1[k].published != s1[l].published);
        }
    }
    lemma_sort_desc_spec_props(s1);
    lemma_sort_desc_spec_props(s2);
    lemma_sort_distinct_strict(s1);
    lemma_sort_distinct_strict(s2);
    lemma_strictly_sorted_unique(sort_desc_spec(s1), sort_desc_spec(s2));
}

/// If everything in `s` is strictly older than `t`, no entry of `s` ties
/// at `t`.
proof fn lemma_ties_all_older(s: Seq<EntryView>, t: i64)
    requires
        forall|k: int| 0 <= k < s.len() ==> s[k].published < t,
    ensures
        ties(s, t) == Seq::<EntryView>::empty(),
    decreases s.len(),
{
    if s.len() == 0 {
    } else {
        lemma_ties_all_older(s.subrange(1, s.len() as int), t);
    }
}

/// Inserting an entry into a sorted sequence puts it after all its ties
/// and disturbs no other timestamp's subsequence.
proof fn lemma_insert_desc_ties(e: EntryView, s: Seq<EntryView>, t: i64)
    requires
        sorted_desc(s),
    ensures
        ties(insert_desc(e, s), t) == if e.published == t {
            ties(s, t).push(e)
        } else {
            ties(s, t)
        },
    decreases s.len(),
{
    let r = insert_desc(e, s);
    if s.len() == 0 {
        assert(r =~= seq![e]);
        assert(r.subrange(1, 1) =~= Seq::<EntryView>::empty());
        assert(ties(Seq::<EntryView>::empty(), t) == Seq::<EntryView>::empty());
        assert(ties(s, t) == Seq::<EntryView>::empty());
        if e.published == t {
            assert(r[0] == e);
            assert(ties(r, t) == seq![e] + ties(r.subrange(1, 1), t));
            assert(ties(r, t) =~= ties(s, t).push(e));
        } else {
            assert(ties(r, t) == ties(r.subrange(1, 1), t));
        }
    } else if e.published > s[0].published {
        assert(r =~= seq![e] + s);
        assert(r[0] == e);
        assert(r.subrange(1, r.len() as int) =~= s);
        if e.published == t {
            assert(forall|k: int| 0 <= k < s.len() ==> s[k].published < t);
            lemma_ties_all_older(s, t);
            assert(ties(r, t) =~= seq![e] + ties(s, t));
            assert(seq![e] + Seq::<EntryView>::empty() =~= Seq::<EntryView>::empty().push(e));
        }
    } else {
        let tail = s.subrange(1, s.len() as int);
        assert(sorted_desc(tail));
        lemma_insert_desc_ties(e, tail, t);
        let rt = insert_desc(e, tail);
        assert(r =~= seq![s[0]] + rt);
        assert(r[0] == s[0]);
        assert(r.subrange(1, r.len() as int) =~= rt);
        assert(s.subrange(1, s.len() as int) =~= tail);
        if e.published == t {
            if s[0].published == t {
                assert(ties(r, t) =~= seq![s[0]] + ties(tail, t).push(e));
                assert(ties(s, t) =~= seq![s[0]] + ties(tail, t));
                assert(seq![s[0]] + ties(tail, t).push(e) =~= (seq![s[0]] + ties(
                    tail,
                    t,
                )).push(e));
            } else {
                assert(ties(r, t) =~= ties(tail, t).push(e));
                assert(ties(s, t) =~= ties(tail, t));
            }
        } else {
            if s[0].published == t {
                assert(ties(r, t) =~= seq![s[0]] + ties(tail, t));
                assert(ties(s, t) =~= seq![s[0]] + ties(tail, t));
            } else {
                assert(ties(r, t) =~= ties(tail, t));
                assert(ties(s, t) =~= ties(tail, t));
            }
        }
    }
}

/// Dropping the last element removes exactly it from its timestamp's
/// subsequence.
proof fn lemma_ties_drop_last(s: Seq<EntryView>, t: i64)
    requires
        s.len() > 0,
    ensures
        ties(s, t) == if s.last().published == t {
            ties(s.drop_last(), t).push(s.last())
        } else {
            ties(s.drop_last(), t)
        },
    decreases s.len(),
{
    let tail = s.subrange(1, s.len() as int);
    if s.len() == 1 {
        assert(tail =~= Seq::<EntryView>::empty());
        assert(s.drop_last() =~= Seq::<EntryView>::empty());
        assert(ties(Seq::<EntryView>::empty(), t) == Seq::<EntryView>::empty());
        assert(s.last() == s[0]);
        if s[0].published == t {
            assert(ties(s, t) == seq![s[0]] + ties(tail, t));
            assert(ties(s, t) =~= Seq::<EntryView>::empty().push(s[0]));
        } else {
            assert(ties(s, t) == ties(tail, t));
        }
    } else {
        lemma_ties_drop_last(tail, t);
        assert(tail.last() == s.last());
        assert(tail.drop_last() =~= s.drop_last().subrange(1, s.drop_last().len() as int));
        let dl = s.drop_last();
        assert(dl[0] == s[0]);
        if s[0].published == t {
            if s.last().published == t {
                assert(ties(s, t) =~= seq![s[0]] + ties(tail.drop_last(), t).push(s.last()));
                assert(ties(dl, t) =~= seq![s[0]] + ties(tail.drop_last(), t));
                assert(seq![s[0]] + ties(tail.drop_last(), t).push(s.last()) =~= (seq![s[0]]
                    + ties(tail.drop_last(), t)).push(s.last()));
            } else {
                assert(ties(s, t) =~= seq![s[0]] + ties(tail.drop_last(), t));
                assert(ties(dl, t) =~= seq![s[0]] + ties(tail.drop_last(), t));
            }
        } else {
            if s.last().published == t {
                assert(ties(s, t) =~= ties(tail.drop_last(), t).push(s.last()));
                assert(ties(dl, t) =~= ties(tail.drop_last(), t));
            } else {
                assert(ties(s, t) =~= ties(tail.drop_last(), t));
                assert(ties(dl, t) =~= ties(tail.drop_last(), t));
            }
        }
    }
}

/// Tie stability: for every publication time, the sorted sequence lists
/// the entries carrying that time in exactly their input order. Equal
/// timestamps — including entries that defaulted to the epoch — are
/// never reordered.
pub proof fn lemma_sort_tie_stability(s: Seq<EntryView>, t: i64)
    ensures
        ties(sort_desc_spec(s), t) == ties(s, t),
    decreases s.len(),
{
    if s.len() == 0 {
    } else {
        lemma_sort_tie_stability(s.drop_last(), t);
        lemma_sort_desc_spec_props(s.drop_last());
        lemma_insert_desc_ties(s.last(), sort_desc_spec(s.drop_last()), t);
        lemma_ties_drop_last(s, t);
    }
}

/// Inserts `e` into the already-sorted `out`, after every entry at least
/// as new as `e`.
fn insert_entry(out: &mut Vec<NormalizedEntry>, e: NormalizedEntry)
    ensures
        entry_views(final(out)@) == insert_desc(e@, entry_views(old(out)@)),
{
    let ghost sv = entry_views(out@);
    let mut pos: usize = 0;
    while pos < out.len() && out[pos].published >= e.published
        invariant
            pos <= out.len(),
            sv == entry_views(out@),
            forall|k: int| 0 <= k < pos ==> !(e.published > sv[k].published),
        decreases out.len() - pos,
    {
        proof {
            assert(sv[pos as int] == out@[pos as int]@);
        }
        pos = pos + 1;
    }
    proof {
        assert(pos < out@.len() ==> e@.published > sv[pos as int].published);
        lemma_insert_desc_at(e@, sv, pos as int);
    }
    out.insert(pos, e);
    proof {
        assert(entry_views(out@) =~= entry_views(old(out)@).subrange(0, pos as int).push(e@)
            + entry_views(old(out)@).subrange(pos as int, entry_views(old(out)@).len() as int));
        assert(sv.insert(pos as int, e@) == sv.subrange(0, pos as int).push(e@) + sv.subrange(
            pos as int,
            sv.len() as int,
        ));
    }
}

/// Where the insertion lands: before the first strictly-older element.
proof fn lemma_insert_desc_at(e: EntryView, s: Seq<EntryView>, pos: int)
    requires
        0 <= pos <= s.len(),
        forall|k: int| 0 <= k < pos ==> !(e.published > s[k].published),
        pos < s.len() ==> e.published > s[pos].published,
    ensures
        insert_desc(e, s) == s.insert(pos, e),
    decreases s.len(),
{
    if pos == 0 {
        assert(insert_desc(e, s) =~= s.insert(0, e));
    } else {
        let tail = s.subrange(1, s.len() as int);
        assert(!(e.published > s[0].published));
        lemma_insert_desc_at(e, tail, pos - 1);
        assert(insert_desc(e, s) =~= seq![s[0]] + tail.insert(pos - 1, e));
        assert(seq![s[0]] + tail.insert(pos - 1, e) =~= s.insert(pos, e));
    }
}

/// Sorts the merged entries newest first with a stable insertion sort,
/// matching `sort_desc_spec` exactly.
pub fn sort_entries(v: Vec<NormalizedEntry>) -> (r: Vec<NormalizedEntry>)
    ensures
        entry_views(r@) == sort_desc_spec(entry_views(v@)),
{
    let ghost vv = entry_views(v@);
    let mut out: Vec<NormalizedEntry> = Vec::new();
    let mut k: usize = 0;
    proof {
        assert(entry_views(out@) =~= Seq::<EntryView>::empty());
        assert(vv.subrange(0, 0) =~= Seq::<EntryView>::empty());
    }
    while k < v.len()
        invariant
            k <= v.len(),
            vv == entry_views(v@),
            entry_views(out@) == sort_desc_spec(vv.subrange(0, k as int)),
        decreases v.len() - k,
    {
        let e = clone_entry(&v[k]);
        proof {
            assert(entry_views(v@)[k as int] == v@[k as int]@);
        }
        insert_entry(&mut out, e);
        proof {
            let pre = vv.subrange(0, k as int);
            let cur = vv.subrange(0, k + 1 as int);
            assert(cur.drop_last() =~= pre);
            assert(cur.last() == vv[k as int]);
            assert(e@ == vv[k as int]);
        }
        k = k + 1;
    }
    proof {
        assert(vv.subrange(0, vv.len() as int) =~= vv);
    }
    out
}

/// Clones one normalized entry, preserving its model.
fn clone_entry(e: &NormalizedEntry) -> (r: NormalizedEntry)
    ensures
        r@ == e@,
{
    NormalizedEntry {
        source_title: e.source_title.clone(),
        title: e.title.clone(),
        summary: e.summary.clone(),
        link: e.link.clone(),
        published: e.published,
    }
}

} // verus!
