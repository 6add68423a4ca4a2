use vstd::prelude::*;

use crate::model::{entry_views, AggregateResult, EntryView, NormalizedEntry, RawFeed, RawFeedView};
use crate::normalize::{normalize_feed, normalize_feed_spec};
use crate::sort::{sort_desc_spec, sort_entries};

verus! {

/// The model of one source's parse outcome: the parsed feed, or nothing
/// when its body was not a well-formed feed document.
pub open spec fn opt_feed_view(f: Option<RawFeed>) -> Option<RawFeedView> {
    match f {
        Option::Some(x) => Option::Some(x@),
        Option::None => Option::None,
    }
}

/// The models of the sources' parse outcomes, in source order.
pub open spec fn feed_views(feeds: Seq<Option<RawFeed>>) -> Seq<Option<RawFeedView>> {
    feeds.map_values(|f: Option<RawFeed>| opt_feed_view(f))
}

/// The normalized entries one source contributes: all of its feed's
/// entries if its body parsed, none otherwise.
pub open spec fn feed_entries(f: Option<RawFeedView>) -> Seq<EntryView> {
    match f {
        Option::Some(fv) => normalize_feed_spec(fv),
        Option::None => Seq::empty(),
    }
}

/// All entries contributed by the sources' parse outcomes, in source
/// order, each feed's entries in document order.
pub open spec fn merged_entries(feeds: Seq<Option<RawFeedView>>) -> Seq<EntryView>
    decreases feeds.len(),
{
    if feeds.len() == 0 {
        Seq::empty()
    } else {
        merged_entries(feeds.drop_last()) + feed_entries(feeds.last())
    }
}

/// The whole normalize/merge/sort pipeline over the sources' parse
/// outcomes: a source whose body failed to parse contributes nothing;
/// the remaining entries are normalized and sorted newest first, stably;
/// a total absence of entries — no sources, no body parsing to a feed,
/// or feeds with no entries — collapses into the one unavailable signal.
///
/// Parsing the wire formats stays with the caller: the parser in use can
/// abort on some inputs, and the library's functions are panic-free, so
/// the library takes each source's parse outcome as a value.
pub fn aggregate_feeds(feeds: Vec<Option<RawFeed>>) -> (r: AggregateResult)
    ensures
        r is Unavailable <==> merged_entries(feed_views(feeds@)).len() == 0,
        r matches AggregateResult::Entries(es) ==> entry_views(es@) == sort_desc_spec(
            merged_entries(feed_views(feeds@)),
        ) && es@.len() > 0,
{
    let ghost fvs = feed_views(feeds@);
    let mut entries: Vec<NormalizedEntry> = Vec::new();
    let mut k: usize = 0;
    proof {
        assert(entry_views(entries@) =~= Seq::<EntryView>::empty());
        assert(fvs.subrange(0, 0) =~= Seq::<Option<RawFeedView>>::empty());
    }
    while k < feeds.len()
        invariant
            k <= feeds.len(),
            fvs == feed_views(feeds@),
            entry_views(entries@) == merged_entries(fvs.subrange(0, k as int)),
        decreases feeds.len() - k,
    {
        proof {
            assert(fvs[k as int] == opt_feed_view(feeds@[k as int]));
        }
        let ghost before = entry_views(entries@);
        match &feeds[k] {
            Option::Some(feed) => {
                normalize_feed(feed, &mut entries);
                proof {
                    assert(feed_entries(fvs[k as int]) == normalize_feed_spec(feed@));
                }
            },
            Option::None => {
                proof {
                    assert(feed_entries(fvs[k as int]) =~= Seq::<EntryView>::empty());
                    assert(before + Seq::<EntryView>::empty() =~= before);
                }
            },
        }
        proof {
            let cur = fvs.subrange(0, k + 1 as int);
            assert(cur.drop_last() =~= fvs.subrange(0, k as int));
            assert(cur.last() == fvs[k as int]);
        }
        k = k + 1;
    }
    proof {
        assert(fvs.subrange(0, fvs.len() as int) =~= fvs);
    }
    if entries.len() == 0 {
        proof {
            assert(entry_views(entries@).len() == entries@.len());
        }
        AggregateResult::Unavailable
    } else {
        let ghost merged = entry_views(entries@);
        let sorted = sort_entries(entries);
        proof {
            crate::sort::lemma_sort_desc_spec_props(merged);
        }
        AggregateResult::Entries(sorted)
    }
}

/// The parse outcomes that hold a feed, in order.
pub open spec fn successful_feeds(feeds: Seq<Option<RawFeedView>>) -> Seq<Option<RawFeedView>>
    decreases feeds.len(),
{
    if feeds.len() == 0 {
        Seq::empty()
    } else if feeds.last() is Some {
        successful_feeds(feeds.drop_last()).push(feeds.last())
    } else {
        successful_feeds(feeds.drop_last())
    }
}

/// Partial failure tolerance: the merged entries are exactly those of
/// the sources that parsed, in order — a source that failed, at any
/// position, contributes nothing and disturbs nothing.
pub proof fn lemma_partial_failure(feeds: Seq<Option<RawFeedView>>)
    ensures
        merged_entries(feeds) == merged_entries(successful_feeds(feeds)),
    decreases feeds.len(),
{
    if feeds.len() == 0 {
    } else {
        lemma_partial_failure(feeds.drop_last());
        let sf = successful_feeds(feeds);
        if feeds.last() is Some {
            assert(sf.drop_last() =~= successful_feeds(feeds.drop_last()));
            assert(sf.last() == feeds.last());
        } else {
            assert(feed_entries(feeds.last()) =~= Seq::<EntryView>::empty());
            assert(merged_entries(feeds.drop_last()) + Seq::<EntryView>::empty()
                =~= merged_entries(feeds.drop_last()));
        }
    }
}

/// Total failure collapses to one signal: an empty source list yields no
/// entries, and so does a list in which no body parsed as a feed; either
/// way the aggregate is the single unavailable outcome.
pub proof fn lemma_total_failure(feeds: Seq<Option<RawFeedView>>)
    ensures
        merged_entries(Seq::<Option<RawFeedView>>::empty()).len() == 0,
        (forall|k: int| 0 <= k < feeds.len() ==> feeds[k] is None) ==> merged_entries(
            feeds,
        ).len() == 0,
    decreases feeds.len(),
{
    if feeds.len() == 0 {
    } else {
        lemma_total_failure(feeds.drop_last());
        if forall|k: int| 0 <= k < feeds.len() ==> feeds[k] is None {
            assert(forall|k: int|
                0 <= k < feeds.drop_last().len() ==> feeds.drop_last()[k] is None);
            assert(feeds.last() is None);
            assert(feed_entries(feeds.last()) =~= Seq::<EntryView>::empty());
        }
    }
}

} // verus!
