use vstd::prelude::*;

use crate::model::{EntryView, NormalizedEntry, RawEntry, RawEntryView, RawFeed, RawFeedView};

verus! {

/// The fixed fallback text substituted for any absent field.
pub open spec fn na_chars() -> Seq<char> {
    seq!['N', '/', 'A']
}

/// The literal whose occurrences are removed from summaries.
pub open spec fn href_chars() -> Seq<char> {
    seq!['h', 'r', 'e', 'f']
}

/// A feed title is cut to at most this many characters.
pub const TITLE_LIMIT: usize = 100;

/// An absent optional text becomes the fallback text.
pub open spec fn or_na_spec(o: Option<Seq<char>>) -> Seq<char> {
    match o {
        Option::Some(s) => s,
        Option::None => na_chars(),
    }
}

/// The first `limit` characters of `s`, or all of `s` if it is shorter.
pub open spec fn truncate_spec(s: Seq<char>, limit: nat) -> Seq<char> {
    if s.len() <= limit {
        s
    } else {
        s.subrange(0, limit as int)
    }
}

/// True when the four characters starting at the front of `s` spell the
/// removed literal.
pub open spec fn starts_with_href(s: Seq<char>) -> bool {
    s.len() >= 4 && s.subrange(0, 4) == href_chars()
}

/// Left-to-right removal of every occurrence of the literal: at each
/// position, either the literal matches and is skipped whole, or one
/// character is kept. Matches are not re-sought inside already-kept text,
/// mirroring a single scan over the input.
pub open spec fn strip_href_spec(s: Seq<char>) -> Seq<char>
    decreases s.len(),
{
    if s.len() == 0 {
        Seq::empty()
    } else if starts_with_href(s) {
        strip_href_spec(s.subrange(4, s.len() as int))
    } else {
        seq![s[0]] + strip_href_spec(s.subrange(1, s.len() as int))
    }
}

/// The removed literal occurs in `s` at position `i`.
pub open spec fn has_href_at(s: Seq<char>, i: int) -> bool {
    0 <= i && i + 4 <= s.len() && s.subrange(i, i + 4) == href_chars()
}

/// The removed literal occurs somewhere in `s`.
pub open spec fn contains_href(s: Seq<char>) -> bool {
    exists|i: int| has_href_at(s, i)
}

/// Sanitization only ever removes the literal: a summary in which it
/// does not occur passes through unchanged.
pub proof fn lemma_strip_href_absent(s: Seq<char>)
    requires
        !contains_href(s),
    ensures
        strip_href_spec(s) == s,
    decreases s.len(),
{
    if s.len() == 0 {
        assert(strip_href_spec(s) =~= s);
    } else {
        assert(!starts_with_href(s)) by {
            if starts_with_href(s) {
                assert(s.subrange(0 as int, 4 as int) == href_chars());
                assert(has_href_at(s, 0));
            }
        }
        let rest = s.subrange(1, s.len() as int);
        assert(!contains_href(rest)) by {
            if contains_href(rest) {
                let i = choose|i: int| has_href_at(rest, i);
                assert(rest.subrange(i, i + 4) =~= s.subrange(i + 1, i + 1 + 4));
                assert(has_href_at(s, i + 1));
            }
        }
        lemma_strip_href_absent(rest);
        assert(seq![s[0]] + rest =~= s);
    }
}

/// The first associated hyperlink target, or the fallback text when the
/// entry has none.
pub open spec fn first_link_spec(links: Seq<Seq<char>>) -> Seq<char> {
    if links.len() == 0 {
        na_chars()
    } else {
        links[0]
    }
}

/// The normalized form of one raw entry under an owning feed title:
/// every absent field replaced by the fallback, the feed title cut to
/// the limit, the summary stripped of the literal, the first hyperlink
/// kept, and an absent publication time replaced by the epoch.
pub open spec fn normalize_entry_spec(feed_title: Option<Seq<char>>, e: RawEntryView) -> EntryView {
    EntryView {
        source_title: truncate_spec(or_na_spec(feed_title), TITLE_LIMIT as nat),
        title: or_na_spec(e.title),
        summary: match e.summary {
            Option::Some(s) => strip_href_spec(s),
            Option::None => na_chars(),
        },
        link: first_link_spec(e.links),
        published: match e.published {
            Option::Some(t) => t,
            Option::None => 0,
        },
    }
}

/// All entries of one parsed feed, normalized in document order.
pub open spec fn normalize_feed_spec(f: RawFeedView) -> Seq<EntryView> {
    f.entries.map_values(|e: RawEntryView| normalize_entry_spec(f.title, e))
}

/// The fallback text as an executable string.
fn na_string() -> (r: String)
    ensures
        r@ == na_chars(),
{
    let r = String::from_str("N/A");
    proof {
        reveal_strlit("N/A");
        assert(r@ =~= na_chars());
    }
    r
}

/// Substitutes the fallback text for an absent field.
fn or_na(o: Option<String>) -> (r: String)
    ensures
        r@ == or_na_spec(crate::model::opt_str_view(o)),
{
    match o {
        Option::Some(s) => s,
        Option::None => na_string(),
    }
}

/// Cuts `s` to at most `limit` characters.
fn truncate_chars(s: String, limit: usize) -> (r: String)
    ensures
        r@ == truncate_spec(s@, limit as nat),
{
    let n = s.as_str().unicode_len();
    if n <= limit {
        s
    } else {
        String::from_str(s.as_str().substring_char(0, limit))
    }
}

/// Removes every occurrence of the literal from `s`, scanning once from
/// left to right.
pub fn strip_href(s: &str) -> (r: String)
    ensures
        r@ == strip_href_spec(s@),
{
    let n = s.unicode_len();
    let mut out = String::new();
    let mut i: usize = 0;
    proof {
        assert(s@.subrange(0, n as int) =~= s@);
        assert(out@ + strip_href_spec(s@) =~= strip_href_spec(s@));
    }
    while i < n
        invariant
            i <= n,
            n == s@.len(),
            out@ + strip_href_spec(s@.subrange(i as int, n as int)) == strip_href_spec(s@),
        decreases n - i,
    {
        let ghost rest = s@.subrange(i as int, n as int);
        if n - i >= 4 && s.get_char(i) == 'h' && s.get_char(i + 1) == 'r' && s.get_char(i + 2)
            == 'e' && s.get_char(i + 3) == 'f' {
            proof {
                assert(rest.subrange(0, 4) =~= href_chars());
                assert(rest.subrange(4, rest.len() as int) =~= s@.subrange(
                    i + 4 as int,
                    n as int,
                ));
            }
            i = i + 4;
        } else {
            let piece = s.substring_char(i, i + 1);
            proof {
                assert(!starts_with_href(rest)) by {
                    if starts_with_href(rest) {
                        assert(rest.subrange(0, 4)[0] == s@[i as int]);
                        assert(rest.subrange(0, 4)[1] == s@[i + 1]);
                        assert(rest.subrange(0, 4)[2] == s@[i + 2]);
                        assert(rest.subrange(0, 4)[3] == s@[i + 3]);
                    }
                }
                assert(seq![rest[0]] =~= piece@);
                assert(rest.subrange(1, rest.len() as int) =~= s@.subrange(i + 1 as int, n as int));
                assert((out@ + piece@) + strip_href_spec(s@.subrange(i + 1 as int, n as int))
                    =~= out@ + (piece@ + strip_href_spec(s@.subrange(i + 1 as int, n as int))));
            }
            out.append(piece);
            i = i + 1;
        }
    }
    proof {
        assert(s@.subrange(i as int, n as int) =~= Seq::<char>::empty());
        assert(out@ + Seq::<char>::empty() =~= out@);
    }
    out
}

/// Builds the normalized entry for one raw entry of a feed whose display
/// title is `feed_title`. Every fallback, the title cut, and the summary
/// stripping happen here and nowhere else.
pub fn normalize_entry(feed_title: &Option<String>, e: RawEntry) -> (r: NormalizedEntry)
    ensures
        r@ == normalize_entry_spec(crate::model::opt_str_view(*feed_title), e@),
        e@.title is None ==> r.title@ == na_chars(),
        e@.summary is None ==> r.summary@ == na_chars(),
        e@.links.len() == 0 ==> r.link@ == na_chars(),
        e@.links.len() > 0 ==> r.link@ == e@.links[0],
        e@.published is None ==> r.published == 0,
        e@.summary matches Some(s) ==> r.summary@ == strip_href_spec(s),
        (*feed_title) matches Some(ft) ==> (ft@.len() > TITLE_LIMIT ==> r.source_title@
            == ft@.subrange(0, TITLE_LIMIT as int) && r.source_title@.len() == TITLE_LIMIT),
{
    let source_title = truncate_chars(or_na(clone_opt_string(feed_title)), TITLE_LIMIT);
    let title = or_na(e.title);
    let summary = match e.summary {
        Option::Some(s) => strip_href(s.as_str()),
        Option::None => na_string(),
    };
    let link = if e.links.len() == 0 {
        na_string()
    } else {
        proof {
            assert(e@.links[0] == e.links@[0]@);
        }
        e.links[0].clone()
    };
    let published = match e.published {
        Option::Some(t) => t,
        Option::None => 0,
    };
    NormalizedEntry { source_title, title, summary, link, published }
}

/// Clones an optional string, preserving its model.
fn clone_opt_string(o: &Option<String>) -> (r: Option<String>)
    ensures
        crate::model::opt_str_view(r) == crate::model::opt_str_view(*o),
{
    match o {
        Option::Some(s) => Option::Some(s.clone()),
        Option::None => Option::None,
    }
}

/// Appends the normalized entries of one parsed feed to `out`, in the
/// feed's document order.
pub fn normalize_feed(f: &RawFeed, out: &mut Vec<NormalizedEntry>)
    ensures
        crate::model::entry_views(final(out)@) == crate::model::entry_views(old(out)@)
            + normalize_feed_spec(f@),
{
    let ghost fv = f@;
    let ghost all = f.entries@.map_values(|e: RawEntry| e@);
    let mut k: usize = 0;
    proof {
        assert(fv.title == crate::model::opt_str_view(f.title));
        assert(fv.entries == all);
    }
    while k < f.entries.len()
        invariant
            k <= f.entries.len(),
            all == f.entries@.map_values(|e: RawEntry| e@),
            fv.entries == all,
            fv.title == crate::model::opt_str_view(f.title),
            crate::model::entry_views(out@) == crate::model::entry_views(old(out)@)
                + fv.entries.subrange(0, k as int).map_values(
                |e: RawEntryView| normalize_entry_spec(fv.title, e),
            ),
        decreases f.entries.len() - k,
    {
        let e = clone_raw_entry(&f.entries[k]);
        let ghost before = out@;
        let ne = normalize_entry(&f.title, e);
        out.push(ne);
        proof {
            assert(crate::model::entry_views(out@) =~= crate::model::entry_views(before).push(
                ne@,
            ));
            assert(fv.entries.subrange(0, k + 1 as int).map_values(
                |x: RawEntryView| normalize_entry_spec(fv.title, x),
            ) =~= fv.entries.subrange(0, k as int).map_values(
                |x: RawEntryView| normalize_entry_spec(fv.title, x),
            ).push(normalize_entry_spec(fv.title, all[k as int])));
            assert(crate::model::entry_views(before).push(ne@) =~= crate::model::entry_views(
                old(out)@,
            ) + fv.entries.subrange(0, k + 1 as int).map_values(
                |x: RawEntryView| normalize_entry_spec(fv.title, x),
            ));
        }
        k = k + 1;
    }
    proof {
        assert(fv.entries.subrange(0, k as int) =~= fv.entries);
    }
}

/// Clones one raw entry, preserving its model.
fn clone_raw_entry(e: &RawEntry) -> (r: RawEntry)
    ensures
        r@ == e@,
{
    let r = RawEntry {
        title: clone_opt_string(&e.title),
        summary: clone_opt_string(&e.summary),
        links: clone_string_vec(&e.links),
        published: e.published,
    };
    proof {
        assert(r.links@.map_values(|s: String| s@) =~= e.links@.map_values(|s: String| s@));
        assert(r@ =~= e@);
    }
    r
}

/// Clones a vector of strings, preserving its model.
fn clone_string_vec(v: &Vec<String>) -> (r: Vec<String>)
    ensures
        r@.len() == v@.len(),
        forall|i: int| 0 <= i < v@.len() ==> r@[i] == v@[i],
{
    let mut r: Vec<String> = Vec::new();
    let mut k: usize = 0;
    while k < v.len()
        invariant
            k <= v.len(),
            r@.len() == k,
            forall|i: int| 0 <= i < k ==> r@[i] == v@[i],
        decreases v.len() - k,
    {
        r.push(v[k].clone());
        k = k + 1;
    }
    r
}

} // verus!
