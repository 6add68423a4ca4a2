use vstd::prelude::*;

verus! {

/// One entry as extracted from a parsed syndication feed, before
/// normalization: text fields are still optional and all hyperlinks are
/// still present, exactly as the wire formats allow. Timestamps are
/// microseconds since the Unix epoch.
pub struct RawEntry {
    pub title: Option<String>,
    pub summary: Option<String>,
    pub links: Vec<String>,
    pub published: Option<i64>,
}

/// A parsed syndication feed: an optional display title and the raw
/// entries in document order.
pub struct RawFeed {
    pub title: Option<String>,
    pub entries: Vec<RawEntry>,
}

/// A single normalized feed entry: the unit the aggregator sorts and
/// emits. All fields are mandatory; absent source data was replaced by
/// the fallbacks during normalization.
pub struct NormalizedEntry {
    pub source_title: String,
    pub title: String,
    pub summary: String,
    pub link: String,
    pub published: i64,
}

/// The aggregator's outcome: either a non-empty, newest-first sequence
/// of normalized entries, or the single "no data" signal.
pub enum AggregateResult {
    Unavailable,
    Entries(Vec<NormalizedEntry>),
}

/// Mathematical model of a raw entry: optional character sequences and
/// an optional timestamp.
pub ghost struct RawEntryView {
    pub title: Option<Seq<char>>,
    pub summary: Option<Seq<char>>,
    pub links: Seq<Seq<char>>,
    pub published: Option<i64>,
}

/// Mathematical model of a parsed feed.
pub ghost struct RawFeedView {
    pub title: Option<Seq<char>>,
    pub entries: Seq<RawEntryView>,
}

/// Mathematical model of a normalized entry.
pub ghost struct EntryView {
    pub source_title: Seq<char>,
    pub title: Seq<char>,
    pub summary: Seq<char>,
    pub link: Seq<char>,
    pub published: i64,
}

pub open spec fn opt_str_view(o: Option<String>) -> Option<Seq<char>> {
    match o {
        Option::Some(s) => Option::Some(s@),
        Option::None => Option::None,
    }
}

impl View for RawEntry {
    type V = RawEntryView;

    open spec fn view(&self) -> RawEntryView {
        RawEntryView {
            title: opt_str_view(self.title),
            summary: opt_str_view(self.summary),
            links: self.links@.map_values(|s: String| s@),
            published: self.published,
        }
    }
}

impl View for RawFeed {
    type V = RawFeedView;

    open spec fn view(&self) -> RawFeedView {
        RawFeedView {
            title: opt_str_view(self.title),
            entries: self.entries@.map_values(|e: RawEntry| e@),
        }
    }
}

impl View for NormalizedEntry {
    type V = EntryView;

    open spec fn view(&self) -> EntryView {
        EntryView {
            source_title: self.source_title@,
            title: self.title@,
            summary: self.summary@,
            link: self.link@,
            published: self.published,
        }
    }
}

/// The models of a sequence of normalized entries, in order.
pub open spec fn entry_views(s: Seq<NormalizedEntry>) -> Seq<EntryView> {
    s.map_values(|e: NormalizedEntry| e@)
}

} // verus!
