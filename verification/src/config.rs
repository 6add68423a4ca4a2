use vstd::prelude::*;

verus! {

/// The caller-supplied configuration: the feed source URLs to fetch, in
/// order, and a display preference passed through to the window.
pub struct Settings {
    pub feeds: Vec<String>,
    pub maximized: bool,
}

/// The source URL used when no configuration is available.
pub open spec fn default_feed_url() -> Seq<char> {
    "https://github.com/vascocosta/gluon_news/commits.atom"@
}

impl Default for Settings {
    /// The built-in fallback configuration: one known feed, maximized.
    fn default() -> (r: Settings)
        ensures
            r.feeds@.len() == 1,
            r.feeds@[0]@ == default_feed_url(),
            r.maximized == true,
    {
        let url = String::from_str("https://github.com/vascocosta/gluon_news/commits.atom");
        let mut feeds: Vec<String> = Vec::new();
        feeds.push(url);
        Settings { feeds, maximized: true }
    }
}

} // verus!
