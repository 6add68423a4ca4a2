use gluon_news::config::Settings;
use gluon_news::model::{AggregateResult, NormalizedEntry, RawEntry, RawFeed};
use gluon_news::normalize::{normalize_entry, strip_href};
use gluon_news::pipeline::aggregate_feeds;
use gluon_news::sort::sort_entries;

/// Parses one body with feed_rs and extracts the fields the library
/// models, exactly as the application shell does.
fn parse_body(body: &str) -> Option<RawFeed> {
    let feed = feed_rs::parser::parse(body.as_bytes()).ok()?;
    Some(RawFeed {
        title: feed.title.map(|t| t.content),
        entries: feed
            .entries
            .into_iter()
            .map(|e| RawEntry {
                title: e.title.map(|t| t.content),
                summary: e.summary.map(|s| s.content),
                links: e.links.into_iter().map(|l| l.href).collect(),
                published: e.published.map(|d| d.timestamp_micros()),
            })
            .collect(),
    })
}

fn entry(published: i64, title: &str) -> NormalizedEntry {
    NormalizedEntry {
        source_title: "feed".to_string(),
        title: title.to_string(),
        summary: "s".to_string(),
        link: "l".to_string(),
        published,
    }
}

const ATOM_TWO_ENTRIES: &str = r#"<?xml version="1.0" encoding="utf-8"?>
<feed xmlns="http://www.w3.org/2005/Atom">
  <title>Example Feed</title>
  <id>urn:example:feed</id>
  <updated>1970-01-01T00:00:30Z</updated>
  <entry>
    <title>Older</title>
    <id>urn:example:1</id>
    <updated>1970-01-01T00:00:10Z</updated>
    <published>1970-01-01T00:00:10Z</published>
    <summary>first body</summary>
    <link href="https://example.com/1"/>
  </entry>
  <entry>
    <title>Newer</title>
    <id>urn:example:2</id>
    <updated>1970-01-01T00:00:20Z</updated>
    <published>1970-01-01T00:00:20Z</published>
    <summary>second body</summary>
    <link href="https://example.com/2"/>
  </entry>
</feed>"#;

#[test]
fn fallback_substitution() {
    let raw = RawEntry {
        title: None,
        summary: None,
        links: Vec::new(),
        published: None,
    };
    let n = normalize_entry(&None, raw);
    assert_eq!(n.source_title, "N/A");
    assert_eq!(n.title, "N/A");
    assert_eq!(n.summary, "N/A");
    assert_eq!(n.link, "N/A");
    assert_eq!(n.published, 0);
}

#[test]
fn summary_sanitization() {
    assert_eq!(strip_href("see href here"), "see  here");
    assert_eq!(strip_href("hrefhref"), "");
    assert_eq!(strip_href("hrhrefef"), "href");
    assert_eq!(strip_href("no markup at all"), "no markup at all");
    let raw = RawEntry {
        title: Some("t".to_string()),
        summary: Some("a href=\"x\" href".to_string()),
        links: Vec::new(),
        published: None,
    };
    let n = normalize_entry(&None, raw);
    assert_eq!(n.summary, "a =\"x\" ");
}

#[test]
fn title_truncation() {
    let long: String = "ab".repeat(75);
    assert_eq!(long.chars().count(), 150);
    let raw = RawEntry {
        title: None,
        summary: None,
        links: Vec::new(),
        published: None,
    };
    let n = normalize_entry(&Some(long.clone()), raw);
    assert_eq!(n.source_title.chars().count(), 100);
    assert_eq!(n.source_title, long.chars().take(100).collect::<String>());

    let short = "Example Feed".to_string();
    let raw2 = RawEntry {
        title: None,
        summary: None,
        links: Vec::new(),
        published: None,
    };
    let n2 = normalize_entry(&Some(short.clone()), raw2);
    assert_eq!(n2.source_title, short);
}

#[test]
fn sort_correctness_distinct_times() {
    let v = vec![entry(10, "b"), entry(30, "d"), entry(5, "a"), entry(20, "c")];
    let sorted = sort_entries(v);
    let times: Vec<i64> = sorted.iter().map(|e| e.published).collect();
    assert_eq!(times, vec![30, 20, 10, 5]);
    let titles: Vec<&str> = sorted.iter().map(|e| e.title.as_str()).collect();
    assert_eq!(titles, vec!["d", "c", "b", "a"]);
}

#[test]
fn tie_stability() {
    let v = vec![
        entry(10, "first-of-ten"),
        entry(0, "first-default"),
        entry(10, "second-of-ten"),
        entry(0, "second-default"),
    ];
    let sorted = sort_entries(v);
    let titles: Vec<&str> = sorted.iter().map(|e| e.title.as_str()).collect();
    assert_eq!(
        titles,
        vec![
            "first-of-ten",
            "second-of-ten",
            "first-default",
            "second-default"
        ]
    );
    // The same input sorts identically on a second run.
    let v2 = vec![
        entry(10, "first-of-ten"),
        entry(0, "first-default"),
        entry(10, "second-of-ten"),
        entry(0, "second-default"),
    ];
    let sorted2 = sort_entries(v2);
    let titles2: Vec<&str> = sorted2.iter().map(|e| e.title.as_str()).collect();
    assert_eq!(titles, titles2);
}

#[test]
fn unavailable_on_empty_source_list() {
    let r = aggregate_feeds(Vec::new());
    assert!(matches!(r, AggregateResult::Unavailable));
}

#[test]
fn unavailable_when_no_body_parses() {
    let feeds = vec![
        parse_body("this is not a feed"),
        parse_body("<html><body>404</body></html>"),
    ];
    assert!(feeds.iter().all(|f| f.is_none()));
    let r = aggregate_feeds(feeds);
    assert!(matches!(r, AggregateResult::Unavailable));
}

#[test]
fn atom_body_is_parsed_and_sorted() {
    let r = aggregate_feeds(vec![parse_body(ATOM_TWO_ENTRIES)]);
    match r {
        AggregateResult::Entries(es) => {
            assert_eq!(es.len(), 2);
            assert_eq!(es[0].title, "Newer");
            assert_eq!(es[0].summary, "second body");
            assert_eq!(es[0].link, "https://example.com/2");
            assert_eq!(es[0].source_title, "Example Feed");
            assert_eq!(es[0].published, 20_000_000);
            assert_eq!(es[1].title, "Older");
            assert_eq!(es[1].summary, "first body");
            assert_eq!(es[1].link, "https://example.com/1");
            assert_eq!(es[1].published, 10_000_000);
        }
        AggregateResult::Unavailable => panic!("expected entries"),
    }
}

#[test]
fn partial_failure_keeps_surviving_feed() {
    let feeds = vec![
        parse_body("garbage that does not parse"),
        parse_body(ATOM_TWO_ENTRIES),
    ];
    let r = aggregate_feeds(feeds);
    match r {
        AggregateResult::Entries(es) => {
            assert_eq!(es.len(), 2);
            assert_eq!(es[0].title, "Newer");
            assert_eq!(es[1].title, "Older");
        }
        AggregateResult::Unavailable => panic!("expected entries"),
    }
}

#[test]
fn default_settings() {
    let s = Settings::default();
    assert_eq!(
        s.feeds,
        vec!["https://github.com/vascocosta/gluon_news/commits.atom".to_string()]
    );
    assert!(s.maximized);
}

#[test]
fn atom_entry_missing_fields_gets_fallbacks() {
    let body = r#"<?xml version="1.0" encoding="utf-8"?>
<feed xmlns="http://www.w3.org/2005/Atom">
  <id>urn:example:untitled</id>
  <updated>1970-01-01T00:00:30Z</updated>
  <entry>
    <id>urn:example:bare</id>
    <updated>1970-01-01T00:00:10Z</updated>
  </entry>
</feed>"#;
    let r = aggregate_feeds(vec![parse_body(body)]);
    match r {
        AggregateResult::Entries(es) => {
            assert_eq!(es.len(), 1);
            assert_eq!(es[0].source_title, "N/A");
            assert_eq!(es[0].title, "N/A");
            assert_eq!(es[0].summary, "N/A");
            assert_eq!(es[0].link, "N/A");
            assert_eq!(es[0].published, 0);
        }
        AggregateResult::Unavailable => panic!("expected entries"),
    }
}

#[test]
fn first_link_is_kept() {
    let raw = RawEntry {
        title: None,
        summary: None,
        links: vec![
            "https://example.com/a".to_string(),
            "https://example.com/b".to_string(),
        ],
        published: None,
    };
    let n = normalize_entry(&None, raw);
    assert_eq!(n.link, "https://example.com/a");
}
