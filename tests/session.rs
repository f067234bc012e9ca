use hunter_searcher::crawler::{CrawlAction, CrawlEvent, Crawler, CrawlerBuilder};
use hunter_searcher::page::IndexEntry;
use hunter_searcher::storage::{upsert_action, ExistingPage, UpsertAction};

const AGENT: &str = "hunter-searcher crawler/v0.1.0";

fn fetch_page_url(a: &CrawlAction) -> Option<String> {
    match a {
        CrawlAction::FetchPage(u) => Some(u.clone()),
        _ => None,
    }
}

fn is_finished(a: &CrawlAction) -> bool {
    matches!(a, CrawlAction::Finished)
}

/// Rows of a stored table: (title, url, content).
fn store(rows: &mut Vec<(String, String, String)>, e: &IndexEntry, force: bool) {
    let existing = rows.iter().find(|r| r.1 == e.url).map(|r| ExistingPage {
        title: r.0.clone(),
        url: r.1.clone(),
        content: r.2.clone(),
    });
    match upsert_action(&existing, &e.title, &e.url, &e.content, force) {
        UpsertAction::Skip => {}
        UpsertAction::Insert => rows.push((e.title.clone(), e.url.clone(), e.content.clone())),
        UpsertAction::Replace => {
            rows.retain(|r| r.1 != e.url);
            rows.push((e.title.clone(), e.url.clone(), e.content.clone()));
        }
    }
}

fn crawler(depth: i32) -> Crawler {
    CrawlerBuilder::new(AGENT).max_depth(depth).build()
}

#[test]
fn session_with_depth_one_yields_one_document() {
    let mut c = crawler(1);
    let mut rows = Vec::new();
    let a = c.crawl("https://example.com");
    match &a {
        CrawlAction::FetchRobots(u) => assert_eq!(u, "https://example.com/robots.txt"),
        _ => panic!("expected a robots.txt request"),
    }
    let a = c.advance(CrawlEvent::RobotsBody(Some(String::new())));
    assert_eq!(fetch_page_url(&a), Some("https://example.com".to_string()));
    let html = "<html><head><title>Example</title></head><body>Hi \
                <a href=\"/a\">A</a><a href=\"https://other.org/b\">B</a></body></html>";
    let a = c.advance(CrawlEvent::PageBody(Some(html.to_string())));
    assert!(matches!(a, CrawlAction::Persist));
    store(&mut rows, c.index().last().unwrap(), false);
    let a = c.advance(CrawlEvent::Proceed);
    assert!(is_finished(&a));
    assert_eq!(c.index().len(), 1);
    assert_eq!(
        c.index()[0].links,
        vec!["https://example.com/a".to_string(), "https://other.org/b".to_string()]
    );
    assert_eq!(rows.len(), 1);
    assert_eq!(c.websites(), &vec!["example.com".to_string()]);
}

#[test]
fn refused_seed_ends_session_without_documents() {
    let mut c = crawler(-1);
    let a = c.crawl("https://example.com/private/page");
    assert!(matches!(a, CrawlAction::FetchRobots(_)));
    let robots = "User-agent: *\nDisallow: /private".to_string();
    let a = c.advance(CrawlEvent::RobotsBody(Some(robots)));
    assert!(is_finished(&a));
    assert!(c.index().is_empty());
}

#[test]
fn robots_failure_fails_open() {
    let mut c = crawler(-1);
    c.crawl("https://example.com/x");
    let a = c.advance(CrawlEvent::RobotsBody(None));
    assert_eq!(fetch_page_url(&a), Some("https://example.com/x".to_string()));
}

#[test]
fn cached_robots_refuse_later_pages_without_a_request() {
    let mut c = crawler(-1);
    c.crawl("https://example.com/");
    let robots = "User-agent: *\nDisallow: /secret".to_string();
    let a = c.advance(CrawlEvent::RobotsBody(Some(robots)));
    assert_eq!(fetch_page_url(&a), Some("https://example.com/".to_string()));
    let html = "<body><a href=\"/secret/a\">s</a><a href=\"/open\">o</a></body>";
    c.advance(CrawlEvent::PageBody(Some(html.to_string())));
    let a = c.advance(CrawlEvent::Proceed);
    assert_eq!(fetch_page_url(&a), Some("https://example.com/open".to_string()));
}

#[test]
fn failed_page_is_dropped() {
    let mut c = crawler(-1);
    c.crawl("https://example.com/");
    c.advance(CrawlEvent::RobotsBody(None));
    let a = c.advance(CrawlEvent::PageBody(None));
    assert!(is_finished(&a));
    assert!(c.index().is_empty());
}

#[test]
fn deny_list_skips_host() {
    let mut c = CrawlerBuilder::new(AGENT).add_blacklist(vec!["example".to_string()]).build();
    c.crawl("https://example.com/");
    let a = c.advance(CrawlEvent::RobotsBody(None));
    assert!(is_finished(&a));
}

#[test]
fn allow_list_needs_one_match() {
    let mut c = CrawlerBuilder::new(AGENT)
        .add_whitelist(vec!["nomatch".to_string(), "example".to_string()])
        .build();
    c.crawl("https://example.com/");
    let a = c.advance(CrawlEvent::RobotsBody(None));
    assert!(fetch_page_url(&a).is_some());
    let mut c = CrawlerBuilder::new(AGENT).add_whitelist(vec!["nomatch".to_string()]).build();
    c.crawl("https://example.com/");
    let a = c.advance(CrawlEvent::RobotsBody(None));
    assert!(is_finished(&a));
}

#[test]
fn unparsable_seed_ends_session() {
    let mut c = crawler(-1);
    let a = c.crawl("not a url");
    assert!(is_finished(&a));
}

#[test]
fn depth_zero_fetches_nothing() {
    let mut c = crawler(0);
    assert!(is_finished(&c.crawl("https://example.com/")));
}

#[test]
fn frontier_keeps_one_copy_of_each_link() {
    let mut c = crawler(-1);
    c.crawl("https://example.com/");
    c.advance(CrawlEvent::RobotsBody(None));
    let html = "<body><a href=\"/a\">1</a><a href=\"/b\">2</a></body>";
    c.advance(CrawlEvent::PageBody(Some(html.to_string())));
    let first = fetch_page_url(&c.advance(CrawlEvent::Proceed)).unwrap();
    assert_eq!(first, "https://example.com/a");
    let html = "<body><a href=\"/b\">2</a><a href=\"/c\">3</a></body>";
    c.advance(CrawlEvent::PageBody(Some(html.to_string())));
    let second = fetch_page_url(&c.advance(CrawlEvent::Proceed)).unwrap();
    assert_eq!(second, "https://example.com/b");
    let third = fetch_page_url(&c.advance(CrawlEvent::PageBody(None))).unwrap();
    assert_eq!(third, "https://example.com/c");
    assert!(is_finished(&c.advance(CrawlEvent::PageBody(None))));
}

#[test]
fn mismatched_answer_repeats_request() {
    let mut c = crawler(-1);
    c.crawl("https://example.com/");
    let a = c.advance(CrawlEvent::Proceed);
    assert!(matches!(a, CrawlAction::FetchRobots(_)));
    c.advance(CrawlEvent::RobotsBody(None));
    let a = c.advance(CrawlEvent::RobotsBody(None));
    assert_eq!(fetch_page_url(&a), Some("https://example.com/".to_string()));
}

#[test]
fn builder_settings() {
    let c = CrawlerBuilder::new(AGENT).delay_time(250).build();
    assert_eq!(c.delay_millis(), 250);
    assert_eq!(c.user_agent(), AGENT);
    assert_eq!(CrawlerBuilder::new(AGENT).build().delay_millis(), 1000);
}

#[test]
fn upsert_twice_then_changed_keeps_one_row() {
    let mut rows = Vec::new();
    let mut e = IndexEntry {
        url: "https://example.com/".to_string(),
        number_js: 0,
        title: "T".to_string(),
        links: Vec::new(),
        content: "old".to_string(),
        blurb: "old".to_string(),
    };
    store(&mut rows, &e, false);
    store(&mut rows, &e, false);
    assert_eq!(rows.len(), 1);
    e.content = "new".to_string();
    store(&mut rows, &e, false);
    assert_eq!(rows.len(), 1);
    assert_eq!(rows[0].2, "new");
}

#[test]
fn upsert_decisions() {
    let found = Some(ExistingPage {
        title: "T".to_string(),
        url: "u".to_string(),
        content: "c".to_string(),
    });
    assert_eq!(upsert_action(&None, "T", "u", "c", false), UpsertAction::Insert);
    assert_eq!(upsert_action(&found, "T", "u", "c", false), UpsertAction::Skip);
    assert_eq!(upsert_action(&found, "T", "u", "c", true), UpsertAction::Replace);
    assert_eq!(upsert_action(&found, "T2", "u", "c", false), UpsertAction::Replace);
    assert_eq!(upsert_action(&found, "T", "u", "c2", false), UpsertAction::Replace);
}
