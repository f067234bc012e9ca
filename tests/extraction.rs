use hunter_searcher::crawler::Crawler;
use hunter_searcher::links::resolve_links;
use hunter_searcher::page::blurb;

fn strings(v: &[&str]) -> Vec<String> {
    v.iter().map(|s| s.to_string()).collect()
}

fn numbered_words(n: usize) -> Vec<String> {
    (0..n).map(|i| format!("w{}", i)).collect()
}

#[test]
fn blurb_of_three_words_is_the_text() {
    assert_eq!(blurb("one two three"), "one two three");
}

#[test]
fn blurb_of_ten_words_starts_at_the_sixth() {
    let words = numbered_words(10);
    assert_eq!(blurb(&words.join(" ")), words[5..].join(" "));
}

#[test]
fn blurb_of_forty_words_is_words_ten_to_thirty() {
    let words = numbered_words(40);
    assert_eq!(blurb(&words.join(" ")), words[10..30].join(" "));
}

#[test]
fn blurb_bounds() {
    assert_eq!(blurb(""), "");
    let five = numbered_words(5);
    assert_eq!(blurb(&five.join(" ")), five.join(" "));
    let six = numbered_words(6);
    assert_eq!(blurb(&six.join(" ")), "w5");
    let twenty_nine = numbered_words(29);
    assert_eq!(blurb(&twenty_nine.join(" ")), twenty_nine[5..].join(" "));
    let thirty = numbered_words(30);
    assert_eq!(blurb(&thirty.join(" ")), thirty[10..30].join(" "));
}

#[test]
fn blurb_collapses_whitespace() {
    assert_eq!(blurb("  one\t two\n\nthree  "), "one two three");
}

#[test]
fn relative_link_resolves_against_base() {
    let links = resolve_links("https://a.com/bar/", &strings(&["/foo"]));
    assert_eq!(links, vec!["https://a.com/foo".to_string()]);
}

#[test]
fn absolute_link_passes_through() {
    let links = resolve_links("https://a.com/bar/", &strings(&["http://x.com/y"]));
    assert_eq!(links, vec!["http://x.com/y".to_string()]);
}

#[test]
fn links_drop_root_fragment_and_self() {
    let base = "https://a.com/page";
    let links = resolve_links(base, &strings(&["/", "#", base, "https://a.com/page#top", "b"]));
    assert_eq!(links, vec!["https://a.com/b".to_string()]);
}

#[test]
fn links_cut_fragment_and_query_and_dedup() {
    let links = resolve_links(
        "https://a.com/",
        &strings(&["/x?q=1", "/x#frag", "https://b.org/y?z", "https://b.org/y"]),
    );
    assert_eq!(links, vec!["https://a.com/x".to_string(), "https://b.org/y".to_string()]);
}

#[test]
fn links_decode_escaped_slash() {
    let links = resolve_links("https://a.com/", &strings(&["&#x2F;docs&#x2F;a"]));
    assert_eq!(links, vec!["https://a.com/docs/a".to_string()]);
}

#[test]
fn index_url_extracts_page() {
    let html = "<html><head><title>My Page</title></head><body><p>Hello   world</p>\
                <script>var x = 1;</script><img src=\"a.png\" alt=\"a cat\">\
                <a href=\"/about\">About</a><a href=\"https://other.org/x?y=1\">Other</a>\
                <a href=\"/about#team\">Team</a><a href=\"#\">Top</a><a href=\"/\">Home</a>\
                </body></html>";
    let e = Crawler::index_url("https://example.com/index.html", html);
    assert_eq!(e.url, "https://example.com/index.html");
    assert_eq!(e.title, "My Page");
    assert_eq!(e.number_js, 1);
    assert_eq!(
        e.links,
        vec!["https://example.com/about".to_string(), "https://other.org/x".to_string()]
    );
    assert!(!e.content.contains("var x"));
    assert!(e.content.contains("Hello world"));
    assert!(e.content.contains("My Page"));
    assert!(e.content.ends_with("a cat"));
    assert!(!e.content.contains("  "));
}

#[test]
fn index_url_of_empty_page() {
    let e = Crawler::index_url("https://example.com/", "");
    assert_eq!(e.title, "");
    assert_eq!(e.content, "");
    assert_eq!(e.blurb, "");
    assert_eq!(e.number_js, 0);
    assert!(e.links.is_empty());
}

#[test]
fn index_url_counts_every_script() {
    let html = "<html><head><script>a()</script></head><body><script>b()</script>text</body></html>";
    let e = Crawler::index_url("https://example.com/", html);
    assert_eq!(e.number_js, 2);
    assert_eq!(e.content, "text");
}
