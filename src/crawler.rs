//! The crawl session: a breadth-first frontier, the per-host robots cache, the
//! allow and deny lists, and the decisions that turn each answer from the
//! network into the next request.
use vstd::prelude::*;
use std::collections::VecDeque;
use crate::links::{host_of, is_excluded, push_new, push_unique, resolve_links, resolved_links};
use crate::page::{
    blurb_words, describes, gather_alt_texts, gather_section_texts, page_hrefs, page_title,
    present_values, select_attributes, select_nested_texts, select_texts, IndexEntry,
};
use crate::robots::{permits, robots_location, robots_permit, robots_url_for};
use crate::text::{
    chars_of, contains_chars, contains_text, join_chars, opt_view, split_words, string_of,
    string_views,
};

verus! {

/// The settings of a session, as values.
pub struct CrawlSettings {
    pub agent: Seq<char>,
    /// Most documents to produce; -1 for no bound.
    pub limit: int,
    pub allow_on: bool,
    pub allow: Seq<Seq<char>>,
    pub deny_on: bool,
    pub deny: Seq<Seq<char>>,
}

/// What the session waits for.
pub enum Wait {
    Idle,
    Robots { url: Seq<char>, host: Seq<char>, robots_url: Seq<char> },
    Page { url: Seq<char> },
}

/// The state of a session, as values.
pub struct SessionState {
    /// The frontier: URLs still to visit, first to leave at the front.
    pub queue: Seq<Seq<char>>,
    /// The robots.txt text cached for each host met so far.
    pub robots: Seq<(Seq<char>, Seq<char>)>,
    /// The hosts visited.
    pub hosts: Seq<Seq<char>>,
    /// The documents produced.
    pub produced: nat,
    pub waiting: Wait,
}

/// What the session asks of its driver, as values.
pub enum Decision {
    Finished,
    FetchRobots(Seq<char>),
    FetchPage(Seq<char>),
    Persist,
}

/// What the driver hands back, as values.
pub enum Answer {
    Proceed,
    RobotsBody(Option<Seq<char>>),
    PageBody(Option<Seq<char>>),
}

/// The robots.txt text cached for `host`.
pub open spec fn record_for(recs: Seq<(Seq<char>, Seq<char>)>, host: Seq<char>) -> Option<
    Seq<char>,
>
    decreases recs.len(),
{
    if recs.len() == 0 {
        None
    } else if recs[0].0 == host {
        Some(recs[0].1)
    } else {
        record_for(recs.skip(1), host)
    }
}

/// Whether one of `pats` occurs in `host`.
pub open spec fn matches_any(host: Seq<char>, pats: Seq<Seq<char>>) -> bool {
    exists|i: int| 0 <= i < pats.len() && contains_text(host, #[trigger] pats[i])
}

/// Whether the lists turn `host` away: it matches a deny pattern, or it
/// matches no allow pattern. The two checks are independent.
pub open spec fn filtered(s: CrawlSettings, host: Seq<char>) -> bool {
    (s.deny_on && matches_any(host, s.deny)) || (s.allow_on && !matches_any(host, s.allow))
}

/// Whether the session has produced as many documents as it may.
pub open spec fn limit_reached(s: CrawlSettings, produced: nat) -> bool {
    s.limit != -1 && produced >= s.limit
}

/// The state after deciding to fetch `url` of `host`.
pub open spec fn fetch_page(m: SessionState, url: Seq<char>, host: Seq<char>) -> (
    SessionState,
    Decision,
) {
    (
        SessionState { hosts: push_new(m.hosts, host), waiting: Wait::Page { url }, ..m },
        Decision::FetchPage(url),
    )
}

/// Pops URLs off the frontier until one needs a request, or the session ends.
/// A URL without a host, one its host's robots.txt refuses, and one the lists
/// turn away are dropped; a host met for the first time needs its robots.txt,
/// and where it has none to fetch, an empty one is cached.
pub open spec fn scan(s: CrawlSettings, m: SessionState) -> (SessionState, Decision)
    decreases m.queue.len(),
{
    if m.queue.len() == 0 || limit_reached(s, m.produced) {
        (SessionState { waiting: Wait::Idle, ..m }, Decision::Finished)
    } else {
        let url = m.queue[0];
        let rest = SessionState { queue: m.queue.skip(1), waiting: Wait::Idle, ..m };
        match crate::links::url_host(url) {
            None => scan(s, rest),
            Some(h) => match record_for(m.robots, h) {
                Some(txt) => if !robots_permit(s.agent, txt, url) || filtered(s, h) {
                    scan(s, rest)
                } else {
                    fetch_page(rest, url, h)
                },
                None => match robots_location(url) {
                    Some(ru) => (
                        SessionState {
                            waiting: Wait::Robots { url, host: h, robots_url: ru },
                            ..rest
                        },
                        Decision::FetchRobots(ru),
                    ),
                    None => {
                        let cached = SessionState { robots: rest.robots.push((h, seq![])), ..rest };
                        if filtered(s, h) {
                            scan(s, cached)
                        } else {
                            fetch_page(cached, url, h)
                        }
                    },
                },
            },
        }
    }
}

/// `q` with each link appended that it does not hold yet.
pub open spec fn enqueue_all(q: Seq<Seq<char>>, links: Seq<Seq<char>>) -> Seq<Seq<char>>
    decreases links.len(),
{
    if links.len() == 0 {
        q
    } else {
        push_new(enqueue_all(q, links.drop_last()), links.last())
    }
}

/// One step of a session: the answer to what it waited for, and the next
/// request. An answer to something it does not wait for repeats the request.
pub open spec fn step(s: CrawlSettings, m: SessionState, a: Answer) -> (SessionState, Decision) {
    match m.waiting {
        Wait::Idle => scan(s, m),
        Wait::Robots { url, host, robots_url } => match a {
            Answer::RobotsBody(body) => {
                let txt = match body {
                    Some(t) => t,
                    None => seq![],
                };
                let cached = SessionState {
                    robots: m.robots.push((host, txt)),
                    waiting: Wait::Idle,
                    ..m
                };
                let refused = match body {
                    Some(t) => !robots_permit(s.agent, t, url),
                    None => false,
                };
                if refused || filtered(s, host) {
                    scan(s, cached)
                } else {
                    fetch_page(cached, url, host)
                }
            },
            _ => (m, Decision::FetchRobots(robots_url)),
        },
        Wait::Page { url } => match a {
            Answer::PageBody(Some(html)) => (
                SessionState {
                    queue: enqueue_all(m.queue, resolved_links(url, page_hrefs(html))),
                    produced: m.produced + 1,
                    waiting: Wait::Idle,
                    ..m
                },
                Decision::Persist,
            ),
            Answer::PageBody(None) => scan(s, SessionState { waiting: Wait::Idle, ..m }),
            _ => (m, Decision::FetchPage(url)),
        },
    }
}

/// A request is only ever made for a page whose host has a cached robots.txt
/// that is empty (none could be had) or lets the agent fetch it.
pub open spec fn fetch_permitted(s: CrawlSettings, m: SessionState, d: Decision) -> bool {
    match d {
        Decision::FetchPage(url) => match crate::links::url_host(url) {
            Some(h) => match record_for(m.robots, h) {
                Some(txt) => txt.len() == 0 || robots_permit(s.agent, txt, url),
                None => false,
            },
            None => false,
        },
        _ => true,
    }
}

/// What holds of a session between steps: the frontier holds no URL twice, a
/// pending robots.txt request is for a host not cached yet, and a pending page
/// request is permitted.
pub open spec fn session_inv(s: CrawlSettings, m: SessionState) -> bool {
    &&& m.queue.no_duplicates()
    &&& match m.waiting {
        Wait::Idle => true,
        Wait::Robots { url, host, robots_url } => {
            &&& crate::links::url_host(url) == Some(host)
            &&& record_for(m.robots, host) is None
        },
        Wait::Page { url } => fetch_permitted(s, m, Decision::FetchPage(url)),
    }
}

/// Caching a record keeps every earlier answer and answers for its own host
/// where nothing was cached.
pub proof fn lemma_record_push(r: Seq<(Seq<char>, Seq<char>)>, p: (Seq<char>, Seq<char>), k: Seq<
    char,
>)
    ensures
        record_for(r.push(p), k) == match record_for(r, k) {
            Some(t) => Some(t),
            None => if p.0 == k {
                Some(p.1)
            } else {
                None
            },
        },
    decreases r.len(),
{
    if r.len() == 0 {
        assert(r.push(p).skip(1) =~= r);
    } else {
        assert(r.push(p).skip(1) =~= r.skip(1).push(p));
        lemma_record_push(r.skip(1), p, k);
    }
}

/// Enqueueing links never puts a URL in the frontier twice.
pub proof fn lemma_enqueue_keeps_distinct(q: Seq<Seq<char>>, links: Seq<Seq<char>>)
    requires
        q.no_duplicates(),
    ensures
        enqueue_all(q, links).no_duplicates(),
    decreases links.len(),
{
    if links.len() > 0 {
        lemma_enqueue_keeps_distinct(q, links.drop_last());
        crate::links::lemma_push_new_distinct(enqueue_all(q, links.drop_last()), links.last());
    }
}

/// Dropping the front of a sequence without duplicates leaves none.
proof fn lemma_skip_distinct(q: Seq<Seq<char>>)
    requires
        q.no_duplicates(),
        q.len() > 0,
    ensures
        q.skip(1).no_duplicates(),
{
    assert forall|i: int, j: int|
        0 <= i < q.skip(1).len() && 0 <= j < q.skip(1).len() && i != j implies q.skip(1)[i]
        != q.skip(1)[j] by {
        assert(q.skip(1)[i] == q[i + 1]);
        assert(q.skip(1)[j] == q[j + 1]);
    }
}

/// Scanning the frontier keeps the session's invariant, and asks only for
/// permitted pages.
pub proof fn lemma_scan_keeps_inv(s: CrawlSettings, m: SessionState)
    requires
        m.queue.no_duplicates(),
    ensures
        session_inv(s, scan(s, m).0),
        fetch_permitted(s, scan(s, m).0, scan(s, m).1),
    decreases m.queue.len(),
{
    if m.queue.len() == 0 || limit_reached(s, m.produced) {
    } else {
        let url = m.queue[0];
        let rest = SessionState { queue: m.queue.skip(1), waiting: Wait::Idle, ..m };
        lemma_skip_distinct(m.queue);
        match crate::links::url_host(url) {
            None => lemma_scan_keeps_inv(s, rest),
            Some(h) => match record_for(m.robots, h) {
                Some(txt) => if !robots_permit(s.agent, txt, url) || filtered(s, h) {
                    lemma_scan_keeps_inv(s, rest);
                } else {
                },
                None => match robots_location(url) {
                    Some(ru) => {},
                    None => {
                        let cached = SessionState { robots: rest.robots.push((h, seq![])), ..rest };
                        lemma_record_push(rest.robots, (h, seq![]), h);
                        if filtered(s, h) {
                            lemma_scan_keeps_inv(s, cached);
                        }
                    },
                },
            },
        }
    }
}

/// Each step keeps the session's invariant, and asks only for permitted pages.
pub proof fn lemma_step_keeps_inv(s: CrawlSettings, m: SessionState, a: Answer)
    requires
        session_inv(s, m),
    ensures
        session_inv(s, step(s, m, a).0),
        fetch_permitted(s, step(s, m, a).0, step(s, m, a).1),
{
    match m.waiting {
        Wait::Idle => lemma_scan_keeps_inv(s, m),
        Wait::Robots { url, host, robots_url } => match a {
            Answer::RobotsBody(body) => {
                let txt = match body {
                    Some(t) => t,
                    None => seq![],
                };
                let cached = SessionState {
                    robots: m.robots.push((host, txt)),
                    waiting: Wait::Idle,
                    ..m
                };
                lemma_record_push(m.robots, (host, txt), host);
                lemma_scan_keeps_inv(s, cached);
            },
            _ => {},
        },
        Wait::Page { url } => match a {
            Answer::PageBody(Some(html)) => {
                lemma_enqueue_keeps_distinct(m.queue, resolved_links(url, page_hrefs(html)));
            },
            Answer::PageBody(None) => lemma_scan_keeps_inv(
                s,
                SessionState { waiting: Wait::Idle, ..m },
            ),
            _ => {},
        },
    }
}

/// A session whose seed is refused by its site's robots.txt ends as soon as
/// that file arrives, with no document produced.
pub proof fn lemma_refused_seed_ends_session(
    s: CrawlSettings,
    m: SessionState,
    seed: Seq<char>,
    host: Seq<char>,
    robots_url: Seq<char>,
    txt: Seq<char>,
)
    requires
        m.queue == seq![seed],
        m.waiting == Wait::Idle,
        !limit_reached(s, m.produced),
        crate::links::url_host(seed) == Some(host),
        record_for(m.robots, host) is None,
        robots_location(seed) == Some(robots_url),
        crate::robots::robots_verdict(s.agent, txt, seed) == Some(false),
    ensures
        scan(s, m).1 == Decision::FetchRobots(robots_url),
        step(s, scan(s, m).0, Answer::RobotsBody(Some(txt))).1 == Decision::Finished,
        step(s, scan(s, m).0, Answer::RobotsBody(Some(txt))).0.produced == m.produced,
{
    let m1 = scan(s, m).0;
    assert(m.queue.skip(1) =~= Seq::<Seq<char>>::empty());
    assert(m1.queue.len() == 0);
    let cached = SessionState { robots: m1.robots.push((host, txt)), waiting: Wait::Idle, ..m1 };
    assert(scan(s, cached).1 == Decision::Finished);
}

/// What a session asks of its driver.
pub enum CrawlAction {
    /// The session is over.
    Finished,
    /// Fetch this robots.txt and answer with `RobotsBody`.
    FetchRobots(String),
    /// Fetch this page and answer with `PageBody`.
    FetchPage(String),
    /// Store the newest document, then answer with `Proceed`.
    Persist,
}

impl View for CrawlAction {
    type V = Decision;

    open spec fn view(&self) -> Decision {
        match self {
            CrawlAction::Finished => Decision::Finished,
            CrawlAction::FetchRobots(u) => Decision::FetchRobots(u@),
            CrawlAction::FetchPage(u) => Decision::FetchPage(u@),
            CrawlAction::Persist => Decision::Persist,
        }
    }
}

/// What the driver hands back to a session.
pub enum CrawlEvent {
    /// Go on after storing a document.
    Proceed,
    /// The body of the robots.txt asked for; `None` where the fetch failed.
    RobotsBody(Option<String>),
    /// The body of the page asked for; `None` where the fetch failed.
    PageBody(Option<String>),
}

impl View for CrawlEvent {
    type V = Answer;

    open spec fn view(&self) -> Answer {
        match self {
            CrawlEvent::Proceed => Answer::Proceed,
            CrawlEvent::RobotsBody(b) => Answer::RobotsBody(opt_view(*b)),
            CrawlEvent::PageBody(b) => Answer::PageBody(opt_view(*b)),
        }
    }
}

enum Awaiting {
    Idle,
    Robots { url: String, host: String, robots_url: String },
    Page { url: String },
}

/// A crawler: its settings, and the state of its session.
pub struct Crawler {
    user_agent: String,
    robot_records: Vec<(String, String)>,
    websites: Vec<String>,
    max_depth: i32,
    whitelist_en: bool,
    whitelist: Vec<String>,
    blacklist_en: bool,
    blacklist: Vec<String>,
    delay_ms: u64,
    index: Vec<IndexEntry>,
    queue: VecDeque<String>,
    awaiting: Awaiting,
}

impl Crawler {
    /// The settings of the session.
    pub closed spec fn settings(&self) -> CrawlSettings {
        CrawlSettings {
            agent: self.user_agent@,
            limit: self.max_depth as int,
            allow_on: self.whitelist_en,
            allow: string_views(self.whitelist@),
            deny_on: self.blacklist_en,
            deny: string_views(self.blacklist@),
        }
    }

    /// The state of the session.
    pub closed spec fn state(&self) -> SessionState {
        SessionState {
            queue: string_views(self.queue@),
            robots: self.robot_records@.map_values(|p: (String, String)| (p.0@, p.1@)),
            hosts: string_views(self.websites@),
            produced: self.index@.len(),
            waiting: match self.awaiting {
                Awaiting::Idle => Wait::Idle,
                Awaiting::Robots { url, host, robots_url } => Wait::Robots {
                    url: url@,
                    host: host@,
                    robots_url: robots_url@,
                },
                Awaiting::Page { url } => Wait::Page { url: url@ },
            },
        }
    }

    /// The documents produced, in order.
    pub closed spec fn documents(&self) -> Seq<IndexEntry> {
        self.index@
    }

    /// The pause between two requests, in milliseconds.
    pub closed spec fn delay(&self) -> u64 {
        self.delay_ms
    }

    /// Whether the crawler's state is one its sessions can reach.
    pub open spec fn wf(&self) -> bool {
        session_inv(self.settings(), self.state())
    }

    /// The user agent the crawler announces.
    pub fn user_agent(&self) -> (r: &str)
        ensures
            r@ == self.settings().agent,
    {
        self.user_agent.as_str()
    }

    /// The pause between two requests, in milliseconds.
    pub fn delay_millis(&self) -> (r: u64)
        ensures
            r == self.delay(),
    {
        self.delay_ms
    }

    /// The documents produced so far.
    pub fn index(&self) -> (r: &Vec<IndexEntry>)
        ensures
            r@ == self.documents(),
    {
        &self.index
    }

    /// The hosts visited so far.
    pub fn websites(&self) -> (r: &Vec<String>)
        ensures
            string_views(r@) == self.state().hosts,
    {
        &self.websites
    }

    fn limit_hit(&self) -> (r: bool)
        ensures
            r == limit_reached(self.settings(), self.state().produced),
    {
        self.max_depth != -1 && (self.max_depth < 0 || self.index.len() >= self.max_depth as usize)
    }

    fn is_filtered(&self, host: &String) -> (r: bool)
        ensures
            r == filtered(self.settings(), host@),
    {
        let hc = chars_of(host.as_str());
        let denied = self.blacklist_en && matches_any_pattern(hc.as_slice(), self.blacklist.as_slice());
        let refused = self.whitelist_en && !matches_any_pattern(hc.as_slice(), self.whitelist.as_slice());
        denied || refused
    }

    fn record_position(&self, host: &String) -> (r: Option<usize>)
        ensures
            match r {
                Some(i) => i < self.robot_records@.len() && record_for(self.state().robots, host@)
                    == Some(self.robot_records@[i as int].1@),
                None => record_for(self.state().robots, host@) is None,
            },
    {
        let ghost recs = self.state().robots;
        let mut i: usize = 0;
        assert(recs.skip(0) =~= recs);
        while i < self.robot_records.len()
            invariant
                i <= self.robot_records@.len(),
                recs == self.state().robots,
                record_for(recs, host@) == record_for(recs.skip(i as int), host@),
            decreases self.robot_records@.len() - i,
        {
            assert(recs.skip(i as int)[0] == recs[i as int]);
            if self.robot_records[i].0 == *host {
                return Some(i);
            }
            assert(recs.skip(i as int).skip(1) =~= recs.skip(i + 1 as int));
            i += 1;
        }
        None
    }

    fn fetch(&mut self, url: String, host: String) -> (a: CrawlAction)
        ensures
            (final(self).state(), a@) == fetch_page(old(self).state(), url@, host@),
            final(self).settings() == old(self).settings(),
            final(self).documents() == old(self).documents(),
            final(self).delay() == old(self).delay(),
    {
        push_unique(&mut self.websites, host);
        let u = url.clone();
        self.awaiting = Awaiting::Page { url };
        CrawlAction::FetchPage(u)
    }

    /// Pops URLs off the frontier until one needs a request, or the session ends.
    fn scan(&mut self) -> (a: CrawlAction)
        requires
            old(self).state().waiting == Wait::Idle,
        ensures
            (final(self).state(), a@) == scan(old(self).settings(), old(self).state()),
            final(self).settings() == old(self).settings(),
            final(self).documents() == old(self).documents(),
            final(self).delay() == old(self).delay(),
    {
        let ghost s = self.settings();
        let ghost target = scan(s, self.state());
        loop
            invariant
                s == old(self).settings(),
                target == scan(s, old(self).state()),
                self.settings() == s,
                self.state().waiting == Wait::Idle,
                scan(s, self.state()) == target,
                self.documents() == old(self).documents(),
                self.delay() == old(self).delay(),
            decreases self.queue@.len(),
        {
            if self.queue.len() == 0 || self.limit_hit() {
                return CrawlAction::Finished;
            }
            let ghost before = self.state();
            let url = self.queue.pop_front().unwrap();
            let ghost rest = SessionState { queue: before.queue.skip(1), waiting: Wait::Idle, ..before };
            assert(self.state().queue =~= rest.queue);
            assert(self.state() == rest);
            assert(url@ == before.queue[0]);
            match host_of(url.as_str()) {
                None => {
                    continue;
                },
                Some(host) => {
                    match self.record_position(&host) {
                        Some(i) => {
                            let ok = permits(
                                self.user_agent.as_str(),
                                self.robot_records[i].1.as_str(),
                                url.as_str(),
                            );
                            if !ok || self.is_filtered(&host) {
                                continue;
                            }
                            return self.fetch(url, host);
                        },
                        None => {
                            match robots_url_for(url.as_str()) {
                                Some(ru) => {
                                    let target_url = ru.clone();
                                    self.awaiting = Awaiting::Robots { url, host, robots_url: ru };
                                    return CrawlAction::FetchRobots(target_url);
                                },
                                None => {
                                    let key = host.clone();
                                    self.robot_records.push((key, String::new()));
                                    assert(self.state().robots =~= rest.robots.push((host@, seq![])));
                                    if self.is_filtered(&host) {
                                        continue;
                                    }
                                    return self.fetch(url, host);
                                },
                            }
                        },
                    }
                },
            }
        }
    }

    /// The document for the page at `url` whose body is `html`.
    pub fn index_url(url: &str, html: &str) -> (r: IndexEntry)
        ensures
            describes(r, url@, html@),
            string_views(r.links@).no_duplicates(),
            forall|i: int| 0 <= i < r.links@.len() ==> !is_excluded(#[trigger] r.links@[i]@, url@),
    {
        let bodies = select_texts(html, "body");
        let body_scripts = select_nested_texts(html, "body", "script");
        let titles = select_texts(html, "title");
        let title_scripts = select_nested_texts(html, "title", "script");
        let alts = select_attributes(html, "img[alt]", "alt");
        let text = gather_section_texts(Vec::new(), bodies.as_slice(), body_scripts.as_slice());
        let text = gather_section_texts(text, titles.as_slice(), title_scripts.as_slice());
        let text = gather_alt_texts(text, alts.as_slice());
        let title = if titles.len() == 0 {
            String::new()
        } else {
            titles[titles.len() - 1].clone()
        };
        assert(title@ == page_title(html@)) by {
            if titles@.len() > 0 {
                assert(string_views(titles@).last() == titles@[titles@.len() - 1]@);
            }
        }
        let scripts = select_texts(html, "script");
        assert(scripts@.len() == string_views(scripts@).len());
        let words = split_words(text.as_slice());
        let content = join_chars(words.as_slice());
        let preview = blurb_words(words.as_slice());
        let anchors = select_attributes(html, "a[href]", "href");
        let hrefs = present_values(anchors.as_slice());
        let links = resolve_links(url, hrefs.as_slice());
        IndexEntry {
            url: url.to_owned(),
            number_js: scripts.len(),
            title,
            links,
            content: string_of(content.as_slice()),
            blurb: string_of(preview.as_slice()),
        }
    }

    /// Starts a session from `seed`: the frontier holds the seed alone, and the
    /// first request, if any, is returned.
    pub fn crawl(&mut self, seed: &str) -> (a: CrawlAction)
        requires
            old(self).wf(),
        ensures
            final(self).wf(),
            (final(self).state(), a@) == scan(
                old(self).settings(),
                SessionState { queue: seq![seed@], waiting: Wait::Idle, ..old(self).state() },
            ),
            fetch_permitted(final(self).settings(), final(self).state(), a@),
            final(self).settings() == old(self).settings(),
            final(self).documents() == old(self).documents(),
            final(self).delay() == old(self).delay(),
    {
        let mut q: VecDeque<String> = VecDeque::new();
        q.push_back(seed.to_owned());
        self.queue = q;
        self.awaiting = Awaiting::Idle;
        assert(self.state().queue =~= seq![seed@]);
        proof {
            assert(self.state().queue.no_duplicates());
            lemma_scan_keeps_inv(self.settings(), self.state());
        }
        self.scan()
    }

    /// Takes the driver's answer and returns the next request.
    pub fn advance(&mut self, event: CrawlEvent) -> (a: CrawlAction)
        requires
            old(self).wf(),
        ensures
            final(self).wf(),
            (final(self).state(), a@) == step(old(self).settings(), old(self).state(), event@),
            fetch_permitted(final(self).settings(), final(self).state(), a@),
            final(self).settings() == old(self).settings(),
            final(self).delay() == old(self).delay(),
            match (old(self).state().waiting, event@) {
                (Wait::Page { url }, Answer::PageBody(Some(html))) => {
                    &&& final(self).documents().drop_last() == old(self).documents()
                    &&& final(self).documents().len() == old(self).documents().len() + 1
                    &&& describes(final(self).documents().last(), url, html)
                },
                _ => final(self).documents() == old(self).documents(),
            },
    {
        proof {
            lemma_step_keeps_inv(self.settings(), self.state(), event@);
        }
        let ghost m = self.state();
        let mut waiting = Awaiting::Idle;
        core::mem::swap(&mut self.awaiting, &mut waiting);
        match waiting {
            Awaiting::Idle => {
                assert(self.state() == m);
                self.scan()
            },
            Awaiting::Robots { url, host, robots_url } => match event {
                CrawlEvent::RobotsBody(body) => {
                    let (txt, refused) = match body {
                        Some(t) => {
                            let ok = permits(self.user_agent.as_str(), t.as_str(), url.as_str());
                            (t, !ok)
                        },
                        None => (String::new(), false),
                    };
                    let key = host.clone();
                    let ghost cached_txt = txt@;
                    self.robot_records.push((key, txt));
                    assert(self.state().robots =~= m.robots.push((host@, cached_txt)));
                    assert(self.state() == SessionState {
                        robots: m.robots.push((host@, cached_txt)),
                        waiting: Wait::Idle,
                        ..m
                    });
                    if refused || self.is_filtered(&host) {
                        self.scan()
                    } else {
                        self.fetch(url, host)
                    }
                },
                _ => {
                    let again = robots_url.clone();
                    self.awaiting = Awaiting::Robots { url, host, robots_url };
                    assert(self.state() == m);
                    CrawlAction::FetchRobots(again)
                },
            },
            Awaiting::Page { url } => match event {
                CrawlEvent::PageBody(Some(html)) => {
                    let entry = Crawler::index_url(url.as_str(), html.as_str());
                    self.enqueue_links(&entry.links);
                    let ghost queued = self.state().queue;
                    self.index.push(entry);
                    assert(self.state() == SessionState {
                        queue: queued,
                        produced: m.produced + 1,
                        waiting: Wait::Idle,
                        ..m
                    });
                    assert(self.documents().drop_last() =~= old(self).documents());
                    CrawlAction::Persist
                },
                CrawlEvent::PageBody(None) => {
                    assert(self.state() == SessionState { waiting: Wait::Idle, ..m });
                    self.scan()
                },
                _ => {
                    let again = url.clone();
                    self.awaiting = Awaiting::Page { url };
                    assert(self.state() == m);
                    CrawlAction::FetchPage(again)
                },
            },
        }
    }

    /// Appends to the frontier each link it does not hold yet.
    fn enqueue_links(&mut self, links: &Vec<String>)
        ensures
            final(self).state() == (SessionState {
                queue: enqueue_all(old(self).state().queue, string_views(links@)),
                ..old(self).state()
            }),
            final(self).settings() == old(self).settings(),
            final(self).documents() == old(self).documents(),
            final(self).delay() == old(self).delay(),
    {
        let mut i: usize = 0;
        assert(string_views(links@).take(0) =~= Seq::<Seq<char>>::empty());
        while i < links.len()
            invariant
                i <= links@.len(),
                self.state() == (SessionState {
                    queue: enqueue_all(old(self).state().queue, string_views(links@).take(i as int)),
                    ..old(self).state()
                }),
                self.settings() == old(self).settings(),
                self.documents() == old(self).documents(),
                self.delay() == old(self).delay(),
            decreases links@.len() - i,
        {
            let ghost pre = string_views(links@).take(i + 1 as int);
            assert(pre.drop_last() =~= string_views(links@).take(i as int));
            assert(pre.last() == links@[i as int]@);
            let ghost before = self.state();
            if !self.queued(&links[i]) {
                self.queue.push_back(links[i].clone());
                assert(self.state().queue =~= before.queue.push(links@[i as int]@));
            }
            i += 1;
        }
        assert(string_views(links@).take(i as int) =~= string_views(links@));
    }

    /// Whether the frontier holds `url`.
    fn queued(&self, url: &String) -> (r: bool)
        ensures
            r == self.state().queue.contains(url@),
    {
        let mut i: usize = 0;
        while i < self.queue.len()
            invariant
                i <= self.queue@.len(),
                forall|k: int| 0 <= k < i ==> self.queue@[k]@ != url@,
            decreases self.queue@.len() - i,
        {
            if self.queue[i] == *url {
                assert(self.state().queue[i as int] == url@);
                return true;
            }
            i += 1;
        }
        assert(!self.state().queue.contains(url@)) by {
            if self.state().queue.contains(url@) {
                let k = choose|k: int| 0 <= k < self.queue@.len() && self.state().queue[k] == url@;
                assert(self.queue@[k]@ == url@);
            }
        }
        false
    }
}

/// Whether one of `pats` occurs in `host`.
fn matches_any_pattern(host: &[char], pats: &[String]) -> (r: bool)
    ensures
        r == matches_any(host@, string_views(pats@)),
{
    let mut i: usize = 0;
    while i < pats.len()
        invariant
            i <= pats@.len(),
            forall|k: int| 0 <= k < i ==> !contains_text(host@, pats@[k]@),
        decreases pats@.len() - i,
    {
        let p = chars_of(pats[i].as_str());
        if contains_chars(host, p.as_slice()) {
            assert(string_views(pats@)[i as int] == pats@[i as int]@);
            return true;
        }
        i += 1;
    }
    assert(!matches_any(host@, string_views(pats@))) by {
        if matches_any(host@, string_views(pats@)) {
            let k = choose|k: int|
                0 <= k < pats@.len() && contains_text(host@, #[trigger] string_views(pats@)[k]);
            assert(string_views(pats@)[k] == pats@[k]@);
        }
    }
    false
}

/// The state of a session that has not started.
pub open spec fn fresh_session() -> SessionState {
    SessionState { queue: seq![], robots: seq![], hosts: seq![], produced: 0, waiting: Wait::Idle }
}

/// A copy of each string.
fn copy_strings(v: &Vec<String>) -> (r: Vec<String>)
    ensures
        string_views(r@) == string_views(v@),
{
    let mut out: Vec<String> = Vec::new();
    let mut i: usize = 0;
    while i < v.len()
        invariant
            i <= v@.len(),
            string_views(out@) == string_views(v@).take(i as int),
        decreases v@.len() - i,
    {
        let c = v[i].clone();
        let ghost before = out@;
        out.push(c);
        assert(string_views(out@) =~= string_views(before).push(v@[i as int]@));
        assert(string_views(v@).take(i + 1 as int) =~= string_views(v@).take(i as int).push(
            v@[i as int]@,
        ));
        i += 1;
    }
    assert(string_views(v@).take(i as int) =~= string_views(v@));
    out
}

/// Assembles the settings of a crawler.
pub struct CrawlerBuilder {
    crawler: Crawler,
}

impl CrawlerBuilder {
    /// The settings assembled so far.
    pub closed spec fn settings(&self) -> CrawlSettings {
        self.crawler.settings()
    }

    /// The pause between two requests, in milliseconds.
    pub closed spec fn delay(&self) -> u64 {
        self.crawler.delay_ms
    }

    /// Settings for `user_agent`: no document bound, no lists, one second
    /// between requests.
    pub fn new(user_agent: &str) -> (r: CrawlerBuilder)
        ensures
            r.settings() == (CrawlSettings {
                agent: user_agent@,
                limit: -1,
                allow_on: false,
                allow: seq![],
                deny_on: false,
                deny: seq![],
            }),
            r.delay() == 1000,
    {
        let r = CrawlerBuilder {
            crawler: Crawler {
                user_agent: user_agent.to_owned(),
                robot_records: Vec::new(),
                websites: Vec::new(),
                max_depth: -1,
                whitelist_en: false,
                whitelist: Vec::new(),
                blacklist_en: false,
                blacklist: Vec::new(),
                delay_ms: 1000,
                index: Vec::new(),
                queue: VecDeque::new(),
                awaiting: Awaiting::Idle,
            },
        };
        assert(r.settings().allow =~= seq![]);
        assert(r.settings().deny =~= seq![]);
        r
    }

    /// Turns the allow list on: a host must contain one of `whitelist`.
    pub fn add_whitelist(self, whitelist: Vec<String>) -> (r: CrawlerBuilder)
        ensures
            r.settings() == (CrawlSettings {
                allow_on: true,
                allow: string_views(whitelist@),
                ..self.settings()
            }),
            r.delay() == self.delay(),
    {
        let mut b = self;
        b.crawler.whitelist_en = true;
        b.crawler.whitelist = whitelist;
        b
    }

    /// Turns the deny list on: a host must contain none of `blacklist`.
    pub fn add_blacklist(self, blacklist: Vec<String>) -> (r: CrawlerBuilder)
        ensures
            r.settings() == (CrawlSettings {
                deny_on: true,
                deny: string_views(blacklist@),
                ..self.settings()
            }),
            r.delay() == self.delay(),
    {
        let mut b = self;
        b.crawler.blacklist_en = true;
        b.crawler.blacklist = blacklist;
        b
    }

    /// Sets the pause between two requests, in milliseconds.
    pub fn delay_time(self, millis: u64) -> (r: CrawlerBuilder)
        ensures
            r.settings() == self.settings(),
            r.delay() == millis,
    {
        let mut b = self;
        b.crawler.delay_ms = millis;
        b
    }

    /// Sets the most documents a session produces; -1 for no bound.
    pub fn max_depth(self, depth: i32) -> (r: CrawlerBuilder)
        ensures
            r.settings() == (CrawlSettings { limit: depth as int, ..self.settings() }),
            r.delay() == self.delay(),
    {
        let mut b = self;
        b.crawler.max_depth = depth;
        b
    }

    /// A crawler with these settings and no session yet.
    pub fn build(&self) -> (r: Crawler)
        ensures
            r.settings() == self.settings(),
            r.delay() == self.delay(),
            r.state() == fresh_session(),
            r.documents() == Seq::<IndexEntry>::empty(),
            r.wf(),
    {
        let c = &self.crawler;
        let r = Crawler {
            user_agent: c.user_agent.clone(),
            robot_records: Vec::new(),
            websites: Vec::new(),
            max_depth: c.max_depth,
            whitelist_en: c.whitelist_en,
            whitelist: copy_strings(&c.whitelist),
            blacklist_en: c.blacklist_en,
            blacklist: copy_strings(&c.blacklist),
            delay_ms: c.delay_ms,
            index: Vec::new(),
            queue: VecDeque::new(),
            awaiting: Awaiting::Idle,
        };
        assert(r.state() == fresh_session()) by {
            assert(r.state().queue =~= seq![]);
            assert(r.state().robots =~= seq![]);
            assert(r.state().hosts =~= seq![]);
        }
        assert(r.documents() =~= Seq::<IndexEntry>::empty());
        r
    }
}

} // verus!
