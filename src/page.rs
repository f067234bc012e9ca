//! Content extraction: the title, visible text, blurb, script count and
//! outbound links of a fetched HTML page.
use vstd::prelude::*;
use crate::links::resolved_links;
use crate::text::{
    chars_of, join_chars, join_words, opt_view, push_all, replace_all, replace_chars, split_words,
    string_of, string_views, views, words_of,
};

verus! {

/// The inner text of each element of `html` that `selector` matches, in
/// document order.
pub uninterp spec fn selected_texts(html: Seq<char>, selector: Seq<char>) -> Seq<Seq<char>>;

/// For each element of `html` that `selector` matches, in document order, the
/// inner texts of the elements inside it that `nested` matches.
pub uninterp spec fn nested_texts(html: Seq<char>, selector: Seq<char>, nested: Seq<char>) -> Seq<
    Seq<Seq<char>>,
>;

/// For each element of `html` that `selector` matches, in document order, the
/// value of its attribute `attr`, where it has one that is valid UTF-8.
pub uninterp spec fn selected_attributes(
    html: Seq<char>,
    selector: Seq<char>,
    attr: Seq<char>,
) -> Seq<Option<Seq<char>>>;

/// Relies on `tl::parse`, `VDom::query_selector` and `Node::inner_text`: the
/// inner text of each matched element, in document order.
#[verifier::external_body]
pub(crate) fn select_texts(html: &str, selector: &str) -> (r: Vec<String>)
    ensures
        string_views(r@) == selected_texts(html@, selector@),
{
    let dom = match tl::parse(html, tl::ParserOptions::default()) {
        Ok(d) => d,
        Err(_) => return Vec::new(),
    };
    let parser = dom.parser();
    match dom.query_selector(selector) {
        Some(found) => found.filter_map(|h| h.get(parser)).map(|n| n.inner_text(parser).into_owned()).collect(),
        None => Vec::new(),
    }
}

/// Relies on `tl::parse`, `VDom::query_selector`, `HTMLTag::query_selector` and
/// `Node::inner_text`: for each matched element, the inner texts of the
/// elements inside it that `nested` matches.
#[verifier::external_body]
pub(crate) fn select_nested_texts(html: &str, selector: &str, nested: &str) -> (r: Vec<Vec<String>>)
    ensures
        r@.map_values(|v: Vec<String>| string_views(v@)) == nested_texts(html@, selector@, nested@),
{
    let dom = match tl::parse(html, tl::ParserOptions::default()) {
        Ok(d) => d,
        Err(_) => return Vec::new(),
    };
    let parser = dom.parser();
    match dom.query_selector(selector) {
        Some(found) => found.filter_map(|h| h.get(parser)).map(|n| match n.as_tag().and_then(|t| t.query_selector(parser, nested)) {
            Some(inner) => inner.filter_map(|h| h.get(parser)).map(|s| s.inner_text(parser).into_owned()).collect(),
            None => Vec::new(),
        }).collect(),
        None => Vec::new(),
    }
}

/// Relies on `tl::parse`, `VDom::query_selector`, `Attributes::get` and
/// `Bytes::try_as_utf8_str`: for each matched element, its attribute `attr`.
#[verifier::external_body]
pub(crate) fn select_attributes<'a>(html: &'a str, selector: &str, attr: &'a str) -> (r: Vec<Option<String>>)
    ensures
        r@.map_values(|o: Option<String>| opt_view(o)) == selected_attributes(html@, selector@, attr@),
{
    let dom = match tl::parse(html, tl::ParserOptions::default()) {
        Ok(d) => d,
        Err(_) => return Vec::new(),
    };
    let parser = dom.parser();
    match dom.query_selector(selector) {
        Some(found) => found.filter_map(|h| h.get(parser)).map(|n| n.as_tag().and_then(|t| t.attributes().get(attr)).flatten().and_then(|b| b.try_as_utf8_str()).map(|s| s.to_string())).collect(),
        None => Vec::new(),
    }
}

/// One crawled page.
#[derive(Clone, Debug)]
pub struct IndexEntry {
    /// The URL the page was fetched from
    pub url: String,
    /// The number of script elements in the page
    pub number_js: usize,
    /// The page title
    pub title: String,
    /// The outbound links, deduplicated
    pub links: Vec<String>,
    /// The visible text, whitespace collapsed
    pub content: String,
    /// A short preview of the text
    pub blurb: String,
}

/// `text` with the text of each script removed in turn (an empty script
/// text removes nothing).
pub open spec fn strip_scripts(text: Seq<char>, scripts: Seq<Seq<char>>) -> Seq<char>
    decreases scripts.len(),
{
    if scripts.len() == 0 {
        text
    } else {
        let t = strip_scripts(text, scripts.drop_last());
        let p = scripts.last();
        if p.len() == 0 {
            t
        } else {
            replace_all(t, p, seq![])
        }
    }
}

/// The script texts of the `i`-th matched element.
pub open spec fn scripts_of(nested: Seq<Seq<Seq<char>>>, i: int) -> Seq<Seq<char>> {
    if 0 <= i < nested.len() {
        nested[i]
    } else {
        seq![]
    }
}

/// `start` followed, element by element, by each element's text and a space,
/// its scripts' texts being stripped from all that has gathered so far.
pub open spec fn gather_sections(
    start: Seq<char>,
    texts: Seq<Seq<char>>,
    nested: Seq<Seq<Seq<char>>>,
) -> Seq<char>
    decreases texts.len(),
{
    if texts.len() == 0 {
        start
    } else {
        strip_scripts(
            gather_sections(start, texts.drop_last(), nested) + texts.last() + seq![' '],
            scripts_of(nested, texts.len() - 1),
        )
    }
}

/// `start` followed by each present alternative text and a space.
pub open spec fn gather_alts(start: Seq<char>, alts: Seq<Option<Seq<char>>>) -> Seq<char>
    decreases alts.len(),
{
    if alts.len() == 0 {
        start
    } else {
        let t = gather_alts(start, alts.drop_last());
        match alts.last() {
            Some(a) => t + a + seq![' '],
            None => t,
        }
    }
}

/// The values that are present, in order.
pub open spec fn present(s: Seq<Option<Seq<char>>>) -> Seq<Seq<char>>
    decreases s.len(),
{
    if s.len() == 0 {
        seq![]
    } else {
        match s.last() {
            Some(v) => present(s.drop_last()).push(v),
            None => present(s.drop_last()),
        }
    }
}

/// The raw text of a page: its bodies, then its titles, then the alternative
/// texts of its images.
pub open spec fn page_text(html: Seq<char>) -> Seq<char> {
    let bodies = gather_sections(
        seq![],
        selected_texts(html, "body"@),
        nested_texts(html, "body"@, "script"@),
    );
    let titled = gather_sections(
        bodies,
        selected_texts(html, "title"@),
        nested_texts(html, "title"@, "script"@),
    );
    gather_alts(titled, selected_attributes(html, "img[alt]"@, "alt"@))
}

/// The text of the page's last title element; empty where it has none.
pub open spec fn page_title(html: Seq<char>) -> Seq<char> {
    let ts = selected_texts(html, "title"@);
    if ts.len() == 0 {
        seq![]
    } else {
        ts.last()
    }
}

/// The raw `href` values of the page's anchors.
pub open spec fn page_hrefs(html: Seq<char>) -> Seq<Seq<char>> {
    present(selected_attributes(html, "a[href]"@, "href"@))
}

/// The preview of a text with words `ws`: all of them up to five words, from
/// the sixth on up to twenty-nine, else the eleventh to the thirtieth.
pub open spec fn blurb_of(ws: Seq<Seq<char>>) -> Seq<char> {
    if ws.len() <= 5 {
        join_words(ws)
    } else if ws.len() < 30 {
        join_words(ws.skip(5))
    } else {
        join_words(ws.subrange(10, 30))
    }
}

/// The preview of a text with words `ws`.
pub fn blurb_words(ws: &[Vec<char>]) -> (r: Vec<char>)
    ensures
        r@ == blurb_of(views(ws@)),
{
    let n = ws.len();
    if n <= 5 {
        join_chars(ws)
    } else if n < 30 {
        let tail = &ws[5..n];
        assert(views(tail@) =~= views(ws@).skip(5));
        join_chars(tail)
    } else {
        let mid = &ws[10..30];
        assert(views(mid@) =~= views(ws@).subrange(10, 30));
        join_chars(mid)
    }
}

/// The preview of `text`, taken from its whitespace-separated words.
pub fn blurb(text: &str) -> (r: String)
    ensures
        r@ == blurb_of(words_of(text@)),
{
    let cs = chars_of(text);
    let ws = split_words(cs.as_slice());
    let b = blurb_words(ws.as_slice());
    string_of(b.as_slice())
}

/// Removes the text of each script from `text`, in turn.
pub(crate) fn strip_all(text: Vec<char>, scripts: &[String]) -> (r: Vec<char>)
    ensures
        r@ == strip_scripts(text@, string_views(scripts@)),
{
    let mut t = text;
    let mut j: usize = 0;
    let empty: Vec<char> = Vec::new();
    assert(string_views(scripts@).take(0) =~= Seq::<Seq<char>>::empty());
    while j < scripts.len()
        invariant
            j <= scripts@.len(),
            empty@ == Seq::<char>::empty(),
            t@ == strip_scripts(text@, string_views(scripts@).take(j as int)),
        decreases scripts@.len() - j,
    {
        let ghost pre = string_views(scripts@).take(j + 1 as int);
        assert(pre.drop_last() =~= string_views(scripts@).take(j as int));
        assert(pre.last() == scripts@[j as int]@);
        let p = chars_of(scripts[j].as_str());
        if p.len() > 0 {
            t = replace_chars(t.as_slice(), p.as_slice(), empty.as_slice());
        }
        j += 1;
    }
    assert(string_views(scripts@).take(j as int) =~= string_views(scripts@));
    t
}

/// Gathers each matched element's text after `start`, stripping its scripts.
pub(crate) fn gather_section_texts(start: Vec<char>, texts: &[String], nested: &[Vec<String>]) -> (r: Vec<
    char,
>)
    ensures
        r@ == gather_sections(
            start@,
            string_views(texts@),
            nested@.map_values(|v: Vec<String>| string_views(v@)),
        ),
{
    let ghost nv = nested@.map_values(|v: Vec<String>| string_views(v@));
    let mut t = start;
    let mut i: usize = 0;
    let none: Vec<String> = Vec::new();
    assert(string_views(texts@).take(0) =~= Seq::<Seq<char>>::empty());
    while i < texts.len()
        invariant
            i <= texts@.len(),
            none@.len() == 0,
            nv == nested@.map_values(|v: Vec<String>| string_views(v@)),
            t@ == gather_sections(start@, string_views(texts@).take(i as int), nv),
        decreases texts@.len() - i,
    {
        let ghost pre = string_views(texts@).take(i + 1 as int);
        assert(pre.drop_last() =~= string_views(texts@).take(i as int));
        assert(pre.last() == texts@[i as int]@);
        let ghost before = t@;
        let piece = chars_of(texts[i].as_str());
        push_all(&mut t, piece.as_slice());
        t.push(' ');
        assert(t@ =~= before + texts@[i as int]@ + seq![' ']);
        let scripts = if i < nested.len() {
            &nested[i]
        } else {
            &none
        };
        assert(string_views(scripts@) == scripts_of(nv, i as int)) by {
            if i < nested@.len() {
            } else {
                assert(string_views(scripts@) =~= Seq::<Seq<char>>::empty());
            }
        }
        t = strip_all(t, scripts.as_slice());
        i += 1;
    }
    assert(string_views(texts@).take(i as int) =~= string_views(texts@));
    t
}

/// Appends each present alternative text and a space.
pub(crate) fn gather_alt_texts(start: Vec<char>, alts: &[Option<String>]) -> (r: Vec<char>)
    ensures
        r@ == gather_alts(start@, alts@.map_values(|o: Option<String>| opt_view(o))),
{
    let ghost av = alts@.map_values(|o: Option<String>| opt_view(o));
    let mut t = start;
    let mut i: usize = 0;
    assert(av.take(0) =~= Seq::<Option<Seq<char>>>::empty());
    while i < alts.len()
        invariant
            i <= alts@.len(),
            av == alts@.map_values(|o: Option<String>| opt_view(o)),
            t@ == gather_alts(start@, av.take(i as int)),
        decreases alts@.len() - i,
    {
        let ghost pre = av.take(i + 1 as int);
        assert(pre.drop_last() =~= av.take(i as int));
        assert(pre.last() == opt_view(alts@[i as int]));
        let ghost before = t@;
        match &alts[i] {
            Some(a) => {
                let piece = chars_of(a.as_str());
                push_all(&mut t, piece.as_slice());
                t.push(' ');
                assert(t@ =~= before + a@ + seq![' ']);
            },
            None => {},
        }
        i += 1;
    }
    assert(av.take(i as int) =~= av);
    t
}

/// The present values, in order.
pub(crate) fn present_values(s: &[Option<String>]) -> (r: Vec<String>)
    ensures
        string_views(r@) == present(s@.map_values(|o: Option<String>| opt_view(o))),
{
    let ghost sv = s@.map_values(|o: Option<String>| opt_view(o));
    let mut out: Vec<String> = Vec::new();
    let mut i: usize = 0;
    assert(sv.take(0) =~= Seq::<Option<Seq<char>>>::empty());
    assert(string_views(out@) =~= Seq::<Seq<char>>::empty());
    while i < s.len()
        invariant
            i <= s@.len(),
            sv == s@.map_values(|o: Option<String>| opt_view(o)),
            string_views(out@) == present(sv.take(i as int)),
        decreases s@.len() - i,
    {
        let ghost pre = sv.take(i + 1 as int);
        assert(pre.drop_last() =~= sv.take(i as int));
        assert(pre.last() == opt_view(s@[i as int]));
        let ghost before = out@;
        match &s[i] {
            Some(v) => {
                out.push(v.clone());
                assert(string_views(out@) =~= string_views(before).push(v@));
            },
            None => {},
        }
        i += 1;
    }
    assert(sv.take(i as int) =~= sv);
    out
}

/// Whether `e` is the document for the page at `url` whose body is `html`.
pub open spec fn describes(e: IndexEntry, url: Seq<char>, html: Seq<char>) -> bool {
    &&& e.url@ == url
    &&& e.title@ == page_title(html)
    &&& e.content@ == join_words(words_of(page_text(html)))
    &&& e.blurb@ == blurb_of(words_of(page_text(html)))
    &&& e.number_js == selected_texts(html, "script"@).len()
    &&& string_views(e.links@) == resolved_links(url, page_hrefs(html))
}

} // verus!
