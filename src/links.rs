//! URL handling: host extraction, and resolution of a page's raw `href`
//! values into its deduplicated list of absolute outbound links.
use vstd::prelude::*;
use crate::text::{
    before_char, begins_with, chars_of, contains_text, cut_at, occurs_at, opt_view, replace_all,
    replace_chars, same_chars, starts_with, string_of, string_views,
};

verus! {

/// The host of `url` once parsed as an absolute URL; `None` where it does not
/// parse or has no host.
pub uninterp spec fn url_host(url: Seq<char>) -> Option<Seq<char>>;

/// `href` resolved against `base` and serialised; `None` where `base` does not
/// parse as a URL or the join fails.
pub uninterp spec fn joined_url(base: Seq<char>, href: Seq<char>) -> Option<Seq<char>>;

/// Relies on `url::Url::parse` and `Url::host_str`: the host of the parsed URL.
#[verifier::external_body]
pub(crate) fn host_of(url: &str) -> (r: Option<String>)
    ensures
        opt_view(r) == url_host(url@),
{
    url::Url::parse(url).ok().and_then(|u| u.host_str().map(|h| h.to_string()))
}

/// Relies on `url::Url::parse` and `Url::join`: standard relative reference
/// resolution of `href` against `base`, serialised.
#[verifier::external_body]
fn join_url(base: &str, href: &str) -> (r: Option<String>)
    ensures
        opt_view(r) == joined_url(base@, href@),
{
    url::Url::parse(base).ok().and_then(|u| u.join(href).ok()).map(|u| u.to_string())
}

/// The escaped form of `/` that pages write inside attribute values.
pub open spec fn slash_entity() -> Seq<char> {
    "&#x2F;"@
}

/// Whether a link is never kept for the page at `base`: the root `/`, the bare
/// fragment `#`, or the page itself.
pub open spec fn is_excluded(t: Seq<char>, base: Seq<char>) -> bool {
    t == "/"@ || t == "#"@ || t == base
}

/// Whether `t` is an absolute http or https URL.
pub open spec fn is_absolute(t: Seq<char>) -> bool {
    starts_with(t, "http://"@) || starts_with(t, "https://"@)
}

/// The link that one raw `href` of the page at `base` contributes, if any: the
/// escaped slash decoded, fragment and query cut off, a relative reference
/// resolved against `base`.
pub open spec fn link_target(base: Seq<char>, href: Seq<char>) -> Option<Seq<char>> {
    let h = replace_all(href, slash_entity(), "/"@);
    if is_excluded(h, base) {
        None
    } else {
        let cut = before_char(before_char(h, '#'), '?');
        let t = if is_absolute(cut) {
            Some(cut)
        } else {
            joined_url(base, cut)
        };
        match t {
            Some(x) => if is_excluded(x, base) {
                None
            } else {
                Some(x)
            },
            None => None,
        }
    }
}

/// `s` with `x` appended unless it is already there.
pub open spec fn push_new(s: Seq<Seq<char>>, x: Seq<char>) -> Seq<Seq<char>> {
    if s.contains(x) {
        s
    } else {
        s.push(x)
    }
}

/// The outbound links of the page at `base` with the given raw `href` values,
/// in order of first appearance.
pub open spec fn resolved_links(base: Seq<char>, hrefs: Seq<Seq<char>>) -> Seq<Seq<char>>
    decreases hrefs.len(),
{
    if hrefs.len() == 0 {
        seq![]
    } else {
        let acc = resolved_links(base, hrefs.drop_last());
        match link_target(base, hrefs.last()) {
            Some(t) => push_new(acc, t),
            None => acc,
        }
    }
}

/// Appending a new element keeps a sequence free of duplicates.
pub proof fn lemma_push_new_distinct(s: Seq<Seq<char>>, x: Seq<char>)
    requires
        s.no_duplicates(),
    ensures
        push_new(s, x).no_duplicates(),
        forall|y: Seq<char>| push_new(s, x).contains(y) <==> (s.contains(y) || y == x),
{
    if !s.contains(x) {
        let t = s.push(x);
        assert forall|i: int, j: int| 0 <= i < t.len() && 0 <= j < t.len() && i != j implies t[i]
            != t[j] by {
            if i == s.len() as int {
                assert(s[j] == t[j]);
            } else if j == s.len() as int {
                assert(s[i] == t[i]);
            }
        }
        assert forall|y: Seq<char>| t.contains(y) <==> (s.contains(y) || y == x) by {
            if t.contains(y) {
                let k = choose|k: int| 0 <= k < t.len() && t[k] == y;
                if k < s.len() {
                    assert(s[k] == y);
                }
            }
            if s.contains(y) {
                let k = choose|k: int| 0 <= k < s.len() && s[k] == y;
                assert(t[k] == y);
            }
            if y == x {
                assert(t[s.len() as int] == y);
            }
        }
    }
}

/// A page's link list holds no duplicates, and never the root `/`, the bare
/// fragment `#` or the page's own URL.
pub proof fn lemma_links_distinct_and_outbound(base: Seq<char>, hrefs: Seq<Seq<char>>)
    ensures
        resolved_links(base, hrefs).no_duplicates(),
        forall|t: Seq<char>| resolved_links(base, hrefs).contains(t) ==> !is_excluded(t, base),
    decreases hrefs.len(),
{
    if hrefs.len() > 0 {
        let acc = resolved_links(base, hrefs.drop_last());
        lemma_links_distinct_and_outbound(base, hrefs.drop_last());
        match link_target(base, hrefs.last()) {
            Some(t) => {
                lemma_push_new_distinct(acc, t);
            },
            None => {},
        }
    }
}

/// Replacing a pattern that does not occur changes nothing.
pub proof fn lemma_replace_absent(s: Seq<char>, p: Seq<char>, r: Seq<char>)
    requires
        !contains_text(s, p),
    ensures
        replace_all(s, p, r) == s,
    decreases s.len(),
{
    if p.len() > 0 && s.len() >= p.len() {
        assert(!occurs_at(s, 0, p));
        assert(s.take(p.len() as int) =~= s.subrange(0, p.len() as int));
        assert(!contains_text(s.skip(1), p)) by {
            if contains_text(s.skip(1), p) {
                let i = choose|i: int| occurs_at(s.skip(1), i, p);
                assert(s.skip(1).subrange(i, i + p.len()) =~= s.subrange(i + 1, i + 1 + p.len()));
                assert(occurs_at(s, i + 1, p));
            }
        }
        lemma_replace_absent(s.skip(1), p, r);
        assert(seq![s[0]] + s.skip(1) =~= s);
    }
}

/// Cutting at a character that does not occur changes nothing.
pub proof fn lemma_cut_absent(s: Seq<char>, c: char)
    requires
        !s.contains(c),
    ensures
        before_char(s, c) == s,
    decreases s.len(),
{
    if s.len() > 0 {
        assert(s[0] != c);
        assert(!s.skip(1).contains(c)) by {
            if s.skip(1).contains(c) {
                let i = choose|i: int| 0 <= i < s.skip(1).len() && s.skip(1)[i] == c;
                assert(s[i + 1] == c);
            }
        }
        lemma_cut_absent(s.skip(1), c);
        assert(seq![s[0]] + s.skip(1) =~= s);
    }
}

/// An absolute http or https link with no fragment, no query and no escaped
/// slash, other than `/`, `#` and the page itself, is kept as it is.
pub proof fn lemma_absolute_link_kept(base: Seq<char>, href: Seq<char>)
    requires
        is_absolute(href),
        !contains_text(href, slash_entity()),
        !href.contains('#'),
        !href.contains('?'),
        !is_excluded(href, base),
    ensures
        link_target(base, href) == Some(href),
{
    lemma_replace_absent(href, slash_entity(), "/"@);
    lemma_cut_absent(href, '#');
    lemma_cut_absent(href, '?');
}

/// `s` with `x` appended unless an equal string is already there.
pub fn push_unique(out: &mut Vec<String>, x: String)
    ensures
        string_views(final(out)@) == push_new(string_views(old(out)@), x@),
{
    let mut i: usize = 0;
    while i < out.len()
        invariant
            i <= out@.len(),
            out@ == old(out)@,
            forall|k: int| 0 <= k < i ==> out@[k]@ != x@,
        decreases out@.len() - i,
    {
        if out[i] == x {
            assert(string_views(out@)[i as int] == x@);
            return;
        }
        i += 1;
    }
    assert(!string_views(out@).contains(x@)) by {
        if string_views(out@).contains(x@) {
            let k = choose|k: int| 0 <= k < out@.len() && string_views(out@)[k] == x@;
            assert(out@[k]@ == x@);
        }
    }
    let ghost before = out@;
    out.push(x);
    assert(string_views(out@) =~= string_views(before).push(x@));
}

/// The link that one raw `href` contributes to the page at `base`.
pub fn link_of(base: &str, href: &str) -> (r: Option<String>)
    ensures
        opt_view(r) == link_target(base@, href@),
{
    let base_chars = chars_of(base);
    let root = chars_of("/");
    let hash = chars_of("#");
    let raw = chars_of(href);
    let entity = chars_of("&#x2F;");
    proof {
        reveal_strlit("&#x2F;");
    }
    let h = replace_chars(raw.as_slice(), entity.as_slice(), root.as_slice());
    if same_chars(h.as_slice(), root.as_slice()) || same_chars(h.as_slice(), hash.as_slice())
        || same_chars(h.as_slice(), base_chars.as_slice()) {
        return None;
    }
    let no_fragment = cut_at(h.as_slice(), '#');
    let cut = cut_at(no_fragment.as_slice(), '?');
    let http = chars_of("http://");
    let https = chars_of("https://");
    let target = if begins_with(cut.as_slice(), http.as_slice()) || begins_with(
        cut.as_slice(),
        https.as_slice(),
    ) {
        Some(string_of(cut.as_slice()))
    } else {
        let rel = string_of(cut.as_slice());
        join_url(base, rel.as_str())
    };
    match target {
        Some(t) => {
            let tc = chars_of(t.as_str());
            if same_chars(tc.as_slice(), root.as_slice()) || same_chars(
                tc.as_slice(),
                hash.as_slice(),
            ) || same_chars(tc.as_slice(), base_chars.as_slice()) {
                None
            } else {
                Some(t)
            }
        },
        None => None,
    }
}

/// The deduplicated absolute links of the page at `base` with the given raw
/// `href` values, in order of first appearance.
pub fn resolve_links(base: &str, hrefs: &[String]) -> (r: Vec<String>)
    ensures
        string_views(r@) == resolved_links(base@, string_views(hrefs@)),
        string_views(r@).no_duplicates(),
        forall|i: int| 0 <= i < r@.len() ==> !is_excluded(#[trigger] r@[i]@, base@),
{
    let mut out: Vec<String> = Vec::new();
    let mut i: usize = 0;
    assert(string_views(hrefs@).take(0) =~= Seq::<Seq<char>>::empty());
    assert(string_views(out@) =~= Seq::<Seq<char>>::empty());
    while i < hrefs.len()
        invariant
            i <= hrefs@.len(),
            string_views(out@) == resolved_links(base@, string_views(hrefs@).take(i as int)),
        decreases hrefs@.len() - i,
    {
        let ghost pre = string_views(hrefs@).take(i + 1 as int);
        assert(pre.drop_last() =~= string_views(hrefs@).take(i as int));
        assert(pre.last() == hrefs@[i as int]@);
        match link_of(base, hrefs[i].as_str()) {
            Some(t) => push_unique(&mut out, t),
            None => {},
        }
        i += 1;
    }
    assert(string_views(hrefs@).take(i as int) =~= string_views(hrefs@));
    proof {
        lemma_links_distinct_and_outbound(base@, string_views(hrefs@));
        assert forall|i: int| 0 <= i < out@.len() implies !is_excluded(
            #[trigger] out@[i]@,
            base@,
        ) by {
            assert(string_views(out@)[i] == out@[i]@);
            assert(string_views(out@).contains(out@[i]@));
        }
    }
    out
}

} // verus!
