//! The storage upsert rule: whether a crawled page is already stored as it is,
//! is stale and must be replaced, or is new.
use vstd::prelude::*;
use crate::text::{chars_of, same_chars};

verus! {

/// The stored fields of a page that an upsert compares with the new version.
pub struct ExistingPage {
    pub title: String,
    pub url: String,
    pub content: String,
}

/// What an upsert does to the stored rows.
#[derive(Clone, Copy, Debug, PartialEq, Eq, Structural)]
pub enum UpsertAction {
    /// The page is stored as it is: nothing changes.
    Skip,
    /// Insert a new row.
    Insert,
    /// Delete the rows for the URL, then insert a new row.
    Replace,
}

/// The upsert decision, given the stored (title, url, content) found for the
/// page's URL, if any.
pub open spec fn upsert_decision(
    found: Option<(Seq<char>, Seq<char>, Seq<char>)>,
    title: Seq<char>,
    url: Seq<char>,
    content: Seq<char>,
    force: bool,
) -> UpsertAction {
    match found {
        None => UpsertAction::Insert,
        Some(f) => if f.0 == title && f.2 == content && f.1 == url && !force {
            UpsertAction::Skip
        } else if f.1 == url {
            UpsertAction::Replace
        } else {
            UpsertAction::Insert
        },
    }
}

/// The stored fields of a found page, as values.
pub open spec fn found_view(existing: Option<ExistingPage>) -> Option<(Seq<char>, Seq<char>, Seq<char>)> {
    match existing {
        Some(e) => Some((e.title@, e.url@, e.content@)),
        None => None,
    }
}

/// Decides what storing the page (`title`, `url`, `content`) does, given the
/// row found for `url`; `force` replaces a row even where it is unchanged.
pub fn upsert_action(
    existing: &Option<ExistingPage>,
    title: &str,
    url: &str,
    content: &str,
    force: bool,
) -> (r: UpsertAction)
    ensures
        r == upsert_decision(found_view(*existing), title@, url@, content@, force),
{
    match existing {
        None => UpsertAction::Insert,
        Some(e) => {
            let same_url = same_chars(chars_of(e.url.as_str()).as_slice(), chars_of(url).as_slice());
            let same_title = same_chars(
                chars_of(e.title.as_str()).as_slice(),
                chars_of(title).as_slice(),
            );
            let same_content = same_chars(
                chars_of(e.content.as_str()).as_slice(),
                chars_of(content).as_slice(),
            );
            if same_title && same_content && same_url && !force {
                UpsertAction::Skip
            } else if same_url {
                UpsertAction::Replace
            } else {
                UpsertAction::Insert
            }
        },
    }
}

/// A stored row, as values.
pub struct Row {
    pub title: Seq<char>,
    pub url: Seq<char>,
    pub blurb: Seq<char>,
    pub content: Seq<char>,
    pub number_js: int,
}

/// The rows stored for `url`, in order.
pub open spec fn rows_for(t: Seq<Row>, url: Seq<char>) -> Seq<Row>
    decreases t.len(),
{
    if t.len() == 0 {
        seq![]
    } else if t.last().url == url {
        rows_for(t.drop_last(), url).push(t.last())
    } else {
        rows_for(t.drop_last(), url)
    }
}

/// The rows stored for other URLs than `url`, in order.
pub open spec fn rows_without(t: Seq<Row>, url: Seq<char>) -> Seq<Row>
    decreases t.len(),
{
    if t.len() == 0 {
        seq![]
    } else if t.last().url == url {
        rows_without(t.drop_last(), url)
    } else {
        rows_without(t.drop_last(), url).push(t.last())
    }
}

/// The table after storing `row`: the first row found for its URL decides,
/// a delete removes every row for the URL, an insert appends.
pub open spec fn apply_upsert(t: Seq<Row>, row: Row, force: bool) -> Seq<Row> {
    let rs = rows_for(t, row.url);
    let found = if rs.len() > 0 {
        Some((rs[0].title, rs[0].url, rs[0].content))
    } else {
        None
    };
    match upsert_decision(found, row.title, row.url, row.content, force) {
        UpsertAction::Skip => t,
        UpsertAction::Insert => t.push(row),
        UpsertAction::Replace => rows_without(t, row.url).push(row),
    }
}

proof fn lemma_rows_for_match(t: Seq<Row>, url: Seq<char>)
    ensures
        forall|i: int| 0 <= i < rows_for(t, url).len() ==> (#[trigger] rows_for(t, url)[i]).url == url,
    decreases t.len(),
{
    if t.len() > 0 {
        lemma_rows_for_match(t.drop_last(), url);
        let r = rows_for(t.drop_last(), url);
        if t.last().url == url {
            assert forall|i: int| 0 <= i < r.push(t.last()).len() implies (#[trigger] r.push(
                t.last(),
            )[i]).url == url by {
                if i < r.len() {
                    assert(r.push(t.last())[i] == r[i]);
                }
            }
        }
    }
}

proof fn lemma_rows_without_none(t: Seq<Row>, url: Seq<char>)
    ensures
        rows_for(rows_without(t, url), url) == Seq::<Row>::empty(),
    decreases t.len(),
{
    if t.len() > 0 {
        lemma_rows_without_none(t.drop_last(), url);
        let w = rows_without(t.drop_last(), url);
        if t.last().url != url {
            assert(w.push(t.last()).drop_last() =~= w);
        }
    }
}

/// Storing a page where at most one row holds its URL leaves exactly one such
/// row, with the page's title and content.
pub proof fn lemma_upsert_leaves_one_row(t: Seq<Row>, row: Row, force: bool)
    requires
        rows_for(t, row.url).len() <= 1,
    ensures
        rows_for(apply_upsert(t, row, force), row.url).len() == 1,
        rows_for(apply_upsert(t, row, force), row.url)[0].title == row.title,
        rows_for(apply_upsert(t, row, force), row.url)[0].content == row.content,
{
    let rs = rows_for(t, row.url);
    lemma_rows_for_match(t, row.url);
    assert(t.push(row).drop_last() =~= t);
    if rs.len() > 0 {
        assert(rs[0].url == row.url);
        let w = rows_without(t, row.url);
        lemma_rows_without_none(t, row.url);
        assert(w.push(row).drop_last() =~= w);
        assert(rows_for(w.push(row), row.url) =~= seq![row]);
    } else {
        assert(rows_for(t.push(row), row.url) =~= seq![row]);
    }
}

/// Storing the same page twice leaves the table as storing it once did.
pub proof fn lemma_upsert_idempotent(t: Seq<Row>, row: Row)
    requires
        rows_for(t, row.url).len() <= 1,
    ensures
        apply_upsert(apply_upsert(t, row, false), row, false) == apply_upsert(t, row, false),
{
    let t1 = apply_upsert(t, row, false);
    lemma_upsert_leaves_one_row(t, row, false);
    lemma_rows_for_match(t1, row.url);
    let rs = rows_for(t1, row.url);
    assert(rs[0].url == row.url);
}

} // verus!
