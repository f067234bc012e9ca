//! Character-level text operations: whitespace words, joining, replacement and
//! substring search over sequences of characters.
use vstd::prelude::*;

verus! {

/// Whether `c` has Unicode's White_Space property.
pub open spec fn is_space(c: char) -> bool {
    let n = c as u32;
    (0x9 <= n && n <= 0xd) || n == 0x20 || n == 0x85 || n == 0xa0 || n == 0x1680
        || (0x2000 <= n && n <= 0x200a) || n == 0x2028 || n == 0x2029 || n == 0x202f
        || n == 0x205f || n == 0x3000
}

/// Relies on `char::is_whitespace`: true exactly for the characters that have
/// the White_Space property.
#[verifier::external_body]
pub(crate) fn char_is_space(c: char) -> (r: bool)
    ensures
        r == is_space(c),
{
    c.is_whitespace()
}

/// Relies on `str::chars`: the characters of `s`, in order.
#[verifier::external_body]
pub(crate) fn chars_of(s: &str) -> (r: Vec<char>)
    ensures
        r@ == s@,
{
    s.chars().collect()
}

/// Relies on `String`'s `FromIterator<&char>`: the string of the given characters.
#[verifier::external_body]
pub(crate) fn string_of(cs: &[char]) -> (r: String)
    ensures
        r@ == cs@,
{
    cs.iter().collect()
}

/// The views of a sequence of character vectors.
pub open spec fn views(v: Seq<Vec<char>>) -> Seq<Seq<char>> {
    v.map_values(|w: Vec<char>| w@)
}

/// The views of a sequence of strings.
pub open spec fn string_views(v: Seq<String>) -> Seq<Seq<char>> {
    v.map_values(|w: String| w@)
}

/// The whitespace-separated words of `s`, in order; built from the left so that
/// each character either starts a word, extends the last one, or separates.
pub open spec fn words_of(s: Seq<char>) -> Seq<Seq<char>>
    decreases s.len(),
{
    if s.len() == 0 {
        seq![]
    } else {
        let w = words_of(s.drop_last());
        let c = s.last();
        if is_space(c) {
            w
        } else if s.len() > 1 && !is_space(s[s.len() - 2]) && w.len() > 0 {
            w.drop_last().push(w.last().push(c))
        } else {
            w.push(seq![c])
        }
    }
}

/// The words joined by single spaces.
pub open spec fn join_words(ws: Seq<Seq<char>>) -> Seq<char>
    decreases ws.len(),
{
    if ws.len() == 0 {
        seq![]
    } else if ws.len() == 1 {
        ws[0]
    } else {
        join_words(ws.drop_last()) + seq![' '] + ws.last()
    }
}

/// Whether `p` occurs in `s` starting at index `i`.
pub open spec fn occurs_at(s: Seq<char>, i: int, p: Seq<char>) -> bool {
    0 <= i && i + p.len() <= s.len() && s.subrange(i, i + p.len()) == p
}

/// Whether `p` occurs anywhere in `s` (the empty pattern occurs in every text).
pub open spec fn contains_text(s: Seq<char>, p: Seq<char>) -> bool {
    exists|i: int| occurs_at(s, i, p)
}

/// Whether `s` begins with `p`.
pub open spec fn starts_with(s: Seq<char>, p: Seq<char>) -> bool {
    occurs_at(s, 0, p)
}

/// `s` with every occurrence of the non-empty pattern `p` replaced by `r`,
/// scanning from the left and never overlapping.
pub open spec fn replace_all(s: Seq<char>, p: Seq<char>, r: Seq<char>) -> Seq<char>
    decreases s.len(),
{
    if p.len() == 0 || s.len() < p.len() {
        s
    } else if s.take(p.len() as int) == p {
        r + replace_all(s.skip(p.len() as int), p, r)
    } else {
        seq![s[0]] + replace_all(s.skip(1), p, r)
    }
}

/// The part of `s` before the first `c`; all of `s` where `c` does not occur.
pub open spec fn before_char(s: Seq<char>, c: char) -> Seq<char>
    decreases s.len(),
{
    if s.len() == 0 {
        s
    } else if s[0] == c {
        seq![]
    } else {
        seq![s[0]] + before_char(s.skip(1), c)
    }
}

/// Appends the characters of `src` to `out`.
pub fn push_all(out: &mut Vec<char>, src: &[char])
    ensures
        final(out)@ == old(out)@ + src@,
{
    let mut i: usize = 0;
    while i < src.len()
        invariant
            i <= src@.len(),
            out@ == old(out)@ + src@.take(i as int),
        decreases src@.len() - i,
    {
        out.push(src[i]);
        i += 1;
        assert(src@.take(i as int) =~= src@.take(i - 1 as int).push(src@[i - 1]));
    }
    assert(src@.take(i as int) =~= src@);
}

/// Whether `p` occurs in `s` at index `i`.
pub fn matches_at(s: &[char], i: usize, p: &[char]) -> (r: bool)
    ensures
        r == occurs_at(s@, i as int, p@),
{
    if i > s.len() || p.len() > s.len() - i {
        return false;
    }
    let mut j: usize = 0;
    while j < p.len()
        invariant
            i + p@.len() <= s@.len(),
            i + p.len() <= s.len(),
            j <= p@.len(),
            forall|k: int| 0 <= k < j ==> s@[i + k] == p@[k],
        decreases p@.len() - j,
    {
        if s[i + j] != p[j] {
            assert(s@.subrange(i as int, i + p@.len())[j as int] != p@[j as int]);
            return false;
        }
        j += 1;
    }
    assert(s@.subrange(i as int, i + p@.len()) =~= p@);
    true
}

/// Whether `p` occurs anywhere in `s`.
pub fn contains_chars(s: &[char], p: &[char]) -> (r: bool)
    ensures
        r == contains_text(s@, p@),
{
    if p.len() > s.len() {
        assert forall|i: int| !occurs_at(s@, i, p@) by {}
        return false;
    }
    let last = s.len() - p.len();
    let mut i: usize = 0;
    loop
        invariant
            p@.len() <= s@.len(),
            last == s@.len() - p@.len(),
            i <= last,
            forall|k: int| 0 <= k < i ==> !occurs_at(s@, k, p@),
        ensures
            forall|k: int| 0 <= k <= last ==> !occurs_at(s@, k, p@),
        decreases last - i,
    {
        if matches_at(s, i, p) {
            return true;
        }
        if i == last {
            break;
        }
        i += 1;
    }
    assert forall|k: int| !occurs_at(s@, k, p@) by {
        if 0 <= k && k + p@.len() <= s@.len() {
            assert(k <= last);
        }
    }
    false
}

/// Whether `s` begins with `p`.
pub fn begins_with(s: &[char], p: &[char]) -> (r: bool)
    ensures
        r == starts_with(s@, p@),
{
    matches_at(s, 0, p)
}

/// The part of `s` before the first `c`.
pub fn cut_at(s: &[char], c: char) -> (r: Vec<char>)
    ensures
        r@ == before_char(s@, c),
{
    let mut out: Vec<char> = Vec::new();
    let mut i: usize = 0;
    assert(s@.skip(0) =~= s@);
    assert(out@ + before_char(s@, c) =~= before_char(s@, c));
    while i < s.len()
        invariant
            i <= s@.len(),
            out@ == s@.take(i as int),
            before_char(s@, c) == out@ + before_char(s@.skip(i as int), c),
        decreases s@.len() - i,
    {
        if s[i] == c {
            assert(s@.skip(i as int)[0] == c);
            assert(before_char(s@.skip(i as int), c) =~= seq![]);
            assert(out@ + seq![] =~= out@);
            return out;
        }
        assert(s@.skip(i as int).skip(1) =~= s@.skip(i + 1 as int));
        assert(before_char(s@.skip(i as int), c) == seq![s@[i as int]] + before_char(
            s@.skip(i + 1 as int),
            c,
        ));
        out.push(s[i]);
        i += 1;
        assert(out@ =~= s@.take(i as int));
        assert(out@ + before_char(s@.skip(i as int), c) =~= s@.take(i - 1 as int) + (seq![
            s@[i - 1 as int],
        ] + before_char(s@.skip(i as int), c)));
    }
    assert(before_char(s@.skip(i as int), c) =~= seq![]);
    assert(out@ + seq![] =~= out@);
    out
}

/// `s` with every occurrence of the non-empty `p` replaced by `r`.
pub fn replace_chars(s: &[char], p: &[char], r: &[char]) -> (res: Vec<char>)
    requires
        p@.len() > 0,
    ensures
        res@ == replace_all(s@, p@, r@),
{
    let mut out: Vec<char> = Vec::new();
    let mut i: usize = 0;
    assert(s@.skip(0) =~= s@);
    assert(out@ + replace_all(s@, p@, r@) =~= replace_all(s@, p@, r@));
    while i < s.len()
        invariant
            i <= s@.len(),
            p@.len() > 0,
            out@ + replace_all(s@.skip(i as int), p@, r@) == replace_all(s@, p@, r@),
        decreases s@.len() - i,
    {
        let ghost rest = s@.skip(i as int);
        let ghost before = out@;
        if matches_at(s, i, p) {
            assert(rest.take(p@.len() as int) =~= s@.subrange(i as int, i + p@.len()));
            assert(rest.skip(p@.len() as int) =~= s@.skip(i + p@.len()));
            push_all(&mut out, r);
            i += p.len();
            assert(out@ + replace_all(s@.skip(i as int), p@, r@) =~= before + (r@ + replace_all(
                s@.skip(i as int),
                p@,
                r@,
            )));
        } else {
            proof {
                if rest.len() >= p@.len() {
                    assert(rest.take(p@.len() as int) =~= s@.subrange(i as int, i + p@.len()));
                }
            }
            assert(rest.skip(1) =~= s@.skip(i + 1 as int));
            out.push(s[i]);
            i += 1;
            assert(out@ + replace_all(s@.skip(i as int), p@, r@) =~= before + (seq![s@[i - 1]]
                + replace_all(s@.skip(i as int), p@, r@)));
        }
    }
    assert(s@.skip(i as int) =~= Seq::<char>::empty());
    assert(out@ + Seq::<char>::empty() =~= out@);
    out
}

/// The whitespace-separated words of `s`.
pub fn split_words(s: &[char]) -> (r: Vec<Vec<char>>)
    ensures
        views(r@) == words_of(s@),
{
    let mut out: Vec<Vec<char>> = Vec::new();
    let mut i: usize = 0;
    assert(views(out@) =~= words_of(s@.take(0)));
    while i < s.len()
        invariant
            i <= s@.len(),
            views(out@) == words_of(s@.take(i as int)),
        decreases s@.len() - i,
    {
        let c = s[i];
        let ghost pre = s@.take(i as int);
        let ghost w = views(out@);
        assert(s@.take(i + 1 as int).drop_last() =~= pre);
        assert(s@.take(i + 1 as int).last() == c);
        if char_is_space(c) {
        } else if i > 0 && !char_is_space(s[i - 1]) {
            assert(s@.take(i + 1 as int)[i - 1] == s@[i - 1]);
            assert(pre.drop_last() =~= s@.take(i - 1 as int));
            assert(pre.last() == s@[i - 1]);
            assert(w.len() > 0);
            let mut last = out.pop().unwrap();
            assert(views(out@) =~= w.drop_last());
            last.push(c);
            out.push(last);
            assert(views(out@) =~= w.drop_last().push(w.last().push(c)));
        } else {
            let mut word: Vec<char> = Vec::new();
            word.push(c);
            assert(word@ =~= seq![c]);
            out.push(word);
            assert(views(out@) =~= w.push(seq![c]));
        }
        i += 1;
    }
    assert(s@.take(i as int) =~= s@);
    out
}

/// The words joined by single spaces.
pub fn join_chars(ws: &[Vec<char>]) -> (r: Vec<char>)
    ensures
        r@ == join_words(views(ws@)),
{
    let mut out: Vec<char> = Vec::new();
    if ws.len() == 0 {
        return out;
    }
    push_all(&mut out, ws[0].as_slice());
    let mut i: usize = 1;
    assert(views(ws@).take(1) =~= seq![ws@[0]@]);
    while i < ws.len()
        invariant
            1 <= i <= ws@.len(),
            out@ == join_words(views(ws@).take(i as int)),
        decreases ws@.len() - i,
    {
        let ghost before = out@;
        assert(views(ws@).take(i + 1 as int).drop_last() =~= views(ws@).take(i as int));
        assert(views(ws@).take(i + 1 as int).last() == ws@[i as int]@);
        out.push(' ');
        push_all(&mut out, ws[i].as_slice());
        assert(out@ =~= before + seq![' '] + ws@[i as int]@);
        i += 1;
    }
    assert(views(ws@).take(i as int) =~= views(ws@));
    out
}

/// The view of an optional string.
pub open spec fn opt_view(o: Option<String>) -> Option<Seq<char>> {
    match o {
        Some(s) => Some(s@),
        None => None,
    }
}

/// Whether two character sequences are equal.
pub fn same_chars(a: &[char], b: &[char]) -> (r: bool)
    ensures
        r == (a@ == b@),
{
    if a.len() != b.len() {
        return false;
    }
    let r = matches_at(a, 0, b);
    assert(a@.subrange(0, b@.len() as int) =~= a@);
    r
}

} // verus!
