//! A tokenizer for indexed text: words, numbers (with their separators and a
//! leading `$`), with whitespace and other symbols skipped.
use vstd::prelude::*;
use crate::text::{char_is_space, is_space};

verus! {

/// Whether `c` has Unicode's Alphabetic property.
pub uninterp spec fn is_alphabetic_char(c: char) -> bool;

/// Whether `c` is in one of Unicode's numeric general categories.
pub uninterp spec fn is_numeric_char(c: char) -> bool;

/// Relies on `char::is_alphabetic`.
#[verifier::external_body]
fn char_is_alphabetic(c: char) -> (r: bool)
    ensures
        r == is_alphabetic_char(c),
{
    c.is_alphabetic()
}

/// Relies on `char::is_numeric`.
#[verifier::external_body]
fn char_is_numeric(c: char) -> (r: bool)
    ensures
        r == is_numeric_char(c),
{
    c.is_numeric()
}

/// Relies on `char::is_alphanumeric`: alphabetic or numeric.
#[verifier::external_body]
fn char_is_alphanumeric(c: char) -> (r: bool)
    ensures
        r == (is_alphabetic_char(c) || is_numeric_char(c)),
{
    c.is_alphanumeric()
}

/// Whether `c` continues a number: a digit or one of `, . _ - / :`.
pub open spec fn continues_number(c: char) -> bool {
    is_numeric_char(c) || c == ',' || c == '.' || c == '_' || c == '-' || c == '/' || c == ':'
}

/// Whether `c` continues a token of the given kind.
pub open spec fn continues(c: char, number: bool) -> bool {
    if number {
        continues_number(c)
    } else {
        is_alphabetic_char(c) || is_numeric_char(c)
    }
}

/// The end of the run of characters from `i` on that continue a token.
pub open spec fn run_end(s: Seq<char>, i: int, number: bool) -> int
    decreases s.len() - i,
{
    if 0 <= i < s.len() && continues(s[i], number) {
        run_end(s, i + 1, number)
    } else {
        i
    }
}

/// `s` without its leading whitespace.
pub open spec fn trim_start(s: Seq<char>) -> Seq<char>
    decreases s.len(),
{
    if s.len() > 0 && is_space(s[0]) {
        trim_start(s.skip(1))
    } else {
        s
    }
}

/// The next token of `s` and what is left after it.
pub open spec fn lex(s: Seq<char>) -> (Option<Seq<char>>, Seq<char>)
    decreases s.len(),
{
    if s.len() == 0 {
        (None, s)
    } else if is_space(s[0]) {
        lex(s.skip(1))
    } else if is_alphabetic_char(s[0]) {
        let n = run_end(s, 1, false);
        (Some(s.take(n)), s.skip(n))
    } else if is_numeric_char(s[0]) || s[0] == '$' {
        let n = run_end(s, 1, true);
        (Some(s.take(n)), s.skip(n))
    } else {
        lex(s.skip(1))
    }
}

proof fn lemma_lex_trim(s: Seq<char>)
    ensures
        lex(trim_start(s)) == lex(s),
        trim_start(s).len() <= s.len(),
        trim_start(s).len() > 0 ==> !is_space(trim_start(s)[0]),
    decreases s.len(),
{
    if s.len() > 0 && is_space(s[0]) {
        lemma_lex_trim(s.skip(1));
    }
}

/// Whether `c` continues a token of the given kind.
fn continues_token(c: char, number: bool) -> (r: bool)
    ensures
        r == continues(c, number),
{
    if number {
        char_is_numeric(c) || c == ',' || c == '.' || c == '_' || c == '-' || c == '/' || c == ':'
    } else {
        char_is_alphanumeric(c)
    }
}

/// The view of an optional token.
pub open spec fn token_view(t: Option<&[char]>) -> Option<Seq<char>> {
    match t {
        Some(x) => Some(x@),
        None => None,
    }
}

/// Reads tokens off a text.
pub struct Lexer<'a> {
    content: &'a [char],
}

impl<'a> Lexer<'a> {
    /// The text not read yet.
    pub closed spec fn rest(&self) -> Seq<char> {
        self.content@
    }

    /// A lexer over `content`.
    pub fn new(content: &'a [char]) -> (r: Self)
        ensures
            r.rest() == content@,
    {
        Lexer { content }
    }

    /// Skips leading whitespace.
    pub fn trim_left(&mut self)
        ensures
            final(self).rest() == trim_start(old(self).rest()),
    {
        while self.content.len() > 0 && char_is_space(self.content[0])
            invariant
                trim_start(old(self).rest()) == trim_start(self.rest()),
            decreases self.content@.len(),
        {
            self.content = &self.content[1..self.content.len()];
        }
    }

    /// Reads the next `n` characters.
    pub fn chop(&mut self, n: usize) -> (r: &'a [char])
        requires
            n <= old(self).rest().len(),
        ensures
            r@ == old(self).rest().take(n as int),
            final(self).rest() == old(self).rest().skip(n as int),
    {
        let token = &self.content[0..n];
        self.content = &self.content[n..self.content.len()];
        token
    }

    /// The end of the run from `1` of characters that continue a token.
    fn run_from_one(&self, number: bool) -> (n: usize)
        requires
            self.rest().len() >= 1,
        ensures
            n == run_end(self.rest(), 1, number),
            n <= self.rest().len(),
    {
        let mut n: usize = 1;
        while n < self.content.len() && continues_token(self.content[n], number)
            invariant
                1 <= n <= self.rest().len(),
                run_end(self.rest(), 1, number) == run_end(self.rest(), n as int, number),
            decreases self.rest().len() - n,
        {
            n += 1;
        }
        n
    }

    /// Reads the next token: a word, a number, or `None` at the end of the
    /// text; whitespace and other symbols are skipped.
    pub fn next_token(&mut self) -> (r: Option<&'a [char]>)
        ensures
            (token_view(r), final(self).rest()) == lex(old(self).rest()),
    {
        loop
            invariant
                lex(old(self).rest()) == lex(self.rest()),
            decreases self.rest().len(),
        {
            proof {
                lemma_lex_trim(self.rest());
            }
            self.trim_left();
            if self.content.len() == 0 {
                return None;
            }
            let c = self.content[0];
            if char_is_alphabetic(c) {
                let n = self.run_from_one(false);
                return Some(self.chop(n));
            }
            if char_is_numeric(c) || c == '$' {
                let n = self.run_from_one(true);
                return Some(self.chop(n));
            }
            self.chop(1);
        }
    }
}

} // verus!
