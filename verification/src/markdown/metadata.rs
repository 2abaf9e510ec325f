//! Title resolution: the title of a document whose header gives none is its
//! first line, without heading markers.
use vstd::prelude::*;
use vstd::string::*;
use crate::text::{
    chars_of, find_char, index_of, is_hash, is_line_break, is_whitespace, skip_hashes,
    skip_line_breaks, skip_spaces, skip_spaces_back, trim, trim_end, trim_start,
};

verus! {

/// The first line of `s`: what stands before the first `\n`.
pub open spec fn first_line(s: Seq<char>) -> Seq<char> {
    s.subrange(0, index_of(s, '\n') as int)
}

/// The title that a body gives: its first line without leading `#` markers
/// and without the white space around what is left.
pub open spec fn title_of(s: Seq<char>) -> Seq<char> {
    trim(trim_start(first_line(s), |c: char| is_hash(c)))
}

/// The body that is left once the first line has been taken as the title:
/// what follows the first `\n`, without the line breaks at its start.
pub open spec fn rest_of(s: Seq<char>) -> Seq<char> {
    if index_of(s, '\n') < s.len() {
        trim_start(s.subrange(index_of(s, '\n') as int + 1, s.len() as int), |c: char| is_line_break(c))
    } else {
        Seq::empty()
    }
}

/// Where the title stands in `chars`: the bounds of `title_of`.
fn title_bounds(chars: &Vec<char>) -> (res: (usize, usize, usize))
    ensures
        res.0 <= res.1 <= res.2 <= chars.len(),
        res.2 == index_of(chars@, '\n'),
        chars@.subrange(res.0 as int, res.1 as int) == title_of(chars@),
{
    let n = chars.len();
    let nl = find_char(chars, 0, n, '\n');
    let h = skip_hashes(chars, 0, nl);
    let a = skip_spaces(chars, h, nl);
    let b = skip_spaces_back(chars, a, nl);
    proof {
        let s = chars@;
        assert(s.subrange(0, n as int) == s);
        let line = first_line(s);
        assert(line == s.subrange(0, nl as int));
        let unmarked = trim_start(line, |c: char| is_hash(c));
        assert(unmarked == s.subrange(h as int, nl as int));
        let front = trim_start(unmarked, |c: char| is_whitespace(c));
        assert(front == s.subrange(a as int, nl as int));
        assert(trim_end(front, |c: char| is_whitespace(c)) == s.subrange(a as int, b as int));
    }
    (a, b, nl)
}

/// Splits a body into its title and the rest.
///
/// The title is the first line without leading `#` markers and surrounding
/// white space. The rest is what follows the first line break, without the
/// line breaks at its start; it is empty where the body has one line only.
pub fn first_title_rest(str: &str) -> (res: (&str, &str))
    ensures
        res.0@ == title_of(str@),
        res.1@ == rest_of(str@),
{
    let chars = chars_of(str);
    let n = chars.len();
    let (a, b, nl) = title_bounds(&chars);
    let title = str.substring_char(a, b);
    if nl < n {
        let r = skip_line_breaks(&chars, nl + 1, n);
        let rest = str.substring_char(r, n);
        (title, rest)
    } else {
        let rest = str.substring_char(n, n);
        (title, rest)
    }
}

/// The title that a body gives: its first line without leading `#` markers
/// and surrounding white space.
pub fn first_title(str: &str) -> (res: &str)
    ensures
        res@ == title_of(str@),
{
    let chars = chars_of(str);
    let (a, b, _nl) = title_bounds(&chars);
    str.substring_char(a, b)
}

} // verus!
