//! Character-level helpers shared by the parsers of this crate.
//!
//! A text is modelled by its view, a `Seq<char>`. The functions here find
//! runs of characters at either end of such a sequence.
use vstd::prelude::*;

verus! {

/// `\n` or `\r`.
pub open spec fn is_line_break(c: char) -> bool {
    c == '\n' || c == '\r'
}

/// The heading marker `#`.
pub open spec fn is_hash(c: char) -> bool {
    c == '#'
}

/// The characters with the Unicode property `White_Space`.
pub open spec fn is_whitespace(c: char) -> bool {
    ||| '\u{9}' <= c <= '\u{d}'
    ||| c == ' '
    ||| c == '\u{85}'
    ||| c == '\u{a0}'
    ||| c == '\u{1680}'
    ||| '\u{2000}' <= c <= '\u{200a}'
    ||| c == '\u{2028}'
    ||| c == '\u{2029}'
    ||| c == '\u{202f}'
    ||| c == '\u{205f}'
    ||| c == '\u{3000}'
}

/// The length of the longest prefix of `s` whose characters all satisfy `p`.
pub open spec fn leading(s: Seq<char>, p: spec_fn(char) -> bool) -> nat
    decreases s.len(),
{
    if s.len() > 0 && p(s[0]) {
        1 + leading(s.drop_first(), p)
    } else {
        0
    }
}

/// The length of the longest suffix of `s` whose characters all satisfy `p`.
pub open spec fn trailing(s: Seq<char>, p: spec_fn(char) -> bool) -> nat
    decreases s.len(),
{
    if s.len() > 0 && p(s.last()) {
        1 + trailing(s.drop_last(), p)
    } else {
        0
    }
}

/// `s` without its longest prefix of characters that satisfy `p`.
pub open spec fn trim_start(s: Seq<char>, p: spec_fn(char) -> bool) -> Seq<char> {
    s.subrange(leading(s, p) as int, s.len() as int)
}

/// `s` without its longest suffix of characters that satisfy `p`.
pub open spec fn trim_end(s: Seq<char>, p: spec_fn(char) -> bool) -> Seq<char> {
    s.subrange(0, s.len() - trailing(s, p))
}

/// `s` without the white space at both ends.
pub open spec fn trim(s: Seq<char>) -> Seq<char> {
    trim_end(trim_start(s, |c: char| is_whitespace(c)), |c: char| is_whitespace(c))
}

/// The index of the first occurrence of `c` in `s`, or `s.len()` if there is none.
pub open spec fn index_of(s: Seq<char>, c: char) -> nat
    decreases s.len(),
{
    if s.len() > 0 && s[0] != c {
        1 + index_of(s.drop_first(), c)
    } else {
        0
    }
}

/// A prefix of `k` characters that satisfy `p`, followed by the end of `s`
/// or by a character that does not, is the longest such prefix.
pub proof fn lemma_leading_is(s: Seq<char>, p: spec_fn(char) -> bool, k: int)
    requires
        0 <= k <= s.len(),
        forall|j: int| 0 <= j < k ==> p(#[trigger] s[j]),
        k == s.len() || !p(s[k]),
    ensures
        leading(s, p) == k,
    decreases k,
{
    if k > 0 {
        let t = s.drop_first();
        assert forall|j: int| 0 <= j < k - 1 implies p(#[trigger] t[j]) by {
            assert(t[j] == s[j + 1]);
        }
        if k < s.len() {
            assert(t[k - 1] == s[k]);
        }
        lemma_leading_is(t, p, k - 1);
    }
}

/// A suffix of `k` characters that satisfy `p`, preceded by the start of `s`
/// or by a character that does not, is the longest such suffix.
pub proof fn lemma_trailing_is(s: Seq<char>, p: spec_fn(char) -> bool, k: int)
    requires
        0 <= k <= s.len(),
        forall|j: int| s.len() - k <= j < s.len() ==> p(#[trigger] s[j]),
        k == s.len() || !p(s[s.len() - k - 1]),
    ensures
        trailing(s, p) == k,
    decreases k,
{
    if k > 0 {
        let t = s.drop_last();
        assert forall|j: int| t.len() - (k - 1) <= j < t.len() implies p(#[trigger] t[j]) by {
            assert(t[j] == s[j]);
        }
        if k < s.len() {
            assert(t[t.len() - (k - 1) - 1] == s[s.len() - k - 1]);
        }
        lemma_trailing_is(t, p, k - 1);
    }
}

/// An index before which `c` does not occur, and which holds `c` or is the end
/// of `s`, is the index of the first occurrence.
pub proof fn lemma_index_of_is(s: Seq<char>, c: char, k: int)
    requires
        0 <= k <= s.len(),
        forall|j: int| 0 <= j < k ==> #[trigger] s[j] != c,
        k == s.len() || s[k] == c,
    ensures
        index_of(s, c) == k,
    decreases k,
{
    if k > 0 {
        let t = s.drop_first();
        assert forall|j: int| 0 <= j < k - 1 implies #[trigger] t[j] != c by {
            assert(t[j] == s[j + 1]);
        }
        if k < s.len() {
            assert(t[k - 1] == s[k]);
        }
        lemma_index_of_is(t, c, k - 1);
    }
}

/// The characters of a text, in order.
pub fn chars_of(s: &str) -> (out: Vec<char>)
    ensures
        out@ == s@,
{
    let mut out: Vec<char> = Vec::new();
    for c in it: s.chars()
        invariant
            out@ == it.seq().take(it.index() as int),
            it.seq() == s@,
    {
        out.push(c);
    }
    out
}

/// Whether `c` is white space.
pub fn is_space(c: char) -> (b: bool)
    ensures
        b == is_whitespace(c),
{
    ('\u{9}' <= c && c <= '\u{d}') || c == ' ' || c == '\u{85}' || c == '\u{a0}' || c == '\u{1680}'
        || ('\u{2000}' <= c && c <= '\u{200a}') || c == '\u{2028}' || c == '\u{2029}' || c
        == '\u{202f}' || c == '\u{205f}' || c == '\u{3000}'
}

/// The first index in `from..to` that does not hold a line break, or `to`.
pub fn skip_line_breaks(chars: &Vec<char>, from: usize, to: usize) -> (k: usize)
    requires
        from <= to <= chars.len(),
    ensures
        k == from + leading(chars@.subrange(from as int, to as int), |c: char| is_line_break(c)),
        from <= k <= to,
{
    let mut k: usize = from;
    while k < to && (chars[k] == '\n' || chars[k] == '\r')
        invariant
            from <= k <= to <= chars.len(),
            forall|j: int| from <= j < k ==> is_line_break(#[trigger] chars@[j]),
        decreases to - k,
    {
        k = k + 1;
    }
    proof {
        let t = chars@.subrange(from as int, to as int);
        let p = |c: char| is_line_break(c);
        assert forall|j: int| 0 <= j < k - from implies p(#[trigger] t[j]) by {
            assert(t[j] == chars@[from + j]);
        }
        lemma_leading_is(t, p, k - from);
    }
    k
}

/// The first index in `from..to` that does not hold `#`, or `to`.
pub fn skip_hashes(chars: &Vec<char>, from: usize, to: usize) -> (k: usize)
    requires
        from <= to <= chars.len(),
    ensures
        k == from + leading(chars@.subrange(from as int, to as int), |c: char| is_hash(c)),
        from <= k <= to,
{
    let mut k: usize = from;
    while k < to && chars[k] == '#'
        invariant
            from <= k <= to <= chars.len(),
            forall|j: int| from <= j < k ==> is_hash(#[trigger] chars@[j]),
        decreases to - k,
    {
        k = k + 1;
    }
    proof {
        let t = chars@.subrange(from as int, to as int);
        let p = |c: char| is_hash(c);
        assert forall|j: int| 0 <= j < k - from implies p(#[trigger] t[j]) by {
            assert(t[j] == chars@[from + j]);
        }
        lemma_leading_is(t, p, k - from);
    }
    k
}

/// The first index in `from..to` that does not hold white space, or `to`.
pub fn skip_spaces(chars: &Vec<char>, from: usize, to: usize) -> (k: usize)
    requires
        from <= to <= chars.len(),
    ensures
        k == from + leading(chars@.subrange(from as int, to as int), |c: char| is_whitespace(c)),
        from <= k <= to,
{
    let mut k: usize = from;
    while k < to && is_space(chars[k])
        invariant
            from <= k <= to <= chars.len(),
            forall|j: int| from <= j < k ==> is_whitespace(#[trigger] chars@[j]),
        decreases to - k,
    {
        k = k + 1;
    }
    proof {
        let t = chars@.subrange(from as int, to as int);
        let p = |c: char| is_whitespace(c);
        assert forall|j: int| 0 <= j < k - from implies p(#[trigger] t[j]) by {
            assert(t[j] == chars@[from + j]);
        }
        lemma_leading_is(t, p, k - from);
    }
    k
}

/// The end of `from..to` once the white space at its end is left out.
pub fn skip_spaces_back(chars: &Vec<char>, from: usize, to: usize) -> (k: usize)
    requires
        from <= to <= chars.len(),
    ensures
        k == to - trailing(chars@.subrange(from as int, to as int), |c: char| is_whitespace(c)),
        from <= k <= to,
{
    let mut k: usize = to;
    while k > from && is_space(chars[k - 1])
        invariant
            from <= k <= to <= chars.len(),
            forall|j: int| k <= j < to ==> is_whitespace(#[trigger] chars@[j]),
        decreases k,
    {
        k = k - 1;
    }
    proof {
        let t = chars@.subrange(from as int, to as int);
        let p = |c: char| is_whitespace(c);
        assert forall|j: int| t.len() - (to - k) <= j < t.len() implies p(#[trigger] t[j]) by {
            assert(t[j] == chars@[from + j]);
        }
        if k > from {
            assert(t[t.len() - (to - k) - 1] == chars@[k - 1]);
        }
        lemma_trailing_is(t, p, to - k);
    }
    k
}

/// The index of the first `c` in `from..to`, or `to` if there is none.
pub fn find_char(chars: &Vec<char>, from: usize, to: usize, c: char) -> (k: usize)
    requires
        from <= to <= chars.len(),
    ensures
        k == from + index_of(chars@.subrange(from as int, to as int), c),
        from <= k <= to,
{
    let mut k: usize = from;
    while k < to && chars[k] != c
        invariant
            from <= k <= to <= chars.len(),
            forall|j: int| from <= j < k ==> #[trigger] chars@[j] != c,
        decreases to - k,
    {
        k = k + 1;
    }
    proof {
        let t = chars@.subrange(from as int, to as int);
        assert forall|j: int| 0 <= j < k - from implies #[trigger] t[j] != c by {
            assert(t[j] == chars@[from + j]);
        }
        lemma_index_of_is(t, c, k - from);
    }
    k
}

} // verus!
