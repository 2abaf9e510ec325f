//! Paths as the pipeline reads them: text with `/` between the components.
use vstd::prelude::*;
use vstd::string::*;
use crate::text::chars_of;

verus! {

/// The index of the last `/` in `path`, or -1 where it holds none.
pub open spec fn last_separator(path: Seq<char>) -> int
    decreases path.len(),
{
    if path.len() == 0 {
        -1
    } else if path.last() == '/' {
        path.len() - 1
    } else {
        last_separator(path.drop_last())
    }
}

/// What follows the last `/` of `path`; the whole of a path without `/`.
pub open spec fn file_name_of(path: Seq<char>) -> Seq<char> {
    path.subrange(last_separator(path) + 1, path.len() as int)
}

/// Whether `path` ends in the name of a file: its last component is not
/// empty and is neither `.` nor `..`.
pub open spec fn names_file(path: Seq<char>) -> bool {
    let name = file_name_of(path);
    name.len() > 0 && name != seq!['.'] && name != seq!['.', '.']
}

/// What stands before the last `/` of `path`: `/` itself where that is the
/// first character, and nothing where the path holds no `/`.
pub open spec fn directory_of(path: Seq<char>) -> Seq<char> {
    let k = last_separator(path);
    if k < 0 {
        Seq::empty()
    } else if k == 0 {
        path.subrange(0, 1)
    } else {
        path.subrange(0, k)
    }
}

/// An index that holds `/`, or -1, after which no `/` stands, is that of the
/// last separator.
proof fn lemma_last_separator_is(path: Seq<char>, k: int)
    requires
        -1 <= k < path.len(),
        k >= 0 ==> path[k] == '/',
        forall|j: int| k < j < path.len() ==> #[trigger] path[j] != '/',
    ensures
        last_separator(path) == k,
    decreases path.len(),
{
    if path.len() > 0 && path.last() != '/' {
        let t = path.drop_last();
        assert forall|j: int| k < j < t.len() implies #[trigger] t[j] != '/' by {
            assert(t[j] == path[j]);
        }
        if k >= 0 {
            assert(t[k] == path[k]);
        }
        lemma_last_separator_is(t, k);
    }
}

/// One more than the index of the last `/`: where the last component starts.
fn name_start(chars: &Vec<char>) -> (k: usize)
    ensures
        k == last_separator(chars@) + 1,
        k <= chars.len(),
{
    let mut k: usize = chars.len();
    while k > 0 && chars[k - 1] != '/'
        invariant
            k <= chars.len(),
            forall|j: int| k <= j < chars.len() ==> #[trigger] chars@[j] != '/',
        decreases k,
    {
        k = k - 1;
    }
    proof {
        lemma_last_separator_is(chars@, k - 1);
    }
    k
}

/// The file name that `path` ends in, or `None` where it ends in none.
pub fn file_name(path: &str) -> (res: Option<&str>)
    ensures
        res is Some <==> names_file(path@),
        res matches Some(name) ==> name@ == file_name_of(path@),
{
    let chars = chars_of(path);
    let n = chars.len();
    let k = name_start(&chars);
    let dots = (n - k == 1 && chars[k] == '.') || (n - k == 2 && chars[k] == '.' && chars[k + 1]
        == '.');
    proof {
        let name = file_name_of(path@);
        assert(name.len() == n - k);
        assert(seq!['.'].len() == 1 && seq!['.', '.'].len() == 2);
        if n - k == 1 {
            assert(name[0] == chars@[k as int]);
            assert(chars@[k as int] == '.' <==> name =~= seq!['.']);
        }
        if n - k == 2 {
            assert(name[0] == chars@[k as int] && name[1] == chars@[k + 1]);
            assert((chars@[k as int] == '.' && chars@[k + 1] == '.') <==> name =~= seq!['.', '.']);
        }
    }
    if k == n || dots {
        None
    } else {
        Some(path.substring_char(k, n))
    }
}

/// The directory that `path` lies in.
pub fn directory(path: &str) -> (res: &str)
    ensures
        res@ == directory_of(path@),
{
    let chars = chars_of(path);
    let k = name_start(&chars);
    if k == 0 {
        path.substring_char(0, 0)
    } else if k == 1 {
        path.substring_char(0, 1)
    } else {
        path.substring_char(0, k - 1)
    }
}

} // verus!
