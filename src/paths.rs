//! Paths as plain text: the final component, the parent, and the name of the
//! file that holds the index of a root.
use vstd::prelude::*;
use vstd::string::*;

verus! {

/// A path separator: `/` or `\`.
pub open spec fn is_sep(c: char) -> bool {
    c == '/' || c == '\\'
}

/// The position of the last separator in `p`, or -1 where there is none.
pub open spec fn last_sep(p: Seq<char>) -> int
    decreases p.len(),
{
    if p.len() == 0 {
        -1
    } else if is_sep(p.last()) {
        p.len() - 1
    } else {
        last_sep(p.drop_last())
    }
}

/// The final component of `p`: everything after its last separator.
pub open spec fn file_name_of(p: Seq<char>) -> Seq<char> {
    p.subrange(last_sep(p) + 1, p.len() as int)
}

/// The directory that holds `p`: everything before its last separator, or the
/// separator itself where it is the first character. A path without a
/// separator, and the bare root `/`, have none.
pub open spec fn parent_of(p: Seq<char>) -> Option<Seq<char>> {
    if last_sep(p) < 0 || p.len() == 1 {
        None
    } else if last_sep(p) == 0 {
        Some(p.subrange(0, 1))
    } else {
        Some(p.subrange(0, last_sep(p)))
    }
}

proof fn lemma_last_sep(p: Seq<char>)
    ensures
        -1 <= last_sep(p) < p.len(),
        last_sep(p) >= 0 ==> is_sep(p[last_sep(p)]),
        forall|j: int| last_sep(p) < j < p.len() ==> !is_sep(#[trigger] p[j]),
    decreases p.len(),
{
    if p.len() > 0 && !is_sep(p.last()) {
        lemma_last_sep(p.drop_last());
        assert forall|j: int| last_sep(p) < j < p.len() implies !is_sep(#[trigger] p[j]) by {
            if j < p.len() - 1 {
                assert(p[j] == p.drop_last()[j]);
            }
        }
    }
}

proof fn lemma_last_sep_prefix(p: Seq<char>, i: int)
    requires
        0 <= i <= p.len(),
        forall|j: int| i <= j < p.len() ==> !is_sep(#[trigger] p[j]),
    ensures
        last_sep(p) == last_sep(p.subrange(0, i)),
    decreases p.len() - i,
{
    if i < p.len() {
        assert(p.drop_last() == p.subrange(0, p.len() - 1));
        assert(p.subrange(0, p.len() - 1).subrange(0, i) == p.subrange(0, i));
        lemma_last_sep_prefix(p.drop_last(), i);
    } else {
        assert(p.subrange(0, i) == p);
    }
}

/// The position just after the last separator of `p` (0 where there is none).
fn name_start(p: &str) -> (r: usize)
    ensures
        r as int == last_sep(p@) + 1,
{
    let n = p.unicode_len();
    let mut i: usize = n;
    while i > 0
        invariant
            i <= n == p@.len(),
            forall|j: int| i <= j < p@.len() ==> !is_sep(#[trigger] p@[j]),
        decreases i,
    {
        let c = p.get_char(i - 1);
        if c == '/' || c == '\\' {
            proof {
                lemma_last_sep_prefix(p@, i as int);
                assert(p@.subrange(0, i as int).last() == c);
            }
            return i;
        }
        i = i - 1;
    }
    proof {
        lemma_last_sep_prefix(p@, 0);
    }
    0
}

/// The directory that holds a path is shorter than the path, so it is never
/// the path itself.
pub proof fn lemma_parent_is_shorter(p: Seq<char>)
    ensures
        parent_of(p) matches Some(d) ==> d.len() < p.len(),
{
    lemma_last_sep(p);
}

/// The final component of `path`.
pub fn file_name(path: &str) -> (r: &str)
    ensures
        r@ == file_name_of(path@),
{
    let s = name_start(path);
    proof {
        lemma_last_sep(path@);
    }
    path.substring_char(s, path.unicode_len())
}

/// The directory that holds `path`, where it has one.
pub fn parent(path: &str) -> (r: Option<&str>)
    ensures
        r matches Some(d) ==> parent_of(path@) == Some(d@),
        r is None <==> parent_of(path@) is None,
{
    let s = name_start(path);
    proof {
        lemma_last_sep(path@);
    }
    if s == 0 || path.unicode_len() == 1 {
        None
    } else if s == 1 {
        Some(path.substring_char(0, 1))
    } else {
        Some(path.substring_char(0, s - 1))
    }
}

/// A character left out of the name of an index file: a path separator or the
/// drive separator `:`.
pub open spec fn is_dropped_from_name(c: char) -> bool {
    is_sep(c) || c == ':'
}

/// `s` without its separators.
pub open spec fn sanitized(s: Seq<char>) -> Seq<char>
    decreases s.len(),
{
    if s.len() == 0 {
        s
    } else if is_dropped_from_name(s.last()) {
        sanitized(s.drop_last())
    } else {
        sanitized(s.drop_last()).push(s.last())
    }
}

/// The name of the file that holds the index of `root`.
pub open spec fn index_file_name_of(root: Seq<char>) -> Seq<char> {
    "index "@ + sanitized(root)
}

/// The name of the file, in the working directory, that holds the index of
/// `root`: `index ` followed by `root` without its separators.
pub fn index_file_name(root: &str) -> (r: String)
    ensures
        r@ == index_file_name_of(root@),
{
    let mut out = String::from_str("index ");
    let n = root.unicode_len();
    let mut i: usize = 0;
    while i < n
        invariant
            i <= n == root@.len(),
            out@ == "index "@ + sanitized(root@.subrange(0, i as int)),
        decreases n - i,
    {
        let c = root.get_char(i);
        assert(root@.subrange(0, i + 1).drop_last() == root@.subrange(0, i as int));
        if !(c == '/' || c == '\\' || c == ':') {
            let piece = root.substring_char(i, i + 1);
            out.append(piece);
            assert(piece@ == seq![c]);
            assert(out@ == "index "@ + sanitized(root@.subrange(0, i + 1)));
        }
        i = i + 1;
    }
    assert(root@.subrange(0, n as int) == root@);
    out
}

} // verus!
