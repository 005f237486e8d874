//! The final component of a Unix path, and its extension and stem, as
//! `std::path::Path::{file_name, extension, file_stem}` define them.
use vstd::prelude::*;

verus! {

/// Index of the last occurrence of `c` in `s`, or -1.
pub open spec fn last_index_of(s: Seq<char>, c: char) -> int
    decreases s.len(),
{
    if s.len() == 0 {
        -1
    } else if s.last() == c {
        s.len() - 1
    } else {
        last_index_of(s.drop_last(), c)
    }
}

/// The characters after the last `/` of `p` (all of `p` when it has none).
pub open spec fn last_segment(p: Seq<char>) -> Seq<char> {
    p.skip(last_index_of(p, '/') + 1)
}

/// The last component of `p` when it is a name: trailing slashes and `.`
/// components are passed over; `None` for an empty path, a root, a lone `.`,
/// and a path that ends in `..`.
pub open spec fn file_name(p: Seq<char>) -> Option<Seq<char>>
    decreases p.len(),
{
    if p.len() == 0 {
        None
    } else if p.last() == '/' {
        file_name(p.drop_last())
    } else if last_segment(p) == seq!['.'] {
        file_name(p.drop_last())
    } else if last_segment(p) == seq!['.', '.'] {
        None
    } else {
        Some(last_segment(p))
    }
}

/// The extension of a file name: what follows its last `.`, unless that `.`
/// is its first character or it has none.
pub open spec fn name_extension(f: Seq<char>) -> Option<Seq<char>> {
    let k = last_index_of(f, '.');
    if k <= 0 {
        None
    } else {
        Some(f.skip(k + 1))
    }
}

/// The stem of a file name: what precedes its last `.`, or all of it when it
/// has no extension.
pub open spec fn name_stem(f: Seq<char>) -> Seq<char> {
    let k = last_index_of(f, '.');
    if k <= 0 {
        f
    } else {
        f.take(k)
    }
}

/// `Path::extension`.
pub open spec fn path_extension(p: Seq<char>) -> Option<Seq<char>> {
    match file_name(p) {
        Some(f) => name_extension(f),
        None => None,
    }
}

/// `Path::file_stem`.
pub open spec fn path_stem(p: Seq<char>) -> Option<Seq<char>> {
    match file_name(p) {
        Some(f) => Some(name_stem(f)),
        None => None,
    }
}

/// `last_index_of` within `s[lo..hi]`, as an index of `s`.
pub fn last_index_in(s: &str, lo: usize, hi: usize, c: char) -> (r: Option<usize>)
    requires
        lo <= hi <= s@.len(),
    ensures
        match r {
            Some(k) => lo <= k < hi && last_index_of(s@.subrange(lo as int, hi as int), c) == k
                - lo,
            None => last_index_of(s@.subrange(lo as int, hi as int), c) == -1,
        },
{
    let mut i: usize = hi;
    while i > lo
        invariant
            lo <= i <= hi <= s@.len(),
            last_index_of(s@.subrange(lo as int, hi as int), c) == last_index_of(
                s@.subrange(lo as int, i as int),
                c,
            ),
        decreases i,
    {
        let ghost t = s@.subrange(lo as int, i as int);
        assert(t.last() == s@[i - 1]);
        if s.get_char(i - 1) == c {
            return Some(i - 1);
        }
        assert(t.drop_last() =~= s@.subrange(lo as int, i - 1));
        i = i - 1;
    }
    assert(s@.subrange(lo as int, lo as int).len() == 0);
    None
}

/// Where the file name of `p` lies in `p`, by character index.
pub fn file_name_range(p: &str) -> (r: Option<(usize, usize)>)
    ensures
        match r {
            Some((a, b)) => a <= b <= p@.len() && file_name(p@) == Some(
                p@.subrange(a as int, b as int),
            ),
            None => file_name(p@) is None,
        },
{
    let n = p.unicode_len();
    let mut end: usize = n;
    assert(p@.take(n as int) =~= p@);
    while end > 0
        invariant
            n == p@.len(),
            end <= n,
            file_name(p@) == file_name(p@.take(end as int)),
        decreases end,
    {
        let ghost q = p@.take(end as int);
        assert(q.drop_last() =~= p@.take(end - 1));
        assert(q.last() == p@[end - 1]);
        if p.get_char(end - 1) == '/' {
            end = end - 1;
        } else {
            let start: usize = match last_index_in(p, 0, end, '/') {
                Some(k) => k + 1,
                None => 0,
            };
            assert(p@.subrange(0, end as int) =~= q);
            let ghost seg = q.skip(start as int);
            assert(seg == last_segment(q));
            assert(seg =~= p@.subrange(start as int, end as int));
            if end - start == 1 && p.get_char(start) == '.' {
                assert(seg =~= seq!['.']);
                end = end - 1;
            } else if end - start == 2 && p.get_char(start) == '.' && p.get_char(start + 1)
                == '.' {
                assert(seg =~= seq!['.', '.']);
                return None;
            } else {
                assert(seg != seq!['.']) by {
                    if seg == seq!['.'] {
                        assert(seg[0] == p@[start as int]);
                    }
                }
                assert(seg != seq!['.', '.']) by {
                    if seg == seq!['.', '.'] {
                        assert(seg[0] == p@[start as int]);
                        assert(seg[1] == p@[start + 1]);
                    }
                }
                return Some((start, end));
            }
        }
    }
    None
}

/// Where the extension of `p` lies in `p`, by character index.
pub fn extension_range(p: &str) -> (r: Option<(usize, usize)>)
    ensures
        match r {
            Some((a, b)) => a <= b <= p@.len() && path_extension(p@) == Some(
                p@.subrange(a as int, b as int),
            ),
            None => path_extension(p@) is None,
        },
{
    match file_name_range(p) {
        None => None,
        Some((a, b)) => {
            let ghost f = p@.subrange(a as int, b as int);
            match last_index_in(p, a, b, '.') {
                Some(k) => {
                    if k > a {
                        assert(f.skip(k - a + 1) =~= p@.subrange(k + 1, b as int));
                        Some((k + 1, b))
                    } else {
                        None
                    }
                },
                None => None,
            }
        },
    }
}

/// Where the stem of `p` lies in `p`, by character index.
pub fn stem_range(p: &str) -> (r: Option<(usize, usize)>)
    ensures
        match r {
            Some((a, b)) => a <= b <= p@.len() && path_stem(p@) == Some(
                p@.subrange(a as int, b as int),
            ),
            None => path_stem(p@) is None,
        },
{
    match file_name_range(p) {
        None => None,
        Some((a, b)) => {
            let ghost f = p@.subrange(a as int, b as int);
            match last_index_in(p, a, b, '.') {
                Some(k) => {
                    if k > a {
                        assert(f.take(k - a) =~= p@.subrange(a as int, k as int));
                        Some((a, k))
                    } else {
                        Some((a, b))
                    }
                },
                None => Some((a, b)),
            }
        },
    }
}

/// `Path::file_name`.
pub fn file_name_of(p: &str) -> (r: Option<&str>)
    ensures
        match r {
            Some(f) => file_name(p@) == Some(f@),
            None => file_name(p@) is None,
        },
{
    match file_name_range(p) {
        Some((a, b)) => Some(p.substring_char(a, b)),
        None => None,
    }
}

/// `Path::extension`.
pub fn extension_of(p: &str) -> (r: Option<&str>)
    ensures
        match r {
            Some(e) => path_extension(p@) == Some(e@),
            None => path_extension(p@) is None,
        },
{
    match extension_range(p) {
        Some((a, b)) => Some(p.substring_char(a, b)),
        None => None,
    }
}

/// `Path::file_stem`.
pub fn stem_of(p: &str) -> (r: Option<&str>)
    ensures
        match r {
            Some(s) => path_stem(p@) == Some(s@),
            None => path_stem(p@) is None,
        },
{
    match stem_range(p) {
        Some((a, b)) => Some(p.substring_char(a, b)),
        None => None,
    }
}

} // verus!
