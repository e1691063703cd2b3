//! File names and extensions of slash-separated paths, as `std::path::Path` reads them
//! on Unix: separators and `.` segments at the end are ignored, a final `..` has no file
//! name, and a name whose only dot is its first character has no extension.

use vstd::prelude::*;
use vstd::string::*;

use crate::text::chars_of;

verus! {

/// Index of the last `c` in `s`, or -1 when `s` holds none.
pub open spec fn last_index(s: Seq<char>, c: char) -> int
    decreases s.len(),
{
    if s.len() == 0 {
        -1
    } else if s.last() == c {
        s.len() - 1
    } else {
        last_index(s.drop_last(), c)
    }
}

/// `s` without the separators and `.` segments at its end.
pub open spec fn strip_tail(s: Seq<char>) -> Seq<char>
    decreases s.len(),
{
    if s.len() == 0 {
        s
    } else if s.last() == '/' {
        strip_tail(s.drop_last())
    } else if s.last() == '.' && (s.len() == 1 || s[s.len() - 2] == '/') {
        strip_tail(s.drop_last())
    } else {
        s
    }
}

/// The last segment of `s` (what follows its last separator).
pub open spec fn last_segment(s: Seq<char>) -> Seq<char> {
    s.subrange(last_index(s, '/') + 1, s.len() as int)
}

/// The file name of a path: its last normal component.
pub open spec fn file_name(p: Seq<char>) -> Option<Seq<char>> {
    let t = strip_tail(p);
    if t.len() == 0 || last_segment(t) == seq!['.', '.'] {
        None
    } else {
        Some(last_segment(t))
    }
}

/// The extension of a file name: what follows its last dot, unless that dot is the
/// first character of the name or there is none.
pub open spec fn name_extension(name: Seq<char>) -> Option<Seq<char>> {
    let d = last_index(name, '.');
    if d <= 0 {
        None
    } else {
        Some(name.subrange(d + 1, name.len() as int))
    }
}

/// The extension of a path (`Path::extension`).
pub open spec fn path_extension(p: Seq<char>) -> Option<Seq<char>> {
    match file_name(p) {
        Some(name) => name_extension(name),
        None => None,
    }
}

pub(crate) proof fn lemma_last_index_prefix(s: Seq<char>, c: char, k: int)
    requires
        0 <= k <= s.len(),
        forall|i: int| k <= i < s.len() ==> s[i] != c,
    ensures
        last_index(s, c) == last_index(s.subrange(0, k), c),
    decreases s.len() - k,
{
    if k < s.len() {
        assert(s.drop_last().subrange(0, k) =~= s.subrange(0, k));
        lemma_last_index_prefix(s.drop_last(), c, k);
    } else {
        assert(s.subrange(0, k) =~= s);
    }
}

/// Where the file name of `p` lies in `p`: `Some((start, end))` when it has one.
fn file_name_range(p: &Vec<char>) -> (r: Option<(usize, usize)>)
    ensures
        match r {
            Some((a, b)) => a < b <= p@.len() && file_name(p@) == Some(p@.subrange(a as int, b as int)),
            None => file_name(p@) is None,
        },
{
    let n = p.len();
    let mut end: usize = n;
    assert(p@.subrange(0, n as int) =~= p@);
    while end > 0 && (p[end - 1] == '/' || (p[end - 1] == '.' && (end == 1 || p[end - 2] == '/')))
        invariant
            end <= n,
            n == p@.len(),
            strip_tail(p@) == strip_tail(p@.subrange(0, end as int)),
        decreases end,
    {
        assert(p@.subrange(0, end as int).drop_last() =~= p@.subrange(0, end - 1));
        end = end - 1;
    }
    let ghost t = p@.subrange(0, end as int);
    assert(strip_tail(t) == t);
    if end == 0 {
        return None;
    }
    let mut start: usize = end;
    while start > 0 && p[start - 1] != '/'
        invariant
            start <= end <= n,
            n == p@.len(),
            t == p@.subrange(0, end as int),
            forall|i: int| start <= i < end ==> p@[i] != '/',
        decreases start,
    {
        start = start - 1;
    }
    proof {
        lemma_last_index_prefix(t, '/', start as int);
        if start > 0 {
            assert(t.subrange(0, start as int).last() == '/');
        }
        assert(last_index(t, '/') + 1 == start);
        assert(last_segment(t) =~= p@.subrange(start as int, end as int));
        // the segment is never empty: t does not end with a separator
        assert(p@[end - 1] != '/');
    }
    if start < n && end - start == 2 && p[start] == '.' && p[start + 1] == '.' {
        assert(last_segment(t) =~= seq!['.', '.']);
        return None;
    }
    assert(last_segment(t) != seq!['.', '.']) by {
        if last_segment(t) == seq!['.', '.'] {
            assert(last_segment(t).len() == 2);
            assert(last_segment(t)[0] == p@[start as int]);
            assert(last_segment(t)[1] == p@[start + 1]);
        }
    }
    if start == end {
        assert(false);
    }
    Some((start, end))
}

/// Where the extension of `p` lies in `p`: `Some((start, end))` when it has one.
pub fn extension_range(p: &Vec<char>) -> (r: Option<(usize, usize)>)
    ensures
        match r {
            Some((a, b)) => a <= b <= p@.len() && path_extension(p@) == Some(
                p@.subrange(a as int, b as int),
            ),
            None => path_extension(p@) is None,
        },
{
    match file_name_range(p) {
        None => None,
        Some((start, end)) => {
            let ghost name = p@.subrange(start as int, end as int);
            let mut d: usize = end;
            while d > start && p[d - 1] != '.'
                invariant
                    start <= d <= end <= p@.len(),
                    name == p@.subrange(start as int, end as int),
                    forall|i: int| d <= i < end ==> p@[i] != '.',
                decreases d,
            {
                d = d - 1;
            }
            proof {
                lemma_last_index_prefix(name, '.', d - start);
                if d > start {
                    assert(name.subrange(0, d - start).last() == '.');
                    assert(last_index(name, '.') == d - start - 1);
                } else {
                    assert(last_index(name, '.') == -1);
                }
            }
            if d <= start + 1 {
                None
            } else {
                assert(name.subrange(d - start, name.len() as int) =~= p@.subrange(
                    d as int,
                    end as int,
                ));
                Some((d, end))
            }
        },
    }
}

/// The extension of `path`, if it has one (`Path::extension`).
pub fn extension_of(path: &str) -> (r: Option<&str>)
    ensures
        match r {
            Some(e) => path_extension(path@) == Some(e@),
            None => path_extension(path@) is None,
        },
{
    let chars = chars_of(path);
    match extension_range(&chars) {
        Some((a, b)) => Some(path.substring_char(a, b)),
        None => None,
    }
}

} // verus!
