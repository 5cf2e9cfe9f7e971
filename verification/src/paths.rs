//! File names inside slash-separated paths.

use vstd::prelude::*;
use crate::text::{rfind_before, rfind_char, lemma_rfind_before};

verus! {

/// The length that is left of the first `n` characters of `p` once trailing
/// separators and trailing `.` components are dropped.
pub open spec fn trimmed_len(p: Seq<char>, n: int) -> int
    decreases n,
{
    if n <= 0 || n > p.len() {
        0
    } else if p[n - 1] == '/' {
        trimmed_len(p, n - 1)
    } else if p[n - 1] == '.' && n >= 2 && p[n - 2] == '/' {
        trimmed_len(p, n - 1)
    } else {
        n
    }
}

/// Where the last component of `path` starts and ends, if it names a file:
/// the component that remains after trimming, unless it is `.` or `..`.
pub open spec fn file_name_bounds(path: Seq<char>) -> Option<(int, int)> {
    let end = trimmed_len(path, path.len() as int);
    let start = rfind_before(path.subrange(0, end), '/', end) + 1;
    if end == 0 {
        None
    } else if end - start == 1 && path[start] == '.' {
        None
    } else if end - start == 2 && path[start] == '.' && path[start + 1] == '.' {
        None
    } else {
        Some((start, end))
    }
}

/// The last component of `path`, if it names a file.
pub open spec fn file_name_of(path: Seq<char>) -> Option<Seq<char>> {
    match file_name_bounds(path) {
        Some((start, end)) => Some(path.subrange(start, end)),
        None => None,
    }
}

/// How many leading characters of the file name `name` form its stem: all of
/// it when it has no dot or only a leading one, else what precedes the last
/// dot.
pub open spec fn stem_len(name: Seq<char>) -> int {
    let dot = rfind_before(name, '.', name.len() as int);
    if dot <= 0 {
        name.len() as int
    } else {
        dot
    }
}

/// The file name of `path` without its extension.
pub open spec fn file_stem_of(path: Seq<char>) -> Option<Seq<char>> {
    match file_name_of(path) {
        Some(name) => Some(name.subrange(0, stem_len(name))),
        None => None,
    }
}

/// A path whose last character is neither a separator nor the dot of a
/// trailing `.` component is not shortened by trimming.
pub proof fn lemma_trimmed_len_keeps(p: Seq<char>)
    requires
        p.len() > 0,
        p.last() != '/',
        p.last() == '.' ==> p.len() >= 2 && p[p.len() - 2] != '/',
    ensures
        trimmed_len(p, p.len() as int) == p.len(),
{
}

/// Trimming never lengthens, and what it leaves ends in neither a separator
/// nor a `.` component that follows one.
pub proof fn lemma_trimmed_len(p: Seq<char>, n: int)
    requires
        0 <= n <= p.len(),
    ensures
        0 <= trimmed_len(p, n) <= n,
        trimmed_len(p, n) > 0 ==> p[trimmed_len(p, n) - 1] != '/',
        trimmed_len(p, n) >= 2 && p[trimmed_len(p, n) - 1] == '.' ==> p[trimmed_len(p, n) - 2]
            != '/',
    decreases n,
{
    if n > 0 {
        if p[n - 1] == '/' {
            lemma_trimmed_len(p, n - 1);
        } else if p[n - 1] == '.' && n >= 2 && p[n - 2] == '/' {
            lemma_trimmed_len(p, n - 1);
        }
    }
}

/// The length of `v` after trimming.
pub(crate) fn trimmed_end(v: &Vec<char>) -> (n: usize)
    ensures
        n == trimmed_len(v@, v@.len() as int),
        n <= v.len(),
{
    let mut n: usize = v.len();
    while n > 0
        invariant
            n <= v.len(),
            trimmed_len(v@, v@.len() as int) == trimmed_len(v@, n as int),
        decreases n,
    {
        if v[n - 1] == '/' {
            n = n - 1;
        } else if v[n - 1] == '.' && n >= 2 && v[n - 2] == '/' {
            n = n - 1;
        } else {
            return n;
        }
    }
    n
}

/// The bounds of the file name in `v`.
pub(crate) fn file_name_range(v: &Vec<char>) -> (r: Option<(usize, usize)>)
    ensures
        match r {
            Some((start, end)) => file_name_bounds(v@) == Some((start as int, end as int)),
            None => file_name_bounds(v@) is None,
        },
        r matches Some((start, end)) ==> start < end <= v.len(),
{
    let end = trimmed_end(v);
    if end == 0 {
        return None;
    }
    let start: usize = match rfind_char(v, '/', 0, end) {
        Some(i) => i + 1,
        None => 0,
    };
    proof {
        lemma_trimmed_len(v@, v@.len() as int);
        lemma_rfind_before(v@.subrange(0, end as int), '/', end as int);
        assert(v@.subrange(0, end as int)[end - 1] == v@[end - 1]);
    }
    if end - start == 1 && v[start] == '.' {
        return None;
    }
    if end - start == 2 && v[start] == '.' && v[start + 1] == '.' {
        return None;
    }
    Some((start, end))
}

/// The bounds of the file stem in `v`.
pub(crate) fn file_stem_range(v: &Vec<char>) -> (r: Option<(usize, usize)>)
    ensures
        match r {
            Some((start, end)) => file_stem_of(v@) == Some(v@.subrange(start as int, end as int)),
            None => file_stem_of(v@) is None,
        },
        r matches Some((start, end)) ==> start <= end <= v.len(),
{
    match file_name_range(v) {
        None => None,
        Some((start, end)) => {
            let ghost name = v@.subrange(start as int, end as int);
            let stem_end: usize = match rfind_char(v, '.', start, end) {
                Some(dot) => if dot > start {
                    dot
                } else {
                    end
                },
                None => end,
            };
            proof {
                assert(name.subrange(0, stem_end - start) =~= v@.subrange(
                    start as int,
                    stem_end as int,
                ));
            }
            Some((start, stem_end))
        },
    }
}

} // verus!
