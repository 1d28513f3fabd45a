//! The library's path model: a path is a character string whose file-name
//! component is everything after the last `'/'`. Stages rewrite only that
//! component. Home-directory shorthand expansion also lives here.

use vstd::prelude::*;
use crate::text::{str_chars, chars_string, subvec};

verus! {

/// Index right after the last `'/'` in `p`, or 0 when `p` has none.
pub open spec fn name_start(p: Seq<char>) -> int
    decreases p.len(),
{
    if p.len() == 0 {
        0
    } else if p.last() == '/' {
        p.len() as int
    } else {
        name_start(p.drop_last())
    }
}

pub proof fn lemma_name_start_bounds(p: Seq<char>)
    ensures
        0 <= name_start(p) <= p.len(),
    decreases p.len(),
{
    if p.len() > 0 && p.last() != '/' {
        lemma_name_start_bounds(p.drop_last());
    }
}

/// The file-name component: everything after the last `'/'`.
pub open spec fn file_name_of(p: Seq<char>) -> Seq<char> {
    p.subrange(name_start(p), p.len() as int)
}

/// The directory part: everything up to and including the last `'/'`.
pub open spec fn dir_part_of(p: Seq<char>) -> Seq<char> {
    p.subrange(0, name_start(p))
}

/// `p` with its file-name component replaced by `n`.
pub open spec fn with_file_name(p: Seq<char>, n: Seq<char>) -> Seq<char> {
    dir_part_of(p) + n
}

/// Putting a path's own file name back yields the path unchanged.
pub proof fn lemma_with_own_name(p: Seq<char>)
    ensures
        with_file_name(p, file_name_of(p)) == p,
{
    lemma_name_start_bounds(p);
    assert(dir_part_of(p) + file_name_of(p) =~= p);
}

/// A file name is hidden when it begins with `'.'`.
pub open spec fn is_hidden_name(name: Seq<char>) -> bool {
    name.len() > 0 && name[0] == '.'
}

/// Index right after the last `'/'` of `v`, found by scanning backwards.
pub fn find_name_start(v: &[char]) -> (r: usize)
    ensures
        r as int == name_start(v@),
{
    let mut i: usize = v.len();
    proof {
        assert(v@.take(v@.len() as int) =~= v@);
    }
    while i > 0
        invariant
            i <= v@.len(),
            name_start(v@) == name_start(v@.take(i as int)),
        decreases i,
    {
        if v[i - 1] == '/' {
            proof {
                assert(v@.take(i as int).last() == v@[i - 1]);
            }
            return i;
        }
        proof {
            assert(v@.take(i as int).drop_last() =~= v@.take(i - 1 as int));
            assert(v@.take(i as int).last() == v@[i - 1]);
        }
        i -= 1;
    }
    proof {
        assert(v@.take(0) =~= Seq::<char>::empty());
    }
    0
}

/// The file-name component of `v`.
pub fn file_name_chars(v: &[char]) -> (r: Vec<char>)
    ensures
        r@ == file_name_of(v@),
{
    let start = find_name_start(v);
    proof {
        lemma_name_start_bounds(v@);
    }
    subvec(v, start, v.len())
}

/// `v` with its file-name component replaced by `n`.
pub fn replace_file_name(v: &[char], n: &[char]) -> (r: Vec<char>)
    ensures
        r@ == with_file_name(v@, n@),
{
    let start = find_name_start(v);
    proof {
        lemma_name_start_bounds(v@);
    }
    let mut out = subvec(v, 0, start);
    let mut i: usize = 0;
    while i < n.len()
        invariant
            i <= n@.len(),
            out@ == dir_part_of(v@) + n@.take(i as int),
        decreases n@.len() - i,
    {
        out.push(n[i]);
        proof {
            assert(out@ =~= dir_part_of(v@) + n@.take(i + 1 as int));
        }
        i += 1;
    }
    proof {
        assert(dir_part_of(v@) + n@.take(n@.len() as int) =~= with_file_name(v@, n@));
    }
    out
}

/// True when a file name marks a hidden entry: it begins with `'.'`.
pub fn is_hidden(name: &str) -> (r: bool)
    ensures
        r == is_hidden_name(name@),
{
    if name.unicode_len() > 0 {
        let c = name.get_char(0);
        c == '.'
    } else {
        false
    }
}

/// `path` with a leading `"~"` or `"~/"` replaced by `home`.
pub open spec fn expand_home_spec(path: Seq<char>, home: Seq<char>) -> Seq<char> {
    if path.len() > 0 && path[0] == '~' && (path.len() == 1 || path[1] == '/') {
        home + path.skip(1)
    } else {
        path
    }
}

/// Expand the home-directory shorthand: a path that is `"~"`, or starts
/// with `"~/"`, has the marker replaced by `home`; any other path is
/// returned unchanged.
pub fn expand_home(path: &str, home: &str) -> (r: String)
    ensures
        r@ == expand_home_spec(path@, home@),
{
    let n = path.unicode_len();
    if n > 0 && path.get_char(0) == '~' && (n == 1 || path.get_char(1) == '/') {
        let pv = str_chars(path);
        let hv = str_chars(home);
        let mut out = hv;
        let mut i: usize = 1;
        while i < n
            invariant
                1 <= i <= n,
                n == pv@.len(),
                pv@ == path@,
                out@ == home@ + pv@.subrange(1, i as int),
            decreases n - i,
        {
            out.push(pv[i]);
            proof {
                assert(out@ =~= home@ + pv@.subrange(1, i + 1 as int));
            }
            i += 1;
        }
        proof {
            assert(home@ + path@.subrange(1, n as int) =~= expand_home_spec(path@, home@));
        }
        chars_string(out.as_slice())
    } else {
        let pv = str_chars(path);
        chars_string(pv.as_slice())
    }
}

} // verus!
