//! Character-sequence utilities shared by the parser, the stage executor
//! and the rename-log codec: substring search and literal-pattern removal.

use vstd::prelude::*;

verus! {

/// The pattern `p` occurs in `s` starting at position `i`.
pub open spec fn occurs_at(s: Seq<char>, p: Seq<char>, i: int) -> bool {
    0 <= i && i + p.len() <= s.len() && s.subrange(i, i + p.len() as int) == p
}

/// Some occurrence of `p` lies inside `s`.
pub open spec fn has_sub(s: Seq<char>, p: Seq<char>) -> bool {
    exists|i: int| occurs_at(s, p, i)
}

/// Position of the leftmost occurrence of `p` in `s` at or after `from`.
pub open spec fn spec_find(s: Seq<char>, p: Seq<char>, from: nat) -> Option<nat>
    decreases s.len() - from,
{
    if p.len() == 0 {
        if from <= s.len() {
            Some(from)
        } else {
            None
        }
    } else if from + p.len() > s.len() {
        None
    } else if occurs_at(s, p, from as int) {
        Some(from)
    } else {
        spec_find(s, p, (from + 1) as nat)
    }
}

pub proof fn lemma_spec_find(s: Seq<char>, p: Seq<char>, from: nat)
    ensures
        match spec_find(s, p, from) {
            Some(j) => from <= j && occurs_at(s, p, j as int) && forall|k: int|
                from <= k < j ==> !occurs_at(s, p, k),
            None => forall|k: int| from <= k ==> !occurs_at(s, p, k),
        },
    decreases s.len() - from,
{
    if p.len() == 0 {
        if from <= s.len() {
            assert(s.subrange(from as int, from as int) =~= p);
        }
    } else if from + p.len() > s.len() {
        assert forall|k: int| from <= k implies !occurs_at(s, p, k) by {}
    } else if occurs_at(s, p, from as int) {
    } else {
        lemma_spec_find(s, p, (from + 1) as nat);
    }
}

/// A search from position 0 succeeds exactly when `p` occurs somewhere in `s`.
pub proof fn lemma_find_has_sub(s: Seq<char>, p: Seq<char>)
    ensures
        (spec_find(s, p, 0) is Some) == has_sub(s, p),
{
    lemma_spec_find(s, p, 0);
    match spec_find(s, p, 0) {
        Some(j) => {
            assert(occurs_at(s, p, j as int));
        },
        None => {
            assert forall|i: int| !occurs_at(s, p, i) by {
                if i >= 0 {
                    assert(!occurs_at(s, p, i));
                }
            }
        },
    }
}

/// An occurrence that nothing precedes is the one the search finds.
pub proof fn lemma_find_at(s: Seq<char>, p: Seq<char>, j: int)
    requires
        occurs_at(s, p, j),
        forall|k: int| 0 <= k < j ==> !occurs_at(s, p, k),
    ensures
        spec_find(s, p, 0) == Some(j as nat),
{
    lemma_spec_find(s, p, 0);
    match spec_find(s, p, 0) {
        Some(jp) => {
            if (jp as int) < j {
                assert(occurs_at(s, p, jp as int));
                assert(false);
            }
            if (jp as int) > j {
                assert(!occurs_at(s, p, j));
                assert(false);
            }
        },
        None => {
            assert(!occurs_at(s, p, j));
            assert(false);
        },
    }
}

/// An occurrence inside a prefix of `s` is an occurrence inside `s`.
pub proof fn lemma_occurs_in_prefix(s: Seq<char>, n: int, p: Seq<char>, i: int)
    requires
        0 <= n <= s.len(),
        occurs_at(s.subrange(0, n), p, i),
    ensures
        occurs_at(s, p, i),
{
    let t = s.subrange(0, n);
    assert(s.subrange(i, i + p.len() as int) =~= t.subrange(i, i + p.len() as int));
}

/// Compare a character slice with a string slice, character by character.
pub fn slice_eq_str(v: &[char], s: &str) -> (r: bool)
    ensures
        r == (v@ == s@),
{
    let n = s.unicode_len();
    if v.len() != n {
        proof {
            assert(v@.len() != s@.len());
        }
        return false;
    }
    let mut i: usize = 0;
    while i < n
        invariant
            i <= n,
            n == s@.len(),
            v@.len() == n,
            forall|k: int| 0 <= k < i ==> v@[k] == s@[k],
        decreases n - i,
    {
        if v[i] != s.get_char(i) {
            return false;
        }
        i += 1;
    }
    proof {
        assert(v@ =~= s@);
    }
    true
}

/// Does `p` occur in `v` at position `at`?
pub fn match_at(v: &[char], p: &[char], at: usize) -> (r: bool)
    requires
        at <= v@.len(),
    ensures
        r == occurs_at(v@, p@, at as int),
{
    let n = v.len();
    let m = p.len();
    if m > n - at {
        return false;
    }
    let mut k: usize = 0;
    while k < m
        invariant
            k <= m,
            m == p@.len(),
            n == v@.len(),
            at + m <= n,
            forall|t: int| 0 <= t < k ==> v@[at + t] == p@[t],
        decreases m - k,
    {
        if v[at + k] != p[k] {
            proof {
                assert(!occurs_at(v@, p@, at as int)) by {
                    if occurs_at(v@, p@, at as int) {
                        assert(v@.subrange(at as int, at + m as int)[k as int] == v@[at + k]);
                    }
                }
            }
            return false;
        }
        k += 1;
    }
    proof {
        assert(v@.subrange(at as int, at + m as int) =~= p@);
    }
    true
}

/// Leftmost occurrence of `p` in `v` at or after `from`, if any.
pub fn find_in(v: &[char], p: &[char], from: usize) -> (r: Option<usize>)
    ensures
        match r {
            Some(j) => spec_find(v@, p@, from as nat) == Some(j as nat),
            None => spec_find(v@, p@, from as nat) is None,
        },
{
    let n = v.len();
    let m = p.len();
    if from > n {
        return None;
    }
    if m == 0 {
        proof {
            assert(occurs_at(v@, p@, from as int)) by {
                assert(v@.subrange(from as int, from as int) =~= p@);
            }
        }
        return Some(from);
    }
    if m > n || from > n - m {
        return None;
    }
    let mut i: usize = from;
    while i <= n - m
        invariant
            from <= i,
            1 <= m <= n,
            i <= n - m + 1,
            n == v@.len(),
            m == p@.len(),
            spec_find(v@, p@, from as nat) == spec_find(v@, p@, i as nat),
        decreases n - i,
    {
        if match_at(v, p, i) {
            return Some(i);
        }
        i += 1;
    }
    None
}

/// Does `p` occur anywhere in `v`?
pub fn contains_pattern(v: &[char], p: &[char]) -> (r: bool)
    ensures
        r == has_sub(v@, p@),
{
    proof {
        lemma_find_has_sub(v@, p@);
    }
    match find_in(v, p, 0) {
        Some(_) => true,
        None => false,
    }
}

/// The characters of `s`, in order, as a vector.
pub fn str_chars(s: &str) -> (r: Vec<char>)
    ensures
        r@ == s@,
{
    let n = s.unicode_len();
    let mut v: Vec<char> = Vec::new();
    let mut i: usize = 0;
    while i < n
        invariant
            i <= n,
            n == s@.len(),
            v@ == s@.take(i as int),
        decreases n - i,
    {
        let c = s.get_char(i);
        v.push(c);
        proof {
            assert(v@ =~= s@.take(i + 1 as int));
        }
        i += 1;
    }
    proof {
        assert(s@.take(n as int) =~= s@);
    }
    v
}

/// Relies on `String: FromIterator<char>` (through `Iterator::collect`):
/// the collected string holds exactly the characters of `v`, in order.
#[verifier::external_body]
pub fn chars_string(v: &[char]) -> (r: String)
    ensures
        r@ == v@,
{
    v.iter().collect()
}

/// One step of literal-pattern removal: append `c` to the output kept so
/// far; when the output now ends in `p`, drop that tail. Cancelling the
/// tail as soon as it forms also removes occurrences that only appear
/// after an earlier removal joins their surroundings.
pub open spec fn remove_step(acc: Seq<char>, c: char, p: Seq<char>) -> Seq<char> {
    let grown = acc.push(c);
    if p.len() > 0 && p.len() <= grown.len() && grown.subrange(
        grown.len() - p.len(),
        grown.len() as int,
    ) == p {
        grown.subrange(0, grown.len() - p.len())
    } else {
        grown
    }
}

/// Remove every occurrence of `p` from `s`. The result never contains
/// `p` (for a non-empty `p`), so removal is idempotent.
pub open spec fn remove_all(s: Seq<char>, p: Seq<char>) -> Seq<char>
    decreases s.len(),
{
    if s.len() == 0 {
        s
    } else {
        remove_step(remove_all(s.drop_last(), p), s.last(), p)
    }
}

/// Removing the empty pattern changes nothing.
pub proof fn lemma_remove_all_empty_pattern(s: Seq<char>, p: Seq<char>)
    requires
        p.len() == 0,
    ensures
        remove_all(s, p) == s,
    decreases s.len(),
{
    if s.len() > 0 {
        lemma_remove_all_empty_pattern(s.drop_last(), p);
        assert(remove_all(s.drop_last(), p).push(s.last()) =~= s);
    }
}

/// After removal, no occurrence of the pattern is left.
pub proof fn lemma_remove_all_free(s: Seq<char>, p: Seq<char>)
    requires
        p.len() > 0,
    ensures
        !has_sub(remove_all(s, p), p),
    decreases s.len(),
{
    if s.len() == 0 {
        assert forall|i: int| !occurs_at(remove_all(s, p), p, i) by {}
    } else {
        let acc = remove_all(s.drop_last(), p);
        lemma_remove_all_free(s.drop_last(), p);
        let grown = acc.push(s.last());
        let r = remove_all(s, p);
        if p.len() <= grown.len() && grown.subrange(grown.len() - p.len(), grown.len() as int)
            == p {
            // the freshly formed tail was cut; the result is a prefix of `acc`
            assert(r == grown.subrange(0, grown.len() - p.len()));
            assert(r =~= acc.subrange(0, r.len() as int));
            assert forall|i: int| !occurs_at(r, p, i) by {
                if occurs_at(r, p, i) {
                    lemma_occurs_in_prefix(acc, r.len() as int, p, i);
                    assert(has_sub(acc, p));
                }
            }
        } else {
            assert(r == grown);
            assert forall|i: int| !occurs_at(r, p, i) by {
                if occurs_at(r, p, i) {
                    if i + p.len() <= acc.len() {
                        assert(acc =~= grown.subrange(0, acc.len() as int));
                        assert(occurs_at(grown.subrange(0, acc.len() as int), p, i)) by {
                            assert(grown.subrange(0, acc.len() as int).subrange(
                                i,
                                i + p.len() as int,
                            ) =~= grown.subrange(i, i + p.len() as int));
                        }
                        assert(has_sub(acc, p));
                    } else {
                        // the occurrence would be exactly the tail that was not `p`
                        assert(i == grown.len() - p.len());
                        assert(grown.subrange(i, i + p.len() as int) == p);
                    }
                }
            }
        }
    }
}

/// Removal of a pattern that does not occur changes nothing.
pub proof fn lemma_remove_all_noop(s: Seq<char>, p: Seq<char>)
    requires
        !has_sub(s, p),
    ensures
        remove_all(s, p) == s,
    decreases s.len(),
{
    if s.len() > 0 {
        assert(!has_sub(s.drop_last(), p)) by {
            if has_sub(s.drop_last(), p) {
                let i = choose|i: int| occurs_at(s.drop_last(), p, i);
                lemma_occurs_in_prefix(s, s.len() - 1, p, i);
            }
        }
        lemma_remove_all_noop(s.drop_last(), p);
        let grown = s.drop_last().push(s.last());
        assert(grown =~= s);
        if p.len() > 0 && p.len() <= s.len() && s.subrange(s.len() - p.len(), s.len() as int)
            == p {
            assert(occurs_at(s, p, s.len() - p.len()));
        }
    }
}

/// Literal-pattern removal is idempotent: removing `p` a second time
/// yields the same result as one pass.
pub proof fn lemma_remove_all_idempotent(s: Seq<char>, p: Seq<char>)
    ensures
        remove_all(remove_all(s, p), p) == remove_all(s, p),
{
    if p.len() == 0 {
        lemma_remove_all_empty_pattern(remove_all(s, p), p);
    } else {
        lemma_remove_all_free(s, p);
        lemma_remove_all_noop(remove_all(s, p), p);
    }
}

/// Remove every occurrence of `p` from `v`.
pub fn remove_pattern(v: &[char], p: &[char]) -> (r: Vec<char>)
    ensures
        r@ == remove_all(v@, p@),
{
    let m = p.len();
    let mut out: Vec<char> = Vec::new();
    let mut i: usize = 0;
    while i < v.len()
        invariant
            i <= v@.len(),
            m == p@.len(),
            out@ == remove_all(v@.take(i as int), p@),
        decreases v@.len() - i,
    {
        let ghost prefix = v@.take(i as int);
        let ghost acc = out@;
        out.push(v[i]);
        proof {
            assert(v@.take(i + 1 as int).drop_last() =~= prefix);
            assert(v@.take(i + 1 as int).last() == v@[i as int]);
        }
        if m > 0 && m <= out.len() && match_at(out.as_slice(), p, out.len() - m) {
            proof {
                assert(out@.subrange(out@.len() - p@.len(), out@.len() as int) =~= out@.subrange(
                    out@.len() - m,
                    out@.len() as int,
                ));
            }
            out.truncate(out.len() - m);
            proof {
                assert(out@ == remove_step(acc, v@[i as int], p@));
            }
        } else {
            proof {
                assert(out@ == remove_step(acc, v@[i as int], p@)) by {
                    let grown = acc.push(v@[i as int]);
                    if m > 0 && m <= grown.len() {
                        assert(!occurs_at(grown, p@, grown.len() - p@.len()));
                        assert(grown.subrange(grown.len() - p@.len(), grown.len() as int) != p@);
                    }
                }
            }
        }
        i += 1;
    }
    proof {
        assert(v@.take(v@.len() as int) =~= v@);
    }
    out
}

/// A copy of `v[a..b]`.
pub fn subvec(v: &[char], a: usize, b: usize) -> (r: Vec<char>)
    requires
        a <= b <= v@.len(),
    ensures
        r@ == v@.subrange(a as int, b as int),
{
    let mut out: Vec<char> = Vec::new();
    let mut i: usize = a;
    while i < b
        invariant
            a <= i <= b <= v@.len(),
            out@ == v@.subrange(a as int, i as int),
        decreases b - i,
    {
        out.push(v[i]);
        proof {
            assert(out@ =~= v@.subrange(a as int, i + 1 as int));
        }
        i += 1;
    }
    out
}

} // verus!
