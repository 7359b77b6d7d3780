//! Pure utilities over byte paths.
//!
//! Paths are POSIX-like byte strings over `/`-separated components (the byte
//! 47 is `/`, the byte 46 is `.`). Splitting takes a path to its first
//! component and the remainder; trimming removes separators at either end;
//! normalization additionally strips a leading `./`.

use vstd::prelude::*;

verus! {

/// Number of leading `/` bytes of `s`.
pub open spec fn count_leading(s: Seq<u8>) -> int
    decreases s.len(),
{
    if s.len() > 0 && s[0] == 47 {
        1 + count_leading(s.drop_first())
    } else {
        0
    }
}

/// Index of the first `/` in `s`, or `s.len()` if there is none.
pub open spec fn first_slash(s: Seq<u8>) -> int
    decreases s.len(),
{
    if s.len() == 0 {
        0
    } else if s[0] == 47 {
        0
    } else {
        1 + first_slash(s.drop_first())
    }
}

/// Number of trailing `/` bytes of `s`.
pub open spec fn count_trailing(s: Seq<u8>) -> int
    decreases s.len(),
{
    if s.len() > 0 && s.last() == 47 {
        1 + count_trailing(s.drop_last())
    } else {
        0
    }
}

/// `s` with its leading `/` bytes removed.
pub open spec fn trim_leading(s: Seq<u8>) -> Seq<u8> {
    s.skip(count_leading(s))
}

/// `s` with `/` bytes removed at both ends.
pub open spec fn trim_slashes(s: Seq<u8>) -> Seq<u8> {
    if count_leading(s) == s.len() {
        Seq::empty()
    } else {
        s.subrange(count_leading(s), s.len() - count_trailing(s))
    }
}

/// First component of `s`: what stands between the leading `/` bytes and the
/// next `/` (or the end).
pub open spec fn split_name(s: Seq<u8>) -> Seq<u8> {
    trim_leading(s).take(first_slash(trim_leading(s)))
}

/// Remainder of `s` after the first component and the `/` behind it, if a `/`
/// follows the first component at all.
pub open spec fn split_rest(s: Seq<u8>) -> Option<Seq<u8>> {
    let t = trim_leading(s);
    if first_slash(t) < t.len() {
        Some(t.skip(first_slash(t) + 1))
    } else {
        None
    }
}

/// `a` stands at the front of `b`.
pub open spec fn is_prefix(a: Seq<u8>, b: Seq<u8>) -> bool {
    a.len() <= b.len() && b.subrange(0, a.len() as int) == a
}

/// The relative form a path takes before mount resolution: separators trimmed
/// at both ends and any leading `./` stripped, repeatedly.
pub open spec fn norm_rel(s: Seq<u8>) -> Seq<u8>
    decreases s.len(),
    via norm_rel_dec
{
    let t = trim_slashes(s);
    if t.len() >= 2 && t[0] == 46 && t[1] == 47 {
        norm_rel(t.skip(2))
    } else {
        t
    }
}

#[via_fn]
proof fn norm_rel_dec(s: Seq<u8>) {
    lemma_trim_bounds(s);
}

pub proof fn lemma_count_leading(s: Seq<u8>)
    ensures
        0 <= count_leading(s) <= s.len(),
        forall|k: int| 0 <= k < count_leading(s) ==> s[k] == 47,
        count_leading(s) < s.len() ==> s[count_leading(s)] != 47,
    decreases s.len(),
{
    if s.len() > 0 && s[0] == 47 {
        lemma_count_leading(s.drop_first());
        assert forall|k: int| 0 <= k < count_leading(s) implies s[k] == 47 by {
            if k > 0 {
                assert(s.drop_first()[k - 1] == s[k]);
            }
        }
        if count_leading(s) < s.len() {
            assert(s.drop_first()[count_leading(s) - 1] == s[count_leading(s)]);
        }
    }
}

pub proof fn lemma_first_slash(s: Seq<u8>)
    ensures
        0 <= first_slash(s) <= s.len(),
        forall|k: int| 0 <= k < first_slash(s) ==> s[k] != 47,
        first_slash(s) < s.len() ==> s[first_slash(s)] == 47,
    decreases s.len(),
{
    if s.len() > 0 && s[0] != 47 {
        lemma_first_slash(s.drop_first());
        assert forall|k: int| 0 <= k < first_slash(s) implies s[k] != 47 by {
            if k > 0 {
                assert(s.drop_first()[k - 1] == s[k]);
            }
        }
        if first_slash(s) < s.len() {
            assert(s.drop_first()[first_slash(s) - 1] == s[first_slash(s)]);
        }
    }
}

pub proof fn lemma_count_trailing(s: Seq<u8>)
    ensures
        0 <= count_trailing(s) <= s.len(),
        forall|k: int| s.len() - count_trailing(s) <= k < s.len() ==> s[k] == 47,
        count_trailing(s) < s.len() ==> s[s.len() - count_trailing(s) - 1] != 47,
    decreases s.len(),
{
    if s.len() > 0 && s.last() == 47 {
        lemma_count_trailing(s.drop_last());
        assert forall|k: int| s.len() - count_trailing(s) <= k < s.len() implies s[k] == 47 by {
            if k < s.len() - 1 {
                assert(s.drop_last()[k] == s[k]);
            }
        }
        if count_trailing(s) < s.len() {
            assert(s.drop_last()[s.len() - count_trailing(s) - 1] == s[s.len() - count_trailing(
                s,
            ) - 1]);
        }
    }
}

/// Unless `s` is all separators, the two trimmed runs do not overlap.
pub proof fn lemma_trim_bounds(s: Seq<u8>)
    ensures
        count_leading(s) < s.len() ==> count_leading(s) + count_trailing(s) < s.len(),
        trim_slashes(s).len() <= s.len(),
{
    lemma_count_leading(s);
    lemma_count_trailing(s);
    if count_leading(s) < s.len() {
        if count_leading(s) + count_trailing(s) >= s.len() {
            assert(s[count_leading(s)] == 47);
        }
    }
}

/// The first component holds no separator, and the remainder is strictly
/// shorter than the whole path.
pub proof fn lemma_split(s: Seq<u8>)
    ensures
        forall|k: int| 0 <= k < split_name(s).len() ==> split_name(s)[k] != 47,
        split_name(s).len() <= s.len(),
        match split_rest(s) {
            Some(r) => r.len() < s.len(),
            None => true,
        },
{
    lemma_count_leading(s);
    lemma_first_slash(trim_leading(s));
}

/// Looks up the first component of `path` and the remainder behind the
/// separator that follows it, if any.
pub fn split_path<'a>(path: &'a [u8]) -> (r: (&'a [u8], Option<&'a [u8]>))
    ensures
        r.0@ == split_name(path@),
        match r.1 {
            Some(rest) => split_rest(path@) == Some(rest@),
            None => split_rest(path@) is None,
        },
{
    proof {
        lemma_count_leading(path@);
        lemma_first_slash(trim_leading(path@));
    }
    let ghost cl = count_leading(path@);
    let ghost fs = first_slash(trim_leading(path@));
    let mut i: usize = 0;
    while i < path.len() && path[i] == 47
        invariant
            0 <= i <= path@.len(),
            forall|k: int| 0 <= k < i ==> path@[k] == 47,
        decreases path@.len() - i,
    {
        i = i + 1;
    }
    proof {
        assert(i == cl);
    }
    let mut j: usize = i;
    while j < path.len() && path[j] != 47
        invariant
            i <= j <= path@.len(),
            forall|k: int| i <= k < j ==> path@[k] != 47,
        decreases path@.len() - j,
    {
        j = j + 1;
    }
    proof {
        let t = trim_leading(path@);
        assert(t.len() == path@.len() - i);
        assert forall|k: int| 0 <= k < j - i implies t[k] != 47 by {
            assert(t[k] == path@[k + i]);
        }
        if j < path@.len() {
            assert(t[j - i] == path@[j as int]);
        }
        assert(j - i == fs);
    }
    let name = vstd::slice::slice_subrange(path, i, j);
    proof {
        assert(name@ =~= split_name(path@));
    }
    if j < path.len() {
        let rest = vstd::slice::slice_subrange(path, j + 1, path.len());
        proof {
            assert(rest@ =~= trim_leading(path@).skip(fs + 1));
        }
        (name, Some(rest))
    } else {
        (name, None)
    }
}

/// Removes the separators at both ends of `path`.
pub fn trim_path<'a>(path: &'a [u8]) -> (r: &'a [u8])
    ensures
        r@ == trim_slashes(path@),
{
    proof {
        lemma_count_leading(path@);
        lemma_count_trailing(path@);
        lemma_trim_bounds(path@);
    }
    let mut i: usize = 0;
    while i < path.len() && path[i] == 47
        invariant
            0 <= i <= path@.len(),
            forall|k: int| 0 <= k < i ==> path@[k] == 47,
        decreases path@.len() - i,
    {
        i = i + 1;
    }
    proof {
        assert(i == count_leading(path@));
    }
    if i == path.len() {
        let r = vstd::slice::slice_subrange(path, 0, 0);
        proof {
            assert(r@ =~= trim_slashes(path@));
        }
        r
    } else {
        let mut j: usize = path.len();
        while j > i && path[j - 1] == 47
            invariant
                i <= j <= path@.len(),
                forall|k: int| j <= k < path@.len() ==> path@[k] == 47,
            decreases j,
        {
            j = j - 1;
        }
        proof {
            assert(j > i) by {
                if j == i {
                    assert(path@[i as int] == 47);
                }
            }
            assert(path@[j - 1] != 47);
            assert(path@.len() - j == count_trailing(path@));
        }
        let r = vstd::slice::slice_subrange(path, i, j);
        proof {
            assert(r@ =~= trim_slashes(path@));
        }
        r
    }
}

/// Trims `path` and strips any leading `./`, as mount resolution sees it.
pub fn normalize_rel<'a>(path: &'a [u8]) -> (r: &'a [u8])
    ensures
        r@ == norm_rel(path@),
    decreases path@.len(),
{
    let t = trim_path(path);
    proof {
        lemma_trim_bounds(path@);
    }
    if t.len() >= 2 && t[0] == 46 && t[1] == 47 {
        let rest = vstd::slice::slice_subrange(t, 2, t.len());
        normalize_rel(rest)
    } else {
        t
    }
}

/// Tests whether `prefix` stands at the front of `path`.
pub fn starts_with(path: &[u8], prefix: &[u8]) -> (r: bool)
    ensures
        r == is_prefix(prefix@, path@),
{
    if prefix.len() > path.len() {
        proof {
            assert(!is_prefix(prefix@, path@));
        }
        return false;
    }
    let mut i: usize = 0;
    while i < prefix.len()
        invariant
            0 <= i <= prefix@.len() <= path@.len(),
            forall|k: int| 0 <= k < i ==> path@[k] == prefix@[k],
        decreases prefix@.len() - i,
    {
        if path[i] != prefix[i] {
            proof {
                assert(path@.subrange(0, prefix@.len() as int)[i as int] != prefix@[i as int]);
            }
            return false;
        }
        i = i + 1;
    }
    proof {
        assert(path@.subrange(0, prefix@.len() as int) =~= prefix@);
    }
    true
}

/// Tests whether two byte strings are equal.
pub fn bytes_eq(a: &[u8], b: &[u8]) -> (r: bool)
    ensures
        r == (a@ == b@),
{
    if a.len() != b.len() {
        return false;
    }
    let mut i: usize = 0;
    while i < a.len()
        invariant
            0 <= i <= a@.len(),
            a@.len() == b@.len(),
            forall|k: int| 0 <= k < i ==> a@[k] == b@[k],
        decreases a@.len() - i,
    {
        if a[i] != b[i] {
            return false;
        }
        i = i + 1;
    }
    proof {
        assert(a@ =~= b@);
    }
    true
}

} // verus!
