//! Byte-string helpers shared by the manifest parsers: searching for a
//! delimiter, copying a range, comparing, and normalizing binary names.

use vstd::prelude::*;

verus! {

/// Index of the first occurrence of `b` in `s` at or after `i`;
/// `s.len()` when there is none.
pub open spec fn find_from(s: Seq<u8>, b: u8, i: int) -> int
    decreases s.len() - i,
{
    if i < 0 || i >= s.len() {
        s.len() as int
    } else if s[i] == b {
        i
    } else {
        find_from(s, b, i + 1)
    }
}

/// Index of the first occurrence of `b` in `s`; `s.len()` when there is none.
pub open spec fn find(s: Seq<u8>, b: u8) -> int {
    find_from(s, b, 0)
}

pub proof fn lemma_find_from(s: Seq<u8>, b: u8, i: int)
    requires
        0 <= i <= s.len(),
    ensures
        i <= find_from(s, b, i) <= s.len(),
        find_from(s, b, i) < s.len() ==> s[find_from(s, b, i)] == b,
        forall|j: int| i <= j < find_from(s, b, i) ==> s[j] != b,
    decreases s.len() - i,
{
    if i < s.len() && s[i] != b {
        lemma_find_from(s, b, i + 1);
    }
}

proof fn lemma_find_from_at(s: Seq<u8>, b: u8, i: int, k: int)
    requires
        0 <= i <= k <= s.len(),
        forall|j: int| i <= j < k ==> s[j] != b,
        k < s.len() ==> s[k] == b,
    ensures
        find_from(s, b, i) == if k < s.len() { k } else { s.len() as int },
    decreases k - i,
{
    if i < k {
        lemma_find_from_at(s, b, i + 1, k);
    }
}

/// The first occurrence of `b` is exactly at `k` when nothing before `k`
/// is `b` and either `k` is past the end or `s[k]` is `b`.
pub proof fn lemma_find_at(s: Seq<u8>, b: u8, k: int)
    requires
        0 <= k <= s.len(),
        forall|j: int| 0 <= j < k ==> s[j] != b,
        k < s.len() ==> s[k] == b,
    ensures
        find(s, b) == if k < s.len() { k } else { s.len() as int },
{
    lemma_find_from_at(s, b, 0, k);
}

/// First index at or after `from` holding `b`, or the length when none does.
pub fn find_byte(s: &Vec<u8>, b: u8, from: usize) -> (r: usize)
    requires
        from <= s.len(),
    ensures
        r == find_from(s@, b, from as int),
{
    let mut i: usize = from;
    while i < s.len()
        invariant
            from <= i <= s.len(),
            find_from(s@, b, from as int) == find_from(s@, b, i as int),
        decreases s.len() - i,
    {
        if s[i] == b {
            return i;
        }
        i = i + 1;
    }
    i
}

/// Copy of the byte range `[start, end)` of `s`.
pub fn subvec(s: &Vec<u8>, start: usize, end: usize) -> (r: Vec<u8>)
    requires
        start <= end <= s.len(),
    ensures
        r@ == s@.subrange(start as int, end as int),
{
    let mut r: Vec<u8> = Vec::new();
    let mut i: usize = start;
    while i < end
        invariant
            start <= i <= end <= s.len(),
            r@ =~= s@.subrange(start as int, i as int),
        decreases end - i,
    {
        r.push(s[i]);
        i = i + 1;
    }
    proof {
        assert(r@ =~= s@.subrange(start as int, end as int));
    }
    r
}

/// Byte-for-byte equality of two byte strings.
pub fn bytes_eq(a: &Vec<u8>, b: &Vec<u8>) -> (r: bool)
    ensures
        r == (a@ == b@),
{
    if a.len() != b.len() {
        return false;
    }
    let mut i: usize = 0;
    while i < a.len()
        invariant
            a.len() == b.len(),
            i <= a.len(),
            forall|j: int| 0 <= j < i ==> a@[j] == b@[j],
        decreases a.len() - i,
    {
        if a[i] != b[i] {
            return false;
        }
        i = i + 1;
    }
    proof {
        assert(a@ =~= b@);
    }
    true
}

/// Whether the byte string ends in the suffix `.exe`.
pub open spec fn ends_with_exe(s: Seq<u8>) -> bool {
    &&& s.len() >= 4
    &&& s[s.len() - 4] == 46u8
    &&& s[s.len() - 3] == 101u8
    &&& s[s.len() - 2] == 120u8
    &&& s[s.len() - 1] == 101u8
}

/// The byte string with one trailing `.exe` suffix removed, if present.
pub open spec fn strip_exe(s: Seq<u8>) -> Seq<u8> {
    if ends_with_exe(s) {
        s.subrange(0, s.len() - 4)
    } else {
        s
    }
}

/// A name that does not carry the suffix is left unchanged.
pub proof fn lemma_strip_exe_no_suffix(s: Seq<u8>)
    requires
        !ends_with_exe(s),
    ensures
        strip_exe(s) == s,
{
}

/// Normalization is idempotent whenever one strip removes the suffix
/// entirely: a second application changes nothing.
pub proof fn lemma_strip_exe_idempotent(s: Seq<u8>)
    requires
        !ends_with_exe(strip_exe(s)),
    ensures
        strip_exe(strip_exe(s)) == strip_exe(s),
{
}

/// Strip one trailing `.exe` from a binary name, so that identifiers are
/// comparable across platforms.
pub fn normalize_binary_name(name: &Vec<u8>) -> (r: Vec<u8>)
    ensures
        r@ == strip_exe(name@),
{
    let n = name.len();
    if n >= 4 && name[n - 4] == 46u8 && name[n - 3] == 101u8 && name[n - 2] == 120u8 && name[n - 1]
        == 101u8 {
        subvec(name, 0, n - 4)
    } else {
        let r = subvec(name, 0, n);
        proof {
            assert(r@ =~= name@);
        }
        r
    }
}

} // verus!
