use vstd::prelude::*;

verus! {

/// `p` occurs in `s` starting at position `i`.
pub open spec fn matches_at(s: Seq<u8>, p: Seq<u8>, i: int) -> bool {
    0 <= i && i + p.len() <= s.len() && s.subrange(i, i + p.len()) == p
}

/// The first position at or after `from` where `p` occurs in `s`.
pub open spec fn find_from(s: Seq<u8>, p: Seq<u8>, from: int) -> Option<int>
    decreases s.len() + 1 - from,
{
    if from < 0 || from + p.len() > s.len() {
        None
    } else if matches_at(s, p, from) {
        Some(from)
    } else {
        find_from(s, p, from + 1)
    }
}

/// The first position at or after `from` that holds the byte `b`.
pub open spec fn find_byte_from(s: Seq<u8>, b: u8, from: int) -> Option<int>
    decreases s.len() - from,
{
    if from < 0 || from >= s.len() {
        None
    } else if s[from] == b {
        Some(from)
    } else {
        find_byte_from(s, b, from + 1)
    }
}

/// `p` occurs somewhere in `s`.
pub open spec fn contains(s: Seq<u8>, p: Seq<u8>) -> bool {
    exists|i: int| matches_at(s, p, i)
}

/// What a search returns: the first match at or after `from`, or no match there at all.
pub proof fn lemma_find_from(s: Seq<u8>, p: Seq<u8>, from: int)
    requires
        0 <= from,
    ensures
        find_from(s, p, from) matches Some(i) ==> from <= i && matches_at(s, p, i) && forall|
            j: int,
        |
            from <= j < i ==> !matches_at(s, p, j),
        find_from(s, p, from) is None ==> forall|j: int| from <= j ==> !matches_at(s, p, j),
    decreases s.len() + 1 - from,
{
    if from + p.len() > s.len() {
    } else if matches_at(s, p, from) {
    } else {
        lemma_find_from(s, p, from + 1);
    }
}

/// What a byte search returns: the first such byte at or after `from`, or none there.
pub proof fn lemma_find_byte_from(s: Seq<u8>, b: u8, from: int)
    requires
        0 <= from,
    ensures
        find_byte_from(s, b, from) matches Some(i) ==> from <= i < s.len() && s[i] == b && forall|
            j: int,
        |
            from <= j < i ==> s[j] != b,
        find_byte_from(s, b, from) is None ==> forall|j: int| from <= j < s.len() ==> s[j] != b,
    decreases s.len() - from,
{
    if from >= s.len() {
    } else if s[from] == b {
    } else {
        lemma_find_byte_from(s, b, from + 1);
    }
}

/// Where the search result is determined by the facts of `lemma_find_from`.
pub proof fn lemma_find_from_is(s: Seq<u8>, p: Seq<u8>, from: int, r: Option<int>)
    requires
        0 <= from,
        r matches Some(i) ==> from <= i && matches_at(s, p, i) && forall|j: int|
            from <= j < i ==> !matches_at(s, p, j),
        r is None ==> forall|j: int| from <= j ==> !matches_at(s, p, j),
    ensures
        find_from(s, p, from) == r,
{
    lemma_find_from(s, p, from);
    match find_from(s, p, from) {
        Some(i) => {
            if let Some(k) = r {
                if k < i {
                } else if i < k {
                }
            }
        },
        None => {},
    }
}

/// Where the search result is determined by the facts of `lemma_find_byte_from`.
pub proof fn lemma_find_byte_from_is(s: Seq<u8>, b: u8, from: int, r: Option<int>)
    requires
        0 <= from,
        r matches Some(i) ==> from <= i < s.len() && s[i] == b && forall|j: int|
            from <= j < i ==> s[j] != b,
        r is None ==> forall|j: int| from <= j < s.len() ==> s[j] != b,
    ensures
        find_byte_from(s, b, from) == r,
{
    lemma_find_byte_from(s, b, from);
    match find_byte_from(s, b, from) {
        Some(i) => {
            if let Some(k) = r {
                if k < i {
                } else if i < k {
                }
            }
        },
        None => {},
    }
}

/// Whether `p` occurs in `s` at position `i`.
pub fn matches_at_exec(s: &[u8], p: &[u8], i: usize) -> (r: bool)
    ensures
        r == matches_at(s@, p@, i as int),
{
    let n = s.len();
    if i > n || p.len() > n - i {
        return false;
    }
    let mut j: usize = 0;
    while j < p.len()
        invariant
            n == s@.len(),
            i + p@.len() <= s@.len(),
            j <= p@.len(),
            forall|k: int| 0 <= k < j ==> s@[i + k] == p@[k],
        decreases p@.len() - j,
    {
        if s[i + j] != p[j] {
            proof {
                assert(s@.subrange(i as int, i + p@.len())[j as int] != p@[j as int]);
            }
            return false;
        }
        j = j + 1;
    }
    proof {
        assert(s@.subrange(i as int, i + p@.len()) =~= p@);
    }
    true
}

/// The first position at or after `from` where `p` occurs in `s`.
pub fn find(s: &[u8], p: &[u8], from: usize) -> (r: Option<usize>)
    requires
        p@.len() > 0,
    ensures
        r matches Some(i) ==> find_from(s@, p@, from as int) == Some(i as int),
        r is None ==> find_from(s@, p@, from as int) is None,
{
    let mut i: usize = from;
    while i < s.len()
        invariant
            from <= i,
            forall|j: int| from <= j < i ==> !matches_at(s@, p@, j),
        decreases s@.len() - i,
    {
        if matches_at_exec(s, p, i) {
            proof {
                lemma_find_from_is(s@, p@, from as int, Some(i as int));
            }
            return Some(i);
        }
        i = i + 1;
    }
    proof {
        lemma_find_from_is(s@, p@, from as int, None);
    }
    None
}

/// The first position at or after `from` that holds the byte `b`.
pub fn find_byte(s: &[u8], b: u8, from: usize) -> (r: Option<usize>)
    ensures
        r matches Some(i) ==> find_byte_from(s@, b, from as int) == Some(i as int),
        r is None ==> find_byte_from(s@, b, from as int) is None,
{
    let mut i: usize = from;
    while i < s.len()
        invariant
            from <= i,
            forall|j: int| from <= j < i ==> s@[j] != b,
        decreases s@.len() - i,
    {
        if s[i] == b {
            proof {
                lemma_find_byte_from_is(s@, b, from as int, Some(i as int));
            }
            return Some(i);
        }
        i = i + 1;
    }
    proof {
        lemma_find_byte_from_is(s@, b, from as int, None);
    }
    None
}

} // verus!

verus! {

/// `s` and `t` hold the same bytes below `k`.
pub open spec fn agree_below(s: Seq<u8>, t: Seq<u8>, k: int) -> bool {
    k <= s.len() && k <= t.len() && forall|j: int| 0 <= j < k ==> s[j] == t[j]
}

/// A search that ends below `k` finds the same place in any text that agrees there.
pub proof fn lemma_find_from_agree(s: Seq<u8>, t: Seq<u8>, p: Seq<u8>, from: int, k: int)
    requires
        0 <= from,
        agree_below(s, t, k),
        find_from(s, p, from) matches Some(i) && i + p.len() <= k,
    ensures
        find_from(t, p, from) == find_from(s, p, from),
{
    lemma_find_from(s, p, from);
    let i = find_from(s, p, from)->0;
    assert(t.subrange(i, i + p.len()) =~= s.subrange(i, i + p.len()));
    assert forall|j: int| from <= j < i implies !matches_at(t, p, j) by {
        assert(!matches_at(s, p, j));
        assert(t.subrange(j, j + p.len()) =~= s.subrange(j, j + p.len()));
    }
    lemma_find_from_is(t, p, from, Some(i));
}

/// A byte search that ends below `k` finds the same place in any text that agrees there.
pub proof fn lemma_find_byte_from_agree(s: Seq<u8>, t: Seq<u8>, b: u8, from: int, k: int)
    requires
        0 <= from,
        agree_below(s, t, k),
        find_byte_from(s, b, from) matches Some(i) && i < k,
    ensures
        find_byte_from(t, b, from) == find_byte_from(s, b, from),
{
    lemma_find_byte_from(s, b, from);
    let i = find_byte_from(s, b, from)->0;
    lemma_find_byte_from_is(t, b, from, Some(i));
}

} // verus!
