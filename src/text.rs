use vstd::prelude::*;

verus! {

/// Whether `needle` occurs in `hay` starting at position `i`.
pub open spec fn occurs_at(hay: Seq<u8>, needle: Seq<u8>, i: int) -> bool {
    0 <= i && i + needle.len() <= hay.len() && hay.subrange(i, i + needle.len()) == needle
}

/// Whether `needle` occurs anywhere in `hay`.
pub open spec fn occurs_in(hay: Seq<u8>, needle: Seq<u8>) -> bool {
    exists|i: int| occurs_at(hay, needle, i)
}

/// Compares two strings character by character.
pub fn same_text(a: &str, b: &str) -> (r: bool)
    ensures
        r == (a@ == b@),
{
    let n = a.unicode_len();
    if n != b.unicode_len() {
        return false;
    }
    let mut i: usize = 0;
    while i < n
        invariant
            n == a@.len(),
            n == b@.len(),
            i <= n,
            forall|j: int| 0 <= j < i ==> a@[j] == b@[j],
        decreases n - i,
    {
        if a.get_char(i) != b.get_char(i) {
            return false;
        }
        i = i + 1;
    }
    assert(a@ =~= b@);
    true
}

/// `needle` occurs in `hay` at some position `i >= lo` and ends at or before `hi`.
pub open spec fn occurs_within(hay: Seq<u8>, needle: Seq<u8>, lo: int, hi: int) -> bool {
    exists|i: int| lo <= i && i + needle.len() <= hi && occurs_at(hay, needle, i)
}

/// `i` is the first position at or after `lo` where `needle` occurs and ends at
/// or before `hi`.
pub open spec fn first_within(hay: Seq<u8>, needle: Seq<u8>, lo: int, hi: int, i: int) -> bool {
    &&& lo <= i
    &&& i + needle.len() <= hi
    &&& occurs_at(hay, needle, i)
    &&& forall|k: int| lo <= k < i ==> !occurs_at(hay, needle, k)
}

/// There is at most one first occurrence.
pub proof fn lemma_first_within_unique(hay: Seq<u8>, needle: Seq<u8>, lo: int, hi: int, i: int, j: int)
    requires
        first_within(hay, needle, lo, hi, i),
        first_within(hay, needle, lo, hi, j),
    ensures
        i == j,
{
}

/// The first occurrence of `needle` in `hay` that starts at or after `lo` and ends
/// at or before `hi`.
pub fn find_within(hay: &[u8], needle: &[u8], lo: usize, hi: usize) -> (r: Option<usize>)
    requires
        lo <= hi <= hay@.len(),
    ensures
        match r {
            Some(i) => first_within(hay@, needle@, lo as int, hi as int, i as int),
            None => !occurs_within(hay@, needle@, lo as int, hi as int),
        },
{
    let m = needle.len();
    if m > hi - lo {
        return None;
    }
    let mut i: usize = lo;
    while i <= hi - m
        invariant
            lo <= hi <= hay@.len(),
            m == needle@.len(),
            m <= hi - lo,
            lo <= i <= hi - m + 1,
            forall|k: int| lo <= k < i ==> !occurs_at(hay@, needle@, k),
        decreases hi - m + 1 - i,
    {
        let mut j: usize = 0;
        let mut same = true;
        while j < m
            invariant
                hi <= hay@.len(),
                m == needle@.len(),
                i + m <= hi,
                j <= m,
                same == (forall|q: int| 0 <= q < j ==> hay@[i + q] == needle@[q]),
            decreases m - j,
        {
            if hay[i + j] != needle[j] {
                same = false;
            }
            j = j + 1;
        }
        if same {
            assert(hay@.subrange(i as int, i + m) =~= needle@);
            return Some(i);
        }
        assert(!occurs_at(hay@, needle@, i as int)) by {
            if hay@.subrange(i as int, i + m) == needle@ {
                assert forall|q: int| 0 <= q < m implies hay@[i + q] == needle@[q] by {
                    assert(hay@.subrange(i as int, i + m)[q] == hay@[i + q]);
                }
            }
        }
        i = i + 1;
    }
    None
}

/// Searches `hay` for the byte string `needle`.
pub fn contains_bytes(hay: &[u8], needle: &[u8]) -> (r: bool)
    ensures
        r == occurs_in(hay@, needle@),
{
    match find_within(hay, needle, 0, hay.len()) {
        Some(_) => true,
        None => {
            assert forall|i: int| !occurs_at(hay@, needle@, i) by {
                if occurs_at(hay@, needle@, i) {
                    assert(0 <= i && i + needle@.len() <= hay@.len());
                }
            }
            false
        },
    }
}

} // verus!
