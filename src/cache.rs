use vstd::prelude::*;

verus! {

/// Starting state of the 64-bit FNV-1a hash.
pub const FNV_OFFSET: u64 = 0xcbf29ce484222325;

/// Multiplier of the 64-bit FNV-1a hash.
pub const FNV_PRIME: u64 = 0x100000001b3;

/// FNV-1a, continued from state `h` over the bytes of `s`.
pub open spec fn fnv_from(h: u64, s: Seq<u8>) -> u64
    decreases s.len(),
{
    if s.len() == 0 {
        h
    } else {
        fnv_from((h ^ (s[0] as u64)).wrapping_mul(FNV_PRIME), s.drop_first())
    }
}

/// The hash state after feeding each part in turn.
pub open spec fn digest_from(h: u64, parts: Seq<Seq<u8>>) -> u64
    decreases parts.len(),
{
    if parts.len() == 0 {
        h
    } else {
        digest_from(fnv_from(h, parts[0]), parts.drop_first())
    }
}

/// The cache key of a list of inputs.
pub open spec fn digest(parts: Seq<Seq<u8>>) -> u64 {
    digest_from(FNV_OFFSET, parts)
}

/// Continues an FNV-1a hash from state `h` over `bytes`.
pub fn fnv_continue(h: u64, bytes: &[u8]) -> (r: u64)
    ensures
        r == fnv_from(h, bytes@),
{
    let mut acc: u64 = h;
    let mut i: usize = 0;
    assert(bytes@.subrange(0, bytes@.len() as int) =~= bytes@);
    while i < bytes.len()
        invariant
            i <= bytes@.len(),
            fnv_from(h, bytes@) == fnv_from(acc, bytes@.subrange(i as int, bytes@.len() as int)),
        decreases bytes@.len() - i,
    {
        assert(bytes@.subrange(i as int, bytes@.len() as int).drop_first() =~= bytes@.subrange(
            i + 1,
            bytes@.len() as int,
        ));
        acc = (acc ^ (bytes[i] as u64)).wrapping_mul(FNV_PRIME);
        i = i + 1;
    }
    assert(bytes@.subrange(i as int, bytes@.len() as int) =~= Seq::<u8>::empty());
    acc
}

/// Feeding one more part to a digest state.
pub proof fn lemma_digest_push(h: u64, parts: Seq<Seq<u8>>, last: Seq<u8>)
    ensures
        digest_from(h, parts.push(last)) == fnv_from(digest_from(h, parts), last),
    decreases parts.len(),
{
    if parts.len() == 0 {
        assert(parts.push(last).drop_first() =~= Seq::<Seq<u8>>::empty());
        assert(parts.push(last)[0] == last);
        assert(digest_from(fnv_from(h, last), Seq::<Seq<u8>>::empty()) == fnv_from(h, last));
    } else {
        assert(parts.push(last).drop_first() =~= parts.drop_first().push(last));
        lemma_digest_push(fnv_from(h, parts[0]), parts.drop_first(), last);
    }
}

} // verus!
