//! Derivation of stable identifiers from human-readable names.
//!
//! A name is digested with the 64-bit FNV-1a hash over its characters.
//! The digest is a pure function of the name: the same name always yields
//! the same identifier, and distinct names collide only rarely (the design
//! tolerates such collisions as a known limitation).

use vstd::prelude::*;

verus! {

/// FNV-1a 64-bit offset basis.
pub const FNV_OFFSET: u64 = 0xcbf2_9ce4_8422_2325;

/// FNV-1a 64-bit prime.
pub const FNV_PRIME: u64 = 0x100_0000_01b3;

/// One FNV-1a round: fold one character into the running digest.
pub open spec fn hash_step(h: u64, c: char) -> u64 {
    (h ^ (c as u64)).wrapping_mul(FNV_PRIME)
}

/// The digest of a whole character sequence, folded left to right.
pub open spec fn spec_hash(s: Seq<char>) -> u64
    decreases s.len(),
{
    if s.len() == 0 {
        FNV_OFFSET
    } else {
        hash_step(spec_hash(s.drop_last()), s.last())
    }
}

/// Computes the FNV-1a digest of `name`, character by character.
pub fn hash_name(name: &str) -> (id: u64)
    ensures
        id == spec_hash(name@),
{
    let n = name.unicode_len();
    let mut h: u64 = FNV_OFFSET;
    let mut i: usize = 0;
    proof {
        assert(name@.take(0) =~= Seq::<char>::empty());
    }
    while i < n
        invariant
            0 <= i <= n,
            n == name@.len(),
            h == spec_hash(name@.take(i as int)),
        decreases n - i,
    {
        let c = name.get_char(i);
        proof {
            assert(name@.take(i + 1).drop_last() =~= name@.take(i as int));
            assert(name@.take(i + 1).last() == name@[i as int]);
        }
        h = (h ^ (c as u64)).wrapping_mul(FNV_PRIME);
        i = i + 1;
    }
    proof {
        assert(name@.take(n as int) =~= name@);
    }
    h
}

/// Deriving an identifier is deterministic: equal names yield equal digests.
/// The digest is a mathematical function of the character sequence alone, so
/// two derivations from the same name can never disagree.
pub proof fn lemma_hash_deterministic(n1: Seq<char>, n2: Seq<char>)
    requires
        n1 == n2,
    ensures
        spec_hash(n1) == spec_hash(n2),
{
}

} // verus!
