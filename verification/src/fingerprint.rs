use vstd::prelude::*;
use vstd::std_specs::hash::DefaultHasherAdditionalSpecFns;
use std::collections::hash_map::DefaultHasher;
use std::hash::Hasher;

verus! {

/// The digest the standard hasher assigns to exactly one write of the given
/// content bytes: the same bytes always give the same fingerprint.
pub open spec fn spec_fingerprint(content: Seq<u8>) -> u64 {
    DefaultHasher::spec_finish(seq![content])
}

/// Content fingerprint: a stable, non-cryptographic 64-bit hash over a
/// record's content-bearing bytes, used to detect duplicate content across
/// entries that would otherwise look distinct. Collisions are an accepted
/// tradeoff; the function is pure.
pub fn fingerprint(content: &[u8]) -> (r: u64)
    ensures
        r == spec_fingerprint(content@),
{
    let mut h = DefaultHasher::new();
    h.write(content);
    proof {
        assert(h@ =~= seq![content@]);
    }
    h.finish()
}

/// A synthetic row identity for sources that provide no natural one: the
/// content fingerprint reinterpreted as a signed identity.
pub fn fingerprint_id(content: &[u8]) -> (r: i64)
    ensures
        r == spec_fingerprint(content@) as i64,
{
    #[verifier::truncate]
    let id = fingerprint(content) as i64;
    id
}

} // verus!
