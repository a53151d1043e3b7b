//! The 64-bit FNV-1a hash, which names skins and save-record fields:
//! a skin id is the hash of the skin's name, and the codec's symbols
//! are hashes of field names.

use vstd::prelude::*;

verus! {

/// The FNV-1a 64-bit offset basis.
pub const FNV_OFFSET_64: u64 = 0xcbf29ce484222325;

/// The FNV-1a 64-bit prime.
pub const FNV_PRIME_64: u64 = 0x100000001b3;

/// One FNV-1a step: fold a byte into the running hash.
pub open spec fn fnv_step(h: u64, b: u8) -> u64 {
    u64::wrapping_mul(h ^ (b as u64), FNV_PRIME_64)
}

/// Fold a byte sequence into a running hash, left to right.
pub open spec fn fnv_fold(bytes: Seq<u8>, h: u64) -> u64
    decreases bytes.len(),
{
    if bytes.len() == 0 {
        h
    } else {
        fnv_fold(bytes.skip(1), fnv_step(h, bytes[0]))
    }
}

/// The FNV-1a 64-bit hash of a byte sequence.
pub open spec fn fnv_1a_64_spec(bytes: Seq<u8>) -> u64 {
    fnv_fold(bytes, FNV_OFFSET_64)
}

/// The FNV-1a 64-bit hash, computed byte by byte.
pub fn fnv_1a_64(bytes: &[u8]) -> (r: u64)
    ensures
        r == fnv_1a_64_spec(bytes@),
{
    let mut hash: u64 = FNV_OFFSET_64;
    proof {
        assert(bytes@.skip(0) =~= bytes@);
    }
    let mut i: usize = 0;
    while i < bytes.len()
        invariant
            0 <= i <= bytes@.len(),
            fnv_fold(bytes@.skip(i as int), hash) == fnv_1a_64_spec(bytes@),
        decreases bytes@.len() - i,
    {
        proof {
            assert(bytes@.skip(i as int)[0] == bytes@[i as int]);
            assert(bytes@.skip(i as int).skip(1) =~= bytes@.skip(i as int + 1));
        }
        hash = (hash ^ (bytes[i] as u64)).wrapping_mul(FNV_PRIME_64);
        i = i + 1;
    }
    proof {
        assert(bytes@.skip(i as int) =~= Seq::<u8>::empty());
    }
    hash
}

/// The skin id owed to a skin name: the hash of the name's bytes.
pub open spec fn skin_id_spec(name: Seq<char>) -> u64 {
    fnv_1a_64_spec(vstd::utf8::encode_utf8(name))
}

/// Hash a skin name into its id.
pub fn skin_id_of_name(name: &str) -> (r: u64)
    ensures
        r == skin_id_spec(name@),
{
    fnv_1a_64(name.as_bytes())
}

} // verus!
