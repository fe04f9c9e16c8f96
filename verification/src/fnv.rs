//! Byte hashes of the FNV-1a family, as folds over bytes.

use vstd::prelude::*;

verus! {

pub const FNV_OFFSET: u64 = 0xcbf2_9ce4_8422_2325;
pub const FNV_PRIME: u64 = 0x0100_0000_01b3;

/// The state `h` continued over the bytes `s`: each byte is mixed in, then the
/// state is multiplied by `prime`.
pub open spec fn folded(prime: u64, h: u64, s: Seq<u8>) -> u64
    decreases s.len(),
{
    if s.len() == 0 {
        h
    } else {
        folded(prime, (h ^ s[0] as u64).wrapping_mul(prime), s.drop_first())
    }
}

/// FNV-1a of a byte string.
pub open spec fn fnv1a(s: Seq<u8>) -> u64 {
    folded(FNV_PRIME, FNV_OFFSET, s)
}

/// The state `start` continued over the bytes from `from` up to `to`.
pub(crate) fn fold_range(prime: u64, start: u64, b: &[u8], from: usize, to: usize) -> (r: u64)
    requires
        from <= to <= b@.len(),
    ensures
        r == folded(prime, start, b@.subrange(from as int, to as int)),
{
    let mut h: u64 = start;
    let mut i: usize = from;
    while i < to
        invariant
            from <= i <= to <= b@.len(),
            folded(prime, start, b@.subrange(from as int, to as int)) == folded(prime, h, b@.subrange(i as int, to as int)),
        decreases to - i,
    {
        proof {
            assert(b@.subrange(i as int, to as int).drop_first() =~= b@.subrange(i + 1, to as int));
        }
        h = (h ^ b[i] as u64).wrapping_mul(prime);
        i += 1;
    }
    h
}

} // verus!
