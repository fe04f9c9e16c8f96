//! Content hashes: blake3 digests, one-shot and as a chain over length-framed
//! canonical bytes.

use vstd::prelude::*;
use crate::bytes::{le_bytes, lemma_le_bytes_len, lemma_le_value_of_bytes, lemma_pow256_values, put_bytes, put_le};
use crate::text::{hex, push_hex};

verus! {

/// The incremental hasher of the blake3 crate.
#[verifier::external_type_specification]
#[verifier::external_body]
pub struct ExHasher(blake3::Hasher);

/// What an unkeyed hasher that started at offset zero has been given so far;
/// `None` for every other hasher.
pub uninterp spec fn hasher_input(h: blake3::Hasher) -> Option<Seq<u8>>;

/// The 32-byte blake3 digest of an input.
pub uninterp spec fn blake3_digest(input: Seq<u8>) -> Seq<u8>;

/// Calls `blake3::Hasher::new`, which makes an unkeyed hasher that has been
/// given nothing.
#[verifier::external_body]
fn hasher_new() -> (h: blake3::Hasher)
    ensures
        hasher_input(h) == Some(Seq::<u8>::empty()),
{
    blake3::Hasher::new()
}

/// Calls `blake3::Hasher::update`, which adds bytes to what the hasher has
/// been given.
#[verifier::external_body]
fn hasher_update(h: &mut blake3::Hasher, b: &[u8])
    requires
        hasher_input(*old(h)) is Some,
    ensures
        hasher_input(*final(h)) == Some(hasher_input(*old(h))->Some_0 + b@),
{
    h.update(b);
}

/// Calls `blake3::Hasher::finalize`, which gives the digest of everything an
/// unkeyed hasher has been given.
#[verifier::external_body]
fn hasher_finalize(h: &blake3::Hasher) -> (r: [u8; 32])
    requires
        hasher_input(*h) is Some,
    ensures
        r@ == blake3_digest(hasher_input(*h)->Some_0),
{
    *h.finalize().as_bytes()
}

/// Calls `blake3::hash`, which gives the digest of its input.
#[verifier::external_body]
pub(crate) fn blake3_hash(b: &[u8]) -> (r: [u8; 32])
    ensures
        r@ == blake3_digest(b@),
{
    *blake3::hash(b).as_bytes()
}

/// The digest of a byte string in hexadecimal.
pub fn hash_hex(b: &[u8]) -> (r: String)
    ensures
        r@ == hex(blake3_digest(b@)),
{
    let d = blake3_hash(b);
    let mut s = String::new();
    push_hex(&mut s, d.as_slice());
    proof {
        assert(s@ =~= hex(blake3_digest(b@)));
    }
    s
}

/// The bookkeeping key of a row: the digest of its identity's canonical bytes.
/// Its length does not depend on the identity.
pub fn pk_ref(bits: &[u8]) -> (r: Vec<u8>)
    ensures
        r@ == blake3_digest(bits@),
{
    let d = blake3_hash(bits);
    let mut v: Vec<u8> = Vec::with_capacity(32);
    put_bytes(&mut v, d.as_slice());
    proof {
        assert(v@ =~= d@);
    }
    v
}

/// One value in a chain: its length in 64 bits, then its canonical bytes.
pub open spec fn framed(bits: Seq<u8>) -> Seq<u8> {
    le_bytes(bits.len(), 8) + bits
}

/// All values of a chain, each framed.
pub open spec fn framed_all(vs: Seq<Seq<u8>>) -> Seq<u8>
    decreases vs.len(),
{
    if vs.len() == 0 { Seq::empty() } else { framed_all(vs.drop_last()) + framed(vs.last()) }
}

/// A hash chain over the canonical bytes of a stream of values.
pub struct CanonChain {
    hasher: blake3::Hasher,
    values: Ghost<Seq<Seq<u8>>>,
}

impl CanonChain {
    /// The values pushed so far.
    pub closed spec fn view(&self) -> Seq<Seq<u8>> {
        self.values@
    }

    /// The hasher has been given exactly the framed values.
    pub closed spec fn wf(&self) -> bool {
        hasher_input(self.hasher) == Some(framed_all(self.values@))
    }

    /// An empty chain.
    pub fn new() -> (c: CanonChain)
        ensures
            c.wf(),
            c.view() == Seq::<Seq<u8>>::empty(),
    {
        CanonChain { hasher: hasher_new(), values: Ghost(Seq::empty()) }
    }

    /// Add a value by its canonical bytes.
    pub fn push(&mut self, bits: &[u8])
        requires
            old(self).wf(),
        ensures
            final(self).wf(),
            final(self).view() == old(self).view().push(bits@),
    {
        let mut frame: Vec<u8> = Vec::with_capacity(8);
        put_le(&mut frame, bits.len() as u64, 8);
        hasher_update(&mut self.hasher, frame.as_slice());
        hasher_update(&mut self.hasher, bits);
        proof {
            let vs = self.values@;
            let more = vs.push(bits@);
            assert(more.drop_last() =~= vs);
            assert(frame@ =~= le_bytes(bits@.len(), 8));
            assert(framed_all(vs) + frame@ + bits@ =~= framed_all(more));
            self.values = Ghost(more);
        }
    }

    /// The digest of the chain.
    pub fn digest(&self) -> (r: [u8; 32])
        requires
            self.wf(),
        ensures
            r@ == blake3_digest(framed_all(self.view())),
    {
        hasher_finalize(&self.hasher)
    }

    /// The digest of the chain in hexadecimal.
    pub fn hex(self) -> (r: String)
        requires
            self.wf(),
        ensures
            r@ == hex(blake3_digest(framed_all(self.view()))),
    {
        let d = self.digest();
        let mut s = String::new();
        push_hex(&mut s, d.as_slice());
        proof {
            assert(s@ =~= hex(d@));
        }
        s
    }
}

/// Framing front to back, which takes the first value off.
proof fn lemma_framed_front(vs: Seq<Seq<u8>>)
    requires
        vs.len() > 0,
    ensures
        framed_all(vs) == framed(vs[0]) + framed_all(vs.drop_first()),
    decreases vs.len(),
{
    if vs.len() == 1 {
        assert(vs.drop_last() =~= Seq::<Seq<u8>>::empty());
        assert(vs.drop_first() =~= Seq::<Seq<u8>>::empty());
        assert(framed_all(vs) =~= framed(vs[0]) + framed_all(vs.drop_first()));
    } else {
        lemma_framed_front(vs.drop_last());
        assert(vs.drop_last().drop_first() =~= vs.drop_first().drop_last());
        assert(vs.drop_first().last() == vs.last());
        assert(framed_all(vs) =~= framed(vs[0]) + framed_all(vs.drop_first()));
    }
}

/// Two different streams of values are never hashed over the same bytes: the
/// length frames keep the values apart.
pub proof fn law_chain_framing_injective(a: Seq<Seq<u8>>, b: Seq<Seq<u8>>)
    requires
        framed_all(a) == framed_all(b),
        forall|i: int| 0 <= i < a.len() ==> (#[trigger] a[i]).len() <= u64::MAX,
        forall|i: int| 0 <= i < b.len() ==> (#[trigger] b[i]).len() <= u64::MAX,
    ensures
        a == b,
    decreases a.len(),
{
    lemma_pow256_values();
    if a.len() > 0 {
        lemma_framed_front(a);
        lemma_le_bytes_len(a[0].len(), 8);
    }
    if b.len() > 0 {
        lemma_framed_front(b);
        lemma_le_bytes_len(b[0].len(), 8);
    }
    if a.len() == 0 || b.len() == 0 {
        assert(framed_all(Seq::<Seq<u8>>::empty()) =~= Seq::<u8>::empty());
        if a.len() == 0 {
            assert(a =~= Seq::<Seq<u8>>::empty());
        }
        if b.len() == 0 {
            assert(b =~= Seq::<Seq<u8>>::empty());
        }
        assert(a.len() == 0 && b.len() == 0);
        assert(a =~= b);
    } else {
        let (x, y) = (a[0], b[0]);
        let (s, t) = (framed_all(a), framed_all(b));
        assert(s.take(8) =~= le_bytes(x.len(), 8));
        assert(t.take(8) =~= le_bytes(y.len(), 8));
        lemma_le_value_of_bytes(x.len(), 8);
        lemma_le_value_of_bytes(y.len(), 8);
        assert(x.len() == y.len());
        assert(s.subrange(8, 8 + x.len() as int) =~= x);
        assert(t.subrange(8, 8 + y.len() as int) =~= y);
        let (a1, b1) = (a.drop_first(), b.drop_first());
        assert(s.skip(8 + x.len() as int) =~= framed_all(a1));
        assert(t.skip(8 + y.len() as int) =~= framed_all(b1));
        assert forall|i: int| 0 <= i < a1.len() implies (#[trigger] a1[i]).len() <= u64::MAX by {
            assert(a1[i] == a[i + 1]);
        }
        assert forall|i: int| 0 <= i < b1.len() implies (#[trigger] b1[i]).len() <= u64::MAX by {
            assert(b1[i] == b[i + 1]);
        }
        law_chain_framing_injective(a1, b1);
        assert(a =~= seq![x] + a1);
        assert(b =~= seq![y] + b1);
    }
}

} // verus!
