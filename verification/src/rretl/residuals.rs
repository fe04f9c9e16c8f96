//! The identity of the residuals that a run stored.

use vstd::prelude::*;
use crate::hash::{blake3_digest, framed_all, law_chain_framing_injective, CanonChain};
use crate::text::{hex, lemma_hex_len, lemma_parse_hex, push_hex};

verus! {

/// Residual rows as a stream of values: key, residual, key, residual.
pub open spec fn residual_stream(rows: Seq<(Seq<u8>, Seq<u8>)>) -> Seq<Seq<u8>>
    decreases rows.len(),
{
    if rows.len() == 0 {
        Seq::empty()
    } else {
        residual_stream(rows.drop_last()).push(rows.last().0).push(rows.last().1)
    }
}

/// The recorded identity of residual rows; without any it is empty.
pub open spec fn residual_identity(rows: Seq<(Seq<u8>, Seq<u8>)>) -> Seq<char> {
    if rows.len() == 0 {
        Seq::empty()
    } else {
        hex(blake3_digest(framed_all(residual_stream(rows))))
    }
}

/// The residual rows of a run, taken in the order of their keys.
pub struct ResidualChain {
    chain: CanonChain,
    empty: bool,
    rows: Ghost<Seq<(Seq<u8>, Seq<u8>)>>,
}

impl ResidualChain {
    /// The rows taken so far.
    pub closed spec fn view(&self) -> Seq<(Seq<u8>, Seq<u8>)> {
        self.rows@
    }

    pub closed spec fn wf(&self) -> bool {
        &&& self.chain.wf()
        &&& self.chain.view() == residual_stream(self.rows@)
        &&& self.empty == (self.rows@.len() == 0)
    }

    /// No rows yet.
    pub fn new() -> (c: ResidualChain)
        ensures
            c.wf(),
            c.view() == Seq::<(Seq<u8>, Seq<u8>)>::empty(),
    {
        ResidualChain { chain: CanonChain::new(), empty: true, rows: Ghost(Seq::empty()) }
    }

    /// Take one row, by the canonical bytes of its key and of its residual.
    pub fn push(&mut self, key: &[u8], residual: &[u8])
        requires
            old(self).wf(),
        ensures
            final(self).wf(),
            final(self).view() == old(self).view().push((key@, residual@)),
    {
        self.chain.push(key);
        self.chain.push(residual);
        self.empty = false;
        proof {
            let before = self.rows@;
            let more = before.push((key@, residual@));
            assert(more.drop_last() =~= before);
            self.rows = Ghost(more);
        }
    }

    /// The identity of the rows.
    pub fn finish(self) -> (r: String)
        requires
            self.wf(),
        ensures
            r@ == residual_identity(self.view()),
            r@.len() == (if self.view().len() == 0 { 0int } else { 64 }),
    {
        if self.empty {
            let s = String::new();
            proof {
                assert(s@ =~= Seq::<char>::empty());
            }
            return s;
        }
        let d = self.chain.digest();
        let mut s = String::new();
        push_hex(&mut s, d.as_slice());
        proof {
            assert(s@ =~= hex(d@));
            lemma_hex_len(d@);
        }
        s
    }
}

proof fn lemma_stream_len(rows: Seq<(Seq<u8>, Seq<u8>)>)
    ensures
        residual_stream(rows).len() == 2 * rows.len(),
    decreases rows.len(),
{
    if rows.len() > 0 {
        lemma_stream_len(rows.drop_last());
    }
}

proof fn lemma_stream_injective(a: Seq<(Seq<u8>, Seq<u8>)>, b: Seq<(Seq<u8>, Seq<u8>)>)
    requires
        residual_stream(a) == residual_stream(b),
    ensures
        a == b,
    decreases a.len(),
{
    lemma_stream_len(a);
    lemma_stream_len(b);
    if a.len() > 0 {
        let (x, y) = (residual_stream(a), residual_stream(b));
        lemma_stream_len(a.drop_last());
        lemma_stream_len(b.drop_last());
        assert(x.drop_last().drop_last() =~= residual_stream(a.drop_last()));
        assert(y.drop_last().drop_last() =~= residual_stream(b.drop_last()));
        assert(x.last() == a.last().1 && x.drop_last().last() == a.last().0);
        assert(y.last() == b.last().1 && y.drop_last().last() == b.last().0);
        lemma_stream_injective(a.drop_last(), b.drop_last());
        assert(a =~= a.drop_last().push(a.last()));
        assert(b =~= b.drop_last().push(b.last()));
    } else {
        assert(a =~= b);
    }
}

/// Residuals that were edited, removed or added to do not have the identity of
/// those that were stored, unless the two are a collision of the hash function.
/// (Where none are left the identity is empty, which no other is.)
pub proof fn law_tampered_residuals_show(a: Seq<(Seq<u8>, Seq<u8>)>, b: Seq<(Seq<u8>, Seq<u8>)>)
    requires
        a != b,
        a.len() > 0,
        b.len() > 0,
        forall|i: int| 0 <= i < a.len() ==> (#[trigger] a[i]).0.len() <= u64::MAX && a[i].1.len() <= u64::MAX,
        forall|i: int| 0 <= i < b.len() ==> (#[trigger] b[i]).0.len() <= u64::MAX && b[i].1.len() <= u64::MAX,
    ensures
        residual_identity(a) != residual_identity(b) || (framed_all(residual_stream(a)) != framed_all(residual_stream(b))
            && blake3_digest(framed_all(residual_stream(a))) == blake3_digest(framed_all(residual_stream(b)))),
{
    lemma_parse_hex(blake3_digest(framed_all(residual_stream(a))));
    lemma_parse_hex(blake3_digest(framed_all(residual_stream(b))));
    if framed_all(residual_stream(a)) == framed_all(residual_stream(b)) {
        lemma_stream_sizes(a);
        lemma_stream_sizes(b);
        law_chain_framing_injective(residual_stream(a), residual_stream(b));
        lemma_stream_injective(a, b);
    }
}

proof fn lemma_stream_sizes(rows: Seq<(Seq<u8>, Seq<u8>)>)
    requires
        forall|i: int| 0 <= i < rows.len() ==> (#[trigger] rows[i]).0.len() <= u64::MAX && rows[i].1.len() <= u64::MAX,
    ensures
        forall|i: int| 0 <= i < residual_stream(rows).len() ==> (#[trigger] residual_stream(rows)[i]).len() <= u64::MAX,
    decreases rows.len(),
{
    if rows.len() > 0 {
        assert forall|i: int| 0 <= i < rows.drop_last().len() implies (#[trigger] rows.drop_last()[i]).0.len() <= u64::MAX
            && rows.drop_last()[i].1.len() <= u64::MAX by {
            assert(rows.drop_last()[i] == rows[i]);
        }
        lemma_stream_sizes(rows.drop_last());
        assert(rows[rows.len() - 1] == rows.last());
        let (before, all) = (residual_stream(rows.drop_last()), residual_stream(rows));
        assert forall|i: int| 0 <= i < all.len() implies (#[trigger] all[i]).len() <= u64::MAX by {
            if i < before.len() {
                assert(all[i] == before[i]);
            }
        }
    }
}

} // verus!
