//! A plan that its client carries: the compiled bytes, their hash and the SQL
//! text, shipped without being stored in the database.

use vstd::prelude::*;
use vstd::string::StringExecFns;
use vstd::utf8::{decode_utf8, encode_utf8, valid_utf8};
use crate::bytes::{
    copy_bytes, get_le, le_bytes, le_value, lemma_le_bytes_len, lemma_le_value_of_bytes, lemma_pow256_values, put_bytes,
    put_le, same_bytes,
};
use crate::error::{fault_text, Error, Fault, PlanHash, Result};
use crate::spellfn::hash_at;
use crate::text::{dec, push_dec};
use crate::utf8::{checked_utf8, lemma_text_round_trip};

verus! {

/// A plan that its client carries.
#[derive(Debug, Clone, PartialEq, Eq)]
pub struct DetachedPlan {
    /// The content hash of the plan.
    pub hash: PlanHash,
    /// The encoded plan.
    pub blob: Vec<u8>,
    /// The SQL text, to compile again from.
    pub sql: String,
}

/// The view of a [`DetachedPlan`].
pub struct DetachedModel {
    pub hash: Seq<u8>,
    pub blob: Seq<u8>,
    pub sql: Seq<char>,
}

impl View for DetachedPlan {
    type V = DetachedModel;

    open spec fn view(&self) -> DetachedModel {
        DetachedModel { hash: self.hash.0@, blob: self.blob@, sql: self.sql@ }
    }
}

/// The wire form: a format byte, the hash, and the blob and the text each
/// behind its length in four bytes.
pub open spec fn detached_bytes(p: DetachedModel) -> Seq<u8> {
    seq![1u8] + p.hash + le_bytes(p.blob.len(), 4) + p.blob + le_bytes(encode_utf8(p.sql).len(), 4) + encode_utf8(p.sql)
}

pub open spec fn truncated() -> Fault {
    Fault::Corrupt("truncated detached plan"@)
}

/// The length in the four bytes at `at`.
pub open spec fn length_at(b: Seq<u8>, at: int) -> nat {
    le_value(b.subrange(at, at + 4))
}

/// What a wire form says, or what is wrong with it.
pub open spec fn detached_parsed(b: Seq<u8>) -> std::result::Result<DetachedModel, Fault> {
    if b.len() < 1 {
        Err(truncated())
    } else if b[0] != 1 {
        Err(Fault::Corrupt("unknown detached plan format "@ + dec(b[0] as nat)))
    } else if b.len() < 37 {
        Err(truncated())
    } else {
        let n = length_at(b, 33) as int;
        if b.len() < 41 + n {
            Err(truncated())
        } else {
            let m = length_at(b, 37 + n) as int;
            if b.len() < 41 + n + m {
                Err(truncated())
            } else {
                let text = b.subrange(41 + n, 41 + n + m);
                if !valid_utf8(text) {
                    Err(Fault::Corrupt("invalid utf-8 in detached plan sql"@))
                } else if b.len() != 41 + n + m {
                    Err(Fault::Corrupt("trailing bytes in detached plan"@))
                } else {
                    Ok(DetachedModel { hash: b.subrange(1, 33), blob: b.subrange(37, 37 + n), sql: decode_utf8(text) })
                }
            }
        }
    }
}

fn cut_short() -> (e: Error)
    ensures
        e@ == truncated(),
{
    Error::Corrupt(String::from_str("truncated detached plan"))
}

impl DetachedPlan {
    /// The wire form. A part of more than `u32::MAX` bytes cannot be read
    /// back.
    pub fn encode(&self) -> (r: Vec<u8>)
        ensures
            r@ == detached_bytes(self@),
    {
        let mut buf: Vec<u8> = Vec::new();
        buf.push(1);
        put_bytes(&mut buf, self.hash.0.as_slice());
        put_le(&mut buf, self.blob.len() as u64, 4);
        put_bytes(&mut buf, self.blob.as_slice());
        let text = self.sql.as_str().as_bytes();
        put_le(&mut buf, text.len() as u64, 4);
        put_bytes(&mut buf, text);
        proof {
            assert(buf@ =~= detached_bytes(self@));
        }
        buf
    }

    /// Read a wire form. Anything but a well-formed one is an error.
    pub fn decode(bytes: &[u8]) -> (r: Result<DetachedPlan>)
        ensures
            match r {
                Ok(p) => detached_parsed(bytes@) == Ok::<DetachedModel, Fault>(p@),
                Err(e) => detached_parsed(bytes@) == Err::<DetachedModel, Fault>(e@),
            },
    {
        if bytes.len() < 1 {
            return Err(cut_short());
        }
        let format: u8 = bytes[0];
        if format != 1 {
            let mut m = String::from_str("unknown detached plan format ");
            push_dec(&mut m, format as u128);
            return Err(Error::Corrupt(m));
        }
        if bytes.len() < 37 {
            return Err(cut_short());
        }
        let hash = hash_at(bytes, 1);
        let n: u64 = get_le(bytes, 33, 4);
        let rest: u64 = (bytes.len() - 37) as u64;
        if rest < n || rest - n < 4 {
            return Err(cut_short());
        }
        let at: usize = 37 + n as usize;
        let blob = copy_bytes(vstd::slice::slice_subrange(bytes, 37, at));
        let m: u64 = get_le(bytes, at, 4);
        let left: u64 = (bytes.len() - at - 4) as u64;
        if left < m {
            return Err(cut_short());
        }
        let end: usize = at + 4 + m as usize;
        let text = vstd::slice::slice_subrange(bytes, at + 4, end);
        let sql = match checked_utf8(text) {
            Some(s) => s.to_owned(),
            None => {
                return Err(Error::Corrupt(String::from_str("invalid utf-8 in detached plan sql")));
            },
        };
        if end != bytes.len() {
            return Err(Error::Corrupt(String::from_str("trailing bytes in detached plan")));
        }
        Ok(DetachedPlan { hash: PlanHash(hash), blob, sql })
    }
}

/// Whether a carried plan may run, given what decoding its blob against the
/// live schema gave: the hash of the decoded plan, or an error. A plan for
/// another schema is stale, and its statement is to be prepared again; a blob
/// that fails in any other way, or has another hash, is corrupt.
pub fn judge_detached(decoded: Result<PlanHash>, carried: &PlanHash) -> (r: Result<()>)
    ensures
        match decoded {
            Err(e) => r is Err && r->Err_0@ == (match e@ {
                Fault::PlanInvalidated => e@,
                Fault::Corrupt(_) => e@,
                other => Fault::Corrupt(fault_text(other)),
            }),
            Ok(h) => if h.0@ == carried.0@ {
                r is Ok
            } else {
                r is Err && r->Err_0@ == Fault::Corrupt("detached plan blob does not match its carried hash"@)
            },
        },
{
    match decoded {
        Err(e) => match e {
            Error::PlanInvalidated => Err(e),
            Error::Corrupt(_) => Err(e),
            other => Err(Error::Corrupt(other.message())),
        },
        Ok(h) => {
            if same_bytes(h.0.as_slice(), carried.0.as_slice()) {
                Ok(())
            } else {
                Err(Error::Corrupt(String::from_str("detached plan blob does not match its carried hash")))
            }
        },
    }
}

// ---------------------------------------------------------------- laws

/// The lengths of a wire form are those of its parts.
proof fn lemma_detached_layout(p: DetachedModel, b: Seq<u8>)
    requires
        p.hash.len() == 32,
        p.blob.len() <= u32::MAX,
        encode_utf8(p.sql).len() <= u32::MAX,
        b == detached_bytes(p),
    ensures
        b.len() == 41 + p.blob.len() + encode_utf8(p.sql).len(),
        b[0] == 1,
        b.subrange(1, 33) == p.hash,
        length_at(b, 33) == p.blob.len(),
        b.subrange(37, 37 + p.blob.len() as int) == p.blob,
        length_at(b, 37 + p.blob.len() as int) == encode_utf8(p.sql).len(),
        b.subrange(41 + p.blob.len() as int, b.len() as int) == encode_utf8(p.sql),
{
    let (n, m) = (p.blob.len(), encode_utf8(p.sql).len());
    lemma_pow256_values();
    lemma_le_bytes_len(n, 4);
    lemma_le_bytes_len(m, 4);
    lemma_le_value_of_bytes(n, 4);
    lemma_le_value_of_bytes(m, 4);
    assert(b.subrange(1, 33) =~= p.hash);
    assert(b.subrange(33, 37) =~= le_bytes(n, 4));
    assert(b.subrange(37, 37 + n as int) =~= p.blob);
    assert(b.subrange(37 + n as int, 41 + n as int) =~= le_bytes(m, 4));
    assert(b.subrange(41 + n as int, b.len() as int) =~= encode_utf8(p.sql));
}

/// A wire form is read back as the plan that it was made from.
pub proof fn law_detached_round_trip(p: DetachedModel)
    requires
        p.hash.len() == 32,
        p.blob.len() <= u32::MAX,
        encode_utf8(p.sql).len() <= u32::MAX,
    ensures
        detached_parsed(detached_bytes(p)) == Ok::<DetachedModel, Fault>(p),
{
    lemma_detached_layout(p, detached_bytes(p));
    lemma_text_round_trip(p.sql);
}

/// A wire form cut short anywhere is refused as truncated.
pub proof fn law_detached_truncation_refused(p: DetachedModel, cut: int)
    requires
        p.hash.len() == 32,
        p.blob.len() <= u32::MAX,
        encode_utf8(p.sql).len() <= u32::MAX,
        0 <= cut < detached_bytes(p).len(),
    ensures
        detached_parsed(detached_bytes(p).take(cut)) == Err::<DetachedModel, Fault>(truncated()),
{
    let b = detached_bytes(p);
    let c = b.take(cut);
    let n = p.blob.len() as int;
    lemma_detached_layout(p, b);
    if cut >= 37 {
        assert(c.subrange(33, 37) =~= b.subrange(33, 37));
        if cut >= 41 + n {
            assert(c.subrange(37 + n, 41 + n) =~= b.subrange(37 + n, 41 + n));
        }
    }
}

/// A wire form with anything behind it is refused.
pub proof fn law_detached_trailing_refused(p: DetachedModel, extra: Seq<u8>)
    requires
        p.hash.len() == 32,
        p.blob.len() <= u32::MAX,
        encode_utf8(p.sql).len() <= u32::MAX,
        extra.len() > 0,
    ensures
        detached_parsed(detached_bytes(p) + extra) == Err::<DetachedModel, Fault>(
            Fault::Corrupt("trailing bytes in detached plan"@),
        ),
{
    let b = detached_bytes(p);
    let c = b + extra;
    let n = p.blob.len() as int;
    lemma_detached_layout(p, b);
    lemma_text_round_trip(p.sql);
    assert(c.subrange(33, 37) =~= b.subrange(33, 37));
    assert(c.subrange(37 + n, 41 + n) =~= b.subrange(37 + n, 41 + n));
    assert(c.subrange(41 + n, b.len() as int) =~= b.subrange(41 + n, b.len() as int));
}

/// Where everything stands in a wire form: the format's number, the hash, and
/// the plan and its text, each behind its length in four bytes, least
/// significant first.
pub proof fn law_detached_places(p: DetachedModel)
    requires
        p.hash.len() == 32,
        p.blob.len() <= u32::MAX,
        encode_utf8(p.sql).len() <= u32::MAX,
    ensures
        ({
            let b = detached_bytes(p);
            let n = p.blob.len() as int;
            &&& b[0] == 1
            &&& b.subrange(1, 33) == p.hash
            &&& b.subrange(33, 37) == le_bytes(p.blob.len(), 4)
            &&& b.subrange(37, 37 + n) == p.blob
            &&& b.subrange(37 + n, 41 + n) == le_bytes(encode_utf8(p.sql).len(), 4)
            &&& b.skip(41 + n) == encode_utf8(p.sql)
        }),
{
    let b = detached_bytes(p);
    let n = p.blob.len() as int;
    crate::bytes::lemma_le_bytes_len(p.blob.len(), 4);
    crate::bytes::lemma_le_bytes_len(encode_utf8(p.sql).len(), 4);
    assert(b.subrange(1, 33) =~= p.hash);
    assert(b.subrange(33, 37) =~= le_bytes(p.blob.len(), 4));
    assert(b.subrange(37, 37 + n) =~= p.blob);
    assert(b.subrange(37 + n, 41 + n) =~= le_bytes(encode_utf8(p.sql).len(), 4));
    assert(b.skip(41 + n) =~= encode_utf8(p.sql));
}

} // verus!
