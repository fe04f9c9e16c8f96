//! The envelope: one kind byte, a 32-bit length, the payload.

use vstd::prelude::*;
use vstd::string::StringExecFns;
use vstd::slice::slice_subrange;
use crate::bytes::{get_le, le_bytes, le_value, lemma_le_bytes_len, lemma_le_value_of_bytes, lemma_pow256_values, put_bytes, put_le};
use crate::error::{Error, Fault, Result};
use crate::text::{dec, numbered, push_dec};

verus! {

/// The dispatch byte of an envelope: both the version and the algorithm.
#[derive(Debug, Clone, Copy, PartialEq, Eq, Structural)]
pub enum Kind {
    /// The payload is the full bytes, verbatim.
    Raw,
    /// The payload is a delta.
    DeltaV1,
    /// The payload is a zip splice list with its gap bytes.
    ZipSpliceV1,
}

/// Envelopes nest, up to this depth.
pub const MAX_ENVELOPE_DEPTH: u32 = 4;

/// The envelope's length field has 32 bits.
pub const MAX_PAYLOAD: usize = 0xFFFF_FFFF;

/// The byte that a kind is written as.
pub open spec fn kind_byte(kind: Kind) -> u8 {
    match kind {
        Kind::Raw => 1,
        Kind::DeltaV1 => 2,
        Kind::ZipSpliceV1 => 3,
    }
}

/// The bytes of an envelope of `kind` around `payload`.
pub open spec fn sealed(kind: Kind, payload: Seq<u8>) -> Seq<u8> {
    seq![kind_byte(kind)] + le_bytes(payload.len(), 4) + payload
}

/// The kind that a dispatch byte names.
pub open spec fn kind_of_byte(b: u8) -> Option<Kind> {
    if b == 1 {
        Some(Kind::Raw)
    } else if b == 2 {
        Some(Kind::DeltaV1)
    } else if b == 3 {
        Some(Kind::ZipSpliceV1)
    } else {
        None
    }
}

/// What opening one envelope layer gives: the kind and the payload, which
/// fills the rest of the buffer exactly, or the reason why not.
pub open spec fn envelope_opened(bytes: Seq<u8>) -> std::result::Result<(Kind, Seq<u8>), Fault> {
    if bytes.len() < 5 {
        Err(Fault::Corrupt("envelope truncated before its header"@))
    } else {
        match kind_of_byte(bytes[0]) {
            None => Err(Fault::Unsupported(
                "envelope kind "@ + dec(bytes[0] as nat)
                    + " is newer than this build supports (max 3) — refusing rather than guessing"@,
            )),
            Some(kind) => {
                let len = le_value(bytes.subrange(1, 5));
                let body = bytes.skip(5);
                if body.len() != len {
                    Err(Fault::Corrupt(
                        "envelope claims "@ + dec(len) + " payload bytes but carries "@ + dec(
                            body.len(),
                        ),
                    ))
                } else {
                    Ok((kind, body))
                }
            },
        }
    }
}

/// Wrap `payload`. A payload over the 32-bit length is refused with its size.
pub fn envelope(kind: Kind, payload: &[u8]) -> (r: Result<Vec<u8>>)
    ensures
        match r {
            Ok(v) => payload@.len() <= MAX_PAYLOAD && v@ == sealed(kind, payload@),
            Err(e) => payload@.len() > MAX_PAYLOAD && e@ == Fault::Unsupported(
                "payload is "@ + dec(payload@.len()) + " bytes; the envelope caps at "@ + dec(
                    MAX_PAYLOAD as nat,
                ),
            ),
        },
{
    if payload.len() > MAX_PAYLOAD {
        let mut m = numbered("payload is ", payload.len() as u128, " bytes; the envelope caps at ");
        push_dec(&mut m, MAX_PAYLOAD as u128);
        return Err(Error::Unsupported(m));
    }
    let mut v: Vec<u8> = Vec::with_capacity(5);
    let code: u8 = match kind {
        Kind::Raw => 1,
        Kind::DeltaV1 => 2,
        Kind::ZipSpliceV1 => 3,
    };
    v.push(code);
    put_le(&mut v, payload.len() as u64, 4);
    put_bytes(&mut v, payload);
    proof {
        assert(v@ =~= sealed(kind, payload@));
    }
    Ok(v)
}

/// Decode one envelope layer. Trailing bytes are corruption, not slack.
pub fn open_envelope(bytes: &[u8]) -> (r: Result<(Kind, &[u8])>)
    ensures
        match r {
            Ok((kind, body)) => envelope_opened(bytes@) == Ok::<(Kind, Seq<u8>), Fault>((kind, body@)),
            Err(e) => envelope_opened(bytes@) == Err::<(Kind, Seq<u8>), Fault>(e@),
        },
{
    if bytes.len() < 5 {
        return Err(Error::Corrupt(String::from_str("envelope truncated before its header")));
    }
    let kind = match bytes[0] {
        1 => Kind::Raw,
        2 => Kind::DeltaV1,
        3 => Kind::ZipSpliceV1,
        other => {
            return Err(Error::Unsupported(
                numbered(
                    "envelope kind ",
                    other as u128,
                    " is newer than this build supports (max 3) — refusing rather than guessing",
                ),
            ));
        },
    };
    let len: u64 = get_le(bytes, 1, 4);
    let body = slice_subrange(bytes, 5, bytes.len());
    proof {
        assert(body@ =~= bytes@.skip(5));
    }
    if body.len() as u64 != len {
        let mut m = numbered("envelope claims ", len as u128, " payload bytes but carries ");
        push_dec(&mut m, body.len() as u128);
        return Err(Error::Corrupt(m));
    }
    Ok((kind, body))
}

/// Opening an envelope gives back the kind and the payload that were sealed.
pub proof fn law_envelope_round_trip(kind: Kind, payload: Seq<u8>)
    requires
        payload.len() <= MAX_PAYLOAD,
    ensures
        envelope_opened(sealed(kind, payload)) == Ok::<(Kind, Seq<u8>), Fault>((kind, payload)),
{
    let s = sealed(kind, payload);
    lemma_pow256_values();
    lemma_le_bytes_len(payload.len(), 4);
    lemma_le_value_of_bytes(payload.len(), 4);
    assert(s.subrange(1, 5) =~= le_bytes(payload.len(), 4));
    assert(s.skip(5) =~= payload);
}

/// A sealed envelope that lost bytes at its end, or that bytes were added to,
/// is refused.
pub proof fn law_envelope_exact_fill(kind: Kind, payload: Seq<u8>, n: int, extra: Seq<u8>)
    requires
        payload.len() <= MAX_PAYLOAD,
        0 <= n < sealed(kind, payload).len(),
        extra.len() > 0,
    ensures
        envelope_opened(sealed(kind, payload).take(n)) is Err,
        envelope_opened(sealed(kind, payload) + extra) is Err,
{
    let s = sealed(kind, payload);
    lemma_pow256_values();
    lemma_le_bytes_len(payload.len(), 4);
    lemma_le_value_of_bytes(payload.len(), 4);
    assert((s + extra).subrange(1, 5) =~= le_bytes(payload.len(), 4));
    if n >= 5 {
        assert(s.take(n).subrange(1, 5) =~= le_bytes(payload.len(), 4));
    }
}

/// Where everything stands in an envelope: what it holds in the first byte, how
/// much in the next four, least significant first, then the payload.
pub proof fn law_envelope_places(kind: Kind, payload: Seq<u8>)
    ensures
        sealed(kind, payload).len() == payload.len() + 5,
        sealed(kind, payload)[0] == (if kind == Kind::Raw { 1u8 } else if kind == Kind::DeltaV1 { 2u8 } else { 3u8 }),
        sealed(kind, payload).subrange(1, 5) == le_bytes(payload.len(), 4),
        sealed(kind, payload).skip(5) == payload,
{
    crate::bytes::lemma_le_bytes_len(payload.len(), 4);
    assert(sealed(kind, payload).subrange(1, 5) =~= le_bytes(payload.len(), 4));
    assert(sealed(kind, payload).skip(5) =~= payload);
}

} // verus!
