//! Versions of blobs as reverse-delta chains with full anchors.
//!
//! The newest version is stored full. When a new one arrives, the previous
//! newest is rewritten as a delta against exactly the version above it, except
//! every eighth, which stays full. A version is materialised by walking down
//! from the nearest full one, verifying the hash at every step.

use vstd::prelude::*;
use vstd::string::StringExecFns;
use crate::bytes::{copy_bytes, same_bytes};
use crate::error::{Error, Fault, Result};
use crate::hash::{blake3_digest, hash_hex};
use crate::retl_codec::{delta_apply, delta_encode, delta_encoding, delta_result, envelope, envelope_opened, law_delta_round_trip, law_envelope_round_trip, open_envelope, sealed, Kind, MAX_PAYLOAD};
use crate::text::{dec, dec_int, hex, push_dec, push_dec_int};
use crate::utf8::same_text;
use crate::value::{push_value_debug, value_debug, Value, ValueModel};

verus! {

/// Every version whose number this divides stays full forever.
pub const FULL_EVERY: i64 = 8;

/// One version as the list shows it.
#[derive(Debug)]
pub struct VersionInfo {
    pub ver: i64,
    /// `full` or `delta`.
    pub stored_as: &'static str,
    pub bytes: u64,
    pub content_hash: String,
}

/// One stored version.
#[derive(Debug)]
pub struct VersionRow {
    pub ver: i64,
    pub payload: Vec<u8>,
    pub content_hash: String,
}

/// The view of a [`VersionRow`].
pub struct StoredVersion {
    pub ver: int,
    pub payload: Seq<u8>,
    pub hash: Seq<char>,
}

impl View for VersionRow {
    type V = StoredVersion;

    open spec fn view(&self) -> StoredVersion {
        StoredVersion { ver: self.ver as int, payload: self.payload@, hash: self.content_hash@ }
    }
}

/// The views of stored versions.
pub open spec fn stored_versions(rows: Seq<VersionRow>) -> Seq<StoredVersion> {
    rows.map_values(|r: VersionRow| r@)
}

/// The recorded hash of contents.
pub open spec fn content_hash(bytes: Seq<u8>) -> Seq<char> {
    hex(blake3_digest(bytes))
}

/// A blob cell of a bookkeeping row.
pub fn as_blob(v: &Value) -> (r: Result<Vec<u8>>)
    ensures
        match r {
            Ok(b) => v.model() == ValueModel::Blob(b@),
            Err(e) => !(v.model() is Blob) && e@ == Fault::Corrupt("rretl store: expected blob, got "@ + value_debug(v.model())),
        },
{
    match v {
        Value::Blob(b) => Ok(copy_bytes(b.as_slice())),
        other => {
            let mut m = String::from_str("rretl store: expected blob, got ");
            push_value_debug(&mut m, other);
            Err(Error::Corrupt(m))
        },
    }
}

pub(crate) fn version_text(a: &str, ver: i64, b: &str, obj: &str, c: &str) -> (m: String)
    ensures
        m@ == a@ + dec_int(ver as int) + b@ + obj@ + c@,
{
    let mut m = String::from_str(a);
    push_dec_int(&mut m, ver);
    m.append(b);
    m.append(obj);
    m.append(c);
    m
}

// ------------------------------------------------------------- reading

/// The number of the nearest full version at or above `ver`: the next
/// multiple of eight, or the newest.
pub open spec fn full_bound(ver: int, maxv: int) -> int {
    let anchor = ver + (8 - ver % 8) % 8;
    if anchor <= maxv { anchor } else { maxv }
}

/// The highest version to fetch in order to materialise `ver`; at most eight
/// versions are fetched.
pub fn version_window(obj: &str, ver: i64, maxv: Option<i64>) -> (r: Result<i64>)
    requires
        ver <= i64::MAX - 7,
    ensures
        match r {
            Ok(b) => maxv is Some && b == full_bound(ver as int, maxv->Some_0 as int),
            Err(e) => maxv is None && e@ == Fault::Unsupported(
                "no version "@ + dec_int(ver as int) + " of `"@ + obj@ + "` — `rretl versions` lists what exists"@,
            ),
        },
{
    match maxv {
        None => Err(
            Error::Unsupported(
                version_text("no version ", ver, " of `", obj, "` — `rretl versions` lists what exists"),
            ),
        ),
        Some(m) => {
            let r: i64 = ((ver as i128 + 0x1_0000_0000_0000_0000) as u128 % 8) as i64;
            assert(r == ver as int % 8);
            let anchor: i64 = if r == 0 { ver } else { ver + (FULL_EVERY - r) };
            Ok(if anchor <= m { anchor } else { m })
        },
    }
}

/// What an envelope that is a stored version holds.
pub open spec fn opened(payload: Seq<u8>) -> std::result::Result<(Kind, Seq<u8>), Fault> {
    envelope_opened(payload)
}

/// The place of the first full version from `i` on; the fault of an envelope
/// that does not open on the way.
pub open spec fn first_full(rows: Seq<StoredVersion>, i: int) -> std::result::Result<Option<int>, Fault>
    decreases rows.len() - i,
{
    if i < 0 || i >= rows.len() {
        Ok(None)
    } else {
        match opened(rows[i].payload) {
            Err(f) => Err(f),
            Ok((kind, _)) => if kind == Kind::Raw { Ok(Some(i)) } else { first_full(rows, i + 1) },
        }
    }
}

/// Walking down from version `i` (whose contents are `bytes`) to the first.
pub open spec fn walked_down(obj: Seq<char>, rows: Seq<StoredVersion>, i: int, bytes: Seq<u8>) -> std::result::Result<Seq<u8>, Fault>
    decreases i,
{
    if i <= 0 {
        Ok(bytes)
    } else {
        let r = rows[i - 1];
        match opened(r.payload) {
            Err(f) => Err(f),
            Ok((kind, delta)) => if kind != Kind::DeltaV1 {
                Err(Fault::Corrupt("version "@ + dec_int(r.ver) + " of `"@ + obj + "` is neither full nor delta-v1"@))
            } else {
                match delta_result(bytes, delta) {
                    Err(f) => Err(f),
                    Ok(next) => if content_hash(next) != r.hash {
                        Err(
                            Fault::Corrupt(
                                "version "@ + dec_int(r.ver) + " of `"@ + obj
                                    + "` reconstructs to the WRONG bytes — its recorded hash disagrees; refusing"@,
                            ),
                        )
                    } else {
                        walked_down(obj, rows, i - 1, next)
                    },
                }
            },
        }
    }
}

/// The contents of version `ver`, from the versions of its window.
pub open spec fn materialized(obj: Seq<char>, ver: int, rows: Seq<StoredVersion>) -> std::result::Result<Seq<u8>, Fault> {
    if rows.len() == 0 || rows[0].ver != ver {
        Err(Fault::Unsupported("no version "@ + dec_int(ver) + " of `"@ + obj + "`"@))
    } else {
        match first_full(rows, 0) {
            Err(f) => Err(f),
            Ok(None) => Err(
                Fault::Corrupt(
                    "no full version at or above "@ + dec_int(ver) + " of `"@ + obj
                        + "` — the chain is broken (was an anchor deleted?)"@,
                ),
            ),
            Ok(Some(a)) => {
                let full = opened(rows[a].payload)->Ok_0.1;
                if content_hash(full) != rows[a].hash {
                    Err(
                        Fault::Corrupt(
                            "version "@ + dec_int(rows[a].ver) + " of `"@ + obj
                                + "` does not match its recorded hash — corruption at rest, refusing to build on it"@,
                        ),
                    )
                } else {
                    walked_down(obj, rows, a, full)
                }
            },
        }
    }
}

proof fn lemma_first_full(rows: Seq<StoredVersion>, i: int)
    requires
        0 <= i,
        first_full(rows, i) matches Ok(Some(_)),
    ensures
        i <= first_full(rows, i)->Ok_0->Some_0 < rows.len(),
        opened(rows[first_full(rows, i)->Ok_0->Some_0].payload) is Ok,
    decreases rows.len() - i,
{
    if i < rows.len() {
        match opened(rows[i].payload) {
            Ok((kind, _)) => if kind != Kind::Raw {
                lemma_first_full(rows, i + 1);
            },
            Err(_) => {},
        }
    }
}

fn find_full(rows: &Vec<VersionRow>) -> (r: Result<Option<usize>>)
    ensures
        match r {
            Ok(Some(i)) => first_full(stored_versions(rows@), 0) == Ok::<Option<int>, Fault>(Some(i as int)) && i < rows@.len(),
            Ok(None) => first_full(stored_versions(rows@), 0) == Ok::<Option<int>, Fault>(None),
            Err(e) => first_full(stored_versions(rows@), 0) == Err::<Option<int>, Fault>(e@),
        },
{
    let ghost vs = stored_versions(rows@);
    let mut i: usize = 0;
    while i < rows.len()
        invariant
            i <= rows@.len(),
            vs == stored_versions(rows@),
            first_full(vs, 0) == first_full(vs, i as int),
        decreases rows@.len() - i,
    {
        proof {
            assert(vs[i as int] == rows@[i as int]@);
        }
        match open_envelope(rows[i].payload.as_slice()) {
            Err(e) => {
                return Err(e);
            },
            Ok((kind, _)) => {
                if kind == Kind::Raw {
                    return Ok(Some(i));
                }
            },
        }
        i += 1;
    }
    Ok(None)
}

/// Materialise version `ver` from the versions of its window, oldest first. A
/// hash that disagrees anywhere is an error that names the version.
pub fn rretl_get_version(obj: &str, ver: i64, rows: &Vec<VersionRow>) -> (r: Result<Vec<u8>>)
    ensures
        match r {
            Ok(b) => materialized(obj@, ver as int, stored_versions(rows@)) == Ok::<Seq<u8>, Fault>(b@),
            Err(e) => materialized(obj@, ver as int, stored_versions(rows@)) == Err::<Seq<u8>, Fault>(e@),
        },
{
    let ghost vs = stored_versions(rows@);
    proof {
        if rows@.len() > 0 {
            assert(vs[0] == rows@[0]@);
        }
    }
    if rows.len() == 0 || rows[0].ver != ver {
        return Err(Error::Unsupported(version_text("no version ", ver, " of `", obj, "`")));
    }
    let a: usize = match find_full(rows) {
        Err(e) => {
            return Err(e);
        },
        Ok(Some(i)) => i,
        Ok(None) => {
            return Err(
                Error::Corrupt(
                    version_text(
                        "no full version at or above ",
                        ver,
                        " of `",
                        obj,
                        "` — the chain is broken (was an anchor deleted?)",
                    ),
                ),
            );
        },
    };
    proof {
        assert(vs[a as int] == rows@[a as int]@);
        lemma_first_full(vs, 0);
    }
    let full = match open_envelope(rows[a].payload.as_slice()) {
        Ok((_, full)) => full,
        Err(e) => {
            return Err(e);
        },
    };
    let mut bytes = copy_bytes(full);
    let got = hash_hex(bytes.as_slice());
    if !same_text(got.as_str(), rows[a].content_hash.as_str()) {
        return Err(
            Error::Corrupt(
                version_text(
                    "version ",
                    rows[a].ver,
                    " of `",
                    obj,
                    "` does not match its recorded hash — corruption at rest, refusing to build on it",
                ),
            ),
        );
    }
    let mut i: usize = a;
    let ghost whole = materialized(obj@, ver as int, vs);
    while i > 0
        invariant
            i <= a < rows@.len(),
            vs == stored_versions(rows@),
            whole == materialized(obj@, ver as int, vs),
            whole == walked_down(obj@, vs, i as int, bytes@),
        decreases i,
    {
        i -= 1;
        let row = &rows[i];
        proof {
            assert(vs[i as int] == rows@[i as int]@);
        }
        let delta = match open_envelope(row.payload.as_slice()) {
            Err(e) => {
                return Err(e);
            },
            Ok((kind, delta)) => {
                if kind != Kind::DeltaV1 {
                    return Err(
                        Error::Corrupt(
                            version_text("version ", row.ver, " of `", obj, "` is neither full nor delta-v1"),
                        ),
                    );
                }
                delta
            },
        };
        let next = match delta_apply(bytes.as_slice(), delta) {
            Ok(b) => b,
            Err(e) => {
                return Err(e);
            },
        };
        let got = hash_hex(next.as_slice());
        if !same_text(got.as_str(), row.content_hash.as_str()) {
            return Err(
                Error::Corrupt(
                    version_text(
                        "version ",
                        row.ver,
                        " of `",
                        obj,
                        "` reconstructs to the WRONG bytes — its recorded hash disagrees; refusing",
                    ),
                ),
            );
        }
        bytes = next;
    }
    Ok(bytes)
}

/// One version as the list shows it.
pub fn version_info(row: &VersionRow) -> (r: Result<VersionInfo>)
    ensures
        match opened(row.payload@) {
            Err(f) => r is Err && r->Err_0@ == f,
            Ok((kind, body)) => r is Ok && r->Ok_0.ver == row.ver && r->Ok_0.stored_as@ == (if kind == Kind::Raw { "full"@ } else { "delta"@ })
                && r->Ok_0.bytes == body.len() && r->Ok_0.content_hash@ == row.content_hash@,
        },
{
    match open_envelope(row.payload.as_slice()) {
        Err(e) => Err(e),
        Ok((kind, body)) => {
            let stored_as = if kind == Kind::Raw {
                "full"
            } else {
                "delta"
            };
            Ok(
                VersionInfo {
                    ver: row.ver,
                    stored_as,
                    bytes: body.len() as u64,
                    content_hash: row.content_hash.clone(),
                },
            )
        },
    }
}

// ------------------------------------------------------------- writing

/// The size of a new version is bounded by the envelope.
pub fn version_size_gate(len: usize) -> (r: Result<()>)
    ensures
        match r {
            Ok(()) => len <= MAX_PAYLOAD,
            Err(e) => len > MAX_PAYLOAD && e@ == Fault::Unsupported(
                dec(len as nat) + " bytes exceeds the "@ + dec(MAX_PAYLOAD as nat) + "-byte envelope cap"@,
            ),
        },
{
    if len > MAX_PAYLOAD {
        let mut m = String::new();
        push_dec(&mut m, len as u128);
        m.append(" bytes exceeds the ");
        push_dec(&mut m, MAX_PAYLOAD as u128);
        m.append("-byte envelope cap");
        proof {
            assert(m@ =~= dec(len as nat) + " bytes exceeds the "@ + dec(MAX_PAYLOAD as nat) + "-byte envelope cap"@);
        }
        return Err(Error::Unsupported(m));
    }
    Ok(())
}

/// The number of a new version.
pub fn next_version(cur: Option<i64>) -> (r: i64)
    requires
        cur is Some ==> cur->Some_0 < i64::MAX,
    ensures
        r == (match cur {
            Some(v) => v + 1,
            None => 1,
        }),
{
    match cur {
        Some(v) => v + 1,
        None => 1,
    }
}

/// Whether the version that stops being the newest is rewritten as a delta:
/// every eighth stays full.
pub fn is_rewritten(cur: i64) -> (r: bool)
    ensures
        r == (cur as int % 8 != 0),
{
    let m: u128 = (cur as i128 + 0x1_0000_0000_0000_0000) as u128 % 8;
    m != 0
}

/// What becomes of the version that stops being the newest.
pub enum Rewrite {
    /// It stays as it is, for the reason noted.
    Keep(String),
    /// Its payload becomes this envelope; its contents are `old`.
    Delta { env: Vec<u8>, old: Vec<u8> },
}

/// What becomes of version `cv` with contents in `payload`, when `new_bytes`
/// come above it.
pub open spec fn rewrites(obj: Seq<char>, cv: int, payload: Seq<u8>, hash: Seq<char>, new_bytes: Seq<u8>, r: std::result::Result<Rewrite, Error>) -> bool {
    match opened(payload) {
        Err(f) => r is Err && r->Err_0@ == f,
        Ok((kind, old)) => if kind != Kind::Raw {
            r matches Ok(Rewrite::Keep(m)) && m@ == "version "@ + dec_int(cv) + " was not stored full; left untouched"@
        } else if content_hash(old) != hash {
            r is Err && r->Err_0@ == Fault::Corrupt(
                "version "@ + dec_int(cv) + " of `"@ + obj
                    + "` does not match its recorded hash — corruption at rest; rewriting it as a delta would LAUNDER the corruption and delete the last full copy, so the whole put is refused"@,
            )
        } else {
            let env = sealed(Kind::DeltaV1, delta_encoding(new_bytes, old));
            if delta_encoding(new_bytes, old).len() >= old.len() + 5 || env.len() >= payload.len() {
                r matches Ok(Rewrite::Keep(m)) && m@ == "version "@ + dec_int(cv) + " kept full: the delta would not be smaller"@
            } else {
                r matches Ok(Rewrite::Delta { env: e, old: o }) && e@ == env && o@ == old
            }
        },
    }
}

/// What the payload of a full version becomes when `new_bytes` come above it:
/// the delta's envelope where that is smaller, else it stays.
pub open spec fn rewritten_payload(payload: Seq<u8>, new_bytes: Seq<u8>) -> Seq<u8> {
    match opened(payload) {
        Ok((Kind::Raw, old)) => {
            let env = sealed(Kind::DeltaV1, delta_encoding(new_bytes, old));
            if delta_encoding(new_bytes, old).len() >= old.len() + 5 || env.len() >= payload.len() { payload } else { env }
        },
        _ => payload,
    }
}

fn keep_note(cv: i64, why: &str) -> (m: String)
    ensures
        m@ == "version "@ + dec_int(cv as int) + why@,
{
    let mut m = String::from_str("version ");
    push_dec_int(&mut m, cv);
    m.append(why);
    m
}

/// Decide what becomes of the version that stops being the newest. A full
/// version that does not match its recorded hash refuses the whole put; a
/// delta that is not smaller keeps it full.
pub fn rewrite_as_delta(obj: &str, cv: i64, payload: &Vec<u8>, recorded: &str, new_bytes: &[u8]) -> (r: Result<Rewrite>)
    ensures
        rewrites(obj@, cv as int, payload@, recorded@, new_bytes@, r),
        r is Ok ==> rewritten_payload(payload@, new_bytes@) == (match r->Ok_0 {
            Rewrite::Keep(_) => payload@,
            Rewrite::Delta { env, old: _ } => env@,
        }),
{
    let (kind, old) = match open_envelope(payload.as_slice()) {
        Ok(x) => x,
        Err(e) => {
            return Err(e);
        },
    };
    if kind != Kind::Raw {
        return Ok(Rewrite::Keep(keep_note(cv, " was not stored full; left untouched")));
    }
    let got = hash_hex(old);
    if !same_text(got.as_str(), recorded) {
        return Err(
            Error::Corrupt(
                version_text(
                    "version ",
                    cv,
                    " of `",
                    obj,
                    "` does not match its recorded hash — corruption at rest; rewriting it as a delta would LAUNDER the corruption and delete the last full copy, so the whole put is refused",
                ),
            ),
        );
    }
    let delta = match delta_encode(new_bytes, old) {
        None => {
            return Ok(Rewrite::Keep(keep_note(cv, " kept full: the delta would not be smaller")));
        },
        Some(d) => d,
    };
    proof {
        crate::bytes::lemma_le_bytes_len(old@.len(), 4);
        crate::bytes::lemma_le_bytes_len(delta@.len(), 4);
        crate::bytes::lemma_pow256_values();
        crate::bytes::lemma_le_bytes_of_value(payload@.subrange(1, 5));
    }
    let env = match envelope(Kind::DeltaV1, delta.as_slice()) {
        Ok(e) => e,
        Err(e) => {
            // A delta over the payload limit is longer than any stored version.
            return Ok(Rewrite::Keep(keep_note(cv, " kept full: the delta would not be smaller")));
        },
    };
    if env.len() >= payload.len() {
        return Ok(Rewrite::Keep(keep_note(cv, " kept full: the delta would not be smaller")));
    }
    Ok(Rewrite::Delta { env, old: copy_bytes(old) })
}

/// Whether the rewritten version, read back as persisted, gives its contents
/// again. A delta that does not open or apply is one that does not hold; it has
/// to be put back, and the put goes on.
pub fn rewrite_holds(new_persisted: &[u8], delta_persisted: &[u8], old: &[u8]) -> (r: Result<bool>)
    ensures
        match opened(new_persisted@) {
            Err(f) => r is Err && r->Err_0@ == f,
            Ok((_, full)) => r is Ok && r->Ok_0 == (match opened(delta_persisted@) {
                Err(_) => false,
                Ok((_, d)) => delta_result(full, d) == Ok::<Seq<u8>, Fault>(old@),
            }),
        },
{
    let full = match open_envelope(new_persisted) {
        Ok((_, b)) => b,
        Err(e) => {
            return Err(e);
        },
    };
    let d = match open_envelope(delta_persisted) {
        Ok((_, b)) => b,
        Err(_) => {
            return Ok(false);
        },
    };
    match delta_apply(full, d) {
        Err(_) => Ok(false),
        Ok(back) => Ok(same_bytes(back.as_slice(), old)),
    }
}

/// The note on a rewritten version that did not read back.
pub fn rewrite_failed_note(cv: i64) -> (m: String)
    ensures
        m@ == "version "@ + dec_int(cv as int)
            + " kept full: the persisted delta did not reconstruct byte-identically (encoder bug — bloat, not corruption, by design)"@,
{
    keep_note(
        cv,
        " kept full: the persisted delta did not reconstruct byte-identically (encoder bug — bloat, not corruption, by design)",
    )
}

// ------------------------------------------------------------- pruning

/// Keeping nothing is a drop, not a prune.
pub fn prune_gate(keep: u64) -> (r: Result<()>)
    ensures
        match r {
            Ok(()) => keep > 0,
            Err(e) => keep == 0 && e@ == Fault::Unsupported(
                "keeping ZERO versions is a drop, not a prune — refused; if you mean it, delete the rows from rretl_versions yourself"@,
            ),
        },
{
    if keep == 0 {
        return Err(
            Error::Unsupported(
                String::from_str(
                    "keeping ZERO versions is a drop, not a prune — refused; if you mean it, delete the rows from rretl_versions yourself",
                ),
            ),
        );
    }
    Ok(())
}

/// A prune: delete every version up to `cutoff`.
pub struct Prune {
    pub cutoff: i64,
    pub pruned: u64,
    pub note: String,
}

/// What pruning to the newest `keep` of the versions `bounds` deletes: the
/// oldest ones, contiguously; `None` when there is nothing to delete.
pub fn prune_in(obj: &str, bounds: Option<(i64, i64)>, keep: u64) -> (r: Result<Option<Prune>>)
    requires
        keep > 0,
        bounds matches Some((lo, hi)) ==> lo <= hi,
    ensures
        match (bounds, r) {
            (None, Err(e)) => e@ == Fault::Unsupported("no versions of `"@ + obj@ + "` — nothing to prune"@),
            (Some((lo, hi)), Ok(None)) => hi - keep < lo,
            (Some((lo, hi)), Ok(Some(p))) => {
                &&& p.cutoff == hi - keep
                &&& lo <= p.cutoff < hi
                &&& p.pruned == p.cutoff - lo + 1
                &&& p.note@ == "versions "@ + dec_int(lo as int) + "..="@ + dec_int(p.cutoff as int) + " deleted, newest "@ + dec(
                    keep as nat,
                ) + " kept"@
            },
            _ => false,
        },
{
    let (lo, hi) = match bounds {
        None => {
            let mut m = String::from_str("no versions of `");
            m.append(obj);
            m.append("` — nothing to prune");
            return Err(Error::Unsupported(m));
        },
        Some(b) => b,
    };
    let cut: i128 = hi as i128 - keep as i128;
    if cut < lo as i128 {
        return Ok(None);
    }
    let cutoff: i64 = cut as i64;
    let pruned: u64 = (cut - lo as i128 + 1) as u64;
    let mut note = String::from_str("versions ");
    push_dec_int(&mut note, lo);
    note.append("..=");
    push_dec_int(&mut note, cutoff);
    note.append(" deleted, newest ");
    push_dec(&mut note, keep as u128);
    note.append(" kept");
    Ok(Some(Prune { cutoff, pruned, note }))
}

// ---------------------------------------------------------------- laws

/// A version is stored full, or as a delta against exactly the version above
/// it; every eighth is stored full.
pub open spec fn stored_ok(rows: Seq<StoredVersion>, contents: Seq<Seq<u8>>, i: int) -> bool {
    &&& rows[i].hash == content_hash(contents[i])
    &&& rows[i].ver == rows[0].ver + i
    &&& match opened(rows[i].payload) {
        Ok((Kind::Raw, b)) => b == contents[i],
        Ok((Kind::DeltaV1, d)) => i + 1 < rows.len() && rows[i].ver % 8 != 0 && delta_result(contents[i + 1], d) == Ok::<Seq<u8>, Fault>(contents[i]),
        _ => false,
    }
}

/// A chain of consecutive versions with these contents.
pub open spec fn chain_ok(rows: Seq<StoredVersion>, contents: Seq<Seq<u8>>) -> bool {
    &&& rows.len() == contents.len()
    &&& forall|i: int| 0 <= i < rows.len() ==> #[trigger] stored_ok(rows, contents, i)
}

proof fn lemma_full_in_window(rows: Seq<StoredVersion>, contents: Seq<Seq<u8>>, lo: int, hi: int, i: int)
    requires
        chain_ok(rows, contents),
        0 <= lo <= i <= hi < rows.len(),
        rows[hi].ver % 8 == 0 || hi == rows.len() - 1,
    ensures
        first_full(rows.subrange(lo, hi + 1), i - lo) matches Ok(Some(a)) && i - lo <= a <= hi - lo && opened(rows[lo + a].payload)
            == Ok::<(Kind, Seq<u8>), Fault>((Kind::Raw, contents[lo + a])) && forall|k: int|
            i <= k < lo + a ==> opened(#[trigger] rows[k].payload) matches Ok((Kind::DeltaV1, _)),
    decreases hi - i,
{
    let w = rows.subrange(lo, hi + 1);
    assert(w[i - lo] == rows[i]);
    assert(stored_ok(rows, contents, i));
    match opened(rows[i].payload) {
        Ok((Kind::Raw, b)) => {},
        Ok((Kind::DeltaV1, d)) => {
            assert(i < hi);
            lemma_full_in_window(rows, contents, lo, hi, i + 1);
        },
        _ => {},
    }
}

proof fn lemma_walk(obj: Seq<char>, rows: Seq<StoredVersion>, contents: Seq<Seq<u8>>, lo: int, hi: int, i: int)
    requires
        chain_ok(rows, contents),
        0 <= lo <= lo + i <= hi < rows.len(),
        forall|k: int| lo <= k < lo + i ==> opened(#[trigger] rows[k].payload) matches Ok((Kind::DeltaV1, _)),
    ensures
        walked_down(obj, rows.subrange(lo, hi + 1), i, contents[lo + i]) == Ok::<Seq<u8>, Fault>(contents[lo]),
    decreases i,
{
    if i > 0 {
        let w = rows.subrange(lo, hi + 1);
        let k = lo + i - 1;
        assert(w[i - 1] == rows[k]);
        assert(stored_ok(rows, contents, k));
        assert(opened(rows[k].payload) matches Ok((Kind::DeltaV1, _)));
        lemma_walk(obj, rows, contents, lo, hi, i - 1);
    }
}

/// Reading a version gives back exactly what was stored: of any intact chain,
/// the window of at most eight versions up to the next full one materialises
/// the version's contents.
pub proof fn law_get_gives_back(obj: Seq<char>, rows: Seq<StoredVersion>, contents: Seq<Seq<u8>>, i: int)
    requires
        chain_ok(rows, contents),
        0 <= i < rows.len(),
    ensures
        ({
            let ver = rows[i].ver;
            let bound = full_bound(ver, rows.last().ver);
            let hi = bound - rows[0].ver;
            &&& i <= hi < rows.len()
            &&& hi - i < 8
            &&& materialized(obj, ver, rows.subrange(i, hi + 1)) == Ok::<Seq<u8>, Fault>(contents[i])
        }),
{
    let n = rows.len() as int;
    assert(stored_ok(rows, contents, i));
    assert(stored_ok(rows, contents, n - 1));
    let ver = rows[i].ver;
    let bound = full_bound(ver, rows.last().ver);
    let hi = bound - rows[0].ver;
    assert(stored_ok(rows, contents, hi));
    assert(rows[hi].ver % 8 == 0 || hi == n - 1);
    lemma_full_in_window(rows, contents, i, hi, i);
    let w = rows.subrange(i, hi + 1);
    let a = first_full(w, 0)->Ok_0->Some_0;
    assert(w[0] == rows[i]);
    assert(w[a] == rows[i + a]);
    assert(stored_ok(rows, contents, i + a));
    lemma_walk(obj, rows, contents, i, hi, a);
}

/// What a put makes of a chain: the last version is rewritten or kept, and the
/// new one is stored full on top.
pub open spec fn put_on(rows: Seq<StoredVersion>, last_payload: Seq<u8>, new_bytes: Seq<u8>) -> Seq<StoredVersion> {
    let last = rows.last();
    rows.drop_last().push(StoredVersion { payload: last_payload, ..last }).push(
        StoredVersion { ver: last.ver + 1, payload: sealed(Kind::Raw, new_bytes), hash: content_hash(new_bytes) },
    )
}

/// A put keeps the chain intact, whether the previous newest version stays
/// full or becomes the encoder's delta, and no older version changes.
pub proof fn law_put_keeps_chain(rows: Seq<StoredVersion>, contents: Seq<Seq<u8>>, new_bytes: Seq<u8>, as_delta: bool)
    requires
        chain_ok(rows, contents),
        rows.len() > 0,
        new_bytes.len() <= MAX_PAYLOAD,
        as_delta ==> rows.last().ver % 8 != 0 && contents.last().len() <= MAX_PAYLOAD && delta_encoding(
            new_bytes,
            contents.last(),
        ).len() <= MAX_PAYLOAD,
    ensures
        ({
            let payload = if as_delta { sealed(Kind::DeltaV1, delta_encoding(new_bytes, contents.last())) } else { rows.last().payload };
            chain_ok(put_on(rows, payload, new_bytes), contents.push(new_bytes))
        }),
{
    let n = rows.len() as int;
    let payload = if as_delta { sealed(Kind::DeltaV1, delta_encoding(new_bytes, contents.last())) } else { rows.last().payload };
    let after = put_on(rows, payload, new_bytes);
    let all = contents.push(new_bytes);
    law_envelope_round_trip(Kind::Raw, new_bytes);
    if as_delta {
        law_envelope_round_trip(Kind::DeltaV1, delta_encoding(new_bytes, contents.last()));
        law_delta_round_trip(new_bytes, contents.last());
    }
    assert forall|i: int| 0 <= i < after.len() implies #[trigger] stored_ok(after, all, i) by {
        if i < n {
            assert(stored_ok(rows, contents, i));
            assert(after[i].ver == rows[i].ver && after[i].hash == rows[i].hash);
            assert(after[0].ver == rows[0].ver) by {
                assert(stored_ok(rows, contents, 0));
            }
            if i < n - 1 {
                assert(after[i] == rows[i]);
                assert(all[i + 1] == contents[i + 1]);
            } else {
                assert(all[i + 1] == new_bytes);
            }
        } else {
            assert(stored_ok(rows, contents, n - 1));
            assert(after[0].ver == rows[0].ver);
        }
    }
}

/// Deleting the oldest versions keeps the chain of the rest intact.
pub proof fn law_prune_keeps_chain(rows: Seq<StoredVersion>, contents: Seq<Seq<u8>>, n: int)
    requires
        chain_ok(rows, contents),
        0 <= n < rows.len(),
    ensures
        chain_ok(rows.skip(n), contents.skip(n)),
{
    let (r, c) = (rows.skip(n), contents.skip(n));
    assert forall|i: int| 0 <= i < r.len() implies #[trigger] stored_ok(r, c, i) by {
        assert(stored_ok(rows, contents, n + i));
        assert(stored_ok(rows, contents, n));
        assert(r[i] == rows[n + i]);
        assert(r[0] == rows[n]);
    }
}

// ------------------------------------------------------- histories

/// What is done to the versions of an object.
pub enum StoreOp {
    Put(Seq<u8>),
    /// Keep that many of the newest.
    Prune(nat),
}

/// The stored versions after a put.
pub open spec fn after_put(rows: Seq<StoredVersion>, new_bytes: Seq<u8>) -> Seq<StoredVersion> {
    if rows.len() == 0 {
        seq![StoredVersion { ver: 1, payload: sealed(Kind::Raw, new_bytes), hash: content_hash(new_bytes) }]
    } else {
        let last = rows.last();
        put_on(rows, if last.ver % 8 != 0 { rewritten_payload(last.payload, new_bytes) } else { last.payload }, new_bytes)
    }
}

/// How many of `n` versions go when the newest `keep` are kept.
pub open spec fn pruned_of(n: nat, keep: nat) -> nat {
    if n > keep { (n - keep) as nat } else { 0 }
}

/// The stored versions of an object after its whole history.
pub open spec fn stored_after(ops: Seq<StoreOp>) -> Seq<StoredVersion>
    decreases ops.len(),
{
    if ops.len() == 0 {
        Seq::empty()
    } else {
        let rows = stored_after(ops.drop_last());
        match ops.last() {
            StoreOp::Put(b) => after_put(rows, b),
            StoreOp::Prune(keep) => rows.skip(pruned_of(rows.len(), keep) as int),
        }
    }
}

/// Everything that was ever put, in order.
pub open spec fn puts_of(ops: Seq<StoreOp>) -> Seq<Seq<u8>>
    decreases ops.len(),
{
    if ops.len() == 0 {
        Seq::empty()
    } else {
        match ops.last() {
            StoreOp::Put(b) => puts_of(ops.drop_last()).push(b),
            StoreOp::Prune(_) => puts_of(ops.drop_last()),
        }
    }
}

/// Every put is within the payload limit, and every prune keeps something.
pub open spec fn ops_ok(ops: Seq<StoreOp>) -> bool {
    forall|i: int| 0 <= i < ops.len() ==> match #[trigger] ops[i] {
        StoreOp::Put(b) => b.len() <= MAX_PAYLOAD,
        StoreOp::Prune(keep) => keep > 0,
    }
}

proof fn lemma_history(ops: Seq<StoreOp>)
    requires
        ops_ok(ops),
    ensures
        ({
            let rows = stored_after(ops);
            let puts = puts_of(ops);
            let gone = puts.len() - rows.len();
            &&& rows.len() <= puts.len()
            &&& puts.len() > 0 ==> rows.len() > 0
            &&& chain_ok(rows, puts.skip(gone))
            &&& forall|i: int| 0 <= i < puts.len() ==> (#[trigger] puts[i]).len() <= MAX_PAYLOAD
            &&& rows.len() > 0 ==> rows.last().ver == puts.len()
        }),
    decreases ops.len(),
{
    if ops.len() > 0 {
        let before = ops.drop_last();
        assert forall|i: int| 0 <= i < before.len() implies match #[trigger] before[i] {
            StoreOp::Put(b) => b.len() <= MAX_PAYLOAD,
            StoreOp::Prune(keep) => keep > 0,
        } by {
            assert(before[i] == ops[i]);
        }
        lemma_history(before);
        let rows = stored_after(before);
        let puts = puts_of(before);
        let gone = puts.len() - rows.len();
        let held = puts.skip(gone);
        assert(ops[ops.len() - 1] == ops.last());
        match ops.last() {
            StoreOp::Put(b) => {
                let after = stored_after(ops);
                law_envelope_round_trip(Kind::Raw, b);
                if rows.len() == 0 {
                    let all = puts.push(b).skip(gone);
                    assert(puts =~= Seq::empty());
                    assert(all =~= seq![b]);
                    assert forall|i: int| 0 <= i < after.len() implies #[trigger] stored_ok(after, all, i) by {}
                } else {
                    assert(stored_ok(rows, held, rows.len() - 1));
                    assert(held.last() == puts.last());
                    let old = held.last();
                    let encoding = delta_encoding(b, old);
                    let as_delta = rows.last().ver % 8 != 0 && rewritten_payload(rows.last().payload, b) != rows.last().payload;
                    assert(puts[puts.len() - 1].len() <= MAX_PAYLOAD);
                    if as_delta {
                        lemma_smaller_delta(rows.last().payload, encoding);
                    }
                    law_put_keeps_chain(rows, held, b, as_delta);
                    assert(puts.push(b).skip(gone) =~= held.push(b));
                    assert(after == put_on(rows, if as_delta { sealed(Kind::DeltaV1, encoding) } else { rows.last().payload }, b));
                }
            },
            StoreOp::Prune(keep) => {
                let n = pruned_of(rows.len(), keep) as int;
                if rows.len() > 0 {
                    law_prune_keeps_chain(rows, held, n);
                }
                assert(puts.skip(gone).skip(n) =~= puts.skip(gone + n));
                assert(rows.skip(n).len() == rows.len() - n);
                if rows.len() > 0 {
                    assert(rows.skip(n).last() == rows.last());
                }
            },
        }
    }
}

/// A delta whose envelope is smaller than a stored version's is shorter than
/// that version's contents, and both are within the payload limit.
pub proof fn lemma_smaller_delta(payload: Seq<u8>, encoding: Seq<u8>)
    requires
        opened(payload) is Ok,
        sealed(Kind::DeltaV1, encoding).len() < payload.len(),
    ensures
        encoding.len() < opened(payload)->Ok_0.1.len() <= MAX_PAYLOAD,
{
    crate::bytes::lemma_le_bytes_len(encoding.len(), 4);
    crate::bytes::lemma_pow256_values();
    crate::bytes::lemma_le_bytes_of_value(payload.subrange(1, 5));
}

/// Whatever was put comes back: after any number of puts and prunes, every
/// version that was not pruned materialises to what was put under its number,
/// stored full or as a delta. The first put of an object has the number one,
/// each later one the next.
pub proof fn law_versions_give_back(obj: Seq<char>, ops: Seq<StoreOp>, v: int)
    requires
        ops_ok(ops),
        puts_of(ops).len() - stored_after(ops).len() < v <= puts_of(ops).len(),
    ensures
        ({
            let rows = stored_after(ops);
            let (lo, hi) = (v - rows[0].ver, full_bound(v, rows.last().ver) - rows[0].ver);
            &&& rows.last().ver == puts_of(ops).len()
            &&& 0 <= lo <= hi < rows.len()
            &&& rows[lo].ver == v
            &&& materialized(obj, v, rows.subrange(lo, hi + 1)) == Ok::<Seq<u8>, Fault>(puts_of(ops)[v - 1])
        }),
{
    lemma_history(ops);
    let rows = stored_after(ops);
    let puts = puts_of(ops);
    let gone = puts.len() - rows.len();
    let i = v - 1 - gone;
    assert(stored_ok(rows, puts.skip(gone), 0));
    assert(stored_ok(rows, puts.skip(gone), i));
    assert(stored_ok(rows, puts.skip(gone), rows.len() - 1));
    law_get_gives_back(obj, rows, puts.skip(gone), i);
}

} // verus!
