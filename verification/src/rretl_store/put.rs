//! Storing a new version: what is written, in which order, and what is read
//! back before the commit.
//!
//! The new version goes in full. The one that stops being the newest is
//! rewritten as a delta and both are read back as persisted; a delta that does
//! not give its contents again is replaced by the full payload.

use vstd::prelude::*;
use vstd::string::StringExecFns;
use crate::bytes::copy_bytes;
use crate::error::{Error, Fault, Result};
use crate::hash::hash_hex;
use crate::retl_codec::{delta_encoding, delta_result, envelope, law_delta_round_trip, law_envelope_round_trip, sealed, Kind, MAX_PAYLOAD};
use crate::rretl_store::versions::{
    after_put, chain_ok, content_hash, is_rewritten, law_put_keeps_chain, lemma_smaller_delta, next_version, opened, put_on,
    rewrite_as_delta, rewrite_failed_note, rewrite_holds, rewritten_payload, stored_ok, version_text, Rewrite, StoredVersion, VersionRow,
};
use crate::text::dec_int;

verus! {

/// What a put has to do next.
#[derive(Debug, Clone, Copy, PartialEq, Eq, Structural)]
pub enum PutAsk {
    /// Insert the new version.
    Insert,
    /// Read the version that stops being the newest.
    ReadLast,
    /// Write its delta over it.
    WriteDelta,
    /// Read both versions back.
    ReadBack,
    /// Write its full payload back.
    Restore,
    /// Nothing: the put is complete.
    Done,
}

/// A put in the making.
pub struct PutVersion {
    ask: PutAsk,
    cur: Option<i64>,
    row: VersionRow,
    bytes: Vec<u8>,
    last: Vec<u8>,
    delta: Vec<u8>,
    old: Vec<u8>,
    note: String,
    found: Ghost<Option<StoredVersion>>,
    kept: Ghost<Seq<u8>>,
    restored: Ghost<bool>,
}

/// The row of a new version above version `cur`.
pub open spec fn new_version(cur: Option<int>, bytes: Seq<u8>) -> StoredVersion {
    StoredVersion {
        ver: match cur {
            Some(v) => v + 1,
            None => 1,
        },
        payload: sealed(Kind::Raw, bytes),
        hash: content_hash(bytes),
    }
}

/// Why a put is refused over what was found as version `cv`.
pub open spec fn last_fault(obj: Seq<char>, cv: int, last: Option<StoredVersion>) -> Option<Fault> {
    match last {
        None => Some(Fault::Corrupt("version "@ + dec_int(cv) + " of `"@ + obj + "` vanished mid-transaction"@)),
        Some(l) => match opened(l.payload) {
            Err(f) => Some(f),
            Ok((kind, old)) => if kind == Kind::Raw && content_hash(old) != l.hash {
                Some(
                    Fault::Corrupt(
                        "version "@ + dec_int(cv) + " of `"@ + obj
                            + "` does not match its recorded hash — corruption at rest; rewriting it as a delta would LAUNDER the corruption and delete the last full copy, so the whole put is refused"@,
                    ),
                )
            } else {
                None
            },
        },
    }
}

/// The note on version `cv`: why it is kept as it is, or nothing.
pub open spec fn keeps_note(cv: int, payload: Seq<u8>, bytes: Seq<u8>) -> Seq<char> {
    if !(opened(payload) matches Ok((Kind::Raw, _))) {
        "version "@ + dec_int(cv) + " was not stored full; left untouched"@
    } else if rewritten_payload(payload, bytes) == payload {
        "version "@ + dec_int(cv) + " kept full: the delta would not be smaller"@
    } else {
        Seq::empty()
    }
}

/// The note on version `cv` where its delta did not read back.
pub open spec fn restored_note(cv: int) -> Seq<char> {
    "version "@ + dec_int(cv)
        + " kept full: the persisted delta did not reconstruct byte-identically (encoder bug — bloat, not corruption, by design)"@
}

/// The persisted payloads give the old contents again.
pub open spec fn reads_back(new_persisted: Seq<u8>, delta_persisted: Seq<u8>, old: Seq<u8>) -> bool {
    match (opened(new_persisted), opened(delta_persisted)) {
        (Ok((_, full)), Ok((_, d))) => delta_result(full, d) == Ok::<Seq<u8>, Fault>(old),
        _ => false,
    }
}

impl PutVersion {
    /// What is waited for.
    pub closed spec fn waits(&self) -> PutAsk {
        self.ask
    }

    /// The newest version before the put.
    pub closed spec fn over(&self) -> Option<int> {
        match self.cur {
            Some(v) => Some(v as int),
            None => None,
        }
    }

    /// What is put.
    pub closed spec fn contents(&self) -> Seq<u8> {
        self.bytes@
    }

    /// The version that stopped being the newest, as it was read.
    pub closed spec fn found(&self) -> Option<StoredVersion> {
        self.found@
    }

    /// Its payload as it now stands.
    pub closed spec fn kept(&self) -> Seq<u8> {
        self.kept@
    }

    /// Its delta did not read back.
    pub closed spec fn restored(&self) -> bool {
        self.restored@
    }

    /// What the put notes.
    pub closed spec fn noted(&self) -> Seq<char> {
        self.note@
    }

    /// The version that stops being the newest is one that gets rewritten.
    pub open spec fn rewrites_last(&self) -> bool {
        self.over() matches Some(v) && v % 8 != 0
    }

    /// The contents, and the version below, are those of another state.
    pub open spec fn same_put(&self, other: PutVersion) -> bool {
        self.contents() == other.contents() && self.over() == other.over()
    }

    pub closed spec fn wf(&self) -> bool {
        let b = self.bytes@;
        &&& self.row@ == new_version(self.over(), b)
        &&& b.len() <= MAX_PAYLOAD
        &&& match self.ask {
            PutAsk::Insert => self.found@ is None && self.note@ == Seq::<char>::empty() && !self.restored@,
            PutAsk::ReadLast => self.rewrites_last() && self.found@ is None && self.note@ == Seq::<char>::empty() && !self.restored@,
            PutAsk::Done => match self.found@ {
                None => !self.rewrites_last() && !self.restored@,
                Some(f) => {
                    &&& self.rewrites_last()
                    &&& f.ver == self.over()->Some_0
                    &&& self.kept@ == (if self.restored@ { f.payload } else { rewritten_payload(f.payload, b) })
                },
            },
            _ => {
                &&& self.rewrites_last()
                &&& self.found@ is Some
                &&& self.found@->Some_0.ver == self.over()->Some_0
                &&& self.last@ == self.found@->Some_0.payload
                &&& opened(self.last@) == Ok::<(Kind, Seq<u8>), Fault>((Kind::Raw, self.old@))
                &&& self.delta@ == rewritten_payload(self.last@, b)
                &&& self.delta@ == sealed(Kind::DeltaV1, delta_encoding(b, self.old@))
                &&& self.delta@.len() < self.last@.len()
                &&& self.note@ == Seq::<char>::empty()
                &&& !self.restored@
                &&& self.kept@ == (if self.ask == PutAsk::WriteDelta { self.last@ } else { self.delta@ })
            },
        }
    }

    /// Begin to put `bytes` above the newest version, if there is one.
    pub fn begin(cur: Option<i64>, bytes: &[u8]) -> (p: PutVersion)
        requires
            bytes@.len() <= MAX_PAYLOAD,
            cur is Some ==> cur->Some_0 < i64::MAX,
        ensures
            p.wf(),
            p.waits() == PutAsk::Insert,
            p.contents() == bytes@,
            p.over() == (match cur {
                Some(v) => Some(v as int),
                None => None,
            }),
    {
        let payload = match envelope(Kind::Raw, bytes) {
            Ok(e) => e,
            Err(_) => Vec::new(),
        };
        let row = VersionRow { ver: next_version(cur), payload, content_hash: hash_hex(bytes) };
        PutVersion {
            ask: PutAsk::Insert,
            cur,
            row,
            bytes: copy_bytes(bytes),
            last: Vec::new(),
            delta: Vec::new(),
            old: Vec::new(),
            note: String::new(),
            found: Ghost(None),
            kept: Ghost(Seq::empty()),
            restored: Ghost(false),
        }
    }

    /// What comes next.
    pub fn next(&self) -> (a: PutAsk)
        ensures
            a == self.waits(),
    {
        self.ask
    }

    /// The row of the new version.
    pub fn row(&self) -> (r: &VersionRow)
        requires
            self.wf(),
        ensures
            r@ == new_version(self.over(), self.contents()),
    {
        &self.row
    }

    /// The version that stops being the newest.
    pub fn last_version(&self) -> (r: Option<i64>)
        ensures
            match r {
                Some(v) => self.over() == Some(v as int),
                None => self.over() is None,
            },
    {
        self.cur
    }

    /// The new version is in.
    pub fn on_inserted(&mut self)
        requires
            old(self).wf(),
            old(self).waits() == PutAsk::Insert,
        ensures
            final(self).wf(),
            final(self).same_put(*old(self)),
            final(self).waits() == (if old(self).rewrites_last() { PutAsk::ReadLast } else { PutAsk::Done }),
            final(self).found() is None,
            final(self).noted() == Seq::<char>::empty(),
    {
        self.ask = PutAsk::Done;
        if let Some(cv) = self.cur {
            if is_rewritten(cv) {
                self.ask = PutAsk::ReadLast;
            }
        }
    }

    /// Take the version that stops being the newest, and decide whether it
    /// becomes a delta.
    pub fn on_last(&mut self, obj: &str, last: Option<VersionRow>) -> (r: Result<()>)
        requires
            old(self).wf(),
            old(self).waits() == PutAsk::ReadLast,
            last is Some ==> last->Some_0@.ver == old(self).over()->Some_0,
        ensures
            ({
                let cv = old(self).over()->Some_0;
                let found = match last {
                    Some(l) => Some(l@),
                    None => None,
                };
                match r {
                    Err(e) => last_fault(obj@, cv, found) == Some(e@),
                    Ok(()) => {
                        &&& last_fault(obj@, cv, found) is None
                        &&& final(self).wf()
                        &&& final(self).same_put(*old(self))
                        &&& final(self).found() == found
                        &&& final(self).noted() == keeps_note(cv, last->Some_0.payload@, old(self).contents())
                        &&& !final(self).restored()
                        &&& final(self).waits() == (if rewritten_payload(last->Some_0.payload@, old(self).contents())
                            != last->Some_0.payload@ {
                            PutAsk::WriteDelta
                        } else {
                            PutAsk::Done
                        })
                    },
                }
            }),
    {
        let cv: i64 = match self.cur {
            Some(v) => v,
            None => 0,
        };
        let row = match last {
            None => {
                return Err(Error::Corrupt(version_text("version ", cv, " of `", obj, "` vanished mid-transaction")));
            },
            Some(l) => l,
        };
        let decided = match rewrite_as_delta(obj, cv, &row.payload, row.content_hash.as_str(), self.bytes.as_slice()) {
            Ok(d) => d,
            Err(e) => {
                return Err(e);
            },
        };
        proof {
            self.found@ = Some(row@);
            self.kept@ = row.payload@;
        }
        match decided {
            Rewrite::Keep(why) => {
                self.note = why;
                self.ask = PutAsk::Done;
            },
            Rewrite::Delta { env, old } => {
                self.delta = env;
                self.old = old;
                self.last = row.payload;
                self.ask = PutAsk::WriteDelta;
            },
        }
        Ok(())
    }

    /// The payload to write: the delta, or the full payload again.
    pub fn payload(&self) -> (r: &Vec<u8>)
        requires
            self.wf(),
            self.waits() == PutAsk::WriteDelta || self.waits() == PutAsk::Restore,
        ensures
            r@ == (if self.waits() == PutAsk::WriteDelta {
                rewritten_payload(self.found()->Some_0.payload, self.contents())
            } else {
                self.found()->Some_0.payload
            }),
    {
        if self.ask == PutAsk::WriteDelta {
            &self.delta
        } else {
            &self.last
        }
    }

    /// The payload is written.
    pub fn on_written(&mut self)
        requires
            old(self).wf(),
            old(self).waits() == PutAsk::WriteDelta || old(self).waits() == PutAsk::Restore,
        ensures
            final(self).wf(),
            final(self).same_put(*old(self)),
            final(self).found() == old(self).found(),
            final(self).restored() == (old(self).waits() == PutAsk::Restore),
            final(self).noted() == (if old(self).waits() == PutAsk::Restore {
                restored_note(old(self).over()->Some_0)
            } else {
                old(self).noted()
            }),
            final(self).waits() == (if old(self).waits() == PutAsk::WriteDelta { PutAsk::ReadBack } else { PutAsk::Done }),
    {
        if self.ask == PutAsk::WriteDelta {
            self.ask = PutAsk::ReadBack;
            proof {
                self.kept@ = self.delta@;
            }
        } else {
            if let Some(cv) = self.cur {
                self.note = rewrite_failed_note(cv);
            }
            self.ask = PutAsk::Done;
            proof {
                self.kept@ = self.last@;
                self.restored@ = true;
            }
        }
    }

    /// Compare both versions as persisted. What was persisted as written is
    /// never put back.
    pub fn on_read_back(&mut self, new_persisted: &[u8], delta_persisted: &[u8]) -> (r: Result<()>)
        requires
            old(self).wf(),
            old(self).waits() == PutAsk::ReadBack,
        ensures
            match opened(new_persisted@) {
                Err(f) => r is Err && r->Err_0@ == f,
                Ok(_) => {
                    let held = opened(old(self).found()->Some_0.payload)->Ok_0.1;
                    &&& r is Ok
                    &&& final(self).wf()
                    &&& final(self).same_put(*old(self))
                    &&& final(self).found() == old(self).found()
                    &&& final(self).noted() == old(self).noted()
                    &&& !final(self).restored()
                    &&& final(self).waits() == (if reads_back(new_persisted@, delta_persisted@, held) { PutAsk::Done } else { PutAsk::Restore })
                },
            },
            new_persisted@ == new_version(old(self).over(), old(self).contents()).payload && delta_persisted@ == rewritten_payload(
                old(self).found()->Some_0.payload,
                old(self).contents(),
            ) ==> r is Ok && final(self).waits() == PutAsk::Done,
    {
        proof {
            let b = self.bytes@;
            let encoding = delta_encoding(b, self.old@);
            lemma_smaller_delta(self.last@, encoding);
            law_envelope_round_trip(Kind::Raw, b);
            law_envelope_round_trip(Kind::DeltaV1, encoding);
            law_delta_round_trip(b, self.old@);
        }
        match rewrite_holds(new_persisted, delta_persisted, self.old.as_slice()) {
            Err(e) => Err(e),
            Ok(holds) => {
                self.ask = if holds {
                    PutAsk::Done
                } else {
                    PutAsk::Restore
                };
                Ok(())
            },
        }
    }

    /// What the put notes in the lineage.
    pub fn note(&self) -> (r: &String)
        ensures
            r@ == self.noted(),
    {
        &self.note
    }
}

// ---------------------------------------------------------------- laws

/// The stored versions that a completed put leaves of those before it.
pub open spec fn stored_by(p: PutVersion, rows: Seq<StoredVersion>) -> Seq<StoredVersion> {
    if rows.len() == 0 {
        seq![new_version(None, p.contents())]
    } else {
        put_on(rows, if p.found() is Some { p.kept() } else { rows.last().payload }, p.contents())
    }
}

/// A completed put began with these versions: it knew the number of the
/// newest, and what it read of it.
pub open spec fn put_over(p: PutVersion, rows: Seq<StoredVersion>) -> bool {
    &&& p.over() == (if rows.len() == 0 { None } else { Some(rows.last().ver) })
    &&& p.found() is Some ==> rows.len() > 0 && p.found() == Some(rows.last())
}

/// A completed put keeps every version and adds its own, whether or not the
/// delta read back: on top of an intact chain it leaves an intact chain with
/// the new contents last, under the next number.
pub proof fn law_put_adds_version(p: PutVersion, rows: Seq<StoredVersion>, contents: Seq<Seq<u8>>)
    requires
        p.wf(),
        p.waits() == PutAsk::Done,
        put_over(p, rows),
        chain_ok(rows, contents),
    ensures
        chain_ok(stored_by(p, rows), contents.push(p.contents())),
        stored_by(p, rows).last() == new_version(p.over(), p.contents()),
{
    let b = p.contents();
    let after = stored_by(p, rows);
    law_envelope_round_trip(Kind::Raw, b);
    if rows.len() == 0 {
        let all = contents.push(b);
        assert forall|i: int| 0 <= i < after.len() implies #[trigger] stored_ok(after, all, i) by {}
    } else {
        let last = rows.last();
        assert(stored_ok(rows, contents, rows.len() - 1));
        let as_delta = p.found() is Some && p.kept() != last.payload;
        if as_delta {
            lemma_smaller_delta(last.payload, delta_encoding(b, contents.last()));
        }
        law_put_keeps_chain(rows, contents, b, as_delta);
    }
}

/// Where the delta read back, or there was none, the put leaves what the
/// history of an object says.
pub proof fn law_put_is_history(p: PutVersion, rows: Seq<StoredVersion>)
    requires
        p.wf(),
        p.waits() == PutAsk::Done,
        !p.restored(),
        put_over(p, rows),
    ensures
        stored_by(p, rows) == after_put(rows, p.contents()),
{
    if rows.len() > 0 {
        assert(rows.last().ver % 8 != 0 <==> p.rewrites_last());
    }
}

} // verus!
