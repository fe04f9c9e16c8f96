//! Archives: a zip is taken apart into member rows and a residual, and put
//! together again byte for byte.

use vstd::prelude::*;
use vstd::string::StringExecFns;
use vstd::slice::slice_subrange;
use crate::bytes::{copy_bytes, same_bytes};
use crate::error::{Error, Fault, Result};
use crate::hash::hash_hex;
use crate::retl_codec::{contents, cut_out, envelope, envelope_opened, gap_bytes, join_stops, law_envelope_round_trip, law_zip_round_trip, member_views, open_envelope, sealed, segments, splice_list, spliced, supplied, wrong_length, zip_join, zip_split, zip_split_result, Kind, MemberView, Segment, MAX_PAYLOAD};
use crate::rretl::{as_int, as_text, int_cell, text_cell, LineageRow};
use crate::value::Value;
use crate::rretl_store::versions::content_hash;
use crate::text::{dec, dec_int, numbered, push_dec_int, quoted_in};
use crate::utf8::same_text;

verus! {

/// One archive as the list shows it.
#[derive(Debug)]
pub struct ArchiveInfo {
    pub archive_id: i64,
    pub name: String,
    pub members: i64,
    pub content_hash: String,
}

/// The view of an [`ArchiveInfo`].
pub struct ArchiveModel {
    pub archive_id: int,
    pub name: Seq<char>,
    pub members: int,
    pub content_hash: Seq<char>,
}

impl View for ArchiveInfo {
    type V = ArchiveModel;

    open spec fn view(&self) -> ArchiveModel {
        ArchiveModel {
            archive_id: self.archive_id as int,
            name: self.name@,
            members: self.members as int,
            content_hash: self.content_hash@,
        }
    }
}

/// An archive as the list shows it: id, name, content hash, member count.
pub open spec fn archive_of(r: Seq<Value>) -> std::result::Result<ArchiveModel, Fault> {
    match (int_cell(r[0].model()), int_cell(r[3].model())) {
        (Err(f), _) => Err(f),
        (Ok(_), Err(f)) => Err(f),
        (Ok(archive_id), Ok(members)) => Ok(
            ArchiveModel { archive_id, name: text_cell(r[1].model()), members, content_hash: text_cell(r[2].model()) },
        ),
    }
}

/// An archive as the list shows it, from its row.
pub fn archive_info(r: &Vec<Value>) -> (a: Result<ArchiveInfo>)
    requires
        r@.len() >= 4,
    ensures
        match a {
            Ok(a) => archive_of(r@) == Ok::<ArchiveModel, Fault>(a@),
            Err(e) => archive_of(r@) == Err::<ArchiveModel, Fault>(e@),
        },
{
    let archive_id: i64 = match as_int(&r[0]) {
        Ok(i) => i,
        Err(e) => {
            return Err(e);
        },
    };
    let members: i64 = match as_int(&r[3]) {
        Ok(i) => i,
        Err(e) => {
            return Err(e);
        },
    };
    Ok(ArchiveInfo { archive_id, name: as_text(&r[1]), members, content_hash: as_text(&r[2]) })
}

/// One member as it is stored.
#[derive(Debug)]
pub struct MemberRow {
    pub member_no: u32,
    pub name: Vec<u8>,
    pub data: Vec<u8>,
    pub method: u16,
}

/// What an archive is stored as.
#[derive(Debug)]
pub struct PackedArchive {
    /// The residual in its envelope.
    pub residual: Vec<u8>,
    pub content_hash: String,
    pub members: Vec<MemberRow>,
}

/// Row `i` is member `i` of the archive, with its data cut out of the file.
pub open spec fn row_of_member(file: Seq<u8>, m: MemberView, r: MemberRow) -> bool {
    &&& r.member_no == m.member_no
    &&& r.name@ == m.name
    &&& r.method == m.method
    &&& r.data@ == file.subrange(m.offset as int, (m.offset + m.len) as int)
}

/// The rows of an archive's members.
pub open spec fn rows_of_members(file: Seq<u8>, ms: Seq<MemberView>, rows: Seq<MemberRow>) -> bool {
    &&& rows.len() == ms.len()
    &&& forall|i: int| 0 <= i < rows.len() ==> row_of_member(file, ms[i], #[trigger] rows[i])
}

/// The fault of a residual that is too large for its envelope.
pub open spec fn too_large(len: nat) -> Fault {
    Fault::Unsupported("payload is "@ + dec(len) + " bytes; the envelope caps at "@ + dec(MAX_PAYLOAD as nat))
}

/// Take an archive apart: every member with its data, and the residual.
pub fn pack_in(file: &[u8]) -> (r: Result<PackedArchive>)
    ensures
        match zip_split_result(file@) {
            Err(f) => r is Err && r->Err_0@ == f,
            Ok((ms, residual)) => if residual.len() > MAX_PAYLOAD {
                r is Err && r->Err_0@ == too_large(residual.len())
            } else {
                &&& r is Ok
                &&& r->Ok_0.residual@ == sealed(Kind::ZipSpliceV1, residual)
                &&& r->Ok_0.content_hash@ == content_hash(file@)
                &&& rows_of_members(file@, ms, r->Ok_0.members@)
            },
        },
{
    let parts = match zip_split(file) {
        Ok(p) => p,
        Err(e) => {
            return Err(e);
        },
    };
    let content_hash = hash_hex(file);
    let residual = match envelope(Kind::ZipSpliceV1, parts.residual_payload.as_slice()) {
        Ok(v) => v,
        Err(e) => {
            return Err(e);
        },
    };
    let ghost ms = member_views(parts.members@);
    proof {
        assert(file.len() <= u64::MAX);
        crate::retl_codec::lemma_split_ok(file@);
    }
    let mut members: Vec<MemberRow> = Vec::with_capacity(parts.members.len());
    let mut i: usize = 0;
    while i < parts.members.len()
        invariant
            i <= parts.members@.len(),
            ms == member_views(parts.members@),
            members@.len() == i,
            file@.len() <= usize::MAX,
            forall|j: int| 0 <= j < ms.len() ==> (#[trigger] ms[j]).member_no == j && ms[j].offset + ms[j].len <= file@.len(),
            forall|j: int| 0 <= j < i ==> row_of_member(file@, ms[j], #[trigger] members@[j]),
        decreases parts.members@.len() - i,
    {
        let m = &parts.members[i];
        proof {
            assert(ms[i as int] == m@);
        }
        let data = copy_bytes(slice_subrange(file, m.offset as usize, m.offset as usize + m.len as usize));
        members.push(MemberRow { member_no: m.member_no, name: copy_bytes(m.name.as_slice()), data, method: m.method });
        i += 1;
    }
    Ok(PackedArchive { residual, content_hash, members })
}

/// The data of member `no` among stored rows: of several rows, the last.
pub open spec fn stored_data(rows: Seq<(u32, Vec<u8>)>, no: u32) -> Option<Seq<u8>>
    decreases rows.len(),
{
    if rows.len() == 0 {
        None
    } else if rows.last().0 == no {
        Some(rows.last().1@)
    } else {
        stored_data(rows.drop_last(), no)
    }
}

/// The data of member `no` among stored rows.
pub fn member_data(rows: &Vec<(u32, Vec<u8>)>, no: u32) -> (r: Result<Vec<u8>>)
    ensures
        match stored_data(rows@, no) {
            Some(d) => r is Ok && r->Ok_0@ == d,
            None => r is Err && r->Err_0@ == Fault::Corrupt("member "@ + dec(no as nat) + " not persisted"@),
        },
{
    let mut i: usize = rows.len();
    proof {
        assert(rows@.take(rows@.len() as int) =~= rows@);
    }
    while i > 0
        invariant
            i <= rows@.len(),
            stored_data(rows@, no) == stored_data(rows@.take(i as int), no),
        decreases i,
    {
        i -= 1;
        proof {
            assert(rows@.take(i + 1).drop_last() =~= rows@.take(i as int));
        }
        if rows[i].0 == no {
            return Ok(copy_bytes(rows[i].1.as_slice()));
        }
    }
    Err(Error::Corrupt(numbered("member ", no as u128, " not persisted")))
}

/// The first segment from `i` on whose data is not among the stored rows, or
/// has another length than recorded, with what is wrong.
pub open spec fn member_fault(rows: Seq<(u32, Vec<u8>)>, es: Seq<Segment>, i: int) -> Option<Fault>
    decreases es.len() - i,
{
    if i < 0 || i >= es.len() {
        None
    } else {
        match stored_data(rows, es[i].0 as u32) {
            None => Some(Fault::Corrupt("member "@ + dec(es[i].0 as u32 as nat) + " not persisted"@)),
            Some(d) => if d.len() != es[i].2 {
                Some(wrong_length(es[i], d.len()))
            } else {
                member_fault(rows, es, i + 1)
            },
        }
    }
}

/// The stored data of every segment.
pub open spec fn stored_segments(rows: Seq<(u32, Vec<u8>)>, es: Seq<Segment>) -> Seq<Seq<u8>> {
    Seq::new(es.len(), |i: int| stored_data(rows, es[i].0 as u32)->Some_0)
}

/// What speaks against a persisted residual and rows: they do not give the
/// original file again.
pub open spec fn resplice_fault(name: Seq<char>, residual: Seq<u8>, rows: Seq<(u32, Vec<u8>)>, file: Seq<u8>) -> Option<Fault> {
    match envelope_opened(residual) {
        Err(f) => Some(f),
        Ok((_, payload)) => match splice_list(payload) {
            Err(m) => Some(Fault::Corrupt("zip-splice-v1: "@ + m)),
            Ok(es) => match member_fault(rows, es, 0) {
                Some(f) => Some(f),
                None => if spliced(es, stored_segments(rows, es), gap_bytes(payload), 0) == file {
                    None
                } else {
                    Some(
                        Fault::Corrupt(
                            "archive `"@ + name
                                + "`: the PERSISTED rows do not re-splice to the original — aborting the ingest before anything commits"@,
                        ),
                    )
                },
            },
        },
    }
}

/// Check, before the ingest commits, that the persisted residual and rows give
/// the original file again.
pub fn check_resplice(name: &str, residual: &[u8], rows: &Vec<(u32, Vec<u8>)>, file: &[u8]) -> (r: Result<()>)
    ensures
        match r {
            Ok(()) => resplice_fault(name@, residual@, rows@, file@) is None,
            Err(e) => resplice_fault(name@, residual@, rows@, file@) == Some(e@),
        },
{
    let payload = match open_envelope(residual) {
        Ok((_, p)) => p,
        Err(e) => {
            return Err(e);
        },
    };
    let f = |no: u32| -> (d: Result<Vec<u8>>)
        ensures
            match stored_data(rows@, no) {
                Some(b) => d is Ok && d->Ok_0@ == b,
                None => d is Err && d->Err_0@ == Fault::Corrupt("member "@ + dec(no as nat) + " not persisted"@),
            },
        { member_data(rows, no) };
    let joined = zip_join(payload, f);
    proof {
        if splice_list(payload@) is Ok {
            let es = splice_list(payload@)->Ok_0;
            lemma_joined(payload@, es, rows@, f, joined);
        }
    }
    match joined {
        Err(e) => Err(e),
        Ok(back) => {
            if same_bytes(back.as_slice(), file) {
                return Ok(());
            }
            Err(
                Error::Corrupt(
                    quoted_in(
                        "archive `",
                        name,
                        "`: the PERSISTED rows do not re-splice to the original — aborting the ingest before anything commits",
                    ),
                ),
            )
        },
    }
}

/// Nothing is wrong with the segments that were supplied.
proof fn lemma_supplied_sound<F: Fn(u32) -> Result<Vec<u8>>>(es: Seq<Segment>, rows: Seq<(u32, Vec<u8>)>, f: F, got: Seq<Vec<u8>>, i: int)
    requires
        forall|no: u32, d: Result<Vec<u8>>| #[trigger]
            call_ensures(f, (no,), d) ==> match stored_data(rows, no) {
                Some(b) => d is Ok && d->Ok_0@ == b,
                None => d is Err && d->Err_0@ == Fault::Corrupt("member "@ + dec(no as nat) + " not persisted"@),
            },
        supplied(f, es, got),
        0 <= i <= got.len(),
    ensures
        member_fault(rows, es, i) == member_fault(rows, es, got.len() as int),
        forall|j: int| i <= j < got.len() ==> stored_data(rows, es[j].0 as u32) == Some((#[trigger] got[j])@),
    decreases got.len() - i,
{
    if i < got.len() {
        assert(call_ensures(f, (es[i].0 as u32,), Ok::<Vec<u8>, Error>(got[i])));
        lemma_supplied_sound(es, rows, f, got, i + 1);
    }
}

proof fn lemma_joined<F: Fn(u32) -> Result<Vec<u8>>>(payload: Seq<u8>, es: Seq<Segment>, rows: Seq<(u32, Vec<u8>)>, f: F, joined: Result<Vec<u8>>)
    requires
        forall|no: u32, d: Result<Vec<u8>>| #[trigger]
            call_ensures(f, (no,), d) ==> match stored_data(rows, no) {
                Some(b) => d is Ok && d->Ok_0@ == b,
                None => d is Err && d->Err_0@ == Fault::Corrupt("member "@ + dec(no as nat) + " not persisted"@),
            },
        match joined {
            Ok(out) => exists|got: Seq<Vec<u8>>| #[trigger]
                supplied(f, es, got) && got.len() == es.len() && out@ == spliced(es, contents(got), gap_bytes(payload), 0),
            Err(e) => exists|got: Seq<Vec<u8>>| #[trigger] join_stops(f, es, got, e),
        },
    ensures
        match joined {
            Ok(out) => member_fault(rows, es, 0) is None && out@ == spliced(es, stored_segments(rows, es), gap_bytes(payload), 0),
            Err(e) => member_fault(rows, es, 0) == Some(e@),
        },
{
    match joined {
        Ok(out) => {
            let got = choose|got: Seq<Vec<u8>>| #[trigger]
                supplied(f, es, got) && got.len() == es.len() && out@ == spliced(es, contents(got), gap_bytes(payload), 0);
            lemma_supplied_sound(es, rows, f, got, 0);
            assert forall|i: int| 0 <= i < es.len() implies contents(got)[i] == stored_segments(rows, es)[i] by {
                assert(stored_data(rows, es[i].0 as u32) == Some(got[i]@));
            }
            assert(contents(got) =~= stored_segments(rows, es));
        },
        Err(e) => {
            let got = choose|got: Seq<Vec<u8>>| #[trigger] join_stops(f, es, got, e);
            let k = got.len() as int;
            lemma_supplied_sound(es, rows, f, got, 0);
            if !call_ensures(f, (es[k].0 as u32,), Err::<Vec<u8>, Error>(e)) {
                let v = choose|v: Vec<u8>|
                    #[trigger] call_ensures(f, (es[k].0 as u32,), Ok::<Vec<u8>, Error>(v)) && v@.len() != es[k].2 && e@ == wrong_length(
                        es[k],
                        v@.len(),
                    );
                assert(stored_data(rows, es[k].0 as u32) == Some(v@));
            }
        },
    }
}

/// The error for a member whose data row is not there.
pub fn member_missing(archive_id: i64, member_no: u32) -> (e: Error)
    ensures
        e@ == Fault::Corrupt(
            "archive "@ + dec_int(archive_id as int) + ": member "@ + dec(member_no as nat)
                + "'s data row is MISSING — the archive cannot be reconstructed"@,
        ),
{
    let mut m = String::from_str("archive ");
    push_dec_int(&mut m, archive_id);
    let rest = numbered(": member ", member_no as u128, "'s data row is MISSING — the archive cannot be reconstructed");
    m.append(rest.as_str());
    proof {
        assert(m@ =~= "archive "@ + dec_int(archive_id as int) + ": member "@ + dec(member_no as nat)
            + "'s data row is MISSING — the archive cannot be reconstructed"@);
    }
    Error::Corrupt(m)
}

/// Put an archive together from its residual and its members' data, and check
/// it against the recorded hash.
pub fn pack_out<F: Fn(u32) -> Result<Vec<u8>>>(archive_id: i64, residual: &[u8], recorded: &str, data_of: F) -> (r: Result<Vec<u8>>)
    requires
        forall|no: u32| call_requires(data_of, (no,)),
    ensures
        match envelope_opened(residual@) {
            Err(f) => r is Err && r->Err_0@ == f,
            Ok((kind, payload)) => if kind != Kind::ZipSpliceV1 {
                r is Err && r->Err_0@ == Fault::Corrupt(
                    "archive "@ + dec_int(archive_id as int) + "'s residual is not zip-splice-v1"@,
                )
            } else {
                match splice_list(payload) {
                    Err(m) => r is Err && r->Err_0@ == Fault::Corrupt("zip-splice-v1: "@ + m),
                    Ok(es) => match r {
                        Ok(out) => content_hash(out@) == recorded@ && exists|got: Seq<Vec<u8>>| #[trigger]
                            supplied(data_of, es, got) && got.len() == es.len() && out@ == spliced(es, contents(got), gap_bytes(payload), 0),
                        Err(e) => (exists|got: Seq<Vec<u8>>| #[trigger] join_stops(data_of, es, got, e)) || ((exists|got: Seq<Vec<u8>>|
                            #[trigger]
                            supplied(data_of, es, got) && got.len() == es.len() && content_hash(
                                spliced(es, contents(got), gap_bytes(payload), 0),
                            ) != recorded@) && e@ == Fault::Corrupt(
                            "archive "@ + dec_int(archive_id as int)
                                + " reconstructs to the WRONG bytes — a member or the residual changed outside the pipeline; refusing to hand back a fake"@,
                        )),
                    },
                }
            },
        },
{
    let payload = match open_envelope(residual) {
        Err(e) => {
            return Err(e);
        },
        Ok((kind, p)) => {
            if kind != Kind::ZipSpliceV1 {
                let mut m = String::from_str("archive ");
                push_dec_int(&mut m, archive_id);
                m.append("'s residual is not zip-splice-v1");
                return Err(Error::Corrupt(m));
            }
            p
        },
    };
    let file = match zip_join(payload, data_of) {
        Ok(f) => f,
        Err(e) => {
            return Err(e);
        },
    };
    let got = hash_hex(file.as_slice());
    if !same_text(got.as_str(), recorded) {
        let mut m = String::from_str("archive ");
        push_dec_int(&mut m, archive_id);
        m.append(
            " reconstructs to the WRONG bytes — a member or the residual changed outside the pipeline; refusing to hand back a fake",
        );
        return Err(Error::Corrupt(m));
    }
    Ok(file)
}

/// A lineage row of the engine's own transforms, which have no functions to
/// hash: the name of the transform stands for them.
pub fn builtin_lineage(
    run_id: i64,
    lens: &str,
    obj: &str,
    table: &'static str,
    content: &str,
    rows: i64,
    outcome: &'static str,
    error: String,
) -> (r: LineageRow)
    ensures
        r.run_id == run_id,
        r.lens@ == lens@ && r.forward_hash@ == lens@ && r.inverse_hash@ == lens@,
        r.rex_hash@.len() == 0 && r.residual_hash@.len() == 0,
        r.table@ == table@ && r.column@ == obj@,
        r.source_hash@ == content@ && r.output_hash@ == content@,
        r.rows == rows && r.outcome@ == outcome@ && r.error@ == error@,
{
    LineageRow {
        run_id,
        lens: lens.to_owned(),
        forward_hash: lens.to_owned(),
        rex_hash: String::new(),
        inverse_hash: lens.to_owned(),
        table: table.to_owned(),
        column: obj.to_owned(),
        source_hash: content.to_owned(),
        output_hash: content.to_owned(),
        residual_hash: String::new(),
        rows,
        outcome,
        error,
    }
}

/// The finding on a version that does not materialise.
pub fn version_finding(obj: &str, ver: i64, e: &Error) -> (m: String)
    ensures
        m@ == "version "@ + dec_int(ver as int) + " of `"@ + obj@ + "`: "@ + crate::error::fault_text(e@),
{
    let mut m = String::from_str("version ");
    push_dec_int(&mut m, ver);
    m.append(" of `");
    m.append(obj);
    m.append("`: ");
    let t = e.message();
    m.append(t.as_str());
    m
}

/// The finding on an archive that does not go together.
pub fn archive_finding(id: i64, e: &Error) -> (m: String)
    ensures
        m@ == "archive "@ + dec_int(id as int) + ": "@ + crate::error::fault_text(e@),
{
    let mut m = String::from_str("archive ");
    push_dec_int(&mut m, id);
    m.append(": ");
    let t = e.message();
    m.append(t.as_str());
    m
}

// ---------------------------------------------------------------- laws

proof fn lemma_stored_member(rows: Seq<(u32, Vec<u8>)>, n: int, i: int)
    requires
        0 <= i < n <= rows.len(),
        forall|k: int| 0 <= k < rows.len() ==> (#[trigger] rows[k]).0 == k,
    ensures
        stored_data(rows.take(n), i as u32) == Some(rows[i].1@),
    decreases n,
{
    let r = rows.take(n);
    assert(r.last() == rows[n - 1]);
    assert(rows[n - 1].0 == n - 1);
    if i < n - 1 {
        assert(r.drop_last() =~= rows.take(n - 1));
        lemma_stored_member(rows, n - 1, i);
    }
}

/// Taking an archive apart and putting the stored rows together gives the
/// archive back byte for byte.
pub proof fn law_pack_round_trip(name: Seq<char>, file: Seq<u8>, members: Seq<MemberRow>, rows: Seq<(u32, Vec<u8>)>)
    requires
        zip_split_result(file) is Ok,
        file.len() <= MAX_PAYLOAD,
        zip_split_result(file)->Ok_0.1.len() <= MAX_PAYLOAD,
        rows_of_members(file, zip_split_result(file)->Ok_0.0, members),
        rows.len() == members.len(),
        forall|i: int| 0 <= i < rows.len() ==> (#[trigger] rows[i]).0 == members[i].member_no && rows[i].1@ == members[i].data@,
    ensures
        ({
            let (ms, payload) = zip_split_result(file)->Ok_0;
            let es = segments(ms);
            &&& resplice_fault(name, sealed(Kind::ZipSpliceV1, payload), rows, file) is None
            &&& envelope_opened(sealed(Kind::ZipSpliceV1, payload)) == Ok::<(Kind, Seq<u8>), Fault>((Kind::ZipSpliceV1, payload))
            &&& splice_list(payload) == Ok::<Seq<Segment>, Seq<char>>(es)
            &&& member_fault(rows, es, 0) is None
            &&& spliced(es, stored_segments(rows, es), gap_bytes(payload), 0) == file
        }),
{
    let (ms, payload) = zip_split_result(file)->Ok_0;
    let es = segments(ms);
    let data = Seq::new(es.len(), |i: int| file.subrange(es[i].1 as int, (es[i].1 + es[i].2) as int));
    law_envelope_round_trip(Kind::ZipSpliceV1, payload);
    assert(cut_out(file, es, data));
    law_zip_round_trip(file, data);
    crate::retl_codec::lemma_split_ok(file);
    assert forall|k: int| 0 <= k < rows.len() implies (#[trigger] rows[k]).0 == k by {
        assert(row_of_member(file, ms[k], members[k]));
        assert(ms[k].member_no == k);
    }
    assert(rows.take(rows.len() as int) =~= rows);
    assert forall|i: int| 0 <= i < es.len() implies stored_data(rows, es[i].0 as u32) == Some(#[trigger] data[i]) && data[i].len() == es[i].2 by {
        let no = es[i].0 as int;
        assert(es[i] == crate::retl_codec::segment_of(ms[no]));
        lemma_stored_member(rows, rows.len() as int, no);
        assert(row_of_member(file, ms[no], members[no]));
        assert(ms[no].offset + ms[no].len <= file.len());
    }
    assert(stored_segments(rows, es) =~= data);
    assert forall|j: int| 0 <= j < es.len() implies stored_data(rows, (#[trigger] es[j]).0 as u32) is Some && stored_data(
        rows,
        es[j].0 as u32,
    )->Some_0.len() == es[j].2 by {
        assert(stored_data(rows, es[j].0 as u32) == Some(data[j]));
    }
    lemma_all_stored(rows, es, 0);
}

proof fn lemma_all_stored(rows: Seq<(u32, Vec<u8>)>, es: Seq<Segment>, i: int)
    requires
        0 <= i <= es.len(),
        forall|j: int| 0 <= j < es.len() ==> stored_data(rows, (#[trigger] es[j]).0 as u32) is Some && stored_data(
            rows,
            es[j].0 as u32,
        )->Some_0.len() == es[j].2,
    ensures
        member_fault(rows, es, i) is None,
    decreases es.len() - i,
{
    if i < es.len() {
        lemma_all_stored(rows, es, i + 1);
    }
}

/// The listing of an archive has everything from its own column.
pub proof fn law_archive_is_its_row(r: Seq<Value>)
    requires
        r.len() >= 4,
    ensures
        archive_of(r) is Ok <==> r[0].model() is Int && r[3].model() is Int,
        archive_of(r) matches Ok(a) ==> {
            &&& r[0].model() == crate::value::ValueModel::Int(a.archive_id)
            &&& r[1].model() is Text ==> r[1].model() == crate::value::ValueModel::Text(a.name)
            &&& r[2].model() is Text ==> r[2].model() == crate::value::ValueModel::Text(a.content_hash)
            &&& r[3].model() == crate::value::ValueModel::Int(a.members)
        },
{
}

/// A member's data are what is stored under its number, and are there exactly
/// where something is.
pub proof fn law_member_found(rows: Seq<(u32, Vec<u8>)>, no: u32)
    ensures
        match stored_data(rows, no) {
            Some(d) => exists|i: int|
                0 <= i < rows.len() && (#[trigger] rows[i]).0 == no && rows[i].1@ == d && forall|j: int| i < j < rows.len() ==> (#[trigger] rows[j]).0 != no,
            None => forall|i: int| 0 <= i < rows.len() ==> (#[trigger] rows[i]).0 != no,
        },
    decreases rows.len(),
{
    if rows.len() > 0 {
        let before = rows.drop_last();
        law_member_found(before, no);
        if rows.last().0 == no {
            assert(rows[rows.len() - 1].0 == no);
        } else {
            match stored_data(before, no) {
                Some(d) => {
                    let i = choose|i: int|
                        0 <= i < before.len() && (#[trigger] before[i]).0 == no && before[i].1@ == d && forall|j: int|
                            i < j < before.len() ==> (#[trigger] before[j]).0 != no;
                    assert(rows[i] == before[i]);
                    assert forall|j: int| i < j < rows.len() implies (#[trigger] rows[j]).0 != no by {
                        if j < before.len() {
                            assert(rows[j] == before[j]);
                        }
                    }
                },
                None => {
                    assert forall|i: int| 0 <= i < rows.len() implies (#[trigger] rows[i]).0 != no by {
                        if i < before.len() {
                            assert(rows[i] == before[i]);
                        }
                    }
                },
            }
        }
    }
}

proof fn lemma_members_complete(rows: Seq<(u32, Vec<u8>)>, es: Seq<Segment>, from: int)
    requires
        0 <= from <= es.len(),
    ensures
        member_fault(rows, es, from) is None <==> forall|i: int|
            from <= i < es.len() ==> stored_data(rows, (#[trigger] es[i]).0 as u32) is Some && stored_data(rows, es[i].0 as u32)->Some_0.len()
                == es[i].2,
    decreases es.len() - from,
{
    if from < es.len() {
        lemma_members_complete(rows, es, from + 1);
    }
}

/// An archive is taken in exactly where what was stored gives it back: every
/// member is there in its length, and spliced together with the rest they are
/// the file, byte for byte.
pub proof fn law_archive_is_taken_only_if_given_back(name: Seq<char>, residual: Seq<u8>, rows: Seq<(u32, Vec<u8>)>, file: Seq<u8>)
    ensures
        resplice_fault(name, residual, rows, file) is None <==> {
            &&& envelope_opened(residual) is Ok
            &&& splice_list(envelope_opened(residual)->Ok_0.1) is Ok
            &&& ({
                let payload = envelope_opened(residual)->Ok_0.1;
                let es = splice_list(payload)->Ok_0;
                &&& forall|i: int|
                    0 <= i < es.len() ==> stored_data(rows, (#[trigger] es[i]).0 as u32) is Some && stored_data(rows, es[i].0 as u32)->Some_0.len()
                        == es[i].2
                &&& spliced(es, stored_segments(rows, es), gap_bytes(payload), 0) == file
            })
        },
{
    if envelope_opened(residual) is Ok && splice_list(envelope_opened(residual)->Ok_0.1) is Ok {
        lemma_members_complete(rows, splice_list(envelope_opened(residual)->Ok_0.1)->Ok_0, 0);
    }
}

} // verus!
