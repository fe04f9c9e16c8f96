//! The zip splicer: cut an archive into its members' data segments and a
//! residual that, with those segments, puts the file together again.

use vstd::prelude::*;
use vstd::string::StringExecFns;
use vstd::slice::slice_subrange;
use crate::bytes::{get_le, le_bytes, le_value, lemma_le_bytes_of_value, lemma_pow256_values, put_bytes, put_le};
use crate::error::{Error, Fault, Result};
use crate::sort::{is_sorting, ranks, sorted_order, sorting};
use crate::text::{dec, numbered, push_dec};

verus! {

/// One member located by the parser: `member_no` is its place in the central
/// directory, `offset` and `len` locate its data in the original file. `name`
/// is the raw name, for display only.
#[derive(Debug, Clone)]
pub struct SpliceMember {
    pub member_no: u32,
    pub offset: u64,
    pub len: u64,
    pub name: Vec<u8>,
    pub method: u16,
}

/// The members, and the residual payload that reconstructs the original
/// together with the members' data.
#[derive(Debug)]
pub struct SpliceParts {
    pub members: Vec<SpliceMember>,
    pub residual_payload: Vec<u8>,
}

/// The view of a [`SpliceMember`].
pub struct MemberView {
    pub member_no: nat,
    pub offset: nat,
    pub len: nat,
    pub name: Seq<u8>,
    pub method: nat,
}

impl View for SpliceMember {
    type V = MemberView;

    open spec fn view(&self) -> MemberView {
        MemberView {
            member_no: self.member_no as nat,
            offset: self.offset as nat,
            len: self.len as nat,
            name: self.name@,
            method: self.method as nat,
        }
    }
}

/// The views of a list of members.
pub open spec fn member_views(ms: Seq<SpliceMember>) -> Seq<MemberView> {
    ms.map_values(|m: SpliceMember| m@)
}

// ------------------------------------------------------ reading an archive

/// The 16-bit number at `at`.
pub open spec fn u16_at(b: Seq<u8>, at: int) -> nat {
    le_value(b.subrange(at, at + 2))
}

/// The 32-bit number at `at`.
pub open spec fn u32_at(b: Seq<u8>, at: int) -> nat {
    le_value(b.subrange(at, at + 4))
}

/// `PK` and two more bytes stand at `at`.
pub open spec fn signature(b: Seq<u8>, at: int, x: u8, y: u8) -> bool {
    &&& at + 4 <= b.len()
    &&& b[at] == 0x50
    &&& b[at + 1] == 0x4b
    &&& b[at + 2] == x
    &&& b[at + 3] == y
}

/// An end record stands at `p`, and its comment ends with the file.
pub open spec fn end_record_at(file: Seq<u8>, p: int) -> bool {
    &&& p + 22 <= file.len()
    &&& signature(file, p, 5, 6)
    &&& p + 22 + u16_at(file, p + 20) == file.len()
}

/// The last end record at or before `p`.
pub open spec fn last_end_record(file: Seq<u8>, p: int) -> Option<int>
    decreases p + 1,
{
    if p < 0 {
        None
    } else if end_record_at(file, p) {
        Some(p)
    } else {
        last_end_record(file, p - 1)
    }
}

pub open spec fn past_end() -> Fault {
    Fault::Corrupt("zip: read past end"@)
}

/// Bit `2^k` of a flag word, given as its weight.
pub open spec fn has_flag(flags: nat, weight: nat) -> bool {
    (flags / weight) % 2 == 1
}

/// The central-directory entry at `cur` as member `no`, with recorded offsets
/// shifted by `base`, and the position behind the entry. The data starts
/// where the local header says it does; its length is the directory's.
pub open spec fn read_member(file: Seq<u8>, base: int, cur: int, no: nat) -> std::result::Result<
    (MemberView, int),
    Fault,
> {
    if !signature(file, cur, 1, 2) {
        Err(Fault::Corrupt("zip: central-directory entry "@ + dec(no) + " has no signature"@))
    } else if cur + 10 > file.len() {
        Err(past_end())
    } else if has_flag(u16_at(file, cur + 8), 0x2000) {
        Err(
            Fault::Unsupported(
                "zip: member "@ + dec(no)
                    + " has a masked (central-directory-encrypted) local header — its sizes are unknowable, refused"@,
            ),
        )
    } else if has_flag(u16_at(file, cur + 8), 0x40) {
        Err(Fault::Unsupported("zip: member "@ + dec(no) + " uses strong encryption — refused"@))
    } else if cur + 46 > file.len() {
        Err(past_end())
    } else if u16_at(file, cur + 34) != 0 {
        Err(Fault::Unsupported("zip: member "@ + dec(no) + " starts on another disk — refused"@))
    } else if u32_at(file, cur + 20) == 0xFFFF_FFFF || u32_at(file, cur + 24) == 0xFFFF_FFFF
        || u32_at(file, cur + 42) == 0xFFFF_FFFF {
        Err(
            Fault::Unsupported(
                "zip: member "@ + dec(no) + " carries a zip64 sentinel — zip64 is refused"@,
            ),
        )
    } else if cur + 46 + u16_at(file, cur + 28) > file.len() {
        Err(Fault::Corrupt("zip: central directory truncated"@))
    } else {
        let lfh = base + u32_at(file, cur + 42);
        let comp_size = u32_at(file, cur + 20);
        if !signature(file, lfh, 3, 4) {
            Err(
                Fault::Unsupported(
                    "zip: member "@ + dec(no)
                        + "'s local header is not where the central directory claims (offset "@
                        + dec(lfh as nat) + ") — refused rather than guessed"@,
                ),
            )
        } else if lfh + 30 > file.len() {
            Err(past_end())
        } else {
            let start = lfh + 30 + u16_at(file, lfh + 26) + u16_at(file, lfh + 28);
            if start + comp_size > u64::MAX {
                Err(Fault::Corrupt("zip: data segment overflows"@))
            } else if start + comp_size > file.len() {
                Err(
                    Fault::Unsupported(
                        "zip: member "@ + dec(no) + "'s data segment ("@ + dec(start as nat) + "+"@
                            + dec(comp_size) + ") reaches past the end of the file — refused"@,
                    ),
                )
            } else {
                Ok(
                    (
                        MemberView {
                            member_no: no,
                            offset: start as nat,
                            len: comp_size,
                            name: file.subrange(cur + 46, cur + 46 + u16_at(file, cur + 28)),
                            method: u16_at(file, cur + 10),
                        },
                        cur + 46 + u16_at(file, cur + 28) + u16_at(file, cur + 30) + u16_at(
                            file,
                            cur + 32,
                        ),
                    ),
                )
            }
        }
    }
}

/// The members `no` up to `total`, whose entries start at `cur`.
pub open spec fn read_members(
    file: Seq<u8>,
    base: int,
    cur: int,
    no: nat,
    total: nat,
) -> std::result::Result<Seq<MemberView>, Fault>
    decreases total - no,
{
    if no >= total {
        Ok(Seq::empty())
    } else {
        match read_member(file, base, cur, no) {
            Err(f) => Err(f),
            Ok((m, next)) => match read_members(file, base, next, no + 1, total) {
                Err(f) => Err(f),
                Ok(rest) => Ok(seq![m] + rest),
            },
        }
    }
}

// ------------------------------------------------------ the splice list

/// A data segment: member number, offset, length.
pub type Segment = (nat, nat, nat);

pub open spec fn segment_of(m: MemberView) -> Segment {
    (m.member_no, m.offset, m.len)
}

/// The members' segments by ascending offset, equal offsets in directory order.
pub open spec fn segments(ms: Seq<MemberView>) -> Seq<Segment> {
    let order = sorting::<u64>(offsets(ms));
    Seq::new(order.len(), |i: int| segment_of(ms[order[i] as int]))
}

pub open spec fn offsets(ms: Seq<MemberView>) -> Seq<u64> {
    ms.map_values(|m: MemberView| m.offset as u64)
}

/// The first segment from `k` on that reaches into its successor.
pub open spec fn first_overlap(es: Seq<Segment>, k: int) -> Option<int>
    decreases es.len() - k,
{
    if k + 1 >= es.len() {
        None
    } else if es[k].1 + es[k].2 > es[k + 1].1 {
        Some(k)
    } else {
        first_overlap(es, k + 1)
    }
}

/// The first segment from `k` on that meets the range from `lo` up to `hi`.
pub open spec fn first_meeting(es: Seq<Segment>, lo: nat, hi: nat, k: int) -> Option<int>
    decreases es.len() - k,
{
    if k >= es.len() {
        None
    } else if es[k].1 < hi && es[k].1 + es[k].2 > lo {
        Some(k)
    } else {
        first_meeting(es, lo, hi, k + 1)
    }
}

/// One entry of the splice list.
pub open spec fn segment_bytes(e: Segment) -> Seq<u8> {
    le_bytes(e.0, 4) + le_bytes(e.1, 8) + le_bytes(e.2, 8)
}

pub open spec fn segments_bytes(es: Seq<Segment>) -> Seq<u8>
    decreases es.len(),
{
    if es.len() == 0 {
        Seq::empty()
    } else {
        segment_bytes(es[0]) + segments_bytes(es.drop_first())
    }
}

/// The bytes of `file` from `cursor` on that lie in no segment.
pub open spec fn gaps(file: Seq<u8>, es: Seq<Segment>, cursor: int) -> Seq<u8>
    decreases es.len(),
{
    if es.len() == 0 {
        file.skip(cursor)
    } else {
        file.subrange(cursor, es[0].1 as int) + gaps(
            file,
            es.drop_first(),
            (es[0].1 + es[0].2) as int,
        )
    }
}

/// The residual: the file's length, the splice list, the gap bytes.
pub open spec fn residual(file: Seq<u8>, es: Seq<Segment>) -> Seq<u8> {
    le_bytes(file.len(), 8) + le_bytes(es.len(), 4) + segments_bytes(es) + gaps(file, es, 0)
}

/// What splitting an archive gives: its members in directory order and the
/// residual, or the named reason why the archive is refused.
pub open spec fn zip_split_result(file: Seq<u8>) -> std::result::Result<
    (Seq<MemberView>, Seq<u8>),
    Fault,
> {
    if file.len() < 22 {
        Err(Fault::Unsupported("zip: too small to hold an end record"@))
    } else {
        match last_end_record(file, file.len() - 22) {
            None => Err(
                Fault::Unsupported("zip: no end-of-central-directory record — not a zip archive"@),
            ),
            Some(eocd) => {
                let total = u16_at(file, eocd + 10);
                let cd_size = u32_at(file, eocd + 12);
                let cd_offset = u32_at(file, eocd + 16);
                if u16_at(file, eocd + 4) != 0 || u16_at(file, eocd + 6) != 0 || u16_at(
                    file,
                    eocd + 8,
                ) != total {
                    Err(
                        Fault::Unsupported(
                            "zip: multi-disk archive — spanned archives are refused"@,
                        ),
                    )
                } else if total == 0xFFFF || cd_size == 0xFFFF_FFFF || cd_offset == 0xFFFF_FFFF {
                    Err(
                        Fault::Unsupported(
                            "zip: zip64 sentinel in the end record — zip64 is refused (a missing zip64 record would mean a WRONG cut length, never a slightly-off one)"@,
                        ),
                    )
                } else if cd_size > eocd {
                    Err(Fault::Corrupt("zip: central directory larger than the file"@))
                } else if cd_offset > eocd - cd_size {
                    Err(
                        Fault::Unsupported(
                            "zip: central-directory offset is inconsistent with its position — unresolvable offsets are refused"@,
                        ),
                    )
                } else {
                    split_at_directory(file, eocd - cd_size, cd_size, cd_offset, total)
                }
            },
        }
    }
}

/// Splitting, once the directory's place, size, recorded offset and entry
/// count are known.
pub open spec fn split_at_directory(
    file: Seq<u8>,
    cd_pos: int,
    cd_size: nat,
    cd_offset: nat,
    total: nat,
) -> std::result::Result<(Seq<MemberView>, Seq<u8>), Fault> {
    match read_members(file, cd_pos - cd_offset, cd_pos, 0, total) {
        Err(f) => Err(f),
        Ok(ms) => {
            let es = segments(ms);
            match first_overlap(es, 0) {
                Some(k) => Err(
                    Fault::Unsupported(
                        "zip: members "@ + dec(es[k].0) + " and "@ + dec(es[k + 1].0)
                            + " claim OVERLAPPING data segments (the zip-bomb shape) — cut-and-resplice would be ambiguous, refused"@,
                    ),
                ),
                None => match first_meeting(es, cd_pos as nat, (cd_pos + cd_size) as nat, 0) {
                    Some(k) => Err(
                        Fault::Unsupported(
                            "zip: member "@ + dec(es[k].0)
                                + "'s data segment overlaps the central directory — refused"@,
                        ),
                    ),
                    None => Ok((ms, residual(file, es))),
                },
            }
        },
    }
}

// ------------------------------------------------------ executable split

fn rd_u16(b: &[u8], at: u128) -> (r: Result<u16>)
    requires
        at <= u64::MAX + 0x1_0000_0000,
    ensures
        match r {
            Ok(v) => at + 2 <= b@.len() && v == u16_at(b@, at as int),
            Err(e) => at + 2 > b@.len() && e@ == past_end(),
        },
{
    if at + 2 > b.len() as u128 {
        return Err(Error::Corrupt(String::from_str("zip: read past end")));
    }
    let v: u64 = get_le(b, at as usize, 2);
    proof {
        lemma_pow256_values();
        lemma_le_bytes_of_value(b@.subrange(at as int, at + 2));
    }
    Ok(v as u16)
}

fn rd_u32(b: &[u8], at: u128) -> (r: Result<u32>)
    requires
        at <= u64::MAX + 0x1_0000_0000,
    ensures
        match r {
            Ok(v) => at + 4 <= b@.len() && v == u32_at(b@, at as int),
            Err(e) => at + 4 > b@.len() && e@ == past_end(),
        },
{
    if at + 4 > b.len() as u128 {
        return Err(Error::Corrupt(String::from_str("zip: read past end")));
    }
    let v: u64 = get_le(b, at as usize, 4);
    proof {
        lemma_pow256_values();
        lemma_le_bytes_of_value(b@.subrange(at as int, at + 4));
    }
    Ok(v as u32)
}

fn has_signature(b: &[u8], at: u128, x: u8, y: u8) -> (r: bool)
    requires
        at <= u64::MAX + 0x1_0000_0000,
    ensures
        r == signature(b@, at as int, x, y),
{
    if at + 4 > b.len() as u128 {
        return false;
    }
    let p: usize = at as usize;
    b[p] == 0x50 && b[p + 1] == 0x4b && b[p + 2] == x && b[p + 3] == y
}

/// The last end record of the file, searched no further back than the
/// longest comment reaches.
fn find_end_record(file: &[u8]) -> (r: Option<usize>)
    requires
        file@.len() >= 22,
    ensures
        match r {
            Some(p) => last_end_record(file@, file@.len() - 22) == Some(p as int) && end_record_at(file@, p as int),
            None => last_end_record(file@, file@.len() - 22) is None,
        },
{
    let top: usize = file.len() - 22;
    let low: usize = if top >= 65_535 { top - 65_535 } else { 0 };
    let mut left: usize = top - low + 1;
    while left > 0
        invariant
            22 <= file@.len() <= usize::MAX,
            top == file@.len() - 22,
            low == (if top >= 65_535 { top - 65_535 } else { 0 }),
            left <= top - low + 1,
            last_end_record(file@, top as int) == last_end_record(file@, low + left - 1),
        decreases left,
    {
        let p: usize = low + (left - 1);
        if has_signature(file, p as u128, 5, 6) {
            let comment: u64 = get_le(file, p + 20, 2);
            if (file.len() - p - 22) as u64 == comment {
                return Some(p);
            }
        }
        left -= 1;
    }
    proof {
        lemma_no_end_record_below(file@, low as int - 1);
    }
    None
}

proof fn lemma_no_end_record_below(file: Seq<u8>, p: int)
    requires
        p < 0 || p + 22 + 65_535 < file.len(),
    ensures
        last_end_record(file, p) is None,
    decreases p + 1,
{
    if p >= 0 {
        lemma_pow256_values();
        lemma_le_bytes_of_value(file.subrange(p + 20, p + 22));
        lemma_no_end_record_below(file, p - 1);
    }
}

fn member_message(no: u32, rest: &str) -> (m: String)
    ensures
        m@ == "zip: member "@ + dec(no as nat) + rest@,
{
    numbered("zip: member ", no as u128, rest)
}

fn parse_member(file: &[u8], base: u64, cur: u128, no: u32) -> (r: Result<(SpliceMember, u128)>)
    requires
        base <= file@.len(),
        cur <= u64::MAX + 0x1_0000_0000,
    ensures
        match r {
            Ok((m, next)) => read_member(file@, base as int, cur as int, no as nat) == Ok::<
                (MemberView, int),
                Fault,
            >((m@, next as int)),
            Err(e) => read_member(file@, base as int, cur as int, no as nat) == Err::<
                (MemberView, int),
                Fault,
            >(e@),
        },
{
    let file_len: u128 = file.len() as u128;
    if !has_signature(file, cur, 1, 2) {
        return Err(
            Error::Corrupt(
                numbered("zip: central-directory entry ", no as u128, " has no signature"),
            ),
        );
    }
    let flags: u16 = rd_u16(file, cur + 8)?;
    if (flags / 0x2000) % 2 == 1 {
        return Err(
            Error::Unsupported(
                member_message(
                    no,
                    " has a masked (central-directory-encrypted) local header — its sizes are unknowable, refused",
                ),
            ),
        );
    }
    if (flags / 0x40) % 2 == 1 {
        return Err(
            Error::Unsupported(member_message(no, " uses strong encryption — refused")),
        );
    }
    let method: u16 = rd_u16(file, cur + 10)?;
    let comp_size: u32 = rd_u32(file, cur + 20)?;
    let uncomp_size: u32 = rd_u32(file, cur + 24)?;
    let name_len: u16 = rd_u16(file, cur + 28)?;
    let extra_len: u16 = rd_u16(file, cur + 30)?;
    let comment_len: u16 = rd_u16(file, cur + 32)?;
    let disk_start: u16 = rd_u16(file, cur + 34)?;
    let lfh_off: u32 = rd_u32(file, cur + 42)?;
    if disk_start != 0 {
        return Err(Error::Unsupported(member_message(no, " starts on another disk — refused")));
    }
    if comp_size == 0xFFFF_FFFF || uncomp_size == 0xFFFF_FFFF || lfh_off == 0xFFFF_FFFF {
        return Err(
            Error::Unsupported(
                member_message(no, " carries a zip64 sentinel — zip64 is refused"),
            ),
        );
    }
    let name_end: u128 = cur + 46 + name_len as u128;
    if name_end > file_len {
        return Err(Error::Corrupt(String::from_str("zip: central directory truncated")));
    }
    let mut name: Vec<u8> = Vec::new();
    put_bytes(&mut name, slice_subrange(file, cur as usize + 46, name_end as usize));

    let lfh: u128 = base as u128 + lfh_off as u128;
    if !has_signature(file, lfh, 3, 4) {
        let mut m = member_message(
            no,
            "'s local header is not where the central directory claims (offset ",
        );
        push_dec(&mut m, lfh);
        m.append(") — refused rather than guessed");
        return Err(Error::Unsupported(m));
    }
    let l_name: u16 = rd_u16(file, lfh + 26)?;
    let l_extra: u16 = rd_u16(file, lfh + 28)?;
    let start: u128 = lfh + 30 + l_name as u128 + l_extra as u128;
    let end: u128 = start + comp_size as u128;
    if end > 0xFFFF_FFFF_FFFF_FFFF {
        return Err(Error::Corrupt(String::from_str("zip: data segment overflows")));
    }
    if end > file_len {
        let mut m = member_message(no, "'s data segment (");
        push_dec(&mut m, start);
        m.append("+");
        push_dec(&mut m, comp_size as u128);
        m.append(") reaches past the end of the file — refused");
        return Err(Error::Unsupported(m));
    }
    let next: u128 = name_end + extra_len as u128 + comment_len as u128;
    let m = SpliceMember { member_no: no, offset: start as u64, len: comp_size as u64, name, method };
    proof {
        assert(m.name@ =~= file@.subrange(cur + 46, cur + 46 + name_len));
    }
    Ok((m, next))
}

fn parse_members(file: &[u8], base: u64, cd_pos: u64, total: u16) -> (r: Result<Vec<SpliceMember>>)
    requires
        base <= cd_pos <= file@.len(),
    ensures
        match r {
            Ok(ms) => read_members(file@, base as int, cd_pos as int, 0, total as nat) == Ok::<
                Seq<MemberView>,
                Fault,
            >(member_views(ms@)) && ms@.len() == total,
            Err(e) => read_members(file@, base as int, cd_pos as int, 0, total as nat) == Err::<
                Seq<MemberView>,
                Fault,
            >(e@),
        },
{
    let mut members: Vec<SpliceMember> = Vec::with_capacity(total as usize);
    let mut cur: u128 = cd_pos as u128;
    let mut no: u32 = 0;
    let ghost whole = read_members(file@, base as int, cd_pos as int, 0, total as nat);
    proof {
        assert(file.len() <= u64::MAX);
        assert forall|rest: Seq<MemberView>| #[trigger] (member_views(members@) + rest) == rest by {
            assert(member_views(members@) + rest =~= rest);
        }
    }
    while no < total as u32
        invariant
            base <= cd_pos <= file@.len() <= u64::MAX,
            no <= total,
            members@.len() == no,
            cur <= u64::MAX + 0x1_0000_0000,
            whole == read_members(file@, base as int, cd_pos as int, 0, total as nat),
            whole == (match read_members(file@, base as int, cur as int, no as nat, total as nat) {
                Err(f) => Err::<Seq<MemberView>, Fault>(f),
                Ok(rest) => Ok(member_views(members@) + rest),
            }),
        decreases total - no,
    {
        let ghost done = members@;
        match parse_member(file, base, cur, no) {
            Err(e) => {
                return Err(e);
            },
            Ok((m, next)) => {
                proof {
                    lemma_next_entry(file@, base as int, cur as int, no as nat);
                    match read_members(file@, base as int, next as int, (no + 1) as nat, total as nat) {
                        Ok(rest) => {
                            assert(member_views(done) + (seq![m@] + rest) =~= member_views(done.push(m)) + rest);
                        },
                        Err(_) => {},
                    }
                }
                members.push(m);
                cur = next;
                no += 1;
            },
        }
    }
    proof {
        assert(member_views(members@) + Seq::<MemberView>::empty() =~= member_views(members@));
    }
    Ok(members)
}

proof fn lemma_next_entry(file: Seq<u8>, base: int, cur: int, no: nat)
    requires
        0 <= base,
        0 <= cur,
        file.len() <= u64::MAX,
        read_member(file, base, cur, no) is Ok,
    ensures
        0 <= read_member(file, base, cur, no)->Ok_0.1 <= u64::MAX + 0x1_0000_0000,
        read_member(file, base, cur, no)->Ok_0.0.offset + read_member(file, base, cur, no)->Ok_0.0.len <= file.len(),
        read_member(file, base, cur, no)->Ok_0.0.member_no == no,
{
    lemma_pow256_values();
    lemma_le_bytes_of_value(file.subrange(cur + 30, cur + 32));
    lemma_le_bytes_of_value(file.subrange(cur + 32, cur + 34));
}

/// The members read lie inside the file and are numbered in order.
pub proof fn lemma_members(file: Seq<u8>, base: int, cur: int, no: nat, total: nat)
    requires
        0 <= base,
        0 <= cur,
        file.len() <= u64::MAX,
        no <= total,
        read_members(file, base, cur, no, total) is Ok,
    ensures
        ({
            let ms = read_members(file, base, cur, no, total)->Ok_0;
            &&& ms.len() == total - no
            &&& forall|i: int| 0 <= i < ms.len() ==> (#[trigger] ms[i]).member_no == no + i && ms[i].offset + ms[i].len <= file.len()
        }),
    decreases total - no,
{
    if no < total {
        lemma_next_entry(file, base, cur, no);
        let (m, next) = read_member(file, base, cur, no)->Ok_0;
        lemma_members(file, base, next, no + 1, total);
        let rest = read_members(file, base, next, no + 1, total)->Ok_0;
        let ms = read_members(file, base, cur, no, total)->Ok_0;
        assert forall|i: int| 0 <= i < ms.len() implies (#[trigger] ms[i]).member_no == no + i && ms[i].offset + ms[i].len <= file.len() by {
            if i > 0 {
                assert(ms[i] == rest[i - 1]);
            }
        }
    }
}

pub open spec fn fit_in(es: Seq<Segment>, file_len: nat) -> bool {
    forall|i: int| 0 <= i < es.len() ==> (#[trigger] es[i]).1 + es[i].2 <= file_len && es[i].0 <= u32::MAX
}

pub open spec fn disjoint(es: Seq<Segment>) -> bool {
    forall|i: int| 0 <= i && i + 1 < es.len() ==> (#[trigger] es[i]).1 + es[i].2 <= es[i + 1].1
}

proof fn lemma_first_overlap_none(es: Seq<Segment>, k: int, i: int)
    requires
        0 <= k <= i,
        i + 1 < es.len(),
        first_overlap(es, k) is None,
    ensures
        es[i].1 + es[i].2 <= es[i + 1].1,
    decreases i - k,
{
    if k < i {
        lemma_first_overlap_none(es, k + 1, i);
    }
}

pub proof fn lemma_no_overlap_disjoint(es: Seq<Segment>)
    requires
        first_overlap(es, 0) is None,
    ensures
        disjoint(es),
{
    assert forall|i: int| 0 <= i && i + 1 < es.len() implies (#[trigger] es[i]).1 + es[i].2 <= es[i + 1].1 by {
        lemma_first_overlap_none(es, 0, i);
    }
}

fn check_disjoint(segs: &Vec<(u32, u64, u64)>, es: Ghost<Seq<Segment>>) -> (r: Result<()>)
    requires
        segs@.len() == es@.len(),
        forall|i: int| 0 <= i < segs@.len() ==> es@[i] == (segs@[i].0 as nat, segs@[i].1 as nat, segs@[i].2 as nat),
    ensures
        match first_overlap(es@, 0) {
            None => r is Ok,
            Some(k) => r is Err && r->Err_0@ == Fault::Unsupported(
                "zip: members "@ + dec(es@[k].0) + " and "@ + dec(es@[k + 1].0)
                    + " claim OVERLAPPING data segments (the zip-bomb shape) — cut-and-resplice would be ambiguous, refused"@,
            ),
        },
{
    let n: usize = segs.len();
    let mut k: usize = 0;
    while k < n && k + 1 < n
        invariant
            k <= n,
            n == segs@.len(),
            segs@.len() == es@.len(),
            forall|i: int| 0 <= i < segs@.len() ==> es@[i] == (segs@[i].0 as nat, segs@[i].1 as nat, segs@[i].2 as nat),
            first_overlap(es@, 0) == first_overlap(es@, k as int),
        decreases n - k,
    {
        assert(es@[k as int] == (segs@[k as int].0 as nat, segs@[k as int].1 as nat, segs@[k as int].2 as nat));
        assert(es@[k + 1] == (segs@[k + 1].0 as nat, segs@[k + 1].1 as nat, segs@[k + 1].2 as nat));
        if segs[k].1 as u128 + segs[k].2 as u128 > segs[k + 1].1 as u128 {
            let mut m = numbered("zip: members ", segs[k].0 as u128, " and ");
            push_dec(&mut m, segs[k + 1].0 as u128);
            m.append(
                " claim OVERLAPPING data segments (the zip-bomb shape) — cut-and-resplice would be ambiguous, refused",
            );
            return Err(Error::Unsupported(m));
        }
        k += 1;
    }
    Ok(())
}

fn check_clear_of(segs: &Vec<(u32, u64, u64)>, lo: u64, hi: u128, es: Ghost<Seq<Segment>>) -> (r: Result<()>)
    requires
        segs@.len() == es@.len(),
        forall|i: int| 0 <= i < segs@.len() ==> es@[i] == (segs@[i].0 as nat, segs@[i].1 as nat, segs@[i].2 as nat),
    ensures
        match first_meeting(es@, lo as nat, hi as nat, 0) {
            None => r is Ok,
            Some(k) => r is Err && r->Err_0@ == Fault::Unsupported(
                "zip: member "@ + dec(es@[k].0)
                    + "'s data segment overlaps the central directory — refused"@,
            ),
        },
{
    let mut k: usize = 0;
    while k < segs.len()
        invariant
            k <= segs@.len(),
            segs@.len() == es@.len(),
            forall|i: int| 0 <= i < segs@.len() ==> es@[i] == (segs@[i].0 as nat, segs@[i].1 as nat, segs@[i].2 as nat),
            first_meeting(es@, lo as nat, hi as nat, 0) == first_meeting(es@, lo as nat, hi as nat, k as int),
        decreases segs@.len() - k,
    {
        assert(es@[k as int] == (segs@[k as int].0 as nat, segs@[k as int].1 as nat, segs@[k as int].2 as nat));
        if (segs[k].1 as u128) < hi && segs[k].1 as u128 + segs[k].2 as u128 > lo as u128 {
            return Err(
                Error::Unsupported(
                    member_message(
                        segs[k].0,
                        "'s data segment overlaps the central directory — refused",
                    ),
                ),
            );
        }
        k += 1;
    }
    Ok(())
}

fn build_residual(file: &[u8], segs: &Vec<(u32, u64, u64)>, es: Ghost<Seq<Segment>>) -> (payload: Vec<u8>)
    requires
        segs@.len() == es@.len(),
        segs@.len() <= u32::MAX,
        forall|i: int| 0 <= i < segs@.len() ==> es@[i] == (segs@[i].0 as nat, segs@[i].1 as nat, segs@[i].2 as nat),
        fit_in(es@, file@.len()),
        disjoint(es@),
    ensures
        payload@ == residual(file@, es@),
{
    let mut payload: Vec<u8> = Vec::with_capacity(64);
    put_le(&mut payload, file.len() as u64, 8);
    put_le(&mut payload, segs.len() as u64, 4);
    let ghost whole = residual(file@, es@);
    let ghost tail = gaps(file@, es@, 0);
    let mut k: usize = 0;
    proof {
        assert(es@.skip(0) =~= es@);
        assert(whole =~= payload@ + segments_bytes(es@.skip(0)) + tail);
    }
    while k < segs.len()
        invariant
            k <= segs@.len(),
            segs@.len() == es@.len(),
            forall|i: int| 0 <= i < segs@.len() ==> es@[i] == (segs@[i].0 as nat, segs@[i].1 as nat, segs@[i].2 as nat),
            whole == payload@ + segments_bytes(es@.skip(k as int)) + tail,
        decreases segs@.len() - k,
    {
        let ghost prev = payload@;
        put_le(&mut payload, segs[k].0 as u64, 4);
        put_le(&mut payload, segs[k].1, 8);
        put_le(&mut payload, segs[k].2, 8);
        proof {
            assert(es@[k as int] == (segs@[k as int].0 as nat, segs@[k as int].1 as nat, segs@[k as int].2 as nat));
            assert(es@.skip(k as int).drop_first() =~= es@.skip(k + 1));
            assert(payload@ =~= prev + segment_bytes(es@[k as int]));
            assert(whole =~= payload@ + segments_bytes(es@.skip(k + 1)) + tail);
        }
        k += 1;
    }
    let mut cursor: usize = 0;
    let mut k: usize = 0;
    proof {
        assert(es@.skip(es@.len() as int).len() == 0);
        assert(whole =~= payload@ + gaps(file@, es@.skip(0), 0));
    }
    while k < segs.len()
        invariant
            k <= segs@.len(),
            segs@.len() == es@.len(),
            forall|i: int| 0 <= i < segs@.len() ==> es@[i] == (segs@[i].0 as nat, segs@[i].1 as nat, segs@[i].2 as nat),
            fit_in(es@, file@.len()),
            disjoint(es@),
            cursor <= file@.len(),
            k > 0 ==> cursor == es@[k - 1].1 + es@[k - 1].2,
            k == 0 ==> cursor == 0,
            whole == payload@ + gaps(file@, es@.skip(k as int), cursor as int),
        decreases segs@.len() - k,
    {
        let ghost prev = payload@;
        proof {
            assert(es@[k as int] == (segs@[k as int].0 as nat, segs@[k as int].1 as nat, segs@[k as int].2 as nat));
            if k > 0 {
                let j = k - 1;
                assert(es@[j].1 + es@[j].2 <= es@[j + 1].1);
            }
            assert(es@[k as int].1 + es@[k as int].2 <= file.len());
        }
        let off: usize = segs[k].1 as usize;
        put_bytes(&mut payload, slice_subrange(file, cursor, off));
        cursor = off + segs[k].2 as usize;
        proof {
            assert(es@.skip(k as int).drop_first() =~= es@.skip(k + 1));
            assert(whole =~= payload@ + gaps(file@, es@.skip(k + 1), cursor as int));
        }
        k += 1;
    }
    put_bytes(&mut payload, slice_subrange(file, cursor, file.len()));
    proof {
        assert(file@.skip(cursor as int) =~= file@.subrange(cursor as int, file@.len() as int));
        assert(payload@ =~= whole);
    }
    payload
}

fn split_members(file: &[u8], members: Vec<SpliceMember>, cd_pos: u64, cd_size: u32, cd_offset: u32) -> (r: Result<SpliceParts>)
    requires
        cd_offset <= cd_pos <= file@.len(),
        members@.len() <= u16::MAX,
        read_members(file@, cd_pos - cd_offset, cd_pos as int, 0, members@.len()) == Ok::<Seq<MemberView>, Fault>(member_views(members@)),
    ensures
        match r {
            Ok(p) => split_at_directory(file@, cd_pos as int, cd_size as nat, cd_offset as nat, members@.len()) == Ok::<
                (Seq<MemberView>, Seq<u8>),
                Fault,
            >((member_views(p.members@), p.residual_payload@)),
            Err(e) => split_at_directory(file@, cd_pos as int, cd_size as nat, cd_offset as nat, members@.len()) == Err::<
                (Seq<MemberView>, Seq<u8>),
                Fault,
            >(e@),
        },
{
    let ghost views = member_views(members@);
    let ghost es = segments(views);
    let mut keys: Vec<u64> = Vec::with_capacity(members.len());
    let mut i: usize = 0;
    while i < members.len()
        invariant
            i <= members@.len(),
            keys@.len() == i,
            forall|j: int| 0 <= j < i ==> keys@[j] == members@[j].offset,
        decreases members@.len() - i,
    {
        keys.push(members[i].offset);
        i += 1;
    }
    let order = sorted_order(keys.as_slice());
    proof {
        assert(ranks(keys@) =~= offsets(views));
        assert(file.len() <= u64::MAX);
        lemma_members(file@, cd_pos - cd_offset, cd_pos as int, 0, members@.len());
    }
    let mut segs: Vec<(u32, u64, u64)> = Vec::with_capacity(members.len());
    let mut k: usize = 0;
    while k < order.len()
        invariant
            k <= order@.len(),
            order@.len() == members@.len(),
            is_sorting::<u64>(ranks(keys@), order@),
            keys@.len() == members@.len(),
            views == member_views(members@),
            order@ == sorting::<u64>(offsets(views)),
            es == segments(views),
            segs@.len() == k,
            forall|j: int| 0 <= j < k ==> #[trigger] es[j] == (segs@[j].0 as nat, segs@[j].1 as nat, segs@[j].2 as nat),
        decreases order@.len() - k,
    {
        let at: usize = order[k];
        let m = &members[at];
        segs.push((m.member_no, m.offset, m.len));
        proof {
            assert(es[k as int] == segment_of(views[order@[k as int] as int]));
        }
        k += 1;
    }
    proof {
        assert forall|j: int| 0 <= j < es.len() implies (#[trigger] es[j]).1 + es[j].2 <= file@.len() && es[j].0 <= u32::MAX by {
            let at = order@[j] as int;
            assert(es[j] == segment_of(views[at]));
            assert(views[at].member_no == at);
        }
    }
    if let Err(e) = check_disjoint(&segs, Ghost(es)) {
        return Err(e);
    }
    proof {
        lemma_no_overlap_disjoint(es);
    }
    if let Err(e) = check_clear_of(&segs, cd_pos, cd_pos as u128 + cd_size as u128, Ghost(es)) {
        return Err(e);
    }
    let payload = build_residual(file, &segs, Ghost(es));
    Ok(SpliceParts { members, residual_payload: payload })
}

/// Parse an archive: enumerate from the central directory only, correct the
/// recorded offsets by the length of a prepended stub, verify each local
/// header, start the data where the local header says, and take the length
/// from the directory. Whatever makes the location of data ambiguous is
/// refused by name.
pub fn zip_split(file: &[u8]) -> (r: Result<SpliceParts>)
    ensures
        match r {
            Ok(p) => zip_split_result(file@) == Ok::<(Seq<MemberView>, Seq<u8>), Fault>(
                (member_views(p.members@), p.residual_payload@),
            ),
            Err(e) => zip_split_result(file@) == Err::<(Seq<MemberView>, Seq<u8>), Fault>(e@),
        },
{
    if file.len() < 22 {
        return Err(Error::Unsupported(String::from_str("zip: too small to hold an end record")));
    }
    let eocd: usize = match find_end_record(file) {
        Some(p) => p,
        None => {
            return Err(
                Error::Unsupported(
                    String::from_str("zip: no end-of-central-directory record — not a zip archive"),
                ),
            );
        },
    };
    let e: u128 = eocd as u128;
    let disk_no: u16 = rd_u16(file, e + 4)?;
    let cd_disk: u16 = rd_u16(file, e + 6)?;
    let entries_here: u16 = rd_u16(file, e + 8)?;
    let entries_total: u16 = rd_u16(file, e + 10)?;
    let cd_size: u32 = rd_u32(file, e + 12)?;
    let cd_offset: u32 = rd_u32(file, e + 16)?;
    if disk_no != 0 || cd_disk != 0 || entries_here != entries_total {
        return Err(
            Error::Unsupported(
                String::from_str("zip: multi-disk archive — spanned archives are refused"),
            ),
        );
    }
    if entries_total == 0xFFFF || cd_size == 0xFFFF_FFFF || cd_offset == 0xFFFF_FFFF {
        return Err(
            Error::Unsupported(
                String::from_str(
                    "zip: zip64 sentinel in the end record — zip64 is refused (a missing zip64 record would mean a WRONG cut length, never a slightly-off one)",
                ),
            ),
        );
    }
    if cd_size as u64 > eocd as u64 {
        return Err(
            Error::Corrupt(String::from_str("zip: central directory larger than the file")),
        );
    }
    let cd_pos: u64 = eocd as u64 - cd_size as u64;
    if cd_offset as u64 > cd_pos {
        return Err(
            Error::Unsupported(
                String::from_str(
                    "zip: central-directory offset is inconsistent with its position — unresolvable offsets are refused",
                ),
            ),
        );
    }
    let base: u64 = cd_pos - cd_offset as u64;
    let members = match parse_members(file, base, cd_pos, entries_total) {
        Ok(ms) => ms,
        Err(e) => {
            return Err(e);
        },
    };
    split_members(file, members, cd_pos, cd_size, cd_offset)
}

} // verus!
