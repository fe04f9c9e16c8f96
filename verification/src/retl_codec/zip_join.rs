//! Re-splicing: a residual payload plus the members' data give the archive
//! back.

use vstd::prelude::*;
use vstd::string::StringExecFns;
use vstd::slice::slice_subrange;
use crate::bytes::{get_le, le_value, lemma_le_bytes_of_value, lemma_pow256_values, put_bytes};
use crate::error::{Error, Fault, Result};
use crate::retl_codec::envelope::MAX_PAYLOAD;
use crate::retl_codec::zip::Segment;
use crate::text::{dec, numbered, push_dec};

verus! {

/// The length of the file that a residual payload records.
pub open spec fn recorded_len(payload: Seq<u8>) -> nat {
    le_value(payload.subrange(0, 8))
}

/// The number of segments that a residual payload records.
pub open spec fn recorded_count(payload: Seq<u8>) -> nat {
    le_value(payload.subrange(8, 12))
}

/// Entry `i` of the splice list of a residual payload.
pub open spec fn recorded_segment(payload: Seq<u8>, i: int) -> Segment {
    (
        le_value(payload.subrange(12 + i * 20, 16 + i * 20)),
        le_value(payload.subrange(16 + i * 20, 24 + i * 20)),
        le_value(payload.subrange(24 + i * 20, 32 + i * 20)),
    )
}

/// The segments from entry `i` on, when those before end at `prev_end`, or
/// the first thing that is wrong.
pub open spec fn read_segments(
    payload: Seq<u8>,
    file_len: nat,
    i: int,
    count: nat,
    prev_end: nat,
) -> std::result::Result<Seq<Segment>, Seq<char>>
    decreases count - i,
{
    if i >= count {
        Ok(Seq::empty())
    } else {
        let e = recorded_segment(payload, i);
        if e.1 < prev_end {
            Err("splice list not sorted/disjoint"@)
        } else if e.1 + e.2 > u64::MAX {
            Err("entry overflows"@)
        } else if e.1 + e.2 > file_len {
            Err("entry reaches past file_len"@)
        } else {
            match read_segments(payload, file_len, i + 1, count, e.1 + e.2) {
                Err(m) => Err(m),
                Ok(rest) => Ok(seq![e] + rest),
            }
        }
    }
}

/// The bytes of data that the segments hold in all.
pub open spec fn data_len(es: Seq<Segment>) -> nat
    decreases es.len(),
{
    if es.len() == 0 { 0 } else { es[0].2 + data_len(es.drop_first()) }
}

/// The splice list of a residual payload, or the first thing that is wrong
/// with the payload.
pub open spec fn splice_list(payload: Seq<u8>) -> std::result::Result<Seq<Segment>, Seq<char>> {
    if payload.len() < 12 {
        Err("truncated before the header"@)
    } else {
        let file_len = recorded_len(payload);
        let count = recorded_count(payload);
        if file_len > MAX_PAYLOAD {
            Err("file_len exceeds the envelope cap"@)
        } else if payload.len() < 12 + count * 20 {
            Err("truncated inside the splice list"@)
        } else {
            match read_segments(payload, file_len, 0, count, 0) {
                Err(m) => Err(m),
                Ok(es) => {
                    let gap_len = (payload.len() - 12 - count * 20) as nat;
                    if gap_len + data_len(es) != file_len {
                        Err(
                            "partition broken: "@ + dec(gap_len) + " gap bytes + "@ + dec(
                                data_len(es),
                            ) + " data bytes != file_len "@ + dec(file_len),
                        )
                    } else {
                        Ok(es)
                    }
                },
            }
        }
    }
}

/// The gap bytes of a residual payload.
pub open spec fn gap_bytes(payload: Seq<u8>) -> Seq<u8> {
    payload.skip(12 + recorded_count(payload) as int * 20)
}

/// The file from position `at` on: gap bytes up to each segment, then its
/// data, and the remaining gap bytes behind the last.
pub open spec fn spliced(es: Seq<Segment>, data: Seq<Seq<u8>>, gap: Seq<u8>, at: int) -> Seq<u8>
    decreases es.len(),
{
    if es.len() == 0 {
        gap
    } else {
        let take = es[0].1 - at;
        gap.take(take) + data[0] + spliced(
            es.drop_first(),
            data.drop_first(),
            gap.skip(take),
            (es[0].1 + es[0].2) as int,
        )
    }
}

/// `got` are answers of `data_of` for the first segments, each of the length
/// that the splice list says.
pub open spec fn supplied<F: Fn(u32) -> Result<Vec<u8>>>(
    data_of: F,
    es: Seq<Segment>,
    got: Seq<Vec<u8>>,
) -> bool {
    &&& got.len() <= es.len()
    &&& forall|i: int| 0 <= i < got.len() ==> {
        &&& call_ensures(data_of, (es[i].0 as u32,), Ok::<Vec<u8>, Error>(#[trigger] got[i]))
        &&& got[i]@.len() == es[i].2
    }
}

/// The contents of a list of byte vectors.
pub open spec fn contents(got: Seq<Vec<u8>>) -> Seq<Seq<u8>> {
    got.map_values(|v: Vec<u8>| v@)
}

/// The refusal of a member's data whose length is not the recorded one.
pub open spec fn wrong_length(e: Segment, found: nat) -> Fault {
    Fault::Corrupt(
        "zip-splice-v1: "@ + ("member "@ + dec(e.0) + "'s stored data is "@ + dec(found)
            + " bytes, the splice list says "@ + dec(e.2)),
    )
}

/// Joining fails with `e` at segment `got.len()`, after `got` were supplied:
/// the data could not be had, or has another length than recorded.
pub open spec fn join_stops<F: Fn(u32) -> Result<Vec<u8>>>(
    data_of: F,
    es: Seq<Segment>,
    got: Seq<Vec<u8>>,
    e: Error,
) -> bool {
    let k = got.len() as int;
    &&& supplied(data_of, es, got)
    &&& k < es.len()
    &&& call_ensures(data_of, (es[k].0 as u32,), Err::<Vec<u8>, Error>(e)) || exists|v: Vec<u8>|
        {
            &&& #[trigger] call_ensures(data_of, (es[k].0 as u32,), Ok::<Vec<u8>, Error>(v))
            &&& v@.len() != es[k].2
            &&& e@ == wrong_length(es[k], v@.len())
        }
}

fn corrupt(m: &str) -> (e: Error)
    ensures
        e@ == Fault::Corrupt("zip-splice-v1: "@ + m@),
{
    let mut s = String::from_str("zip-splice-v1: ");
    s.append(m);
    Error::Corrupt(s)
}

spec fn tuples(v: Seq<(u32, u64, u64)>) -> Seq<Segment> {
    v.map_values(|t: (u32, u64, u64)| (t.0 as nat, t.1 as nat, t.2 as nat))
}

fn parse_segments(payload: &[u8], file_len: u64, count: usize) -> (r: std::result::Result<(Vec<(u32, u64, u64)>, u64), String>)
    requires
        file_len <= MAX_PAYLOAD,
        12 + count * 20 <= payload@.len(),
    ensures
        match r {
            Ok((v, total)) => {
                &&& read_segments(payload@, file_len as nat, 0, count as nat, 0) == Ok::<Seq<Segment>, Seq<char>>(tuples(v@))
                &&& total == data_len(tuples(v@))
            },
            Err(m) => read_segments(payload@, file_len as nat, 0, count as nat, 0) == Err::<Seq<Segment>, Seq<char>>(m@),
        },
{
    let mut v: Vec<(u32, u64, u64)> = Vec::new();
    let mut total: u64 = 0;
    let mut prev_end: u64 = 0;
    let mut i: usize = 0;
    let ghost whole = read_segments(payload@, file_len as nat, 0, count as nat, 0);
    proof {
        assert(payload.len() <= usize::MAX);
        assert(tuples(v@) =~= Seq::<Segment>::empty());
        assert forall|rest: Seq<Segment>| #[trigger] (tuples(v@) + rest) == rest by {
            assert(tuples(v@) + rest =~= rest);
        }
    }
    while i < count
        invariant
            i <= count,
            12 + count * 20 <= payload@.len() <= usize::MAX,
            file_len <= MAX_PAYLOAD,
            total <= prev_end <= file_len,
            total == data_len(tuples(v@)),
            whole == read_segments(payload@, file_len as nat, 0, count as nat, 0),
            whole == (match read_segments(payload@, file_len as nat, i as int, count as nat, prev_end as nat) {
                Err(m) => Err::<Seq<Segment>, Seq<char>>(m),
                Ok(rest) => Ok(tuples(v@) + rest),
            }),
        decreases count - i,
    {
        let at: usize = 12 + i * 20;
        let no: u32 = get_le(payload, at, 4) as u32;
        let offset: u64 = get_le(payload, at + 4, 8);
        let len: u64 = get_le(payload, at + 12, 8);
        let ghost e = recorded_segment(payload@, i as int);
        proof {
            lemma_pow256_values();
            lemma_le_bytes_of_value(payload@.subrange(12 + i * 20, 16 + i * 20));
            assert(e == (no as nat, offset as nat, len as nat));
        }
        if offset < prev_end {
            return Err(String::from_str("splice list not sorted/disjoint"));
        }
        let end: u64 = match offset.checked_add(len) {
            Some(x) => x,
            None => {
                return Err(String::from_str("entry overflows"));
            },
        };
        if end > file_len {
            return Err(String::from_str("entry reaches past file_len"));
        }
        proof {
            lemma_data_len_push(tuples(v@), e);
            assert(tuples(v@.push((no, offset, len))) =~= tuples(v@).push(e));
            match read_segments(payload@, file_len as nat, i + 1, count as nat, end as nat) {
                Ok(rest) => {
                    assert(tuples(v@) + (seq![e] + rest) =~= tuples(v@).push(e) + rest);
                },
                Err(_) => {},
            }
        }
        total = total + len;
        prev_end = end;
        v.push((no, offset, len));
        i += 1;
    }
    proof {
        assert(tuples(v@) + Seq::<Segment>::empty() =~= tuples(v@));
    }
    Ok((v, total))
}

proof fn lemma_data_len_push(es: Seq<Segment>, e: Segment)
    ensures
        data_len(es.push(e)) == data_len(es) + e.2,
    decreases es.len(),
{
    if es.len() == 0 {
        assert(es.push(e).drop_first() =~= es);
    } else {
        assert(es.push(e).drop_first() =~= es.drop_first().push(e));
        lemma_data_len_push(es.drop_first(), e);
    }
}

/// The segments are sorted and disjoint from `from` on and end within the
/// file.
pub open spec fn laid_out(es: Seq<Segment>, from: nat, file_len: nat) -> bool
    decreases es.len(),
{
    if es.len() == 0 {
        from <= file_len
    } else {
        from <= es[0].1 && es[0].1 + es[0].2 <= file_len && laid_out(es.drop_first(), es[0].1 + es[0].2, file_len)
    }
}

pub proof fn lemma_laid_out(es: Seq<Segment>, from: nat, file_len: nat)
    requires
        laid_out(es, from, file_len),
    ensures
        from + data_len(es) <= file_len,
    decreases es.len(),
{
    if es.len() > 0 {
        lemma_laid_out(es.drop_first(), es[0].1 + es[0].2, file_len);
    }
}

proof fn lemma_read_segments_laid_out(payload: Seq<u8>, file_len: nat, i: int, count: nat, prev_end: nat)
    requires
        prev_end <= file_len,
        0 <= i,
        read_segments(payload, file_len, i, count, prev_end) is Ok,
    ensures
        laid_out(read_segments(payload, file_len, i, count, prev_end)->Ok_0, prev_end, file_len),
        i <= count ==> read_segments(payload, file_len, i, count, prev_end)->Ok_0.len() == count - i,
    decreases count - i,
{
    if i < count {
        let e = recorded_segment(payload, i);
        lemma_read_segments_laid_out(payload, file_len, i + 1, count, e.1 + e.2);
        let es = read_segments(payload, file_len, i, count, prev_end)->Ok_0;
        let rest = read_segments(payload, file_len, i + 1, count, e.1 + e.2)->Ok_0;
        assert(es.drop_first() =~= rest);
    }
}

/// The front of the file when the data of the first `data.len()` segments is
/// there: everything up to the end of the last of them.
spec fn spliced_front(es: Seq<Segment>, data: Seq<Seq<u8>>, gap: Seq<u8>, at: int) -> Seq<u8>
    decreases data.len(),
{
    if data.len() == 0 {
        Seq::empty()
    } else {
        let take = es[0].1 - at;
        gap.take(take) + data[0] + spliced_front(
            es.drop_first(),
            data.drop_first(),
            gap.skip(take),
            (es[0].1 + es[0].2) as int,
        )
    }
}

/// How many gap bytes come before the end of the last of the first `n`
/// segments.
spec fn gap_used(es: Seq<Segment>, n: nat, at: int) -> int
    decreases n,
{
    if n == 0 || es.len() == 0 {
        0
    } else {
        es[0].1 - at + gap_used(es.drop_first(), (n - 1) as nat, (es[0].1 + es[0].2) as int)
    }
}

proof fn lemma_front_push(es: Seq<Segment>, data: Seq<Seq<u8>>, d: Seq<u8>, gap: Seq<u8>, at: nat, file_len: nat)
    requires
        data.len() < es.len(),
        laid_out(es, at, file_len),
        gap.len() + data_len(es) + at == file_len,
    ensures
        ({
            let n = data.len() as int;
            let prev = if n == 0 { at as int } else { (es[n - 1].1 + es[n - 1].2) as int };
            let used = gap_used(es, n as nat, at as int);
            let take = es[n].1 - prev;
            &&& 0 <= take
            &&& 0 <= used
            &&& used + take <= gap.len()
            &&& gap_used(es, (n + 1) as nat, at as int) == used + take
            &&& spliced_front(es, data.push(d), gap, at as int) == spliced_front(es, data, gap, at as int)
                + gap.subrange(used, used + take) + d
        }),
    decreases data.len(),
{
    let n = data.len() as int;
    let es1 = es.drop_first();
    let end = es[0].1 + es[0].2;
    let t0 = es[0].1 - at;
    lemma_laid_out(es1, end, file_len);
    if n == 0 {
        assert(gap_used(es1, 0, end as int) == 0);
        assert(data.push(d).drop_first() =~= Seq::<Seq<u8>>::empty());
        assert(data.push(d)[0] == d);
        assert(gap.take(t0) =~= gap.subrange(0, t0));
        assert(spliced_front(es1, Seq::empty(), gap.skip(t0), end as int) =~= Seq::<u8>::empty());
        assert(spliced_front(es, data.push(d), gap, at as int) =~= spliced_front(es, data, gap, at as int) + gap.subrange(0, t0) + d);
    } else {
        let data1 = data.drop_first();
        assert(data.push(d).drop_first() =~= data1.push(d));
        assert(data.push(d)[0] == data[0]);
        let gap1 = gap.skip(t0);
        lemma_front_push(es1, data1, d, gap1, end, file_len);
        let used1 = gap_used(es1, (n - 1) as nat, end as int);
        let used = gap_used(es, n as nat, at as int);
        assert(used == t0 + used1);
        assert(es1[n - 1] == es[n]);
        let prev = (es[n - 1].1 + es[n - 1].2) as int;
        if n > 1 {
            assert(es1[n - 2] == es[n - 1]);
        }
        let take = es[n].1 - prev;
        assert(gap1.subrange(used1, used1 + take) =~= gap.subrange(used, used + take));
        assert(spliced_front(es, data.push(d), gap, at as int) =~= spliced_front(es, data, gap, at as int) + gap.subrange(used, used + take) + d);
    }
}

proof fn lemma_front_all(es: Seq<Segment>, data: Seq<Seq<u8>>, gap: Seq<u8>, at: nat, file_len: nat)
    requires
        data.len() == es.len(),
        laid_out(es, at, file_len),
        gap.len() + data_len(es) + at == file_len,
    ensures
        0 <= gap_used(es, es.len(), at as int) <= gap.len(),
        spliced(es, data, gap, at as int) == spliced_front(es, data, gap, at as int) + gap.skip(
            gap_used(es, es.len(), at as int),
        ),
    decreases es.len(),
{
    if es.len() == 0 {
        assert(spliced_front(es, data, gap, at as int) + gap.skip(0) =~= gap);
    } else {
        let es1 = es.drop_first();
        let end = es[0].1 + es[0].2;
        let t0 = es[0].1 - at;
        lemma_laid_out(es1, end, file_len);
        let gap1 = gap.skip(t0);
        lemma_front_all(es1, data.drop_first(), gap1, end, file_len);
        let used1 = gap_used(es1, es1.len(), end as int);
        assert(gap1.skip(used1) =~= gap.skip(t0 + used1));
        assert(spliced(es, data, gap, at as int) =~= spliced_front(es, data, gap, at as int) + gap.skip(t0 + used1));
    }
}

/// Re-splice the original from the residual payload and the members' data,
/// which `data_of` supplies by member number.
pub fn zip_join<F: Fn(u32) -> Result<Vec<u8>>>(payload: &[u8], data_of: F) -> (r: Result<Vec<u8>>)
    requires
        forall|no: u32| call_requires(data_of, (no,)),
    ensures
        match splice_list(payload@) {
            Err(m) => r is Err && r->Err_0@ == Fault::Corrupt("zip-splice-v1: "@ + m),
            Ok(es) => match r {
                Ok(out) => exists|got: Seq<Vec<u8>>| #[trigger]
                    supplied(data_of, es, got) && got.len() == es.len() && out@ == spliced(
                        es,
                        contents(got),
                        gap_bytes(payload@),
                        0,
                    ),
                Err(e) => exists|got: Seq<Vec<u8>>| #[trigger] join_stops(data_of, es, got, e),
            },
        },
{
    if payload.len() < 12 {
        return Err(corrupt("truncated before the header"));
    }
    let file_len: u64 = get_le(payload, 0, 8);
    if file_len > MAX_PAYLOAD as u64 {
        return Err(corrupt("file_len exceeds the envelope cap"));
    }
    let count: u64 = get_le(payload, 8, 4);
    proof {
        lemma_pow256_values();
        lemma_le_bytes_of_value(payload@.subrange(8, 12));
    }
    let entries_end: u64 = 12 + count * 20;
    if (payload.len() as u64) < entries_end {
        return Err(corrupt("truncated inside the splice list"));
    }
    let (entries, total_data) = match parse_segments(payload, file_len, count as usize) {
        Ok(v) => v,
        Err(m) => {
            return Err(corrupt(m.as_str()));
        },
    };
    let ghost es = tuples(entries@);
    let gap = slice_subrange(payload, entries_end as usize, payload.len());
    proof {
        lemma_read_segments_laid_out(payload@, file_len as nat, 0, count as nat, 0);
        lemma_laid_out(es, 0, file_len as nat);
        assert(gap@ =~= gap_bytes(payload@));
    }
    if gap.len() as u128 + total_data as u128 != file_len as u128 {
        let mut m = numbered("partition broken: ", gap.len() as u128, " gap bytes + ");
        push_dec(&mut m, total_data as u128);
        m.append(" data bytes != file_len ");
        push_dec(&mut m, file_len as u128);
        return Err(corrupt(m.as_str()));
    }

    let mut out: Vec<u8> = Vec::with_capacity(file_len as usize);
    let mut cursor: usize = 0;
    let mut k: usize = 0;
    let ghost mut got: Seq<Vec<u8>> = Seq::empty();
    proof {
        assert(contents(got) =~= Seq::<Seq<u8>>::empty());
    }
    while k < entries.len()
        invariant
            forall|no: u32| call_requires(data_of, (no,)),
            es == tuples(entries@),
            splice_list(payload@) == Ok::<Seq<Segment>, Seq<char>>(es),
            k <= entries@.len(),
            got.len() == k,
            supplied(data_of, es, got),
            laid_out(es, 0, file_len as nat),
            gap@.len() + data_len(es) == file_len,
            gap@ == gap_bytes(payload@),
            file_len <= MAX_PAYLOAD,
            cursor == gap_used(es, k as nat, 0),
            cursor <= gap@.len(),
            out@ == spliced_front(es, contents(got), gap@, 0),
            out@.len() == (if k == 0 { 0 } else { es[k - 1].1 + es[k - 1].2 }),
        decreases entries@.len() - k,
    {
        let (member_no, offset, len) = entries[k];
        let ghost kk = k as int;
        proof {
            assert(es[kk] == (member_no as nat, offset as nat, len as nat));
            lemma_front_push(es, contents(got), Seq::empty(), gap@, 0, file_len as nat);
        }
        let take: usize = (offset - out.len() as u64) as usize;
        put_bytes(&mut out, slice_subrange(gap, cursor, cursor + take));
        match data_of(member_no) {
            Err(e) => {
                proof {
                    assert(join_stops(data_of, es, got, e));
                }
                return Err(e);
            },
            Ok(data) => {
                if data.len() as u64 != len {
                    let mut m = numbered("member ", member_no as u128, "'s stored data is ");
                    push_dec(&mut m, data.len() as u128);
                    m.append(" bytes, the splice list says ");
                    push_dec(&mut m, len as u128);
                    let e = corrupt(m.as_str());
                    proof {
                        assert(call_ensures(data_of, (es[kk].0 as u32,), Ok::<Vec<u8>, Error>(data)));
                        assert(join_stops(data_of, es, got, e));
                    }
                    return Err(e);
                }
                put_bytes(&mut out, data.as_slice());
                proof {
                    lemma_front_push(es, contents(got), data@, gap@, 0, file_len as nat);
                    assert(contents(got.push(data)) =~= contents(got).push(data@));
                    let more = got.push(data);
                    assert forall|i: int| 0 <= i < more.len() implies {
                        &&& call_ensures(data_of, (es[i].0 as u32,), Ok::<Vec<u8>, Error>(#[trigger] more[i]))
                        &&& more[i]@.len() == es[i].2
                    } by {
                        if i < got.len() {
                            assert(more[i] == got[i]);
                        }
                    }
                    got = more;
                }
            },
        }
        cursor = cursor + take;
        k += 1;
    }
    put_bytes(&mut out, slice_subrange(gap, cursor, gap.len()));
    proof {
        lemma_front_all(es, contents(got), gap@, 0, file_len as nat);
        assert(gap@.skip(cursor as int) =~= gap@.subrange(cursor as int, gap@.len() as int));
        assert(out@ == spliced(es, contents(got), gap_bytes(payload@), 0));
        assert(supplied(data_of, es, got));
    }
    Ok(out)
}

} // verus!
