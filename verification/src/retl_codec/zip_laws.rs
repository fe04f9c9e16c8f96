//! Laws of the zip splicer.

use vstd::prelude::*;
use crate::bytes::{le_bytes, lemma_le_bytes_len, lemma_le_bytes_of_value, lemma_le_value_of_bytes, lemma_pow256_values};
use crate::retl_codec::envelope::MAX_PAYLOAD;
use crate::retl_codec::zip::{disjoint, end_record_at, first_meeting, first_overlap, fit_in, gaps, last_end_record, lemma_members, lemma_no_overlap_disjoint, offsets, read_member, read_members, residual, segment_bytes, segment_of, segments, segments_bytes, u16_at, u32_at, zip_split_result, MemberView, Segment};
use crate::retl_codec::zip_join::{data_len, gap_bytes, laid_out, lemma_laid_out, read_segments, recorded_count, recorded_len, recorded_segment, splice_list, spliced};
use crate::sort::{lemma_sorting_exists, lists, sorting};

verus! {

proof fn lemma_segments_bytes(es: Seq<Segment>, i: int)
    requires
        0 <= i < es.len(),
    ensures
        segments_bytes(es).len() == es.len() * 20,
        segments_bytes(es).subrange(i * 20, i * 20 + 20) == segment_bytes(es[i]),
        segment_bytes(es[i]).len() == 20,
    decreases es.len(),
{
    let e = es[0];
    let rest = es.drop_first();
    lemma_le_bytes_len(e.0, 4);
    lemma_le_bytes_len(e.1, 8);
    lemma_le_bytes_len(e.2, 8);
    if rest.len() == 0 {
        assert(segments_bytes(rest) =~= Seq::<u8>::empty());
        assert(segments_bytes(es).subrange(0, 20) =~= segment_bytes(e));
    } else if i == 0 {
        lemma_segments_bytes(rest, 0);
        assert(segments_bytes(es).subrange(0, 20) =~= segment_bytes(e));
    } else {
        lemma_segments_bytes(rest, i - 1);
        assert(segments_bytes(es).subrange(i * 20, i * 20 + 20) =~= segments_bytes(rest).subrange(
            (i - 1) * 20,
            (i - 1) * 20 + 20,
        ));
    }
}

proof fn lemma_segments_bytes_len(es: Seq<Segment>)
    ensures
        segments_bytes(es).len() == es.len() * 20,
{
    if es.len() > 0 {
        lemma_segments_bytes(es, 0);
    }
}

proof fn lemma_disjoint_laid_out(es: Seq<Segment>, i: int, from: nat, file_len: nat)
    requires
        0 <= i <= es.len(),
        fit_in(es, file_len),
        disjoint(es),
        from <= file_len,
        i < es.len() ==> from <= es[i].1,
    ensures
        laid_out(es.skip(i), from, file_len),
    decreases es.len() - i,
{
    if i < es.len() {
        assert(es.skip(i).drop_first() =~= es.skip(i + 1));
        assert(es[i].1 + es[i].2 <= file_len);
        lemma_disjoint_laid_out(es, i + 1, es[i].1 + es[i].2, file_len);
    }
}

proof fn lemma_gaps_len(file: Seq<u8>, es: Seq<Segment>, from: nat)
    requires
        laid_out(es, from, file.len()),
    ensures
        gaps(file, es, from as int).len() + data_len(es) + from == file.len(),
    decreases es.len(),
{
    if es.len() > 0 {
        lemma_gaps_len(file, es.drop_first(), es[0].1 + es[0].2);
    }
}

/// `data` holds, for each segment, its bytes in `file`.
pub open spec fn cut_out(file: Seq<u8>, es: Seq<Segment>, data: Seq<Seq<u8>>) -> bool {
    &&& data.len() == es.len()
    &&& forall|i: int| 0 <= i < es.len() ==> #[trigger] data[i] == file.subrange(
        es[i].1 as int,
        (es[i].1 + es[i].2) as int,
    )
}

proof fn lemma_splice_gaps(file: Seq<u8>, es: Seq<Segment>, data: Seq<Seq<u8>>, from: nat)
    requires
        laid_out(es, from, file.len()),
        cut_out(file, es, data),
    ensures
        spliced(es, data, gaps(file, es, from as int), from as int) == file.skip(from as int),
    decreases es.len(),
{
    if es.len() > 0 {
        let end = es[0].1 + es[0].2;
        let es1 = es.drop_first();
        let data1 = data.drop_first();
        assert forall|i: int| 0 <= i < es1.len() implies #[trigger] data1[i] == file.subrange(es1[i].1 as int, (es1[i].1 + es1[i].2) as int) by {
            assert(data1[i] == data[i + 1]);
        }
        lemma_laid_out(es1, end, file.len());
        lemma_splice_gaps(file, es1, data1, end);
        let gap = gaps(file, es, from as int);
        let take = es[0].1 - from;
        assert(gap.take(take) =~= file.subrange(from as int, es[0].1 as int));
        assert(gap.skip(take) =~= gaps(file, es1, end as int));
        assert(data[0] == file.subrange(es[0].1 as int, end as int));
        assert(file.skip(from as int) =~= file.subrange(from as int, es[0].1 as int) + file.subrange(es[0].1 as int, end as int) + file.skip(end as int));
    }
}

proof fn lemma_recorded(file: Seq<u8>, es: Seq<Segment>, i: int)
    requires
        file.len() <= u64::MAX,
        es.len() <= u32::MAX,
        fit_in(es, file.len()),
        0 <= i < es.len(),
    ensures
        recorded_segment(residual(file, es), i) == es[i],
{
    let p = residual(file, es);
    let e = es[i];
    let sb = segment_bytes(e);
    lemma_pow256_values();
    lemma_segments_bytes(es, i);
    lemma_le_bytes_len(file.len(), 8);
    lemma_le_bytes_len(es.len(), 4);
    lemma_le_bytes_len(e.0, 4);
    lemma_le_bytes_len(e.1, 8);
    lemma_le_bytes_len(e.2, 8);
    lemma_le_value_of_bytes(e.0, 4);
    lemma_le_value_of_bytes(e.1, 8);
    lemma_le_value_of_bytes(e.2, 8);
    assert(p.subrange(12 + i * 20, 32 + i * 20) =~= segments_bytes(es).subrange(i * 20, i * 20 + 20));
    let w = p.subrange(12 + i * 20, 32 + i * 20);
    assert(w == sb);
    assert(p.subrange(12 + i * 20, 16 + i * 20) =~= w.subrange(0, 4));
    assert(p.subrange(16 + i * 20, 24 + i * 20) =~= w.subrange(4, 12));
    assert(p.subrange(24 + i * 20, 32 + i * 20) =~= w.subrange(12, 20));
    assert(sb.subrange(0, 4) =~= le_bytes(e.0, 4));
    assert(sb.subrange(4, 12) =~= le_bytes(e.1, 8));
    assert(sb.subrange(12, 20) =~= le_bytes(e.2, 8));
}

proof fn lemma_read_back(file: Seq<u8>, es: Seq<Segment>, i: int, prev_end: nat)
    requires
        file.len() <= u64::MAX,
        es.len() <= u32::MAX,
        fit_in(es, file.len()),
        disjoint(es),
        0 <= i <= es.len(),
        i < es.len() ==> prev_end <= es[i].1,
    ensures
        read_segments(residual(file, es), file.len(), i, es.len(), prev_end) == Ok::<
            Seq<Segment>,
            Seq<char>,
        >(es.skip(i)),
    decreases es.len() - i,
{
    if i < es.len() {
        lemma_recorded(file, es, i);
        assert(es[i].1 + es[i].2 <= file.len());
        lemma_read_back(file, es, i + 1, es[i].1 + es[i].2);
        assert(seq![es[i]] + es.skip(i + 1) =~= es.skip(i));
    } else {
        assert(es.skip(i) =~= Seq::<Segment>::empty());
    }
}

proof fn lemma_residual_round_trip(file: Seq<u8>, es: Seq<Segment>, data: Seq<Seq<u8>>)
    requires
        file.len() <= MAX_PAYLOAD,
        es.len() <= u32::MAX,
        fit_in(es, file.len()),
        disjoint(es),
        cut_out(file, es, data),
    ensures
        splice_list(residual(file, es)) == Ok::<Seq<Segment>, Seq<char>>(es),
        spliced(es, data, gap_bytes(residual(file, es)), 0) == file,
{
    let p = residual(file, es);
    lemma_pow256_values();
    lemma_le_bytes_len(file.len(), 8);
    lemma_le_bytes_len(es.len(), 4);
    lemma_le_value_of_bytes(file.len(), 8);
    lemma_le_value_of_bytes(es.len(), 4);
    lemma_segments_bytes_len(es);
    assert(p.subrange(0, 8) =~= le_bytes(file.len(), 8));
    assert(p.subrange(8, 12) =~= le_bytes(es.len(), 4));
    lemma_read_back(file, es, 0, 0);
    assert(es.skip(0) =~= es);
    lemma_disjoint_laid_out(es, 0, 0, file.len());
    lemma_gaps_len(file, es, 0);
    assert(gap_bytes(p) =~= gaps(file, es, 0));
    lemma_splice_gaps(file, es, data, 0);
    assert(file.skip(0) =~= file);
}

proof fn lemma_end_record(file: Seq<u8>, p: int)
    requires
        last_end_record(file, p) is Some,
    ensures
        0 <= last_end_record(file, p)->Some_0,
        last_end_record(file, p)->Some_0 + 22 <= file.len(),
    decreases p + 1,
{
    if p >= 0 && !end_record_at(file, p) {
        lemma_end_record(file, p - 1);
    }
}

/// What a successful split rests on.
pub(crate) proof fn lemma_split_ok(file: Seq<u8>)
    requires
        zip_split_result(file) is Ok,
        file.len() <= u64::MAX,
    ensures
        ({
            let (ms, payload) = zip_split_result(file)->Ok_0;
            &&& ms.len() <= u16::MAX
            &&& payload == residual(file, segments(ms))
            &&& first_overlap(segments(ms), 0) is None
            &&& forall|i: int| 0 <= i < ms.len() ==> (#[trigger] ms[i]).member_no == i && ms[i].offset + ms[i].len <= file.len()
        }),
{
    let eocd = last_end_record(file, file.len() - 22)->Some_0;
    lemma_end_record(file, file.len() - 22);
    let total = u16_at(file, eocd + 10);
    let cd_pos = eocd - u32_at(file, eocd + 12);
    let base = cd_pos - u32_at(file, eocd + 16);
    lemma_pow256_values();
    lemma_le_bytes_of_value(file.subrange(eocd + 10, eocd + 12));
    lemma_members(file, base, cd_pos, 0, total);
}

/// Splitting an archive and joining the residual with the members' data gives
/// the archive back byte for byte: the residual's splice list names each
/// member's segment by its number, and with the bytes cut out of the file at
/// those segments the splice is the file. (An archive over the payload limit
/// can be split; its residual is refused when it is joined.)
pub proof fn law_zip_round_trip(file: Seq<u8>, data: Seq<Seq<u8>>)
    requires
        zip_split_result(file) is Ok,
        file.len() <= MAX_PAYLOAD,
        cut_out(file, segments(zip_split_result(file)->Ok_0.0), data),
    ensures
        ({
            let (ms, payload) = zip_split_result(file)->Ok_0;
            let es = segments(ms);
            &&& splice_list(payload) == Ok::<Seq<Segment>, Seq<char>>(es)
            &&& spliced(es, data, gap_bytes(payload), 0) == file
            &&& es.len() == ms.len()
            &&& forall|i: int| 0 <= i < es.len() ==> (#[trigger] es[i]).0 < ms.len() && es[i] == segment_of(ms[es[i].0 as int])
        }),
{
    lemma_split_ok(file);
    let (ms, payload) = zip_split_result(file)->Ok_0;
    let es = segments(ms);
    lemma_sorting_exists::<u64>(offsets(ms));
    let order = sorting::<u64>(offsets(ms));
    assert forall|i: int| 0 <= i < es.len() implies (#[trigger] es[i]).0 < ms.len() && es[i] == segment_of(ms[es[i].0 as int]) by {
        let at = order[i] as int;
        assert(es[i] == segment_of(ms[at]));
        assert(ms[at].member_no == at);
    }
    assert forall|i: int| 0 <= i < es.len() implies (#[trigger] es[i]).1 + es[i].2 <= file.len() && es[i].0 <= u32::MAX by {
        let m = ms[es[i].0 as int];
        assert(m.offset + m.len <= file.len());
    }
    lemma_no_overlap_disjoint(es);
    lemma_residual_round_trip(file, es, data);
}

/// Where an archive's central directory begins, and how long it is.
pub open spec fn directory_of(file: Seq<u8>) -> (int, nat) {
    let eocd = last_end_record(file, file.len() - 22)->Some_0;
    (eocd - u32_at(file, eocd + 12), u32_at(file, eocd + 12))
}

proof fn lemma_none_meets(es: Seq<Segment>, lo: nat, hi: nat, k: int, i: int)
    requires
        0 <= k <= i < es.len(),
        first_meeting(es, lo, hi, k) is None,
    ensures
        es[i].1 >= hi || es[i].1 + es[i].2 <= lo,
    decreases i - k,
{
    if k < i {
        lemma_none_meets(es, lo, hi, k + 1, i);
    }
}

/// The segments from `i` on come behind segment `i`, one behind the other.
proof fn lemma_none_overlaps(es: Seq<Segment>, k: int, i: int, j: int)
    requires
        0 <= k <= i < j < es.len(),
        first_overlap(es, k) is None,
    ensures
        es[i].1 + es[i].2 <= es[j].1,
    decreases j - k,
{
    if k < i {
        lemma_none_overlaps(es, k + 1, i, j);
    } else if i + 1 < j {
        lemma_none_overlaps(es, k + 1, i + 1, j);
    }
}

/// The members of a split archive lie in the file, are pairwise disjoint, and
/// are clear of the central directory.
pub proof fn law_zip_members_disjoint(file: Seq<u8>, i: int, j: int)
    requires
        zip_split_result(file) is Ok,
        file.len() <= u64::MAX,
        0 <= i < zip_split_result(file)->Ok_0.0.len(),
        0 <= j < zip_split_result(file)->Ok_0.0.len(),
    ensures
        ({
            let ms = zip_split_result(file)->Ok_0.0;
            let (at, len) = directory_of(file);
            &&& ms[i].offset + ms[i].len <= file.len()
            &&& i != j ==> ms[i].offset + ms[i].len <= ms[j].offset || ms[j].offset + ms[j].len <= ms[i].offset
            &&& ms[i].offset + ms[i].len <= at || ms[i].offset >= at + len
        }),
{
    lemma_split_ok(file);
    let ms = zip_split_result(file)->Ok_0.0;
    let es = segments(ms);
    lemma_sorting_exists::<u64>(offsets(ms));
    let order = sorting::<u64>(offsets(ms));
    assert(lists(order, i));
    assert(lists(order, j));
    let a = choose|a: int| 0 <= a < order.len() && #[trigger] order[a] == i;
    let b = choose|b: int| 0 <= b < order.len() && #[trigger] order[b] == j;
    assert(es[a] == segment_of(ms[i]));
    assert(es[b] == segment_of(ms[j]));
    if a < b {
        lemma_none_overlaps(es, 0, a, b);
    } else if b < a {
        lemma_none_overlaps(es, 0, b, a);
    }
    let (at, len) = directory_of(file);
    lemma_none_meets(es, at as nat, (at + len) as nat, 0, a);
}

proof fn lemma_read_segments_prefix(p: Seq<u8>, n: int, file_len: nat, i: int, count: nat, prev_end: nat)
    requires
        12 + count * 20 <= n <= p.len(),
        0 <= i,
    ensures
        read_segments(p.take(n), file_len, i, count, prev_end) == read_segments(
            p,
            file_len,
            i,
            count,
            prev_end,
        ),
    decreases count - i,
{
    if i < count {
        let q = p.take(n);
        assert(q.subrange(12 + i * 20, 16 + i * 20) =~= p.subrange(12 + i * 20, 16 + i * 20));
        assert(q.subrange(16 + i * 20, 24 + i * 20) =~= p.subrange(16 + i * 20, 24 + i * 20));
        assert(q.subrange(24 + i * 20, 32 + i * 20) =~= p.subrange(24 + i * 20, 32 + i * 20));
        let e = recorded_segment(p, i);
        lemma_read_segments_prefix(p, n, file_len, i + 1, count, e.1 + e.2);
    }
}

/// A residual payload that lost bytes at its end is refused, whatever the
/// members' data.
pub proof fn law_zip_truncation_refused(payload: Seq<u8>, n: int)
    requires
        splice_list(payload) is Ok,
        0 <= n < payload.len(),
    ensures
        splice_list(payload.take(n)) is Err,
{
    let q = payload.take(n);
    if n >= 12 {
        assert(q.subrange(0, 8) =~= payload.subrange(0, 8));
        assert(q.subrange(8, 12) =~= payload.subrange(8, 12));
        let count = recorded_count(payload);
        if n >= 12 + count * 20 {
            lemma_read_segments_prefix(payload, n, recorded_len(payload), 0, count, 0);
        }
    }
}

proof fn lemma_spliced_len(es: Seq<Segment>, data: Seq<Seq<u8>>, gap: Seq<u8>, at: nat, file_len: nat)
    requires
        laid_out(es, at, file_len),
        gap.len() + data_len(es) + at == file_len,
        data.len() == es.len(),
        forall|i: int| 0 <= i < es.len() ==> (#[trigger] data[i]).len() == es[i].2,
    ensures
        spliced(es, data, gap, at as int).len() + at == file_len,
    decreases es.len(),
{
    if es.len() > 0 {
        let end = es[0].1 + es[0].2;
        let es1 = es.drop_first();
        let data1 = data.drop_first();
        assert(data[0].len() == es[0].2);
        assert forall|i: int| 0 <= i < es1.len() implies (#[trigger] data1[i]).len() == es1[i].2 by {
            assert(data1[i] == data[i + 1]);
        }
        lemma_laid_out(es1, end, file_len);
        lemma_spliced_len(es1, data1, gap.skip(es[0].1 - at), end, file_len);
    }
}

proof fn lemma_splice_list_laid_out(payload: Seq<u8>, i: int, count: nat, prev_end: nat, file_len: nat)
    requires
        0 <= i,
        prev_end <= file_len,
        read_segments(payload, file_len, i, count, prev_end) is Ok,
    ensures
        laid_out(read_segments(payload, file_len, i, count, prev_end)->Ok_0, prev_end, file_len),
    decreases count - i,
{
    if i < count {
        let e = recorded_segment(payload, i);
        lemma_splice_list_laid_out(payload, i + 1, count, e.1 + e.2, file_len);
        assert(read_segments(payload, file_len, i, count, prev_end)->Ok_0.drop_first() =~= read_segments(payload, file_len, i + 1, count, e.1 + e.2)->Ok_0);
    }
}

/// Whatever data of the recorded lengths is spliced in, the result has
/// exactly the recorded length, which an envelope can carry.
pub proof fn law_zip_join_length(payload: Seq<u8>, data: Seq<Seq<u8>>)
    requires
        splice_list(payload) is Ok,
        data.len() == splice_list(payload)->Ok_0.len(),
        forall|i: int| 0 <= i < data.len() ==> (#[trigger] data[i]).len() == splice_list(payload)->Ok_0[i].2,
    ensures
        spliced(splice_list(payload)->Ok_0, data, gap_bytes(payload), 0).len() == recorded_len(payload),
        recorded_len(payload) <= MAX_PAYLOAD,
{
    let es = splice_list(payload)->Ok_0;
    lemma_splice_list_laid_out(payload, 0, recorded_count(payload), 0, recorded_len(payload));
    lemma_spliced_len(es, data, gap_bytes(payload), 0, recorded_len(payload));
}

/// A number in the file, least significant byte first.
pub open spec fn number_at(file: Seq<u8>, at: int, width: int) -> nat {
    crate::bytes::le_value(file.subrange(at, at + width))
}

/// The four bytes of a record's signature.
pub open spec fn marked(file: Seq<u8>, at: int, x: u8, y: u8) -> bool {
    at + 4 <= file.len() && file.subrange(at, at + 4) == seq![0x50u8, 0x4bu8, x, y]
}

/// The central-directory entry at `at` describes the member, whose data stand
/// behind its local header. The local header is where the entry says, counted
/// from `base`; how far behind it the data begin is told by the local header's
/// own lengths, and how many they are by the entry. Nothing makes that
/// uncertain: the entry is not masked, not strongly encrypted, on no other disk
/// and of no larger format.
pub open spec fn entry_describes(file: Seq<u8>, base: int, at: int, no: nat, m: MemberView) -> bool {
    let header = base + number_at(file, at + 42, 4);
    let name_len = number_at(file, at + 28, 2);
    &&& marked(file, at, 1, 2)
    &&& (number_at(file, at + 8, 2) / 0x2000) % 2 == 0
    &&& (number_at(file, at + 8, 2) / 0x40) % 2 == 0
    &&& number_at(file, at + 34, 2) == 0
    &&& number_at(file, at + 20, 4) != 0xFFFF_FFFF
    &&& number_at(file, at + 24, 4) != 0xFFFF_FFFF
    &&& number_at(file, at + 42, 4) != 0xFFFF_FFFF
    &&& marked(file, header, 3, 4)
    &&& m.member_no == no
    &&& m.method == number_at(file, at + 10, 2)
    &&& m.name == file.subrange(at + 46, at + 46 + name_len)
    &&& m.len == number_at(file, at + 20, 4)
    &&& m.offset == header + 30 + number_at(file, header + 26, 2) + number_at(file, header + 28, 2)
}

/// How long the central-directory entry at `at` is.
pub open spec fn entry_len(file: Seq<u8>, at: int) -> nat {
    46 + number_at(file, at + 28, 2) + number_at(file, at + 30, 2) + number_at(file, at + 32, 2)
}

/// The entries of a directory stand one behind the other from `cur` on.
pub open spec fn entries_stand(file: Seq<u8>, cur: int, ats: Seq<int>) -> bool {
    forall|i: int| 0 <= i < ats.len() ==> #[trigger] ats[i] == (if i == 0 { cur } else { ats[i - 1] + entry_len(file, ats[i - 1]) })
}

proof fn lemma_entries(file: Seq<u8>, base: int, cur: int, no: nat, total: nat) -> (ats: Seq<int>)
    requires
        base >= 0,
        cur >= 0,
        no <= total,
        read_members(file, base, cur, no, total) is Ok,
    ensures
        ({
            let ms = read_members(file, base, cur, no, total)->Ok_0;
            &&& ms.len() == total - no
            &&& ats.len() == ms.len()
            &&& entries_stand(file, cur, ats)
            &&& forall|i: int| 0 <= i < ms.len() ==> entry_describes(file, base, #[trigger] ats[i], (no + i) as nat, ms[i])
        }),
    decreases total - no,
{
    if no >= total {
        Seq::empty()
    } else {
        let (m, next) = read_member(file, base, cur, no)->Ok_0;
        let rest = read_members(file, base, next, no + 1, total)->Ok_0;
        let tail = lemma_entries(file, base, next, no + 1, total);
        let ats = seq![cur] + tail;
        let ms = seq![m] + rest;
        lemma_one_entry(file, base, cur, no);
        assert forall|i: int| 0 <= i < ats.len() implies #[trigger] ats[i] == (if i == 0 {
            cur
        } else {
            ats[i - 1] + entry_len(file, ats[i - 1])
        }) by {
            if i == 1 {
                assert(tail[0] == next);
            } else if i > 1 {
                assert(ats[i] == tail[i - 1] && ats[i - 1] == tail[i - 2]);
            }
        }
        assert forall|i: int| 0 <= i < ms.len() implies entry_describes(file, base, #[trigger] ats[i], (no + i) as nat, ms[i]) by {
            if i > 0 {
                assert(ats[i] == tail[i - 1] && ms[i] == rest[i - 1]);
                assert(entry_describes(file, base, tail[i - 1], (no + 1 + (i - 1)) as nat, rest[i - 1]));
            }
        }
        ats
    }
}

proof fn lemma_one_entry(file: Seq<u8>, base: int, cur: int, no: nat)
    requires
        base >= 0,
        cur >= 0,
        read_member(file, base, cur, no) is Ok,
    ensures
        entry_describes(file, base, cur, no, read_member(file, base, cur, no)->Ok_0.0),
        read_member(file, base, cur, no)->Ok_0.1 == cur + entry_len(file, cur),
        read_member(file, base, cur, no)->Ok_0.1 >= 0,
{
    let header = base + u32_at(file, cur + 42);
    assert(file.subrange(cur, cur + 4) =~= seq![0x50u8, 0x4bu8, 1u8, 2u8]);
    assert(file.subrange(header, header + 4) =~= seq![0x50u8, 0x4bu8, 3u8, 4u8]);
}

proof fn lemma_last_end_record(file: Seq<u8>, p: int)
    requires
        p + 22 <= file.len(),
    ensures
        match last_end_record(file, p) {
            Some(q) => 0 <= q <= p && end_record_at(file, q) && forall|r: int| q < r <= p ==> !(#[trigger] end_record_at(file, r)),
            None => forall|r: int| 0 <= r <= p ==> !(#[trigger] end_record_at(file, r)),
        },
    decreases p + 1,
{
    if p >= 0 && !end_record_at(file, p) {
        lemma_last_end_record(file, p - 1);
    }
}

/// An end record stands at `at`: it is marked, and its comment reaches exactly
/// to the end of the file.
pub open spec fn ends_at(file: Seq<u8>, at: int) -> bool {
    0 <= at && at + 22 <= file.len() && marked(file, at, 5, 6) && at + 22 + number_at(file, at + 20, 2) == file.len()
}

proof fn lemma_ends_at(file: Seq<u8>, at: int)
    requires
        0 <= at,
        at + 22 <= file.len(),
    ensures
        ends_at(file, at) == end_record_at(file, at),
{
    if end_record_at(file, at) {
        assert(file.subrange(at, at + 4) =~= seq![0x50u8, 0x4bu8, 5u8, 6u8]);
    }
    if ends_at(file, at) {
        let s = file.subrange(at, at + 4);
        assert(s[0] == file[at] && s[1] == file[at + 1] && s[2] == file[at + 2] && s[3] == file[at + 3]);
    }
}

/// An archive is read by its directory, and only where that leaves no doubt.
/// The last end record of the file tells the directory: of one disk, of no
/// larger format, directly before it, with one entry for each member. Every
/// member is what its entry describes, in the directory's order.
pub proof fn law_members_are_what_the_directory_says(file: Seq<u8>) -> (found: (int, Seq<int>))
    requires
        zip_split_result(file) is Ok,
    ensures
        ({
            let ms = zip_split_result(file)->Ok_0.0;
            let (end, ats) = found;
            let size = number_at(file, end + 12, 4);
            let offset = number_at(file, end + 16, 4);
            &&& ends_at(file, end)
            &&& forall|p: int| end < p <= file.len() - 22 ==> !(#[trigger] ends_at(file, p))
            &&& number_at(file, end + 4, 2) == 0 && number_at(file, end + 6, 2) == 0
            &&& number_at(file, end + 8, 2) == ms.len() && number_at(file, end + 10, 2) == ms.len()
            &&& ms.len() != 0xFFFF && size != 0xFFFF_FFFF && offset != 0xFFFF_FFFF
            &&& size <= end && offset <= end - size
            &&& ats.len() == ms.len()
            &&& entries_stand(file, end - size, ats)
            &&& forall|i: int| 0 <= i < ms.len() ==> entry_describes(file, end - size - offset, #[trigger] ats[i], i as nat, ms[i])
        }),
{
    let end = last_end_record(file, file.len() - 22)->Some_0;
    lemma_last_end_record(file, file.len() - 22);
    lemma_ends_at(file, end);
    assert forall|p: int| end < p <= file.len() - 22 implies !(#[trigger] ends_at(file, p)) by {
        lemma_ends_at(file, p);
        assert(!end_record_at(file, p));
    }
    let size = u32_at(file, end + 12);
    let offset = u32_at(file, end + 16);
    let total = u16_at(file, end + 10);
    let ats = lemma_entries(file, end - size - offset, end - size, 0, total);
    (end, ats)
}

/// What is not a zip archive is refused: a file in which no end record stands.
pub proof fn law_no_end_record_no_archive(file: Seq<u8>)
    requires
        forall|p: int| 0 <= p ==> !(#[trigger] ends_at(file, p)),
    ensures
        zip_split_result(file) is Err,
{
    if file.len() >= 22 {
        lemma_last_end_record(file, file.len() - 22);
        if last_end_record(file, file.len() - 22) is Some {
            lemma_ends_at(file, last_end_record(file, file.len() - 22)->Some_0);
        }
    }
}

} // verus!
