//! The shared plan registry: plans live as system records inside the
//! database, so that any attached process can run a plan by its hash.
//!
//! A record is the SQL text, the plan's bytes and the transaction that used
//! it last; texts and bytes are preceded by their 32-bit lengths. Records live
//! in shared memory and are treated as hostile.

use vstd::prelude::*;
use vstd::slice::slice_subrange;
use vstd::utf8::{decode_utf8, encode_utf8, valid_utf8};
use crate::bytes::{begins, begins_with, bytes_at_most, copy_bytes, get_le, le_bytes, le_value, lemma_le_bytes_len, lemma_le_value_of_bytes, lemma_lex_total, lemma_lex_transitive, lemma_pow256_values, lex_le, put_bytes, put_le, same_bytes};
use crate::error::{Error, Fault, PlanHash, Result};
use crate::sort::{is_sorting, ranks, sorted_order, Ranked};
use crate::utf8::{checked_utf8, lemma_text_round_trip};

verus! {

/// Registry capacity: at most this many plans are kept.
pub const MAX_REGISTRY_PLANS: usize = 4096;

/// How many of the oldest plans one insert evicts when the registry is full.
pub const EVICT_BATCH: usize = 256;

/// `plan/`
pub open spec fn plan_prefix_bytes() -> Seq<u8> {
    seq![0x70u8, 0x6c, 0x61, 0x6e, 0x2f]
}

/// `plan0`, the first key past every `plan/…` key.
pub open spec fn plan_prefix_end_bytes() -> Seq<u8> {
    seq![0x70u8, 0x6c, 0x61, 0x6e, 0x30]
}

/// `plancount`
pub open spec fn plan_count_key_bytes() -> Seq<u8> {
    seq![0x70u8, 0x6c, 0x61, 0x6e, 0x63, 0x6f, 0x75, 0x6e, 0x74]
}

/// The prefix of the plan family's keys.
pub fn plan_prefix() -> (r: [u8; 5])
    ensures
        r@ == plan_prefix_bytes(),
{
    let r = [0x70u8, 0x6c, 0x61, 0x6e, 0x2f];
    proof {
        assert(r@ =~= plan_prefix_bytes());
    }
    r
}

/// The exclusive upper bound of a scan over the plan family.
pub fn plan_prefix_end() -> (r: [u8; 5])
    ensures
        r@ == plan_prefix_end_bytes(),
{
    let r = [0x70u8, 0x6c, 0x61, 0x6e, 0x30];
    proof {
        assert(r@ =~= plan_prefix_end_bytes());
    }
    r
}

/// The key of the registry's entry counter, outside the plan family.
pub fn plan_count_key() -> (r: [u8; 9])
    ensures
        r@ == plan_count_key_bytes(),
{
    let r = [0x70u8, 0x6c, 0x61, 0x6e, 0x63, 0x6f, 0x75, 0x6e, 0x74];
    proof {
        assert(r@ =~= plan_count_key_bytes());
    }
    r
}

/// The key of a plan's record.
pub fn plan_subkey(hash: &PlanHash) -> (k: Vec<u8>)
    ensures
        k@ == plan_prefix_bytes() + hash@,
{
    let mut k: Vec<u8> = Vec::with_capacity(37);
    put_bytes(&mut k, plan_prefix().as_slice());
    put_bytes(&mut k, hash.0.as_slice());
    proof {
        assert(k@ =~= plan_prefix_bytes() + hash@);
    }
    k
}

/// The record of a plan.
pub struct Record<'a> {
    pub sql: &'a str,
    pub blob: &'a [u8],
    pub last_used_txn: u64,
}

/// The bytes of a record.
pub open spec fn record_bytes(sql: Seq<char>, blob: Seq<u8>, last_used: nat) -> Seq<u8> {
    let text = encode_utf8(sql);
    le_bytes(text.len(), 4) + text + le_bytes(blob.len(), 4) + blob + le_bytes(last_used, 8)
}

/// The SQL text, plan bytes and last use that a record holds; `None` when the
/// bytes are no record.
pub open spec fn record_parsed(b: Seq<u8>) -> Option<(Seq<char>, Seq<u8>, nat)> {
    if b.len() < 4 {
        None
    } else {
        let n = le_value(b.subrange(0, 4)) as int;
        if b.len() < 8 + n || !valid_utf8(b.subrange(4, 4 + n)) {
            None
        } else {
            let m = le_value(b.subrange(4 + n, 8 + n)) as int;
            if b.len() != 16 + n + m {
                None
            } else {
                Some(
                    (
                        decode_utf8(b.subrange(4, 4 + n)),
                        b.subrange(8 + n, 8 + n + m),
                        le_value(b.subrange(8 + n + m, 16 + n + m)),
                    ),
                )
            }
        }
    }
}

/// Write a record. Lengths are kept in 32 bits.
pub fn encode_record(sql: &str, blob: &[u8], last_used_txn: u64) -> (out: Vec<u8>)
    ensures
        out@ == record_bytes(sql@, blob@, last_used_txn as nat),
{
    let text = sql.as_bytes();
    let mut out: Vec<u8> = Vec::with_capacity(16);
    put_le(&mut out, text.len() as u64, 4);
    put_bytes(&mut out, text);
    put_le(&mut out, blob.len() as u64, 4);
    put_bytes(&mut out, blob);
    put_le(&mut out, last_used_txn, 8);
    proof {
        assert(out@ =~= record_bytes(sql@, blob@, last_used_txn as nat));
    }
    out
}

/// Bounds-checked parse of a record.
pub fn parse_record(bytes: &[u8]) -> (r: Option<Record<'_>>)
    ensures
        match r {
            Some(rec) => record_parsed(bytes@) == Some((rec.sql@, rec.blob@, rec.last_used_txn as nat)),
            None => record_parsed(bytes@) is None,
        },
{
    if bytes.len() < 4 {
        return None;
    }
    let n: u64 = get_le(bytes, 0, 4);
    if ((bytes.len() - 4) as u64) < n {
        return None;
    }
    let sql_end: usize = 4 + n as usize;
    let text = slice_subrange(bytes, 4, sql_end);
    let sql = match checked_utf8(text) {
        Some(s) => s,
        None => {
            return None;
        },
    };
    if bytes.len() - sql_end < 4 {
        return None;
    }
    let m: u64 = get_le(bytes, sql_end, 4);
    let blob_at: usize = sql_end + 4;
    if ((bytes.len() - blob_at) as u64) < m {
        return None;
    }
    let blob_end: usize = blob_at + m as usize;
    let blob = slice_subrange(bytes, blob_at, blob_end);
    if bytes.len() - blob_end != 8 {
        return None;
    }
    let last_used_txn: u64 = get_le(bytes, blob_end, 8);
    Some(Record { sql, blob, last_used_txn })
}

/// A copy of a record with the last use replaced; `None` when the bytes are no
/// record.
pub fn patched_last_used(bytes: &[u8], last_used_txn: u64) -> (r: Option<Vec<u8>>)
    ensures
        match r {
            Some(v) => record_parsed(bytes@) is Some && v@ == bytes@.take(bytes@.len() - 8) + le_bytes(
                last_used_txn as nat,
                8,
            ),
            None => record_parsed(bytes@) is None,
        },
{
    if parse_record(bytes).is_none() {
        return None;
    }
    let mut out = copy_bytes(slice_subrange(bytes, 0, bytes.len() - 8));
    put_le(&mut out, last_used_txn, 8);
    proof {
        assert(bytes@.subrange(0, bytes@.len() - 8) =~= bytes@.take(bytes@.len() - 8));
    }
    Some(out)
}

/// How decoding a plan's bytes against the live schema ended.
pub enum Decoded {
    /// A valid plan with this content hash.
    Plan(PlanHash),
    /// The schema changed since the plan was compiled.
    Invalidated,
    /// Not a plan.
    Rejected,
}

/// Load a plan from its record: only bytes that decode, and whose content
/// hash is the requested one, are accepted. A schema change is reported as
/// such; every other failure is an unknown plan.
pub fn decode_registry_plan<F: Fn(&[u8]) -> Decoded>(record: &[u8], hash: &PlanHash, decode: F) -> (r: Result<()>)
    requires
        forall|b: &[u8]| call_requires(decode, (b,)),
    ensures
        match record_parsed(record@) {
            None => r is Err && r->Err_0@ == Fault::UnknownPlan(hash@),
            Some((_, blob, _)) => exists|b: &[u8], d: Decoded|
                b@ == blob && #[trigger] call_ensures(decode, (b,), d) && load_verdict(d, hash@, r),
        },
{
    match parse_record(record) {
        None => Err(Error::UnknownPlan(*hash)),
        Some(rec) => {
            let d = decode(rec.blob);
            let ghost d0 = d;
            let r = judge_decoded(d, hash);
            proof {
                assert(call_ensures(decode, (rec.blob,), d0));
            }
            r
        },
    }
}

/// What a load answers for each outcome of the decoding.
pub open spec fn load_verdict(d: Decoded, hash: Seq<u8>, r: Result<()>) -> bool {
    match d {
        Decoded::Plan(h) => if h@ == hash { r is Ok } else { r is Err && r->Err_0@ == Fault::UnknownPlan(hash) },
        Decoded::Invalidated => r is Err && r->Err_0@ == Fault::PlanInvalidated,
        Decoded::Rejected => r is Err && r->Err_0@ == Fault::UnknownPlan(hash),
    }
}

/// Whether a decoded plan is the one that was asked for.
pub fn judge_decoded(d: Decoded, hash: &PlanHash) -> (r: Result<()>)
    ensures
        load_verdict(d, hash@, r),
{
    match d {
        Decoded::Plan(h) => {
            if same_bytes(h.0.as_slice(), hash.0.as_slice()) {
                Ok(())
            } else {
                Err(Error::UnknownPlan(*hash))
            }
        },
        Decoded::Invalidated => Err(Error::PlanInvalidated),
        Decoded::Rejected => Err(Error::UnknownPlan(*hash)),
    }
}

/// What publishing a plan has to do.
pub enum Publish {
    /// An identical record is there: nothing.
    Keep,
    /// Overwrite the record in place; the entry count does not move.
    Overwrite(Vec<u8>),
    /// Make room, write the record, count it.
    Insert(Vec<u8>),
}

/// Decide how to publish a plan, given the record now under its key.
pub fn insert_plan(existing: Option<&[u8]>, sql: &str, blob: &[u8], txn_id: u64) -> (r: Publish)
    requires
        txn_id < u64::MAX,
    ensures
        match r {
            Publish::Keep => existing is Some && record_parsed(existing->Some_0@) is Some
                && record_parsed(existing->Some_0@)->Some_0.1 == blob@,
            Publish::Overwrite(v) => existing is Some && v@ == record_bytes(sql@, blob@, (txn_id + 1) as nat)
                && (record_parsed(existing->Some_0@) is Some ==> record_parsed(existing->Some_0@)->Some_0.1 != blob@),
            Publish::Insert(v) => existing is None && v@ == record_bytes(sql@, blob@, (txn_id + 1) as nat),
        },
{
    match existing {
        None => Publish::Insert(encode_record(sql, blob, txn_id + 1)),
        Some(cur) => {
            if let Some(rec) = parse_record(cur) {
                if same_bytes(rec.blob, blob) {
                    return Publish::Keep;
                }
            }
            Publish::Overwrite(encode_record(sql, blob, txn_id + 1))
        },
    }
}

/// The number of entries that a counter record states, where it is well formed
/// and below the cap. Anything else has to be recounted.
pub fn make_room(counter: Option<&[u8]>) -> (r: Option<u64>)
    ensures
        match r {
            Some(n) => counter is Some && counter->Some_0@.len() == 8 && n == le_value(counter->Some_0@) && n < MAX_REGISTRY_PLANS,
            None => counter is Some && counter->Some_0@.len() == 8 ==> le_value(counter->Some_0@) >= MAX_REGISTRY_PLANS,
        },
{
    match counter {
        None => None,
        Some(b) => {
            if b.len() != 8 {
                return None;
            }
            let n: u64 = get_le(b, 0, 8);
            proof {
                assert(b@.subrange(0, 8) =~= b@);
            }
            if n < MAX_REGISTRY_PLANS as u64 {
                Some(n)
            } else {
                None
            }
        },
    }
}

// ------------------------------------------------------------ eviction

/// The age of an entry: its last use, if its record can be read, and its key.
struct Age {
    last_used: Option<u64>,
    key: Vec<u8>,
}

/// Older entries first; entries of the same age by key.
pub open spec fn age_le(a: (nat, Seq<u8>), b: (nat, Seq<u8>)) -> bool {
    a.0 < b.0 || (a.0 == b.0 && lex_le(a.1, b.1))
}

impl Ranked for Age {
    type Rank = (nat, Seq<u8>);

    closed spec fn rank(self) -> (nat, Seq<u8>) {
        match self.last_used {
            Some(t) => ((t + 1) as nat, self.key@),
            None => (0, self.key@),
        }
    }

    closed spec fn le(a: (nat, Seq<u8>), b: (nat, Seq<u8>)) -> bool {
        age_le(a, b)
    }

    proof fn total(a: (nat, Seq<u8>), b: (nat, Seq<u8>)) {
        lemma_lex_total(a.1, b.1);
    }

    proof fn transitive(a: (nat, Seq<u8>), b: (nat, Seq<u8>), c: (nat, Seq<u8>)) {
        if a.0 == b.0 && b.0 == c.0 {
            lemma_lex_transitive(a.1, b.1, c.1);
        }
    }

    fn at_most(&self, other: &Age) -> (r: bool) {
        match (self.last_used, other.last_used) {
            (None, Some(_)) => true,
            (Some(_), None) => false,
            (None, None) => bytes_at_most(self.key.as_slice(), other.key.as_slice()),
            (Some(a), Some(b)) => a < b || (a == b && bytes_at_most(self.key.as_slice(), other.key.as_slice())),
        }
    }
}

/// The age of a scanned entry; a malformed record is older than any other.
pub open spec fn entry_age(entry: (Vec<u8>, Vec<u8>)) -> (nat, Seq<u8>) {
    match record_parsed(entry.1@) {
        Some((_, _, last_used)) => (last_used + 1, entry.0@),
        None => (0, entry.0@),
    }
}

/// The ages of the plan entries of a scan, in scan order.
pub open spec fn plan_ages(entries: Seq<(Vec<u8>, Vec<u8>)>) -> Seq<(nat, Seq<u8>)>
    decreases entries.len(),
{
    if entries.len() == 0 {
        Seq::empty()
    } else if begins(entries.last().0@, plan_prefix_bytes()) {
        plan_ages(entries.drop_last()).push(entry_age(entries.last()))
    } else {
        plan_ages(entries.drop_last())
    }
}

/// `order` lists the indices of `ages`, each once, oldest first.
pub open spec fn oldest_first(ages: Seq<(nat, Seq<u8>)>, order: Seq<usize>) -> bool {
    &&& order.len() == ages.len()
    &&& forall|a: int| 0 <= a < order.len() ==> #[trigger] order[a] < ages.len()
    &&& forall|a: int, b: int| 0 <= a < b < order.len() ==> #[trigger] order[a] != #[trigger] order[b] && age_le(ages[order[a] as int], ages[order[b] as int])
}

/// What a recount of the registry has to delete.
pub struct Eviction {
    /// How many plan entries there are.
    pub found: usize,
    /// The keys to delete.
    pub victims: Vec<Vec<u8>>,
}

/// How many of `found` entries an eviction leaves.
pub open spec fn kept(found: nat) -> nat {
    if found >= MAX_REGISTRY_PLANS {
        (found - EVICT_BATCH) as nat
    } else {
        found
    }
}

/// When the registry holds [`MAX_REGISTRY_PLANS`] entries or more, pick the
/// [`EVICT_BATCH`] oldest; entries whose record is malformed come first.
pub fn evict_if_full(entries: &Vec<(Vec<u8>, Vec<u8>)>) -> (r: Eviction)
    ensures
        r.found == plan_ages(entries@).len(),
        r.found - r.victims@.len() == kept(r.found as nat),
        r.found < MAX_REGISTRY_PLANS ==> r.victims@.len() == 0,
        r.found >= MAX_REGISTRY_PLANS ==> exists|order: Seq<usize>| #[trigger]
            oldest_first(plan_ages(entries@), order) && r.victims@.len() == EVICT_BATCH && forall|i: int|
                0 <= i < EVICT_BATCH ==> (#[trigger] r.victims@[i])@ == plan_ages(entries@)[order[i] as int].1,
{
    let prefix = plan_prefix();
    let mut ages: Vec<Age> = Vec::new();
    let mut i: usize = 0;
    proof {
        assert(entries@.take(0) =~= Seq::<(Vec<u8>, Vec<u8>)>::empty());
        assert(ranks(ages@) =~= Seq::<(nat, Seq<u8>)>::empty());
    }
    while i < entries.len()
        invariant
            i <= entries@.len(),
            prefix@ == plan_prefix_bytes(),
            ranks(ages@) == plan_ages(entries@.take(i as int)),
        decreases entries@.len() - i,
    {
        proof {
            assert(entries@.take(i + 1).drop_last() =~= entries@.take(i as int));
            assert(entries@.take(i + 1).last() == entries@[i as int]);
        }
        let entry = &entries[i];
        if begins_with(entry.0.as_slice(), prefix.as_slice()) {
            let last_used: Option<u64> = match parse_record(entry.1.as_slice()) {
                Some(rec) => Some(rec.last_used_txn),
                None => None,
            };
            let ghost prev = ages@;
            let age = Age { last_used, key: copy_bytes(entry.0.as_slice()) };
            ages.push(age);
            proof {
                assert(ranks(ages@) =~= ranks(prev).push(age.rank()));
            }
        }
        i += 1;
    }
    proof {
        assert(entries@.take(i as int) =~= entries@);
    }
    let found: usize = ages.len();
    let mut victims: Vec<Vec<u8>> = Vec::new();
    if found >= MAX_REGISTRY_PLANS {
        let order = sorted_order(ages.as_slice());
        proof {
            lemma_oldest_first(ages@, order@);
        }
        let mut k: usize = 0;
        while k < EVICT_BATCH
            invariant
                k <= EVICT_BATCH,
                victims@.len() == k,
                order@.len() == ages@.len(),
                ages@.len() >= MAX_REGISTRY_PLANS,
                ranks(ages@) == plan_ages(entries@),
                forall|a: int| 0 <= a < order@.len() ==> #[trigger] order@[a] < ages@.len(),
                forall|j: int| 0 <= j < k ==> (#[trigger] victims@[j])@ == plan_ages(entries@)[order@[j] as int].1,
            decreases EVICT_BATCH - k,
        {
            let at: usize = order[k];
            let key = copy_bytes(ages[at].key.as_slice());
            proof {
                assert(ranks(ages@)[at as int] == ages@[at as int].rank());
            }
            victims.push(key);
            k += 1;
        }
        proof {
            assert(oldest_first(plan_ages(entries@), order@));
        }
    }
    Eviction { found, victims }
}

proof fn lemma_oldest_first(ages: Seq<Age>, order: Seq<usize>)
    requires
        is_sorting::<Age>(ranks(ages), order),
    ensures
        oldest_first(ranks(ages), order),
{
    let rs = ranks(ages);
    assert forall|a: int, b: int| 0 <= a < b < order.len() implies #[trigger] order[a] != #[trigger] order[b] && age_le(rs[order[a] as int], rs[order[b] as int]) by {
        assert(crate::sort::before::<Age>(rs, order[a] as int, order[b] as int));
        <Age as Ranked>::total(rs[order[a] as int], rs[order[b] as int]);
    }
}

// ---------------------------------------------------------------- laws

/// The registry is capped: one that holds no more than the cap still does once
/// a plan has been added behind an eviction.
pub proof fn law_registry_capped(found: nat)
    requires
        found <= MAX_REGISTRY_PLANS,
    ensures
        kept(found) + 1 <= MAX_REGISTRY_PLANS,
{
}

/// An entry whose record cannot be read is evicted before any other, and of
/// two that can be read the one that was used longer ago.
pub proof fn law_eviction_order(a: (Vec<u8>, Vec<u8>), b: (Vec<u8>, Vec<u8>))
    requires
        record_parsed(b.1@) is Some,
        record_parsed(a.1@) is None || record_parsed(a.1@)->Some_0.2 < record_parsed(b.1@)->Some_0.2,
    ensures
        age_le(entry_age(a), entry_age(b)),
        !age_le(entry_age(b), entry_age(a)),
{
}

/// Parsing a record gives back what was written, for texts and plans whose
/// lengths fit in 32 bits.
pub proof fn law_record_round_trip(sql: Seq<char>, blob: Seq<u8>, last_used: u64)
    requires
        encode_utf8(sql).len() <= u32::MAX,
        blob.len() <= u32::MAX,
    ensures
        record_parsed(record_bytes(sql, blob, last_used as nat)) == Some((sql, blob, last_used as nat)),
{
    let b = record_bytes(sql, blob, last_used as nat);
    let text = encode_utf8(sql);
    let n = text.len() as int;
    let m = blob.len() as int;
    lemma_pow256_values();
    lemma_text_round_trip(sql);
    lemma_le_bytes_len(text.len(), 4);
    lemma_le_bytes_len(blob.len(), 4);
    lemma_le_bytes_len(last_used as nat, 8);
    lemma_le_value_of_bytes(text.len(), 4);
    lemma_le_value_of_bytes(blob.len(), 4);
    lemma_le_value_of_bytes(last_used as nat, 8);
    assert(b.subrange(0, 4) =~= le_bytes(text.len(), 4));
    assert(b.subrange(4, 4 + n) =~= text);
    assert(b.subrange(4 + n, 8 + n) =~= le_bytes(blob.len(), 4));
    assert(b.subrange(8 + n, 8 + n + m) =~= blob);
    assert(b.subrange(8 + n + m, 16 + n + m) =~= le_bytes(last_used as nat, 8));
}

/// A record that lost bytes at its end, or that bytes were added to, is none.
pub proof fn law_record_exact_fill(b: Seq<u8>, cut: int, extra: Seq<u8>)
    requires
        record_parsed(b) is Some,
        0 <= cut < b.len(),
        extra.len() > 0,
    ensures
        record_parsed(b.take(cut)) is None,
        record_parsed(b + extra) is None,
{
    let n = le_value(b.subrange(0, 4)) as int;
    let t = b.take(cut);
    let l = b + extra;
    assert(l.subrange(0, 4) =~= b.subrange(0, 4));
    assert(l.subrange(4 + n, 8 + n) =~= b.subrange(4 + n, 8 + n));
    if cut >= 4 {
        assert(t.subrange(0, 4) =~= b.subrange(0, 4));
        if cut >= 8 + n {
            assert(t.subrange(4 + n, 8 + n) =~= b.subrange(4 + n, 8 + n));
        }
    }
}

/// Patching the last use of a record keeps its text and plan.
pub proof fn law_patch_keeps_plan(b: Seq<u8>, last_used: u64)
    requires
        record_parsed(b) is Some,
    ensures
        ({
            let (sql, blob, _) = record_parsed(b)->Some_0;
            record_parsed(b.take(b.len() - 8) + le_bytes(last_used as nat, 8)) == Some(
                (sql, blob, last_used as nat),
            )
        }),
{
    let p = b.take(b.len() - 8) + le_bytes(last_used as nat, 8);
    let n = le_value(b.subrange(0, 4)) as int;
    let m = le_value(b.subrange(4 + n, 8 + n)) as int;
    lemma_pow256_values();
    lemma_le_bytes_len(last_used as nat, 8);
    lemma_le_value_of_bytes(last_used as nat, 8);
    assert(p.subrange(0, 4) =~= b.subrange(0, 4));
    assert(p.subrange(4, 4 + n) =~= b.subrange(4, 4 + n));
    assert(p.subrange(4 + n, 8 + n) =~= b.subrange(4 + n, 8 + n));
    assert(p.subrange(8 + n, 8 + n + m) =~= b.subrange(8 + n, 8 + n + m));
    assert(p.subrange(8 + n + m, 16 + n + m) =~= le_bytes(last_used as nat, 8));
}

proof fn lemma_lex_first_difference(a: Seq<u8>, b: Seq<u8>, i: int)
    requires
        0 <= i < a.len(),
        i < b.len(),
        a.take(i) == b.take(i),
        a[i] != b[i],
    ensures
        lex_le(a, b) == (a[i] < b[i]),
    decreases i,
{
    if i > 0 {
        assert(a.take(i)[0] == a[0] && b.take(i)[0] == b[0]);
        assert(a.drop_first().take(i - 1) =~= b.drop_first().take(i - 1)) by {
            assert forall|k: int| 0 <= k < i - 1 implies a.drop_first()[k] == b.drop_first()[k] by {
                assert(a.take(i)[k + 1] == a[k + 1] && b.take(i)[k + 1] == b[k + 1]);
            }
        }
        lemma_lex_first_difference(a.drop_first(), b.drop_first(), i - 1);
    }
}

/// A scan over the plan family meets the record of every hash, and never the
/// entry counter.
pub proof fn law_plan_family_bounds(hash: Seq<u8>)
    ensures
        lex_le(plan_prefix_bytes(), plan_prefix_bytes() + hash),
        !lex_le(plan_prefix_end_bytes(), plan_prefix_bytes() + hash),
        lex_le(plan_prefix_end_bytes(), plan_count_key_bytes()),
        !begins(plan_count_key_bytes(), plan_prefix_bytes()),
{
    let p = plan_prefix_bytes();
    let e = plan_prefix_end_bytes();
    let c = plan_count_key_bytes();
    lemma_prefix_lex(p, hash);
    assert(e.take(4) =~= (p + hash).take(4));
    lemma_lex_first_difference(e, p + hash, 4);
    assert(e.take(4) =~= c.take(4));
    lemma_lex_first_difference(e, c, 4);
    assert(c.take(5)[4] == 0x63);
    assert(p[4] == 0x2f);
}

proof fn lemma_prefix_lex(p: Seq<u8>, s: Seq<u8>)
    ensures
        lex_le(p, p + s),
    decreases p.len(),
{
    if p.len() > 0 {
        assert((p + s).drop_first() =~= p.drop_first() + s);
        lemma_prefix_lex(p.drop_first(), s);
    }
}

/// Only plans are counted and evicted, and all of them are: an age belongs to
/// an entry in the plans' part of the keyspace, and every such entry has one.
pub proof fn law_every_plan_has_an_age(entries: Seq<(Vec<u8>, Vec<u8>)>)
    ensures
        forall|i: int|
            0 <= i < entries.len() && begins((#[trigger] entries[i]).0@, plan_prefix_bytes()) ==> plan_ages(entries).contains(
                entry_age(entries[i]),
            ),
        forall|k: int|
            0 <= k < plan_ages(entries).len() ==> exists|i: int|
                0 <= i < entries.len() && begins((#[trigger] entries[i]).0@, plan_prefix_bytes()) && entry_age(entries[i])
                    == #[trigger] plan_ages(entries)[k],
        plan_ages(entries).len() <= entries.len(),
        (forall|i: int| 0 <= i < entries.len() ==> begins((#[trigger] entries[i]).0@, plan_prefix_bytes())) ==> plan_ages(entries).len()
            == entries.len(),
    decreases entries.len(),
{
    if entries.len() > 0 {
        let before = entries.drop_last();
        law_every_plan_has_an_age(before);
        let (ages, all) = (plan_ages(before), plan_ages(entries));
        assert forall|i: int| 0 <= i < entries.len() && begins((#[trigger] entries[i]).0@, plan_prefix_bytes()) implies all.contains(
            entry_age(entries[i]),
        ) by {
            if i < before.len() {
                assert(before[i] == entries[i]);
                let k = ages.index_of(entry_age(entries[i]));
                assert(all[k] == ages[k]);
            } else {
                assert(all[ages.len() as int] == entry_age(entries[i]));
            }
        }
        assert forall|k: int| 0 <= k < all.len() implies exists|i: int|
            0 <= i < entries.len() && begins((#[trigger] entries[i]).0@, plan_prefix_bytes()) && entry_age(entries[i]) == #[trigger] all[k] by {
            if k < ages.len() {
                assert(all[k] == ages[k]);
                let i = choose|i: int|
                    0 <= i < before.len() && begins((#[trigger] before[i]).0@, plan_prefix_bytes()) && entry_age(before[i]) == ages[k];
                assert(entries[i] == before[i]);
            } else {
                assert(entries[entries.len() - 1] == entries.last());
            }
        }
        if forall|i: int| 0 <= i < entries.len() ==> begins((#[trigger] entries[i]).0@, plan_prefix_bytes()) {
            assert(begins(entries[entries.len() - 1].0@, plan_prefix_bytes()));
            assert forall|i: int| 0 <= i < before.len() implies begins((#[trigger] before[i]).0@, plan_prefix_bytes()) by {
                assert(before[i] == entries[i]);
            }
        }
    }
}

/// Nothing is evicted before the registry is full; then a fixed number goes.
pub proof fn law_eviction_size(found: nat)
    ensures
        found < 4096 ==> kept(found) == found,
        found >= 4096 ==> kept(found) + 256 == found,
{
}

/// Whatever stays was used no longer ago than what goes: of the ages in the
/// order of eviction, none of the first `n` is younger than one behind them.
pub proof fn law_youngest_stay(ages: Seq<(nat, Seq<u8>)>, order: Seq<usize>, n: int, goes: int, stays: int)
    requires
        oldest_first(ages, order),
        0 <= goes < n <= stays < order.len(),
    ensures
        ages[order[goes] as int].0 <= ages[order[stays] as int].0,
        order[goes] != order[stays],
{
    assert(order[goes] != order[stays] && age_le(ages[order[goes] as int], ages[order[stays] as int]));
}

/// Where everything stands in a record: the text and the plan, each behind its
/// length, and when it was last used.
pub proof fn law_record_places(sql: Seq<char>, blob: Seq<u8>, last_used: u64)
    ensures
        ({
            let b = record_bytes(sql, blob, last_used as nat);
            let n = encode_utf8(sql).len() as int;
            let m = blob.len() as int;
            &&& b.len() == 16 + n + m
            &&& b.subrange(0, 4) == le_bytes(encode_utf8(sql).len(), 4)
            &&& b.subrange(4, 4 + n) == encode_utf8(sql)
            &&& b.subrange(4 + n, 8 + n) == le_bytes(blob.len(), 4)
            &&& b.subrange(8 + n, 8 + n + m) == blob
            &&& b.skip(8 + n + m) == le_bytes(last_used as nat, 8)
        }),
{
    let b = record_bytes(sql, blob, last_used as nat);
    let n = encode_utf8(sql).len() as int;
    let m = blob.len() as int;
    crate::bytes::lemma_le_bytes_len(encode_utf8(sql).len(), 4);
    crate::bytes::lemma_le_bytes_len(blob.len(), 4);
    crate::bytes::lemma_le_bytes_len(last_used as nat, 8);
    assert(b.subrange(0, 4) =~= le_bytes(encode_utf8(sql).len(), 4));
    assert(b.subrange(4, 4 + n) =~= encode_utf8(sql));
    assert(b.subrange(4 + n, 8 + n) =~= le_bytes(blob.len(), 4));
    assert(b.subrange(8 + n, 8 + n + m) =~= blob);
    assert(b.skip(8 + n + m) =~= le_bytes(last_used as nat, 8));
}

/// A loaded plan is run only where it is the plan that was asked for: what is
/// stored decodes, and to that very hash. A schema that moved on is told apart
/// from a plan that is not there.
pub proof fn law_only_the_asked_plan_runs(d: Decoded, hash: Seq<u8>, r: Result<()>)
    requires
        load_verdict(d, hash, r),
    ensures
        r is Ok <==> (d matches Decoded::Plan(h) && h@ == hash),
        r matches Err(e) ==> (e@ == Fault::PlanInvalidated <==> d is Invalidated) && (!(d is Invalidated) ==> e@ == Fault::UnknownPlan(hash)),
{
}

} // verus!
