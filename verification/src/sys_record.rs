//! Records of tools and extensions in the shared system keyspace, each in a
//! namespace: the key is the namespace, a zero byte, and the record's own key.

use vstd::prelude::*;
use vstd::string::StringExecFns;
use vstd::utf8::encode_utf8;
use crate::bytes::{begins, begins_with, copy_bytes, lex_le, put_bytes};
use crate::error::{Error, Fault, Result};
use crate::registry::{plan_prefix, plan_prefix_bytes};
use crate::text::{debug_str, dec, numbered, str_debug};
use crate::utf8::lemma_text_round_trip;

verus! {

pub const SYS_RECORD_MAX_NS: usize = 64;

pub const SYS_RECORD_MAX_KEY: usize = 1024;

pub const SYS_RECORD_MAX_VALUE: usize = 1 << 20;

/// A namespace is 1 to 64 bytes without a zero byte, and none of the plan
/// registry's: it does not begin like the key of a stored plan.
pub open spec fn ns_ok(ns: Seq<char>) -> bool {
    ns_shaped(ns) && !begins(encode_utf8(ns), plan_prefix_bytes())
}

/// A name is 1 to 64 bytes without a zero byte.
pub open spec fn ns_shaped(ns: Seq<char>) -> bool {
    let b = encode_utf8(ns);
    1 <= b.len() <= SYS_RECORD_MAX_NS && !b.contains(0u8)
}

/// Why a namespace is refused.
pub open spec fn ns_fault(ns: Seq<char>) -> Fault {
    if !ns_shaped(ns) {
        Fault::Unsupported("system record namespace must be 1..=64 NUL-free bytes, got "@ + str_debug(ns))
    } else {
        Fault::Unsupported("system record namespace must not begin with `plan/`, which holds the plan registry, got "@ + str_debug(ns))
    }
}

/// Why a record cannot have a key.
pub open spec fn key_fault(ns: Seq<char>, key: Seq<u8>) -> Option<Fault> {
    if !ns_ok(ns) {
        Some(ns_fault(ns))
    } else if key.len() == 0 || key.len() > SYS_RECORD_MAX_KEY {
        Some(Fault::Unsupported("system record key must be 1..=1024 bytes, got "@ + dec(key.len()) + " bytes"@))
    } else {
        None
    }
}

/// What every key of a namespace begins with.
pub open spec fn ns_prefix(ns: Seq<char>) -> Seq<u8> {
    encode_utf8(ns).push(0)
}

/// The key of a record.
pub open spec fn record_key(ns: Seq<char>, key: Seq<u8>) -> Seq<u8> {
    ns_prefix(ns) + key
}

/// Check a namespace.
pub fn check_sys_ns(ns: &str) -> (r: Result<()>)
    ensures
        match r {
            Ok(_) => ns_ok(ns@),
            Err(e) => !ns_ok(ns@) && e@ == ns_fault(ns@),
        },
{
    let b = ns.as_bytes();
    let mut bad = b.len() == 0 || b.len() > SYS_RECORD_MAX_NS;
    let mut i: usize = 0;
    while i < b.len() && !bad
        invariant
            i <= b@.len(),
            b@ == encode_utf8(ns@),
            bad ==> !ns_shaped(ns@),
            !bad ==> 1 <= b@.len() <= SYS_RECORD_MAX_NS && forall|j: int| 0 <= j < i ==> #[trigger] b@[j] != 0,
        decreases b@.len() - i,
    {
        if b[i] == 0 {
            assert(b@[i as int] == 0u8);
            assert(encode_utf8(ns@).contains(0u8));
            bad = true;
        }
        i += 1;
    }
    if bad {
        let mut m = String::from_str("system record namespace must be 1..=64 NUL-free bytes, got ");
        let d = debug_str(ns);
        m.append(d.as_str());
        return Err(Error::Unsupported(m));
    }
    let prefix = plan_prefix();
    if begins_with(b, prefix.as_slice()) {
        let mut m = String::from_str("system record namespace must not begin with `plan/`, which holds the plan registry, got ");
        let d = debug_str(ns);
        m.append(d.as_str());
        return Err(Error::Unsupported(m));
    }
    Ok(())
}

/// The key of a record.
pub fn sys_record_subkey(ns: &str, key: &[u8]) -> (r: Result<Vec<u8>>)
    ensures
        match r {
            Ok(k) => key_fault(ns@, key@) is None && k@ == record_key(ns@, key@) && !begins(k@, plan_prefix_bytes()),
            Err(e) => key_fault(ns@, key@) == Some(e@),
        },
{
    match check_sys_ns(ns) {
        Err(e) => {
            return Err(e);
        },
        Ok(_) => {},
    }
    if key.len() == 0 || key.len() > SYS_RECORD_MAX_KEY {
        return Err(
            Error::Unsupported(numbered("system record key must be 1..=1024 bytes, got ", key.len() as u128, " bytes")),
        );
    }
    let mut k: Vec<u8> = Vec::new();
    put_bytes(&mut k, ns.as_bytes());
    k.push(0);
    put_bytes(&mut k, key);
    proof {
        assert(k@ =~= record_key(ns@, key@));
        law_records_clear_of_plans(ns@, key@);
    }
    Ok(k)
}

/// A value is at most a mebibyte long.
pub fn value_gate(len: usize) -> (r: Result<()>)
    ensures
        match r {
            Ok(_) => len <= SYS_RECORD_MAX_VALUE,
            Err(e) => len > SYS_RECORD_MAX_VALUE && e@ == Fault::Unsupported(
                "system record value too large ("@ + dec(len as nat) + " > 1048576 bytes)"@,
            ),
        },
{
    if len > SYS_RECORD_MAX_VALUE {
        return Err(
            Error::Unsupported(numbered("system record value too large (", len as u128, " > 1048576 bytes)")),
        );
    }
    Ok(())
}

pub open spec fn entry_views(v: Seq<(Vec<u8>, Vec<u8>)>) -> Seq<(Seq<u8>, Seq<u8>)> {
    v.map_values(|e: (Vec<u8>, Vec<u8>)| (e.0@, e.1@))
}

/// The records of a namespace among the entries of a scan, by their own keys.
pub open spec fn namespace_records(all: Seq<(Seq<u8>, Seq<u8>)>, prefix: Seq<u8>) -> Seq<(Seq<u8>, Seq<u8>)>
    decreases all.len(),
{
    if all.len() == 0 {
        Seq::empty()
    } else {
        let done = namespace_records(all.drop_last(), prefix);
        if begins(all.last().0, prefix) {
            done.push((all.last().0.skip(prefix.len() as int), all.last().1))
        } else {
            done
        }
    }
}

fn strip(all: &Vec<(Vec<u8>, Vec<u8>)>, prefix: &Vec<u8>) -> (r: Vec<(Vec<u8>, Vec<u8>)>)
    ensures
        entry_views(r@) == namespace_records(entry_views(all@), prefix@),
{
    let mut out: Vec<(Vec<u8>, Vec<u8>)> = Vec::new();
    let ghost vs = entry_views(all@);
    let mut i: usize = 0;
    proof {
        assert(vs.take(0) =~= Seq::<(Seq<u8>, Seq<u8>)>::empty());
        assert(entry_views(out@) =~= namespace_records(vs.take(0), prefix@));
    }
    while i < all.len()
        invariant
            i <= all@.len(),
            vs == entry_views(all@),
            entry_views(out@) == namespace_records(vs.take(i as int), prefix@),
        decreases all@.len() - i,
    {
        proof {
            assert(vs.take(i + 1).drop_last() =~= vs.take(i as int));
            assert(vs.take(i + 1).last() == vs[i as int]);
        }
        let key = all[i].0.as_slice();
        if begins_with(key, prefix.as_slice()) {
            let own = copy_bytes(vstd::slice::slice_subrange(key, prefix.len(), key.len()));
            let value = copy_bytes(all[i].1.as_slice());
            let ghost prev = out@;
            out.push((own, value));
            proof {
                assert(key@.subrange(prefix@.len() as int, key@.len() as int) =~= key@.skip(prefix@.len() as int));
                assert(entry_views(out@) =~= entry_views(prev).push((own@, value@)));
            }
        }
        i += 1;
    }
    proof {
        assert(vs.take(i as int) =~= vs);
    }
    out
}

/// The records of a namespace among the entries of a scan of the whole
/// keyspace, in the order of the scan.
pub fn sys_record_scan(ns: &str, all: &Vec<(Vec<u8>, Vec<u8>)>) -> (r: Result<Vec<(Vec<u8>, Vec<u8>)>>)
    ensures
        match r {
            Ok(out) => ns_ok(ns@) && entry_views(out@) == namespace_records(entry_views(all@), ns_prefix(ns@)),
            Err(e) => !ns_ok(ns@) && e@ == ns_fault(ns@),
        },
{
    match check_sys_ns(ns) {
        Err(e) => {
            return Err(e);
        },
        Ok(_) => {},
    }
    let mut prefix: Vec<u8> = Vec::new();
    put_bytes(&mut prefix, ns.as_bytes());
    prefix.push(0);
    proof {
        assert(prefix@ =~= ns_prefix(ns@));
    }
    Ok(strip(all, &prefix))
}

/// The bounds within which the keyspace holds the records of a namespace from
/// `lo` up to and without `hi`.
pub fn sys_record_scan_range(ns: &str, lo: &[u8], hi: &[u8]) -> (r: Result<(Vec<u8>, Vec<u8>)>)
    ensures
        match r {
            Ok(b) => {
                &&& key_fault(ns@, lo@) is None
                &&& key_fault(ns@, hi@) is None
                &&& b.0@ == record_key(ns@, lo@)
                &&& b.1@ == record_key(ns@, hi@)
            },
            Err(e) => if key_fault(ns@, lo@) is Some {
                key_fault(ns@, lo@) == Some(e@)
            } else {
                key_fault(ns@, hi@) == Some(e@)
            },
        },
{
    let from = match sys_record_subkey(ns, lo) {
        Ok(k) => k,
        Err(e) => {
            return Err(e);
        },
    };
    match sys_record_subkey(ns, hi) {
        Ok(to) => Ok((from, to)),
        Err(e) => Err(e),
    }
}

// ---------------------------------------------------------------- laws

proof fn lemma_between(p: Seq<u8>, lo: Seq<u8>, hi: Seq<u8>, k: Seq<u8>)
    requires
        lex_le(p + lo, k),
        lex_le(k, p + hi),
    ensures
        begins(k, p),
        lex_le(lo, k.skip(p.len() as int)),
        lex_le(k.skip(p.len() as int), hi),
    decreases p.len(),
{
    if p.len() == 0 {
        assert(p + lo =~= lo);
        assert(p + hi =~= hi);
        assert(k.skip(0) =~= k);
        assert(k.take(0) =~= p);
    } else {
        assert((p + lo)[0] == p[0]);
        assert((p + hi)[0] == p[0]);
        assert((p + lo).drop_first() =~= p.drop_first() + lo);
        assert((p + hi).drop_first() =~= p.drop_first() + hi);
        lemma_between(p.drop_first(), lo, hi, k.drop_first());
        let n = p.len() as int;
        assert(k.drop_first().skip(n - 1) =~= k.skip(n));
        assert(p =~= seq![p[0]] + p.drop_first());
        assert(k.take(n) =~= seq![k[0]] + k.drop_first().take(n - 1));
    }
}

/// Whatever lies within the bounds of a range is a record of the namespace,
/// and its own key lies within the range.
pub proof fn law_range_stays_in_namespace(ns: Seq<char>, lo: Seq<u8>, hi: Seq<u8>, k: Seq<u8>)
    requires
        lex_le(record_key(ns, lo), k),
        lex_le(k, record_key(ns, hi)),
    ensures
        begins(k, ns_prefix(ns)),
        lex_le(lo, k.skip(ns_prefix(ns).len() as int)),
        lex_le(k.skip(ns_prefix(ns).len() as int), hi),
{
    assert(record_key(ns, lo) =~= ns_prefix(ns) + lo);
    assert(record_key(ns, hi) =~= ns_prefix(ns) + hi);
    lemma_between(ns_prefix(ns), lo, hi, k);
}

/// Two namespaces never share a key, and neither is within the other.
pub proof fn law_namespaces_disjoint(a: Seq<char>, b: Seq<char>, key: Seq<u8>)
    requires
        ns_ok(a),
        ns_ok(b),
        begins(record_key(a, key), ns_prefix(b)),
    ensures
        a == b,
{
    let (x, y) = (encode_utf8(a), encode_utf8(b));
    let k = record_key(a, key);
    let p = ns_prefix(b);
    assert(k.take(p.len() as int) == p);
    assert(k[x.len() as int] == 0);
    assert(p[y.len() as int] == 0);
    assert(k[y.len() as int] == k.take(p.len() as int)[y.len() as int]);
    if y.len() < x.len() {
        assert(x[y.len() as int] == 0);
        assert(x.contains(0u8));
    } else if y.len() > x.len() {
        assert(p[x.len() as int] == y[x.len() as int]);
        assert(k[x.len() as int] == k.take(p.len() as int)[x.len() as int]);
        assert(y.contains(0u8));
    } else {
        assert forall|i: int| 0 <= i < x.len() implies x[i] == y[i] by {
            assert(k[i] == k.take(p.len() as int)[i]);
        }
        assert(x =~= y);
        lemma_text_round_trip(a);
        lemma_text_round_trip(b);
    }
}

/// A record's key names its namespace and its own key.
pub proof fn law_record_keys_distinct(a: Seq<char>, ka: Seq<u8>, b: Seq<char>, kb: Seq<u8>)
    requires
        ns_ok(a),
        ns_ok(b),
        record_key(a, ka) == record_key(b, kb),
    ensures
        a == b,
        ka == kb,
{
    assert(record_key(b, kb).take(ns_prefix(b).len() as int) =~= ns_prefix(b));
    law_namespaces_disjoint(a, b, ka);
    assert(record_key(a, ka).skip(ns_prefix(a).len() as int) =~= ka);
    assert(record_key(b, kb).skip(ns_prefix(b).len() as int) =~= kb);
}

/// A record is never taken for a stored plan: no namespace reaches into the
/// plan registry's keys.
pub proof fn law_records_clear_of_plans(ns: Seq<char>, key: Seq<u8>)
    requires
        ns_ok(ns),
    ensures
        !begins(record_key(ns, key), plan_prefix_bytes()),
{
    let x = encode_utf8(ns);
    let k = record_key(ns, key);
    let p = plan_prefix_bytes();
    if begins(k, p) {
        if x.len() >= p.len() {
            assert(x.take(p.len() as int) =~= k.take(p.len() as int));
        } else {
            assert(k[x.len() as int] == 0);
            assert(k.take(p.len() as int)[x.len() as int] == 0);
            assert(p[x.len() as int] != 0);
        }
    }
}

/// A scan of a namespace gives back what was stored in it, and nothing else.
pub proof fn law_scan_gives_back(all: Seq<(Seq<u8>, Seq<u8>)>, ns: Seq<char>, key: Seq<u8>, value: Seq<u8>)
    requires
        ns_ok(ns),
    ensures
        all.contains((record_key(ns, key), value)) ==> namespace_records(all, ns_prefix(ns)).contains((key, value)),
        namespace_records(all, ns_prefix(ns)).contains((key, value)) ==> all.contains((record_key(ns, key), value)),
    decreases all.len(),
{
    let p = ns_prefix(ns);
    let full = (record_key(ns, key), value);
    let own = (key, value);
    assert(record_key(ns, key).take(p.len() as int) =~= p);
    assert(record_key(ns, key).skip(p.len() as int) =~= key);
    if all.len() > 0 {
        let rest = all.drop_last();
        law_scan_gives_back(rest, ns, key, value);
        let (found, before) = (namespace_records(all, p), namespace_records(rest, p));
        if all.contains(full) {
            let i = choose|i: int| 0 <= i < all.len() && all[i] == full;
            if i < rest.len() {
                assert(rest[i] == full);
                let j = choose|j: int| 0 <= j < before.len() && before[j] == own;
                assert(found[j] == own);
            } else {
                assert(found.last() == own);
            }
        }
        if found.contains(own) {
            let j = choose|j: int| 0 <= j < found.len() && found[j] == own;
            if j < before.len() {
                assert(before[j] == own);
                let i = choose|i: int| 0 <= i < rest.len() && rest[i] == full;
                assert(all[i] == full);
            } else {
                let last = all.last().0;
                assert(last =~= last.take(p.len() as int) + last.skip(p.len() as int));
                assert(all.last() == full);
                assert(all[all.len() - 1] == full);
            }
        }
    }
}

/// A namespace has a name of 1 to 64 bytes, none of them zero, outside the
/// plans; a key has 1 to 1024 bytes. Nothing else is refused.
pub proof fn law_record_limits(ns: Seq<char>, key: Seq<u8>)
    ensures
        key_fault(ns, key) is None <==> {
            let b = encode_utf8(ns);
            &&& 1 <= b.len() <= 64
            &&& forall|i: int| 0 <= i < b.len() ==> #[trigger] b[i] != 0
            &&& !(b.len() >= 5 && b.subrange(0, 5) == seq![0x70u8, 0x6c, 0x61, 0x6e, 0x2f])
            &&& 1 <= key.len() <= 1024
        },
{
    let b = encode_utf8(ns);
    if b.len() >= 5 {
        assert(b.subrange(0, 5) =~= b.take(5));
    }
    assert(b.contains(0u8) <==> !(forall|i: int| 0 <= i < b.len() ==> #[trigger] b[i] != 0));
}

/// A record's key is its namespace, a zero byte, and its own key.
pub proof fn law_record_key_places(ns: Seq<char>, key: Seq<u8>)
    ensures
        ({
            let n = encode_utf8(ns).len() as int;
            &&& record_key(ns, key).len() == n + 1 + key.len()
            &&& record_key(ns, key).take(n) == encode_utf8(ns)
            &&& record_key(ns, key)[n] == 0
            &&& record_key(ns, key).skip(n + 1) == key
        }),
{
    let n = encode_utf8(ns).len() as int;
    assert(record_key(ns, key).take(n) =~= encode_utf8(ns));
    assert(record_key(ns, key).skip(n + 1) =~= key);
}

/// A scan keeps the order of what it scans, and every record as often as it is
/// there: scanning two stretches in a row gives the one's records, then the
/// other's.
pub proof fn law_scan_in_order(a: Seq<(Seq<u8>, Seq<u8>)>, b: Seq<(Seq<u8>, Seq<u8>)>, prefix: Seq<u8>)
    ensures
        namespace_records(a + b, prefix) == namespace_records(a, prefix) + namespace_records(b, prefix),
    decreases b.len(),
{
    if b.len() == 0 {
        assert(a + b =~= a);
        assert(namespace_records(a, prefix) + namespace_records(b, prefix) =~= namespace_records(a, prefix));
    } else {
        assert((a + b).drop_last() =~= a + b.drop_last());
        law_scan_in_order(a, b.drop_last(), prefix);
        assert(namespace_records(a + b, prefix) =~= namespace_records(a, prefix) + namespace_records(b, prefix));
    }
}

/// One record of the namespace is scanned as it is, without the prefix; one of
/// another is not.
pub proof fn law_scan_of_one(key: Seq<u8>, value: Seq<u8>, prefix: Seq<u8>)
    ensures
        namespace_records(seq![(prefix + key, value)], prefix) == seq![(key, value)],
{
    let one = seq![(prefix + key, value)];
    assert(one.drop_last() =~= Seq::empty());
    assert(one.last() == (prefix + key, value));
    assert((prefix + key).take(prefix.len() as int) =~= prefix);
    assert((prefix + key).skip(prefix.len() as int) =~= key);
    reveal_with_fuel(namespace_records, 2);
    assert(namespace_records(one, prefix) =~= seq![(key, value)]);
}

} // verus!
