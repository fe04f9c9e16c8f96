use mpedb::registry::{
    encode_record, parse_record, patched_last_used, plan_count_key, plan_prefix, plan_prefix_end,
    plan_subkey,
};
use mpedb::PlanHash;

#[test]
fn record_roundtrip() {
    let rec = encode_record("SELECT 1", b"blobby", 42);
    let parsed = parse_record(&rec).unwrap();
    assert_eq!(parsed.sql, "SELECT 1");
    assert_eq!(parsed.blob, b"blobby");
    assert_eq!(parsed.last_used_txn, 42);

    let patched = patched_last_used(&rec, 99).unwrap();
    assert_eq!(parse_record(&patched).unwrap().last_used_txn, 99);
    assert_eq!(parse_record(&patched).unwrap().blob, b"blobby");
}

/// The family bound and the counter's placement outside it are the
/// two byte facts the O(1) publish path rests on — a `plancount` that fell
/// inside `[plan/, plan0)` would be walked by eviction and then DELETED as
/// the oldest "malformed record" (they sort first), silently un-capping the
/// registry.
#[test]
fn plan_family_bound_excludes_the_counter_and_covers_every_hash() {
    for b in [0u8, 1, 0x2f, 0x30, 0x7f, 0xfe, 0xff] {
        let k = plan_subkey(&PlanHash([b; 32]));
        assert!(k.as_slice() >= &plan_prefix()[..], "{b:#x} below the family");
        assert!(k.as_slice() < &plan_prefix_end()[..], "{b:#x} above the family");
    }
    assert!(&plan_count_key()[..] >= &plan_prefix_end()[..]);
    assert!(!plan_count_key().starts_with(&plan_prefix()));
}

#[test]
fn malformed_records_are_rejected_not_panicked() {
    assert!(parse_record(b"").is_none());
    assert!(parse_record(&[0xff; 3]).is_none());
    // huge sql_len must not read out of bounds
    let mut evil = Vec::new();
    evil.extend_from_slice(&u32::MAX.to_le_bytes());
    evil.extend_from_slice(b"x");
    assert!(parse_record(&evil).is_none());
    // trailing garbage
    let mut rec = encode_record("s", b"b", 1);
    rec.push(0);
    assert!(parse_record(&rec).is_none());
    // every truncation fails cleanly
    let rec = encode_record("SELECT 1", b"blob", 7);
    for cut in 0..rec.len() {
        assert!(parse_record(&rec[..cut]).is_none(), "cut at {cut}");
    }
}
