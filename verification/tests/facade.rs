use std::collections::BTreeMap;

use mpedb::ddl::{
    apply_ddl, blob_column, check_refused, index_exists, require_policy_ids, streaming_table, DdlAction, DdlStmt,
};
use mpedb::detached::judge_detached;
use mpedb::execution::{
    gate_cache_on_schema, lookup_gate, register, risk_warning, run_plan, run_write_plan, Register, RunRoute, WriteAction, WriteEvent,
    WriteFacts, WriteStage,
};
use mpedb::host_fn::{panicked, HostKind, HostNames};
use mpedb::plan::{
    AccessPath, ColumnDef, CompiledPlan, Footprint, IndexDef, Join, KeyAccess, PlanStmt, Schema, SelectPlan, TableDef, TableKind,
};
use mpedb::registry::{
    decode_registry_plan, encode_record, evict_if_full, insert_plan, make_room, parse_record, plan_prefix, plan_subkey, Decoded, Publish,
    EVICT_BATCH, MAX_REGISTRY_PLANS,
};
use mpedb::sys_record::{check_sys_ns, sys_record_scan, sys_record_scan_range, sys_record_subkey, value_gate, SYS_RECORD_MAX_VALUE};
use mpedb::write_session::{Control, DdlOutcome, WriteState};
use mpedb::{ColumnType, DetachedPlan, Error, Float, IntoValue, PlanHash, ReaderBlobSource, RiskEstimate, Value};

type Store = BTreeMap<Vec<u8>, Vec<u8>>;

fn scan(store: &Store) -> Vec<(Vec<u8>, Vec<u8>)> {
    store.iter().map(|(k, v)| (k.clone(), v.clone())).collect()
}

fn put(store: &mut Store, ns: &str, key: &[u8], value: &[u8]) -> Result<(), Error> {
    let k = sys_record_subkey(ns, key)?;
    value_gate(value.len())?;
    store.insert(k, value.to_vec());
    Ok(())
}

fn get(store: &Store, ns: &str, key: &[u8]) -> Result<Option<Vec<u8>>, Error> {
    Ok(store.get(&sys_record_subkey(ns, key)?).cloned())
}

// ---------------------------------------------------------------- registry

fn decode(blob: &[u8]) -> Decoded {
    // a plan blob in these tests is its hash behind a format byte
    if blob.len() == 33 && blob[0] == 1 {
        let mut h = [0u8; 32];
        h.copy_from_slice(&blob[1..]);
        Decoded::Plan(PlanHash(h))
    } else if blob.first() == Some(&7) {
        Decoded::Invalidated
    } else {
        Decoded::Rejected
    }
}

#[test]
fn decode_registry_plan_rejects_garbage_unit_level() {
    let h = PlanHash([0x5A; 32]);
    for garbage in [&b""[..], &b"short"[..], &encode_record("sql", b"not a plan blob", 3)[..]] {
        assert!(matches!(
            decode_registry_plan(garbage, &h, decode),
            Err(Error::UnknownPlan(x)) if x == h
        ));
    }
}

#[test]
fn a_stored_plan_loads_only_under_its_own_hash_and_schema() {
    let h = PlanHash([3; 32]);
    let mut blob = vec![1u8];
    blob.extend_from_slice(&h.0);
    let rec = encode_record("SELECT 1", &blob, 1);
    assert!(decode_registry_plan(&rec, &h, decode).is_ok());
    let other = PlanHash([4; 32]);
    assert_eq!(decode_registry_plan(&rec, &other, decode), Err(Error::UnknownPlan(other)));
    let old = encode_record("SELECT 1", &[7, 0], 1);
    assert_eq!(decode_registry_plan(&old, &h, decode), Err(Error::PlanInvalidated));
}

#[test]
fn registry_eviction_caps_entries() {
    let mut store = Store::new();
    let total = MAX_REGISTRY_PLANS + 1;
    let mut hashes = Vec::with_capacity(total);
    let mut count: Option<Vec<u8>> = None;
    for i in 0..total {
        let mut h = [0u8; 32];
        h[..8].copy_from_slice(&(i as u64).wrapping_mul(0x9e37_79b9_7f4a_7c15).to_be_bytes());
        let h = PlanHash(h);
        let key = plan_subkey(&h);
        let mut blob = vec![1u8];
        blob.extend_from_slice(&h.0);
        let existing = store.get(&key).cloned();
        match insert_plan(existing.as_deref(), "SELECT * FROM users WHERE id = 1", &blob, i as u64) {
            Publish::Insert(rec) => {
                let n = match make_room(count.as_deref()) {
                    Some(n) => n,
                    None => {
                        let e = evict_if_full(&scan(&store));
                        for v in &e.victims {
                            store.remove(v);
                        }
                        (e.found - e.victims.len()) as u64
                    }
                };
                store.insert(key, rec);
                count = Some((n + 1).to_le_bytes().to_vec());
            }
            _ => unreachable!("every plan is new"),
        }
        hashes.push(h);
    }
    let present: Vec<&Vec<u8>> = store.keys().filter(|k| k.starts_with(&plan_prefix())).collect();
    assert_eq!(present.len(), MAX_REGISTRY_PLANS - EVICT_BATCH + 1);
    for i in [0usize, 1, EVICT_BATCH - 1] {
        assert!(!store.contains_key(&plan_subkey(&hashes[i])), "plan {i} should have been evicted");
    }
    for i in [EVICT_BATCH, EVICT_BATCH + 1, total - 1] {
        let rec = store.get(&plan_subkey(&hashes[i])).expect("survivor record present");
        decode_registry_plan(rec, &hashes[i], decode).unwrap();
    }
    assert!(store.get(&plan_subkey(&hashes[0])).is_none());
}

#[test]
fn malformed_records_are_evicted_first() {
    let mut store = Store::new();
    for i in 0..MAX_REGISTRY_PLANS {
        let mut h = [0u8; 32];
        h[..8].copy_from_slice(&(i as u64).to_be_bytes());
        store.insert(plan_subkey(&PlanHash(h)), encode_record("s", b"b", i as u64));
    }
    let bad = plan_subkey(&PlanHash([0xee; 32]));
    store.insert(bad.clone(), b"garbage".to_vec());
    let e = evict_if_full(&scan(&store));
    assert_eq!(e.found, MAX_REGISTRY_PLANS + 1);
    assert_eq!(e.victims.len(), EVICT_BATCH);
    assert_eq!(e.victims[0], bad);
    store.clear();
    assert_eq!(evict_if_full(&scan(&store)).victims.len(), 0);
}

#[test]
fn a_publish_keeps_overwrites_or_inserts() {
    let rec = encode_record("q", b"plan", 4);
    assert!(matches!(insert_plan(Some(&rec), "q", b"plan", 9), Publish::Keep));
    match insert_plan(Some(b"garbage"), "q", b"plan", 9) {
        Publish::Overwrite(v) => assert_eq!(parse_record(&v).unwrap().last_used_txn, 10),
        _ => panic!("a corrupt entry is overwritten"),
    }
    assert!(matches!(insert_plan(None, "q", b"plan", 9), Publish::Insert(_)));
    assert_eq!(make_room(Some(&17u64.to_le_bytes())), Some(17));
    assert_eq!(make_room(Some(b"short")), None);
    assert_eq!(make_room(Some(&(MAX_REGISTRY_PLANS as u64).to_le_bytes())), None);
}

// ---------------------------------------------------------------- system records

#[test]
fn sys_records_roundtrip_and_stay_clear_of_the_plan_registry() {
    let mut db = Store::new();

    // Namespace/key validation.
    assert!(put(&mut db, "", b"k", b"v").is_err());
    assert!(put(&mut db, "ns\0evil", b"k", b"v").is_err());
    assert!(put(&mut db, &"n".repeat(65), b"k", b"v").is_err());
    assert!(put(&mut db, "ns", b"", b"v").is_err());
    assert!(put(&mut db, "ns", &[7u8; 1025], b"v").is_err());
    assert!(put(&mut db, "ns", b"k", &vec![0u8; SYS_RECORD_MAX_VALUE + 1]).is_err());
    assert!(sys_record_scan("", &scan(&db)).is_err());

    // Roundtrip, overwrite, scan with prefix stripping.
    put(&mut db, "proc", b"transfer", b"blob-1").unwrap();
    put(&mut db, "proc", b"transfer", b"blob-2").unwrap();
    put(&mut db, "proc", b"other", b"blob-3").unwrap();
    put(&mut db, "proch", b"\x01\x02", b"blob-2").unwrap();
    assert_eq!(get(&db, "proc", b"transfer").unwrap().as_deref(), Some(&b"blob-2"[..]));
    assert_eq!(get(&db, "proc", b"missing").unwrap(), None);
    let found = sys_record_scan("proc", &scan(&db)).unwrap();
    assert_eq!(
        found,
        vec![(b"other".to_vec(), b"blob-3".to_vec()), (b"transfer".to_vec(), b"blob-2".to_vec())]
    );
    // `proch` does not leak into a `proc` scan, nor vice versa.
    assert_eq!(sys_record_scan("proch", &scan(&db)).unwrap().len(), 1);

    // A plan whose registry subkey starts with the bytes `plan` must be
    // untouched by a `plan`-namespace record (0x00 vs '/' separator).
    let h = PlanHash([9; 32]);
    let mut blob = vec![1u8];
    blob.extend_from_slice(&h.0);
    db.insert(plan_subkey(&h), encode_record("SELECT * FROM users WHERE id = $1", &blob, 1));
    put(&mut db, "plan", &h.0, b"not a plan record").unwrap();
    assert!(decode_registry_plan(&db[&plan_subkey(&h)], &h, decode).is_ok());
}

#[test]
fn refused_records_say_why() {
    assert_eq!(
        check_sys_ns("a\0b").unwrap_err().message(),
        "system record namespace must be 1..=64 NUL-free bytes, got \"a\\0b\""
    );
    assert_eq!(
        sys_record_subkey("ns", &[0; 1025]).unwrap_err().message(),
        "system record key must be 1..=1024 bytes, got 1025 bytes"
    );
    assert_eq!(
        value_gate(1_048_577).unwrap_err().message(),
        "system record value too large (1048577 > 1048576 bytes)"
    );
    assert_eq!(sys_record_subkey("ab", b"c").unwrap(), b"ab\0c");
}

#[test]
fn no_namespace_reaches_into_the_plan_registry() {
    for ns in ["plan/", "plan/x"] {
        assert_eq!(
            sys_record_subkey(ns, b"k").unwrap_err().message(),
            format!("system record namespace must not begin with `plan/`, which holds the plan registry, got {ns:?}")
        );
    }
    assert_eq!(
        check_sys_ns("plan/\0").unwrap_err().message(),
        "system record namespace must be 1..=64 NUL-free bytes, got \"plan/\\0\""
    );
    for ns in ["plan", "plan0", "plancount", "xplan/"] {
        assert!(!sys_record_subkey(ns, b"k").unwrap().starts_with(&plan_prefix()));
    }
}

// ---------------------------------------------------------------- detached plans

#[test]
fn detached_plan_encode_decode_roundtrip_and_truncation() {
    let dp = DetachedPlan {
        hash: PlanHash([0x37; 32]),
        blob: b"a compiled plan blob \x00\xff".to_vec(),
        sql: "SELECT * FROM users WHERE id = $1".to_owned(),
    };
    let bytes = dp.encode();
    assert_eq!(DetachedPlan::decode(&bytes).unwrap(), dp);

    // Every truncation fails cleanly (Corrupt), never panics.
    for cut in 0..bytes.len() {
        assert!(
            matches!(DetachedPlan::decode(&bytes[..cut]), Err(Error::Corrupt(_))),
            "truncation at {cut} must be Corrupt"
        );
    }
    // Trailing garbage and a bad format byte are rejected too.
    let mut trailing = bytes.clone();
    trailing.push(0);
    assert!(matches!(DetachedPlan::decode(&trailing), Err(Error::Corrupt(_))));
    let mut bad_fmt = bytes.clone();
    bad_fmt[0] = 9;
    assert!(matches!(DetachedPlan::decode(&bad_fmt), Err(Error::Corrupt(_))));
    // Invalid utf-8 in the sql field.
    let mut bad_sql = DetachedPlan { hash: PlanHash([1; 32]), blob: vec![], sql: String::new() }.encode();
    // append u32 sql_len = 1 then a lone 0xff (rewrite trailing sql section)
    bad_sql.truncate(1 + 32 + 4); // fmt + hash + blob_len(=0)
    bad_sql.extend_from_slice(&1u32.to_le_bytes());
    bad_sql.push(0xff);
    assert!(matches!(DetachedPlan::decode(&bad_sql), Err(Error::Corrupt(_))));
}

#[test]
fn a_wire_form_has_the_documented_layout() {
    let dp = DetachedPlan { hash: PlanHash([2; 32]), blob: vec![5, 6], sql: "é".to_string() };
    let mut want = vec![1u8];
    want.extend_from_slice(&[2; 32]);
    want.extend_from_slice(&[2, 0, 0, 0, 5, 6, 2, 0, 0, 0, 0xc3, 0xa9]);
    assert_eq!(dp.encode(), want);
    let mut bad = want.clone();
    bad[0] = 9;
    assert_eq!(DetachedPlan::decode(&bad).unwrap_err().message(), "unknown detached plan format 9");
    want.push(0);
    assert_eq!(DetachedPlan::decode(&want).unwrap_err().message(), "trailing bytes in detached plan");
    assert_eq!(DetachedPlan::decode(b"").unwrap_err().message(), "truncated detached plan");
}

#[test]
fn a_carried_plan_runs_only_under_its_own_hash() {
    let h = PlanHash([8; 32]);
    assert!(judge_detached(Ok(h), &h).is_ok());
    let mut wrong = h;
    wrong.0[0] ^= 0xFF;
    assert!(matches!(
        judge_detached(Ok(h), &wrong),
        Err(Error::Corrupt(m)) if m.contains("does not match its carried hash")
    ));
    // an old format or another schema stays what it is
    assert_eq!(judge_detached(Err(Error::PlanInvalidated), &h), Err(Error::PlanInvalidated));
    let bad = Error::Corrupt("bad instruction".to_string());
    assert_eq!(judge_detached(Err(bad.clone()), &h), Err(bad));
    let odd = Error::Internal("odd".to_string());
    assert_eq!(judge_detached(Err(odd.clone()), &h), Err(Error::Corrupt(odd.message())));
}

// ---------------------------------------------------------------- host functions

#[test]
fn the_exact_number_of_arguments_wins() {
    let mut h = HostNames::new();
    assert_eq!(h.register("plus1".to_string(), 1), 0);
    assert_eq!(h.register("addk".to_string(), -1), 1);
    assert_eq!(h.register("addk".to_string(), 2), 2);
    assert_eq!(h.register("plus1".to_string(), 1), 0, "registering again replaces");
    assert_eq!(h.resolve(HostKind::Scalar, "addk", 2).unwrap(), 2);
    assert_eq!(h.resolve(HostKind::Scalar, "addk", 5).unwrap(), 1);
    assert_eq!(
        h.resolve(HostKind::Scalar, "plus1", 2).unwrap_err().message(),
        "host function plus1/2 is not registered"
    );
    assert_eq!(
        h.resolve(HostKind::Aggregate, "med", -1).unwrap_err().message(),
        "host aggregate med/-1 is not registered"
    );
    assert_eq!(h.unregister("addk", -1), Some(1));
    assert_eq!(h.unregister("addk", -1), None);
    assert!(h.resolve(HostKind::Scalar, "addk", 5).is_err());
    assert_eq!(panicked("host function f/1", Some("boom")).message(), "host function f/1 panicked: boom");
    assert_eq!(panicked("host function f/1", None).message(), "host function f/1 panicked: panic");
}

// ---------------------------------------------------------------- transactions

#[test]
fn a_torn_statement_poisons_the_transaction() {
    let mut s = WriteState::new();
    s.after_statement(true, false);
    assert!(s.gate().is_ok(), "a failure without effects leaves it usable");
    s.after_statement(false, true);
    assert!(s.gate().is_ok());
    s.after_statement(true, true);
    let text = "transaction poisoned by a partially-applied statement; rollback and retry";
    assert_eq!(s.gate().unwrap_err().message(), text);
    s.after_statement(false, false);
    assert_eq!(s.gate().unwrap_err().message(), text, "nothing heals it");
    assert_eq!(s.ddl_gate(false).unwrap_err().message(), text);
}

#[test]
fn savepoints_nest_and_shadow() {
    let mut s = WriteState::new();
    for n in ["a", "b", "A"] {
        assert_eq!(s.control(&PlanStmt::Savepoint(n.to_string())).unwrap(), Control::Open);
        s.open_savepoint(n.to_string());
    }
    // the innermost of the name, in any case
    assert_eq!(s.control(&PlanStmt::RollbackTo("a".to_string())).unwrap(), Control::Undo(2));
    s.after_undo(2, true);
    assert_eq!(s.control(&PlanStmt::RollbackTo("a".to_string())).unwrap(), Control::Undo(2));
    assert_eq!(s.control(&PlanStmt::Release("a".to_string())).unwrap(), Control::Released(2));
    assert_eq!(s.control(&PlanStmt::RollbackTo("a".to_string())).unwrap(), Control::Undo(0));
    // a refused undo leaves every savepoint open
    s.after_undo(0, false);
    assert_eq!(*s.savepoints(), vec!["a".to_string(), "b".to_string()]);
    s.after_undo(0, true);
    assert_eq!(*s.savepoints(), vec!["a".to_string()]);
    assert_eq!(
        s.control(&PlanStmt::Release("b".to_string())).unwrap_err(),
        Error::Bind("no such savepoint: b".to_string())
    );
    assert!(s.ddl_gate(false).unwrap_err().message().starts_with("DDL inside a SAVEPOINT"));
    assert!(s.control(&PlanStmt::Begin).unwrap_err().message().contains("already is a transaction"));
}

#[test]
fn a_schema_change_that_cannot_be_undone_poisons() {
    let mut s = WriteState::new();
    assert!(s.ddl_gate(false).unwrap());
    assert!(!s.ddl_gate(true).unwrap());
    assert!(s.after_ddl(DdlOutcome::Applied { reloaded: true }));
    assert!(!s.after_ddl(DdlOutcome::Failed { undone: true }));
    assert!(s.gate().is_ok());
    assert!(!s.after_ddl(DdlOutcome::Failed { undone: false }));
    assert!(s.gate().is_err());
    let mut t = WriteState::new();
    assert!(!t.after_ddl(DdlOutcome::Applied { reloaded: false }));
    assert!(t.gate().is_err());
}

fn column(name: &str) -> ColumnDef {
    ColumnDef { name: name.to_string(), ty: ColumnType::Int64, default: None }
}

fn table(name: &str, dead: bool) -> TableDef {
    TableDef {
        name: name.to_string(),
        columns: vec![column("id"), column("v")],
        primary_key: vec![0],
        indexes: vec![IndexDef { columns: vec![1, 0], unique: true }],
        dead,
        implicit_rowid: false,
        kind: TableKind::Standard,
    }
}

#[test]
fn schema_changes_resolve_against_live_tables() {
    let s = Schema { tables: vec![table("t", true), table("t", false)] };
    let drop = |name: &str, if_exists| apply_ddl(&DdlStmt::DropTable { name: name.to_string(), if_exists }, &s, Ok(()));
    assert_eq!(drop("t", false).unwrap(), DdlAction::Drop(1));
    assert_eq!(drop("u", true).unwrap(), DdlAction::Skip);
    assert_eq!(drop("u", false).unwrap_err().message(), "DROP TABLE: no such table `u`");
    let virt = |name: &str, if_not_exists| {
        apply_ddl(&DdlStmt::CreateVirtualTable { name: name.to_string(), if_not_exists }, &s, Ok(()))
    };
    assert_eq!(virt("u", false).unwrap(), DdlAction::Create);
    assert_eq!(virt("t", true).unwrap(), DdlAction::Skip);
    assert_eq!(virt("t", false).unwrap_err().message(), "CREATE VIRTUAL TABLE: `t` already exists");
    assert_eq!(apply_ddl(&DdlStmt::AlterAddColumn { table: "t".to_string() }, &s, Ok(())).unwrap(), DdlAction::Alter(1));
    assert_eq!(
        apply_ddl(&DdlStmt::AlterDropColumn { table: "u".to_string() }, &s, Ok(())).unwrap_err().message(),
        "ALTER TABLE: no such table `u`"
    );
    assert_eq!(apply_ddl(&DdlStmt::CreateIndex { table: "t".to_string() }, &s, Ok(())).unwrap(), DdlAction::Index(1));
    assert_eq!(
        apply_ddl(&DdlStmt::CreateIndex { table: "u".to_string() }, &s, Ok(())).unwrap_err().message(),
        "CREATE INDEX: no such table `u`"
    );
    // a bad column is told before a missing table, an existing virtual table before a bad one
    let bad = || Error::Unsupported("bad".to_string());
    let add = |table: &str| apply_ddl(&DdlStmt::AlterAddColumn { table: table.to_string() }, &s, Err(bad()));
    assert_eq!(add("u").unwrap_err(), bad());
    assert_eq!(apply_ddl(&DdlStmt::CreateTable, &s, Err(bad())).unwrap_err(), bad());
    let virt = |name: &str, if_not_exists| {
        apply_ddl(&DdlStmt::CreateVirtualTable { name: name.to_string(), if_not_exists }, &s, Err(bad()))
    };
    assert_eq!(virt("t", true).unwrap(), DdlAction::Skip);
    assert_eq!(virt("u", false).unwrap_err(), bad());
    assert!(apply_ddl(&DdlStmt::Outside, &s, Ok(())).unwrap_err().message().contains("run them in autocommit"));
    assert_eq!(apply_ddl(&DdlStmt::Analyze, &s, Ok(())).unwrap(), DdlAction::Skip);
    assert!(index_exists(&s.tables[1], &vec![1, 0], true));
    assert!(!index_exists(&s.tables[1], &vec![0, 1], true));
    assert!(!index_exists(&s.tables[1], &vec![1, 0], false));
}

#[test]
fn names_of_streamed_values_resolve() {
    let s = Schema { tables: vec![table("t", false)] };
    assert_eq!(blob_column(&s, "t", "v").unwrap(), (0, 1));
    assert_eq!(blob_column(&s, "u", "v").unwrap_err().message(), "unknown table `u`");
    assert_eq!(blob_column(&s, "t", "w").unwrap_err().message(), "unknown column `w` in `t`");
    assert_eq!(streaming_table(&s, "t").unwrap(), 0);
    assert_eq!(streaming_table(&s, "u").unwrap_err(), Error::Config("no such table: u".to_string()));
    assert_eq!(
        check_refused("t", "v", "parse error").message(),
        "CHECK on `t.v` failed to compile: parse error"
    );
}

/// A misspelt or renamed table name must fail at open, not silently assert
/// nothing forever.
#[test]
fn require_policy_naming_an_unknown_table_fails_at_open() {
    let s = Schema { tables: vec![table("orders", false), table("ordrs", false)] };
    assert_eq!(require_policy_ids(&s, &vec!["ordrs".to_string()]).unwrap(), vec![1]);
    let s2 = Schema { tables: vec![table("orders", false)] };
    let err = require_policy_ids(&s2, &vec!["ghost".to_string()]).err();
    assert!(
        matches!(&err, Some(Error::Config(m)) if m.contains("ghost") && m.contains("not in the schema")),
        "expected an open-time config error, got {err:?}"
    );
}

// ---------------------------------------------------------------- execution

fn plan(stmt: PlanStmt, read_only: bool) -> CompiledPlan {
    CompiledPlan {
        stmt,
        subplans: vec![],
        consts: vec![],
        n_params: 0,
        context_keys: vec![],
        param_types: vec![],
        policies: vec![],
        footprint: Footprint { read_only, tables_read: vec![], tables_written: vec![], key_access: KeyAccess::Full },
        host_call: false,
    }
}

fn select(joins: usize) -> SelectPlan {
    SelectPlan {
        table: 0,
        access: AccessPath::FullScan,
        joins: (0..joins).map(|_| Join { table: 0, access: AccessPath::FullScan }).collect(),
        filter: None,
        projection: vec![],
        aggregate: false,
        windows: false,
        distinct: false,
        order_by: false,
        joined_filter: false,
        post_filter: false,
        limit: None,
        offset: None,
    }
}

#[test]
fn reads_and_writes_part_ways() {
    assert_eq!(run_plan(&plan(PlanStmt::Select(select(0)), true)).unwrap(), RunRoute::Read);
    let del = PlanStmt::Delete { table: 0, access: AccessPath::FullScan, filter: None };
    assert_eq!(run_plan(&plan(del, false)).unwrap(), RunRoute::Write);
    assert!(run_plan(&plan(PlanStmt::Commit, false)).unwrap_err().message().starts_with("BEGIN/COMMIT/ROLLBACK do nothing"));
    let sp = PlanStmt::Savepoint("s".to_string());
    assert!(run_plan(&plan(sp, false)).unwrap_err().message().contains("there is no autocommit savepoint"));
}

#[test]
fn plans_are_kept_published_or_local() {
    let rec = encode_record("q", b"plan", 4);
    assert_eq!(register(true, false, None, b"plan"), Register::UseCached);
    assert_eq!(register(false, true, Some(&rec), b"plan"), Register::KeepLocal);
    assert_eq!(register(false, false, Some(&rec), b"plan"), Register::Published);
    assert_eq!(register(false, false, Some(&rec), b"other"), Register::Publish);
    assert_eq!(register(false, false, Some(&b"garbage".to_vec()), b"plan"), Register::Publish);
    assert_eq!(register(false, false, None, b"plan"), Register::Publish);
    let h = PlanHash([1; 32]);
    assert_eq!(lookup_gate(false, None, &h), Err(Error::UnknownPlan(h)));
    assert!(lookup_gate(true, None, &h).is_ok());
    assert!(lookup_gate(false, Some(&rec), &h).is_ok());
    assert_eq!(gate_cache_on_schema(3, 3), (3, false));
    assert_eq!(gate_cache_on_schema(3, 4), (4, true));
}

#[test]
fn a_contended_write_waits_on_the_ring() {
    let f = WriteFacts { ring_enabled: true, host_call: false, has_hash: true };
    let path = [
        (WriteEvent::Lock(false), WriteAction::CheckPolicy),
        (WriteEvent::PolicyCurrent, WriteAction::Queue),
        (WriteEvent::Queued(true), WriteAction::Wait),
        (WriteEvent::NoAnswer, WriteAction::TryLock),
        (WriteEvent::Lock(false), WriteAction::Wait),
        (WriteEvent::NoAnswer, WriteAction::TryLock),
        (WriteEvent::Lock(true), WriteAction::Drain),
        (WriteEvent::Drained, WriteAction::Take),
        (WriteEvent::Taken(false), WriteAction::Wait),
        (WriteEvent::Answered { unknown_plan: true }, WriteAction::LeadBlocking),
    ];
    let mut stage = WriteStage::Trying;
    for (event, want) in path {
        let (next, action) = run_write_plan(stage, event, f).unwrap();
        assert_eq!(action, want);
        stage = next;
    }
    assert_eq!(stage, WriteStage::Done);
    assert!(run_write_plan(stage, WriteEvent::Drained, f).is_none());
    let host = WriteFacts { ring_enabled: true, host_call: true, has_hash: true };
    assert_eq!(
        run_write_plan(WriteStage::Checking, WriteEvent::PolicyCurrent, host),
        Some((WriteStage::Done, WriteAction::LeadBlocking))
    );
    assert_eq!(
        run_write_plan(WriteStage::Trying, WriteEvent::Lock(true), host),
        Some((WriteStage::Done, WriteAction::LeadHolding))
    );
}

#[test]
fn only_multiplying_plans_are_warned_about() {
    let est = RiskEstimate { work_rows: 2_000_000_000, dominant: "nested-loop join with \"b\"".to_string(), dominant_rows: 2_000_000_000 };
    assert!(risk_warning(&plan(PlanStmt::Select(select(0)), true), &est, 0).is_none());
    let joined = plan(PlanStmt::Select(select(1)), true);
    assert_eq!(
        risk_warning(&joined, &est, 0).unwrap(),
        "mpedb: runtime-budget risk — worst-case ~2000000000 work-rows (dominant: nested-loop join with \"b\") exceeds 1000000000; \
         this query is likely to hit [runtime] max_work_rows"
    );
    assert!(risk_warning(&joined, &est, 3_000_000_000).is_none());
    assert!(risk_warning(&joined, &est, 1).unwrap().contains("exceeds 1;"));
}

#[test]
fn plain_values_become_parameters() {
    assert_eq!(5i32.into_value(), Value::Int(5));
    assert_eq!((-7i64).into_value(), Value::Int(-7));
    assert_eq!(true.into_value(), Value::Bool(true));
    assert_eq!("t".into_value(), Value::Text("t".to_string()));
    assert_eq!("t".to_string().into_value(), Value::Text("t".to_string()));
    assert_eq!(vec![1u8].into_value(), Value::Blob(vec![1]));
    assert_eq!((&[2u8, 3][..]).into_value(), Value::Blob(vec![2, 3]));
    assert_eq!(None::<i64>.into_value(), Value::Null);
    assert_eq!(Some("x").into_value(), Value::Text("x".to_string()));
    assert_eq!(Value::Null.into_value(), Value::Null);
    let half = Float { bits: 0x3fe0_0000_0000_0000, shown: "0.5".to_string() };
    assert_eq!(half.clone().into_value(), Value::Float(half));
    let src = ReaderBlobSource::new(&b"abc"[..], 3);
    assert_eq!(src.len(), 3);
    assert_eq!(src.reader, b"abc");
}

#[test]
fn a_range_of_records_stays_in_its_namespace() {
    let (lo, hi) = sys_record_scan_range("dirty", b"a", b"c").unwrap();
    assert_eq!((lo.as_slice(), hi.as_slice()), (&b"dirty\0a"[..], &b"dirty\0c"[..]));
    let all: Vec<(Vec<u8>, Vec<u8>)> = [&b"dirt\0b"[..], b"dirty\0a", b"dirty\0b", b"dirty\0c", b"dirtyx\0b"]
        .iter()
        .map(|k| (k.to_vec(), vec![1]))
        .collect();
    let within: Vec<(Vec<u8>, Vec<u8>)> = all.into_iter().filter(|(k, _)| *k >= lo && *k < hi).collect();
    let keys: Vec<Vec<u8>> = sys_record_scan("dirty", &within).unwrap().into_iter().map(|(k, _)| k).collect();
    assert_eq!(keys, vec![b"a".to_vec(), b"b".to_vec()]);
    assert!(sys_record_scan_range("", b"a", b"b").is_err());
    assert!(sys_record_scan_range("dirty", b"", b"b").is_err());
    assert!(sys_record_scan_range("dirty", b"a", b"").is_err());
}
