use mpedb::ddl::warning_rows;
use mpedb::plan::{ColumnDef, IndexDef, PolicyStamp, Schema, TableDef, TableKind};
use mpedb::policy_lint::lint_policy;
use mpedb::policy_store::{
    bump_epoch, edit_writes, epoch_of, is_stale, load_policy_catalog, one_table_from_scan, parse_pol_key, pol_subkey, policy_name_gate,
    polep_subkey, require_table_id, rlsen_subkey, stamp_current, table_id_of, validate_policies, with_table_id, LivePolicy, PolicyEdit,
};
use mpedb::{ColumnType, Error, ExecResult, PlanHash, Value};

fn column(name: &str) -> ColumnDef {
    ColumnDef { name: name.to_string(), ty: ColumnType::Int64, default: None }
}

fn table(name: &str, columns: &[&str], primary_key: Vec<u16>, indexes: Vec<IndexDef>) -> TableDef {
    TableDef {
        name: name.to_string(),
        columns: columns.iter().map(|c| column(c)).collect(),
        primary_key,
        indexes,
        dead: false,
        implicit_rowid: false,
        kind: TableKind::Standard,
    }
}

/// `orders(id PK, tenant, code UNIQUE)`
fn leaky() -> TableDef {
    table("orders", &["id", "tenant", "code"], vec![0], vec![IndexDef { columns: vec![2], unique: true }])
}

#[test]
fn lint_flags_a_pk_that_does_not_lead_with_the_discriminator() {
    let w = lint_policy(&leaky(), &vec![1]);
    assert!(
        w.iter().any(|m| m.contains("PRIMARY KEY") && m.contains("does not lead")),
        "expected a PK finding, got {w:?}"
    );
    // and it names the honest remedy for the tenant-spanning index
    assert!(
        w.iter().any(|m| m.contains("index (code)") && m.contains("Lead the index")),
        "expected the index finding with the composite remedy, got {w:?}"
    );
}

/// A tenant-leading PK and no tenant-spanning unique: nothing to say.
#[test]
fn lint_is_silent_when_the_key_leads_with_the_discriminator() {
    let t = table("orders", &["tenant", "id"], vec![0, 1], vec![]);
    assert!(lint_policy(&t, &vec![0]).is_empty());
}

/// A policy with no equality-to-context conjunct has no discriminator, so
/// there is nothing to lead with and the lint must stay quiet rather than
/// invent a finding.
#[test]
fn lint_is_silent_without_a_discriminator() {
    assert!(lint_policy(&leaky(), &vec![]).is_empty());
}

/// The findings must actually reach a user: `CREATE POLICY` returns them as
/// rows so they print through the ordinary result path.
#[test]
fn create_policy_ddl_surfaces_the_lint() {
    match warning_rows(lint_policy(&leaky(), &vec![1])) {
        ExecResult::Rows { columns, rows } => {
            assert_eq!(columns, vec!["warning".to_string()]);
            assert!(!rows.is_empty(), "expected lint rows");
        }
        other => panic!("expected lint warnings as rows, got {other:?}"),
    }
    assert_eq!(warning_rows(vec![]), ExecResult::Affected(0));
}

#[test]
fn findings_in_full() {
    let w = lint_policy(&leaky(), &vec![1, 1]);
    assert_eq!(
        w,
        vec![
            "PRIMARY KEY (id) does not lead with the policy discriminator (tenant): a PK collision with a row this caller cannot see \
             still fails the write, revealing the hidden row exists (§6.4). Consider PRIMARY KEY (tenant, …)."
                .to_string(),
            "index (code) spans every tenant: a value colliding with a hidden row reveals it exists (§6.4). Lead the index with \
             `tenant` (a composite index whose first column is the discriminator), drop it, or move the keyed data to its own table."
                .to_string(),
        ]
    );
    // several discriminators, in column order
    let two = lint_policy(&leaky(), &vec![2, 1]);
    assert_eq!(two.len(), 1);
    assert!(two[0].contains("(tenant or code)"), "{two:?}");
}

#[test]
fn only_unique_indexes_can_collide() {
    let t = table("orders", &["tenant", "id", "code"], vec![0, 1], vec![IndexDef { columns: vec![2], unique: false }]);
    assert!(lint_policy(&t, &vec![0]).is_empty());
}

// ---------------------------------------------------------------- keys

#[test]
fn keys_name_their_table_and_policy() {
    assert_eq!(pol_subkey(0x0102_0304, "p"), b"pol/\x01\x02\x03\x04/p");
    assert_eq!(rlsen_subkey(7), b"rlsen/\0\0\0\x07");
    assert_eq!(polep_subkey(0xff00), b"polep/\0\0\xff\0");
    assert_eq!(with_table_id(b"x", 1), b"x\0\0\0\x01");
    assert_eq!(parse_pol_key(&pol_subkey(9, "naïve")[4..]), Some((9, "naïve".to_string())));
    assert_eq!(parse_pol_key(b"\0\0\0\x01"), None);
    assert_eq!(parse_pol_key(b"\0\0\0\x01x"), None);
    assert_eq!(parse_pol_key(b"\0\0\0\x01/\xff"), None);
    assert_eq!(parse_pol_key(b"\0\0\0\x01/"), Some((1, String::new())));
    assert_eq!(table_id_of(&[1, 2, 3, 4]), Some(0x0102_0304));
    assert_eq!(table_id_of(&[1, 2, 3]), None);
    assert_eq!(epoch_of(&5u64.to_le_bytes()), 5);
    assert_eq!(epoch_of(b"short"), 0);
}

#[test]
fn policy_names_are_checked() {
    assert!(policy_name_gate("tenant_iso").is_ok());
    for bad in ["", "a/b"] {
        assert_eq!(
            policy_name_gate(bad),
            Err(Error::Bind("policy name must be non-empty and contain no '/'".to_string()))
        );
    }
    let s = Schema { tables: vec![leaky()] };
    assert_eq!(require_table_id(&s, "orders").unwrap(), 0);
    assert_eq!(require_table_id(&s, "x"), Err(Error::Bind("unknown table `x`".to_string())));
}

// ---------------------------------------------------------------- state

fn apply(store: &mut Vec<(Vec<u8>, Vec<u8>)>, id: u32, edit: PolicyEdit) {
    let epoch = store.iter().find(|(k, _)| *k == polep_subkey(id)).map(|(_, v)| v.clone());
    for w in edit_writes(id, edit, epoch.as_ref()) {
        store.retain(|(k, _)| *k != w.key);
        if let Some(v) = w.value {
            store.push((w.key, v));
        }
    }
    store.sort();
}

fn create(name: &str, value: &[u8]) -> PolicyEdit {
    PolicyEdit::Create { name: name.to_string(), value: value.to_vec() }
}

#[test]
fn edits_are_read_back() {
    let mut store = vec![(b"plan/x".to_vec(), b"other".to_vec())];
    apply(&mut store, 3, create("b", b"B"));
    apply(&mut store, 3, create("a", b"A"));
    apply(&mut store, 3, PolicyEdit::Enable { force: true });
    apply(&mut store, 4, PolicyEdit::Enable { force: false });
    let t = one_table_from_scan(&store, 3);
    assert!(t.rls_enabled && t.force);
    assert_eq!(t.epoch, 3);
    assert_eq!(t.policies.len(), 2);
    let four = one_table_from_scan(&store, 4);
    assert!(four.rls_enabled && !four.force);
    assert_eq!(four.epoch, 1);
    let none = one_table_from_scan(&store, 5);
    assert!(!none.rls_enabled && none.policies.is_empty());
    assert_eq!(none.epoch, 0);

    let cat = load_policy_catalog(&store);
    assert_eq!(cat.len(), 2);
    let three = &cat.iter().find(|(id, _)| *id == 3).unwrap().1;
    let names: Vec<&str> = three.policies.iter().map(|p| p.name.as_str()).collect();
    assert_eq!(names, vec!["a", "b"]);
    assert_eq!(three.policies[0].value, b"A");

    apply(&mut store, 3, PolicyEdit::Drop { name: "a".to_string(), existed: true });
    apply(&mut store, 3, PolicyEdit::Drop { name: "zz".to_string(), existed: false });
    apply(&mut store, 3, PolicyEdit::Disable);
    let t = one_table_from_scan(&store, 3);
    assert!(!t.rls_enabled);
    assert_eq!(t.policies.len(), 1, "policies stay when filtering is turned off");
    assert_eq!(t.epoch, 5, "dropping what is not there moves nothing");
}

#[test]
fn the_catalog_orders_policies_by_name_whatever_the_scan() {
    let store = vec![
        (pol_subkey(1, "zeta"), vec![1]),
        (pol_subkey(1, "alpha"), vec![2]),
        (pol_subkey(1, "mid"), vec![3]),
        (b"pol/junk".to_vec(), vec![4]),
    ];
    let cat = load_policy_catalog(&store);
    assert_eq!(cat.len(), 1);
    let got: Vec<(&str, u8)> = cat[0].1.policies.iter().map(|p| (p.name.as_str(), p.value[0])).collect();
    assert_eq!(got, vec![("alpha", 2), ("mid", 3), ("zeta", 1)]);
}

#[test]
fn epochs_move_and_wrap() {
    assert_eq!(bump_epoch(None), 1u64.to_le_bytes());
    assert_eq!(bump_epoch(Some(&41u64.to_le_bytes().to_vec())), 42u64.to_le_bytes());
    assert_eq!(bump_epoch(Some(&u64::MAX.to_le_bytes().to_vec())), 0u64.to_le_bytes());
    assert_eq!(bump_epoch(Some(&b"junk".to_vec())), 1u64.to_le_bytes());
}

// ---------------------------------------------------------------- staleness

fn stamp(epoch: u64, hash: u8) -> PolicyStamp {
    PolicyStamp { table: 0, epoch, hash: PlanHash([hash; 32]) }
}

fn live(epoch: u64, hash: u8) -> LivePolicy {
    LivePolicy { epoch_record: Some(epoch.to_le_bytes().to_vec()), hash: PlanHash([hash; 32]) }
}

#[test]
fn a_plan_is_stale_when_a_policy_really_changed() {
    assert!(!is_stale(&stamp(1, 7), &live(1, 9)), "the epoch did not move");
    assert!(!is_stale(&stamp(1, 7), &live(2, 7)), "an identical policy was made again");
    assert!(is_stale(&stamp(1, 7), &live(2, 9)));
    assert!(stamp_current(&stamp(0, 7), None));
    assert!(!stamp_current(&stamp(1, 7), None));
    assert!(validate_policies(&vec![], &vec![]).is_ok());
    assert!(validate_policies(&vec![stamp(1, 7), stamp(4, 8)], &vec![live(1, 7), live(5, 8)]).is_ok());
    // every table of a join is checked, not just the first
    assert_eq!(
        validate_policies(&vec![stamp(1, 7), stamp(4, 8)], &vec![live(1, 7), live(5, 9)]),
        Err(Error::PlanInvalidated)
    );
}

#[test]
fn values_of_warnings_are_text() {
    match warning_rows(vec!["w".to_string()]) {
        ExecResult::Rows { rows, .. } => assert_eq!(rows, vec![vec![Value::Text("w".to_string())]]),
        other => panic!("{other:?}"),
    }
}
