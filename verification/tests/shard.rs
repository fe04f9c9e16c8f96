use mpedb::plan::{
    AccessPath, ColumnDef, CompiledPlan, ExprProgram, Footprint, InsertSource, KeyAccess, KeyPart, PlanStmt, Schema, SelectPlan, SubBody,
    SubPlan, TableDef, TableKind,
};
use mpedb::shard::{add_count, fan_out, route, shard_count, shard_of, shard_path, FanOut, Gathered, Route};
use mpedb::{ColumnType, Error, ExecResult, Value};

fn schema() -> Schema {
    let column = |name: &str| ColumnDef { name: name.to_string(), ty: ColumnType::Int64, default: None };
    Schema {
        tables: vec![TableDef {
            name: "kv".to_string(),
            columns: vec![column("id"), column("v")],
            primary_key: vec![0],
            indexes: vec![],
            dead: false,
            implicit_rowid: false,
            kind: TableKind::Standard,
        }],
    }
}

fn plan(stmt: PlanStmt) -> CompiledPlan {
    CompiledPlan {
        stmt,
        subplans: vec![],
        consts: vec![Value::Int(5), Value::Int(999)],
        n_params: 2,
        context_keys: vec![],
        param_types: vec![None, None],
        policies: vec![],
        footprint: Footprint { read_only: false, tables_read: vec![], tables_written: vec![0], key_access: KeyAccess::Full },
        host_call: false,
    }
}

fn insert(key: InsertSource) -> CompiledPlan {
    plan(PlanStmt::Insert { table: 0, rows: vec![vec![key, InsertSource::Param(1)]], from_select: None })
}

fn select(access: AccessPath) -> SelectPlan {
    SelectPlan {
        table: 0,
        access,
        joins: vec![],
        filter: None,
        projection: vec![],
        aggregate: false,
        windows: false,
        distinct: false,
        order_by: false,
        joined_filter: false,
        post_filter: false,
        limit: None,
        offset: None,
    }
}

fn point(part: KeyPart) -> CompiledPlan {
    plan(PlanStmt::Select(select(AccessPath::PkPoint(vec![part]))))
}

/// A tag byte and the integer, as values are written.
fn write_value(v: &Value) -> Vec<u8> {
    match v {
        Value::Int(i) => {
            let mut b = vec![2u8];
            b.extend_from_slice(&i.to_le_bytes());
            b
        }
        other => panic!("no encoding for {other:?}"),
    }
}

fn shard(p: &CompiledPlan, params: &[Value], k: usize) -> Option<usize> {
    match route(p, &schema(), params).unwrap() {
        Route::Key(vs) => Some(shard_of(&vs.iter().map(write_value).collect(), k)),
        Route::All => None,
    }
}

fn nrows(r: &ExecResult) -> usize {
    match r {
        ExecResult::Rows { rows, .. } => rows.len(),
        other => panic!("expected rows, got {other:?}"),
    }
}

#[test]
fn point_ops_route_and_reads_find_their_shard() {
    for id in 0..200i64 {
        let written = shard(&insert(InsertSource::Param(0)), &[Value::Int(id), Value::Int(id * 10)], 4);
        // Every point read finds its row (routed to the same shard as the insert).
        assert!(written.is_some());
        assert_eq!(shard(&point(KeyPart::Param(0)), &[Value::Int(id)], 4), written, "id {id} not found");
    }
    // A point UPDATE or DELETE routes to one shard.
    let at = AccessPath::PkPoint(vec![KeyPart::Const(0)]);
    let set = vec![(1u16, ExprProgram { instrs: vec![] })];
    let update = plan(PlanStmt::Update { table: 0, access: at, filter: None, set });
    let home = shard(&insert(InsertSource::Param(0)), &[Value::Int(5), Value::Int(50)], 4);
    assert_eq!(shard(&update, &[], 4), home);
    let at = AccessPath::PkPoint(vec![KeyPart::Const(0)]);
    assert_eq!(shard(&plan(PlanStmt::Delete { table: 0, access: at, filter: None }), &[], 4), home);
}

#[test]
fn full_scan_fans_out_and_unions_all_shards() {
    let scan = plan(PlanStmt::Select(select(AccessPath::FullScan)));
    assert!(shard(&scan, &[], 4).is_none());
    assert_eq!(fan_out(&scan.stmt).unwrap(), FanOut::Rows);
    // A non-point SELECT unions the rows of all shards.
    let mut g = Gathered::new();
    for s in 0..4i64 {
        let rows: Vec<Vec<Value>> = (0..50).map(|i| vec![Value::Int(s * 50 + i)]).collect();
        g.add_shard(ExecResult::Rows { columns: vec!["id".to_string()], rows }).unwrap();
    }
    assert_eq!(g.columns, vec!["id".to_string()]);
    assert_eq!(g.rows[199], vec![Value::Int(199)]);
    assert_eq!(nrows(&ExecResult::Rows { columns: g.columns, rows: g.rows }), 200);
    // A non-point UPDATE/DELETE applies across shards, counts summed.
    let update = PlanStmt::Update { table: 0, access: AccessPath::FullScan, filter: None, set: vec![] };
    assert_eq!(fan_out(&update).unwrap(), FanOut::Count);
    let total = (0..4).fold(0u64, |n, _| add_count(n, &ExecResult::Affected(50)));
    assert_eq!(ExecResult::Affected(total), ExecResult::Affected(200));
    // Cross-shard ORDER BY/LIMIT is rejected in v1.
    let mut sorted = select(AccessPath::FullScan);
    sorted.order_by = true;
    sorted.limit = Some(10);
    assert!(matches!(fan_out(&PlanStmt::Select(sorted)), Err(Error::Unsupported(_))));
}

#[test]
fn distribution_across_shards_is_balanced() {
    let mut held = [0usize; 8];
    for id in 0..800i64 {
        held[shard(&insert(InsertSource::Param(0)), &[Value::Int(id), Value::Int(0)], 8).unwrap()] += 1;
    }
    // Each shard should hold a nontrivial slice (hash spread), summing to 800.
    for n in held {
        assert!(n > 0, "a shard is empty — poor hash spread");
    }
    assert_eq!(held.iter().sum::<usize>(), 800);
}

#[test]
fn what_cannot_be_routed_is_refused() {
    let s = schema();
    let refuse = |p: &CompiledPlan, params: &[Value]| match route(p, &s, params) {
        Err(e) => e,
        Ok(_) => panic!("routed"),
    };
    let two = PlanStmt::Insert { table: 0, rows: vec![vec![], vec![]], from_select: None };
    assert_eq!(refuse(&plan(two), &[]).message(), "multi-row INSERT across shards is not supported (v1)");
    let far = PlanStmt::Insert { table: 9, rows: vec![vec![]], from_select: None };
    assert_eq!(refuse(&plan(far), &[]), Error::Internal("shard: table id out of range".to_string()));
    assert_eq!(
        refuse(&insert(InsertSource::Default), &[]).message(),
        "cannot shard-route an INSERT whose primary key uses DEFAULT"
    );
    assert_eq!(refuse(&insert(InsertSource::Param(0)), &[]), Error::Internal("shard: pk param".to_string()));
    assert_eq!(refuse(&insert(InsertSource::Const(7)), &[]), Error::Internal("shard: pk const".to_string()));
    assert_eq!(refuse(&point(KeyPart::Param(0)), &[]), Error::Internal("shard: key param".to_string()));
    assert_eq!(refuse(&point(KeyPart::Const(7)), &[]), Error::Internal("shard: key const".to_string()));
    assert_eq!(
        refuse(&point(KeyPart::OuterCol(0)), &[]),
        Error::Internal("shard: outer-column key part outside a join".to_string())
    );
    assert_eq!(
        refuse(&plan(PlanStmt::Begin), &[]).message(),
        "explicit transactions are not supported on a ShardSet (v1)"
    );
    assert_eq!(fan_out(&PlanStmt::Begin), Err(Error::Internal("shard: unexpected fan-out statement".to_string())));
    assert_eq!(shard_count(0), Err(Error::Config("ShardSet needs at least 1 shard".to_string())));
    assert_eq!(shard_count(3), Ok(3));
}

#[test]
fn a_statement_with_a_subquery_goes_everywhere() {
    let mut p = point(KeyPart::Param(0));
    p.subplans = vec![SubPlan { correlated: false, body: SubBody::Select(select(AccessPath::FullScan)), subplans: vec![] }];
    assert!(matches!(route(&p, &schema(), &[]).unwrap(), Route::All));
}

#[test]
fn shards_have_files_of_their_own() {
    assert_eq!(shard_path("/data/t.mpedb", 0), "/data/t.mpedb.shard0");
    assert_eq!(shard_path("/data/t.mpedb", 12), "/data/t.mpedb.shard12");
    // one shard takes everything; the empty key hashes to the offset basis
    assert_eq!(shard_of(&vec![vec![1, 2, 3]], 1), 0);
    assert_eq!(shard_of(&vec![], 1000), (0xcbf2_9ce4_8422_2325u64 % 1000) as usize);
    // splitting the bytes differently hashes the same
    assert_eq!(shard_of(&vec![vec![1], vec![2, 3]], 97), shard_of(&vec![vec![1, 2], vec![3]], 97));
}

#[test]
fn a_shard_that_answers_otherwise_is_an_internal_error() {
    let mut g = Gathered::new();
    assert_eq!(
        g.add_shard(ExecResult::Affected(3)).unwrap_err().message(),
        "shard fan-out expected rows, got Affected(3)"
    );
    assert_eq!(
        g.add_shard(ExecResult::Explain("a \"plan\"".to_string())).unwrap_err().message(),
        "shard fan-out expected rows, got Explain(\"a \\\"plan\\\"\")"
    );
    assert_eq!(g.rows.len(), 0);
    assert_eq!(add_count(4, &ExecResult::Explain(String::new())), 4);
}
