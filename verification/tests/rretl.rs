use mpedb::hash::{hash_hex, pk_ref, CanonChain};
use mpedb::plan::{ColumnDef, Schema, TableDef, TableKind};
use mpedb::rretl::{
    as_int, as_text, chunk_rows, chunk_rows_for_tests, committed_tables, definition, ensure_archive_tables, ensure_dirty_table,
    ensure_run_tables, ensure_state_table, ensure_tables_from, ensure_version_table, forward_refused, fsck_run, is_bookkeeping, lifo_gate,
    lossy_gate, next_run_id, now_micros, open_run, output_gate, pair_scan_sql, putback_forward, putback_residual, residual_gate,
    resolve_target, rows_of, rretl_bookkeeping_names, rretl_log, shape_gate, tally_rows, type_gate, update_sql, ApplyRun, BookTable, Cell,
    ChunkGuard, ChunkScan, FsckFacts, FsckRun, LineageRow, ResidualChain, RunFacts, Unwind, Verb,
};
use mpedb::{ColumnType, Error, ExecResult, Value};

fn chain_hex(values: &[&[u8]]) -> String {
    let mut c = CanonChain::new();
    for v in values {
        c.push(v);
    }
    c.hex()
}

#[test]
fn digests_are_blake3() {
    assert_eq!(hash_hex(b""), "af1349b9f5f9a1a6a0404dea36dcc9499bcb25c9adc112b7cc9a93cae41f3262");
    assert_eq!(chain_hex(&[]), hash_hex(b""));
    // a chain hashes each value behind its length
    let mut framed = 3u64.to_le_bytes().to_vec();
    framed.extend_from_slice(b"abc");
    assert_eq!(chain_hex(&[b"abc"]), hash_hex(&framed));
    let reference = pk_ref(b"abc");
    assert_eq!(reference.len(), 32);
    assert_eq!(reference, blake3::hash(b"abc").as_bytes());
}

#[test]
fn a_chain_keeps_its_values_apart() {
    assert_ne!(chain_hex(&[b"ab", b"c"]), chain_hex(&[b"a", b"bc"]));
    assert_ne!(chain_hex(&[b"abc"]), chain_hex(&[b"abc", b""]));
    assert_eq!(chain_hex(&[b"ab", b"c"]), chain_hex(&[b"ab", b"c"]));
}

// ---------------------------------------------------------------- tables

fn have(books: &[BookTable]) -> Vec<(String, Vec<String>)> {
    books
        .iter()
        .map(|t| {
            let d = definition(*t);
            (d.name.to_string(), d.columns.iter().map(|c| c.0.to_string()).collect())
        })
        .collect()
}

#[test]
fn bookkeeping_tables_are_made_once() {
    let names = |r: Result<Vec<mpedb::rretl::BookDef>, Error>| -> Vec<&'static str> { r.unwrap().iter().map(|d| d.name).collect() };
    let none = have(&[]);
    assert_eq!(names(ensure_tables_from(&none)), vec!["rretl_lineage", "rretl_residual"]);
    assert_eq!(names(ensure_version_table(&none)), vec!["rretl_versions"]);
    assert_eq!(names(ensure_archive_tables(&none)), vec!["rretl_archives", "rretl_archive_members"]);
    assert_eq!(names(ensure_state_table(&none)), vec!["rretl_map_state"]);
    assert_eq!(names(ensure_run_tables(&none)), vec!["rretl_map_cursor", "rretl_map_run"]);
    assert_eq!(names(ensure_dirty_table(&none)), vec!["rretl_map_dirty"]);
    let some = have(&[BookTable::Lineage, BookTable::MapRun, BookTable::MapDirty]);
    assert_eq!(names(ensure_tables_from(&some)), vec!["rretl_residual"]);
    assert_eq!(names(ensure_run_tables(&some)), vec!["rretl_map_cursor"]);
    assert!(names(ensure_dirty_table(&some)).is_empty());
    let d = definition(BookTable::Residual);
    assert_eq!(
        d.columns,
        vec![("run_id", ColumnType::Int64), ("pk_enc", ColumnType::Blob), ("residual", ColumnType::Any)]
    );
    assert_eq!(d.key, vec!["run_id", "pk_enc"]);
}

#[test]
fn a_table_that_only_has_the_name_is_refused() {
    let mine = vec![("rretl_residual".to_string(), vec!["x".to_string()])];
    assert_eq!(
        ensure_tables_from(&mine).map(|_| ()).unwrap_err().message(),
        "a table named `rretl_residual` already exists but is NOT rretl's bookkeeping table (columns [\"x\"], expected [\"run_id\", \
         \"pk_enc\", \"residual\"]) — rename or drop it; rretl will not write into a shape it does not own"
    );
    assert_eq!(shape_gate(&mine, "other", &["x"]), Ok(false));
    assert_eq!(shape_gate(&mine, "rretl_residual", &["x"]), Ok(true));
}

#[test]
fn every_bookkeeping_name_is_reserved() {
    for t in [
        BookTable::Lineage,
        BookTable::Residual,
        BookTable::Versions,
        BookTable::Archives,
        BookTable::Members,
        BookTable::MapState,
        BookTable::MapCursor,
        BookTable::MapRun,
        BookTable::MapDirty,
    ] {
        assert!(is_bookkeeping(definition(t).name));
    }
    assert_eq!(rretl_bookkeeping_names().len(), 9);
    assert!(!is_bookkeeping("orders"));
}

fn schema() -> Schema {
    let col = |n: &str, ty| ColumnDef { name: n.to_string(), ty, default: None };
    let t = |name: &str, pk: Vec<u16>, dead| TableDef {
        name: name.to_string(),
        columns: vec![col("id", ColumnType::Int64), col("v", ColumnType::Text)],
        primary_key: pk,
        indexes: vec![],
        dead,
        implicit_rowid: false,
        kind: TableKind::Standard,
    };
    Schema { tables: vec![t("t", vec![0], true), t("t", vec![0], false), t("wide", vec![0, 1], false)] }
}

#[test]
fn targets_resolve_to_their_row_identity() {
    let s = schema();
    let t = resolve_target(&s, "t", "v").unwrap();
    assert_eq!((t.pk_col.as_str(), t.col_type), ("id", ColumnType::Text));
    let refuse = |table: &str, col: &str| resolve_target(&s, table, col).map(|_| ()).unwrap_err().message();
    assert!(refuse("wide", "v").contains("has a 2-column primary key"));
    assert_eq!(refuse("t", "z"), "no column `z` in `t`");
    assert!(refuse("t", "id").contains("PRIMARY KEY in place"));
    assert!(resolve_target(&s, "rretl_map_dirty", "k").is_err());
    assert_eq!(
        committed_tables(&s),
        vec![
            ("t".to_string(), vec!["id".to_string(), "v".to_string()]),
            ("wide".to_string(), vec!["id".to_string(), "v".to_string()]),
        ]
    );
}

#[test]
fn cells_and_rows_are_read() {
    assert_eq!(as_int(&Value::Int(4)).unwrap(), 4);
    assert_eq!(
        as_int(&Value::Text("a\"b".to_string())).unwrap_err(),
        Error::Corrupt("lineage: expected int, got Text(\"a\\\"b\")".to_string())
    );
    assert_eq!(as_text(&Value::Text("x".to_string())), "x");
    assert_eq!(as_text(&Value::Int(3)), "Int(3)");
    let t = |s: &str| Value::Text(s.to_string());
    let row = vec![Value::Int(1), t("pair"), t("t"), t("v"), Value::Int(9), t("applied"), t("")];
    let log = rretl_log(&vec![row.clone()]).unwrap();
    assert_eq!((log[0].run_id, log[0].lens.as_str(), log[0].rows, log[0].outcome.as_str()), (1, "pair", 9, "applied"));
    let mut bad = row;
    bad[4] = Value::Null;
    assert!(rretl_log(&vec![bad]).is_err());
    assert_eq!(tally_rows(&vec![vec![t("a"), Value::Int(2)]]).unwrap(), vec![("a".to_string(), 2)]);
    assert_eq!(next_run_id(None), 1);
    assert_eq!(next_run_id(Some(7)), 8);
}

// ---------------------------------------------------------------- chunks

#[test]
fn chunk_sizes_can_be_forced_for_a_scope() {
    let mut cell: Option<usize> = None;
    let guard = ChunkGuard::new(&mut cell, 3);
    assert_eq!(chunk_rows(cell, None), 3);
    let inner = ChunkGuard::new(&mut cell, 5);
    assert_eq!(chunk_rows_for_tests(cell, Some("9")), 5);
    inner.release(&mut cell);
    assert_eq!(cell, Some(3));
    guard.release(&mut cell);
    assert_eq!(cell, None);
    assert_eq!(chunk_rows(None, Some("17")), 17);
    assert_eq!(chunk_rows(None, Some("zero")), chunk_rows(None, None));
    assert_eq!(now_micros(Some(12)), 12);
    assert_eq!(now_micros(None), 0);
    assert_eq!(now_micros(Some(1 << 63)), i64::MIN);
    assert_eq!(now_micros(Some((1 << 64) + 5)), 5);
}

#[test]
fn a_scan_goes_on_until_a_short_chunk() {
    let mut s = ChunkScan::begin(2);
    assert!(s.after_chunk(2));
    assert!(s.after_chunk(2));
    assert!(!s.after_chunk(1));
    assert_eq!(s.rows, 5);
    let (first, next) = pair_scan_sql("t", "id", "v", 10);
    assert!(first.contains("LIMIT 10") && !first.contains("$1"));
    assert!(next.contains("> $1"));
    assert!(update_sql("t", "id", "v").starts_with("UPDATE"));
}

// ---------------------------------------------------------------- apply

fn cell(b: &[u8]) -> Cell {
    Cell { value: Value::Blob(b.to_vec()), bits: b.to_vec() }
}

/// One row of a run over a column of any type.
fn apply_row(run: &mut ApplyRun, pk: i64, x: &[u8], y: &[u8], r: Option<&[u8]>) -> Result<(Cell, Option<Cell>), Error> {
    run.note_row("p", "t", "v", ColumnType::Any, &Value::Int(pk), &cell(x), Ok(cell(y)), r.map(|r| Ok(cell(r))))
}

#[test]
fn an_applied_run_records_what_it_did() {
    let mut run = ApplyRun::begin(4, true);
    let (y, r) = apply_row(&mut run, 1, b"x1", b"y1", Some(b"r1")).unwrap();
    assert_eq!((y.bits, r.unwrap().bits), (b"y1".to_vec(), b"r1".to_vec()));
    apply_row(&mut run, 2, b"x2", b"y2", Some(b"r2")).unwrap();
    run.note_inverted(b"x1");
    run.note_inverted(b"x2");
    let (report, row) = run.finish("p", "f", "r", "i", "t", "v", "res".to_string()).unwrap();
    assert_eq!((report.run_id, report.rows, report.residuals), (4, 2, 2));
    assert_eq!(row.source_hash, chain_hex(&[b"x1", b"x2"]));
    assert_eq!(row.output_hash, chain_hex(&[b"y1", b"y2"]));
    assert_eq!((row.outcome, row.rows, row.lens.as_str(), row.residual_hash.as_str()), ("applied", 2, "p", "res"));
    assert_eq!(row.values(99).len(), 15);
    assert_eq!(row.values(99)[14], Value::Int(99));
}

#[test]
fn a_bijective_run_keeps_no_residuals() {
    let mut run = ApplyRun::begin(4, false);
    assert!(apply_row(&mut run, 1, b"x1", b"y1", None).unwrap().1.is_none());
    run.note_inverted(b"x1");
    let (report, _) = run.finish("p", "f", "", "i", "t", "v", String::new()).unwrap();
    assert_eq!((report.rows, report.residuals), (1, 0));
}

#[test]
fn a_run_whose_inverse_differs_fails_verification() {
    let mut run = ApplyRun::begin(4, false);
    apply_row(&mut run, 1, b"x1", b"y1", None).unwrap();
    run.note_inverted(b"other");
    let e = run.finish("p", "f", "r", "i", "t", "v", String::new()).map(|_| ()).unwrap_err();
    assert_eq!(
        e.message(),
        "total verification FAILED: inverse of the transformed `t.v` does not reproduce the source (run 4); the transaction is rolled \
         back and the column is untouched"
    );
}

#[test]
fn two_sources_with_one_image_abort_the_run() {
    let mut run = ApplyRun::begin(1, true);
    apply_row(&mut run, 1, b"x1", b"y", Some(b"r")).unwrap();
    // the same source again is fine, and so is another residual
    apply_row(&mut run, 2, b"x1", b"y", Some(b"r")).unwrap();
    apply_row(&mut run, 3, b"x2", b"y", Some(b"s")).unwrap();
    let e = apply_row(&mut run, 4, b"x2", b"y", Some(b"r")).map(|_| ()).unwrap_err();
    assert!(e.message().contains("maps two DIFFERENT source values of `t.v`"));
    assert!(e.message().contains("(row Int(4))"));
}

#[test]
fn a_row_that_is_refused_or_does_not_fit_aborts_the_run() {
    let why = || Error::Bind("why".to_string());
    let mut run = ApplyRun::begin(1, true);
    let mut row = |y, r| {
        let e = run.note_row("p", "t", "v", ColumnType::Int64, &Value::Int(1), &cell(b"x"), y, Some(r));
        e.map(|_| ()).unwrap_err().message()
    };
    // the forward function comes first, then the type, then the residual
    assert!(row(Err(why()), Err(why())).starts_with("`p` refuses row Int(1) of `t.v`"));
    assert!(row(Ok(cell(b"y")), Err(why())).contains("which does not fit `t.v`"));
    let fits = Cell { value: Value::Int(3), bits: vec![3] };
    assert!(row(Ok(fits), Err(why())).starts_with("`p`'s rex refuses row Int(1)"));
}

#[test]
fn gates_before_a_run() {
    assert!(lossy_gate("p", false).is_ok());
    assert!(lossy_gate("p", true).is_err());
    let pass = type_gate("p", "t", "v", ColumnType::Int64, &Value::Int(1), &Value::Int(2));
    assert!(pass.is_ok());
    assert!(type_gate("p", "t", "v", ColumnType::Int64, &Value::Int(1), &Value::Text("x".to_string())).is_err());
    let e = forward_refused("p", "t", "v", &Value::Int(1), &Value::Int(2), &Error::Bind("why".to_string()));
    assert!(e.message().contains("why"));
    let f = LineageRow::failed(3, "p", "t", "v", &Error::DbFull);
    assert_eq!((f.run_id, f.outcome, f.rows), (3, "failed", 0));
    assert_eq!(f.error, Error::DbFull.message());
}

// ---------------------------------------------------------------- unwinding

fn facts(outcome: &str) -> RunFacts {
    RunFacts {
        pair: "p".to_string(),
        table: "t".to_string(),
        column: "v".to_string(),
        source_hash: chain_hex(&[b"x1"]),
        output_hash: "out".to_string(),
        outcome: outcome.to_string(),
        residual_hash: "res".to_string(),
    }
}

#[test]
fn a_revert_passes_every_gate_in_order() {
    let mut u = Unwind::begin(7, Verb::Revert, open_run(7, Verb::Revert, true, Some(facts("applied"))).unwrap(), true);
    u.on_top(Some(7)).unwrap();
    u.on_residuals("res").unwrap();
    u.on_column("out").unwrap();
    assert!(u.take_residual(&Value::Int(1), None).map(|_| ()).unwrap_err().message().contains("residual row missing for run 7"));
    assert_eq!(u.take_residual(&Value::Int(1), Some(cell(b"r"))).unwrap().unwrap().bits, b"r");
    u.note_row(b"x1");
    let (report, outcome) = u.finish().unwrap();
    assert_eq!((report.run_id, report.rows, outcome), (7, 1, "reverted"));
}

#[test]
fn a_revert_that_does_not_reproduce_the_source_fails() {
    let mut u = Unwind::begin(7, Verb::Revert, facts("applied"), true);
    u.on_top(Some(7)).unwrap();
    u.on_residuals("res").unwrap();
    u.on_column("out").unwrap();
    u.note_row(b"other");
    assert!(u.finish().map(|_| ()).unwrap_err().message().starts_with("revert verification FAILED for run 7"));
}

#[test]
fn unwinding_is_refused_by_name() {
    let open = |exists, row| open_run(7, Verb::Revert, exists, row).map(|_| ()).unwrap_err().message();
    assert_eq!(open(false, None), "no rretl lineage in this database");
    assert!(open(true, None).starts_with("no rretl run 7 in the lineage"));
    assert_eq!(open(true, Some(facts("reverted"))), "rretl run 7 is already reverted");
    assert_eq!(
        open(true, Some(facts("failed"))),
        "rretl run 7 has outcome `failed`; only an applied run can be reverted"
    );
    assert!(lifo_gate(7, "t", "v", Some(7)).is_ok());
    assert!(lifo_gate(7, "t", "v", Some(9)).unwrap_err().message().starts_with("rretl run 7 is buried under run 9 on `t.v`"));
    assert!(matches!(lifo_gate(7, "t", "v", None), Err(Error::Corrupt(_))));
    assert!(residual_gate(7, "a", "a", Verb::Revert).is_ok());
    assert!(residual_gate(7, "a", "b", Verb::Putback).is_err());
    assert!(output_gate(7, "t", "v", "a", "a").is_ok());
    assert!(output_gate(7, "t", "v", "a", "b").is_err());
    assert!(putback_residual(7, "t", "v", &Value::Int(3)).message().contains("Int(3)"));
}

fn putback(has_rex: bool) -> Unwind {
    let mut u = Unwind::begin(7, Verb::Putback, facts("applied"), has_rex);
    u.on_top(Some(7)).unwrap();
    u.on_residuals("res").unwrap();
    u
}

#[test]
fn a_putback_takes_edits_that_the_pair_can_express() {
    let int = |v: i64| Cell { value: Value::Int(v), bits: vec![v as u8] };
    assert!(putback_forward(&Value::Int(1), &int(5), false, Ok(int(5))).is_ok());
    assert!(putback_forward(&Value::Int(1), &int(5), false, Ok(int(6))).is_err());
    assert!(putback_forward(&Value::Int(1), &int(5), true, Err(Error::Bind("no".to_string()))).is_err());
    let pk = Value::Int(1);
    let mut u = putback(true);
    u.putback_row(&pk, &cell(b"y9"), Some(cell(b"r")), &cell(b"x9"), Ok(cell(b"y9")), Some(Ok(cell(b"r")))).unwrap();
    u.putback_row(&pk, &cell(b"y8"), Some(cell(b"s")), &cell(b"x8"), Ok(cell(b"y8")), Some(Ok(cell(b"s")))).unwrap();
    let (report, outcome) = u.finish().unwrap();
    assert_eq!((report.rows, report.residuals, outcome), (2, 2, "putback"));
    let mut u = putback(false);
    u.putback_row(&pk, &cell(b"y9"), None, &cell(b"x9"), Ok(cell(b"y9")), None).unwrap();
    let (report, outcome) = u.finish().unwrap();
    assert_eq!((report.rows, report.residuals, outcome), (1, 0, "putback"));
}

#[test]
fn a_putback_refuses_rows_that_do_not_hold() {
    let pk = Value::Int(1);
    let mut u = putback(true);
    let e = u.putback_row(&pk, &cell(b"y"), None, &cell(b"x"), Ok(cell(b"y")), None).unwrap_err();
    assert!(e.message().contains("has no residual in run 7"));
    assert_eq!(u.take_residual(&pk, None).map(|_| ()).unwrap_err(), e);
    let e = u.putback_row(&pk, &cell(b"y"), Some(cell(b"r")), &cell(b"x"), Ok(cell(b"z")), Some(Ok(cell(b"r")))).unwrap_err();
    assert!(e.message().contains("is outside the pair's image"));
    let e = u.putback_row(&pk, &cell(b"y"), Some(cell(b"r")), &cell(b"x"), Ok(cell(b"y")), Some(Ok(cell(b"q")))).unwrap_err();
    assert!(e.message().contains("the residual does not survive the edit"));
    // none of them was taken
    let (report, _) = u.finish().unwrap();
    assert_eq!((report.rows, report.residuals), (0, 0));
}

#[test]
fn an_untouched_run_reverts_to_its_source() {
    let mut run = ApplyRun::begin(7, true);
    apply_row(&mut run, 1, b"x1", b"y1", Some(b"r1")).unwrap();
    apply_row(&mut run, 2, b"x2", b"y2", Some(b"r2")).unwrap();
    run.note_inverted(b"x1");
    run.note_inverted(b"x2");
    let (applied, row) = run.finish("p", "f", "r", "i", "t", "v", "res".to_string()).unwrap();
    let recorded = |outcome: &str| RunFacts {
        pair: row.lens.clone(),
        table: row.table.clone(),
        column: row.column.clone(),
        source_hash: row.source_hash.clone(),
        output_hash: row.output_hash.clone(),
        outcome: outcome.to_string(),
        residual_hash: row.residual_hash.clone(),
    };
    let mut u = Unwind::begin(7, Verb::Revert, open_run(7, Verb::Revert, true, Some(recorded(row.outcome))).unwrap(), true);
    u.on_top(Some(7)).unwrap();
    u.on_residuals("res").unwrap();
    u.on_column(&chain_hex(&[b"y1", b"y2"])).unwrap();
    u.note_row(b"x1");
    u.note_row(b"x2");
    let (report, outcome) = u.finish().unwrap();
    assert_eq!((report.run_id, report.rows, report.residuals, outcome), (7, applied.rows, 0, "reverted"));
    assert!(open_run(7, Verb::Revert, true, Some(recorded(outcome))).is_err());
}

// ---------------------------------------------------------------- fsck

#[test]
fn fsck_names_what_is_wrong() {
    let run = |id| FsckRun {
        run_id: id,
        pair: "p".to_string(),
        table: "t".to_string(),
        column: "v".to_string(),
        output_hash: "out".to_string(),
        residual_hash: "res".to_string(),
    };
    let runs = vec![run(1), run(2)];
    let clean = || FsckFacts {
        residuals: "res".to_string(),
        pair_error: None,
        has_rex: true,
        target_error: None,
        column_hash: "out".to_string(),
        bare_rows: vec![],
    };
    assert!(fsck_run(&runs, 1, &clean()).is_empty());
    let mut f = clean();
    f.residuals = "edited".to_string();
    f.column_hash = "edited".to_string();
    f.bare_rows = vec![Value::Int(3)];
    let found = fsck_run(&runs, 1, &f);
    assert_eq!(found.len(), 3);
    assert!(found[0].contains("no longer hash to what the apply wrote"));
    assert!(found[1].contains("no longer hashes to the run's output"));
    assert!(found[2].contains("row Int(3) of `t.v` has NO residual"));
    // a run that another one covers is not compared with the column
    assert_eq!(fsck_run(&runs, 0, &f).len(), 2);
    let mut gone = clean();
    gone.pair_error = Some("missing".to_string());
    gone.target_error = Some("dropped".to_string());
    let found = fsck_run(&runs, 1, &gone);
    assert_eq!(found.len(), 2);
    assert!(found[0].contains("its pair `p` cannot be loaded (missing)"));
    assert!(found[1].contains("its target `t.v` is gone (dropped)"));
}

#[test]
fn residuals_have_an_identity_only_where_there_are_some() {
    assert_eq!(ResidualChain::new().finish(), "");
    let of = |rows: &[(&[u8], &[u8])]| {
        let mut c = ResidualChain::new();
        for (k, r) in rows {
            c.push(k, r);
        }
        c.finish()
    };
    let rows: [(&[u8], &[u8]); 2] = [(b"k1", b"r1"), (b"k2", b"r2")];
    assert_eq!(of(&rows), chain_hex(&[b"k1", b"r1", b"k2", b"r2"]));
    assert_ne!(of(&rows), of(&rows[..1]));
    assert_ne!(of(&rows), of(&[(b"k1", b"r1"), (b"k2", b"rX")]));
    assert_ne!(of(&[(b"ab", b"c")]), of(&[(b"a", b"bc")]));
}

#[test]
fn only_rows_are_rows() {
    let rows = vec![vec![Value::Int(1)]];
    assert_eq!(rows_of(ExecResult::Rows { columns: vec![], rows: rows.clone() }).unwrap(), rows);
    assert_eq!(
        rows_of(ExecResult::Affected(3)).unwrap_err().message(),
        Error::Unsupported("expected rows, got Affected(3)".to_string()).message()
    );
    assert_eq!(
        rows_of(ExecResult::Explain("a\"b".to_string())).unwrap_err().message(),
        Error::Unsupported("expected rows, got Explain(\"a\\\"b\")".to_string()).message()
    );
}
