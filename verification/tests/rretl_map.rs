use mpedb::plan::{ColumnDef, Schema, TableDef, TableKind};
use mpedb::rretl::Cell;
use mpedb::rretl_map::{
    begin_carry, chain, classify_p1, classify_p2, created_value_gate, first_not_bijective, inverse_all, map_record, mirror_table, quoted, resolve_map,
    rretl_map_show, rretl_maps, side_sql, sweep_state_row, sync_source_row, sync_target_row, verify_persisted, Ask, Carry, ColumnCarry, ColumnCtx, CreatedValue, LensClass, MapSpec, MapSyncReport,
    Pass, SourceRow, TableSync, TargetRow, P1, P2,
};
use mpedb::rretl_map_run::{
    after_step, before_step, claim, leaves_lineage, lease_secs, map_lineage, read_run, release_lease, rretl_map_status, runner_name,
    tables_with_work, Cursor, MapRunReport, RunAction, RunOptions, RunRecord, RunStop, StepAction,
};
use mpedb::rretl_map_stream::{
    clear, drain_chunk, install, install_side, prior_table_count, remove, sync_one_key, target_exists, trigger_name, KeyPass, RowEvent,
    Side,
};
use mpedb::{ColumnType, Error, Float, Value};

const DOC: &str = r#"
[map]
name = "crm"

[[map.table]]
source = "people"
target = "contacts"
target_key = "pid"

[[map.table.column]]
source = "name"
target = "full_name"

[[map.table.column]]
source = "email"
target = "mail"
pair = "lower"
"#;

// ---------------------------------------------------------------- documents

#[test]
fn a_document_is_read() {
    let m = MapSpec::from_toml_str(DOC).unwrap();
    assert_eq!(m.name, "crm");
    assert_eq!(m.tables.len(), 1);
    let t = &m.tables[0];
    assert_eq!((t.source.as_str(), t.target.as_str(), t.target_key.as_deref()), ("people", "contacts", Some("pid")));
    let cols: Vec<(&str, &str, Option<&str>)> =
        t.columns.iter().map(|c| (c.source.as_str(), c.target.as_str(), c.pair.as_deref())).collect();
    assert_eq!(cols, vec![("name", "full_name", None), ("email", "mail", Some("lower"))]);
}

#[test]
fn documents_are_refused_by_name() {
    let refuse = |text: &str| MapSpec::from_toml_str(text).map(|_| ()).unwrap_err().message();
    assert_eq!(refuse("x = 1"), "map spec: missing [map] section");
    assert_eq!(refuse("[map]\ny = 1"), "map spec: missing map.name");
    assert_eq!(refuse("[map]\nname = \"m\""), "map spec: at least one [[map.table]]");
    assert_eq!(
        refuse(&DOC.replace("\"crm\"", "\"no good\"")),
        "map spec: `no good` is not a legal map name"
    );
    assert_eq!(
        refuse(&DOC.replace("\"contacts\"", "\"people\"")),
        "map spec: `people` maps onto itself — source and target must differ"
    );
    assert!(refuse(&DOC.replace("\"mail\"", "\"full_name\"")).ends_with("is written twice"));
    assert!(refuse(&DOC.replace("\"email\"", "\"name\"")).contains("is mapped twice"));
    assert!(MapSpec::from_toml_str(&DOC.replace("\"contacts\"", "\"rretl_map_dirty\"")).is_err());
    assert!(MapSpec::from_toml_str("[map").is_err(), "not a document at all");
}

#[test]
fn stored_maps_are_given_back() {
    let rec = map_record(DOC);
    assert_eq!(rec[0], 1);
    assert_eq!(rretl_map_show("crm", Some(&rec)).unwrap(), DOC);
    assert_eq!(rretl_map_show("crm", None).unwrap_err().message(), "no map named `crm`");
    assert_eq!(rretl_map_show("crm", Some(&[])).unwrap_err().message(), "map `crm`: empty record");
    assert_eq!(
        rretl_map_show("crm", Some(&[9])).unwrap_err().message(),
        "map `crm` uses record version 9; this build reads version 1"
    );
    assert_eq!(rretl_map_show("crm", Some(&[1, 0xff])).unwrap_err().message(), "map `crm`: record is not UTF-8");
    let keys = vec![b"ns\0a".to_vec(), b"ns\0\xff".to_vec(), b"ns\0b".to_vec()];
    assert_eq!(rretl_maps(&keys, 3), vec!["a".to_string(), "b".to_string()]);
    assert_eq!(prior_table_count(Some(&rec)), 1);
    assert_eq!(prior_table_count(None), 0);
}

fn schema() -> Schema {
    let col = |n: &str| ColumnDef { name: n.to_string(), ty: ColumnType::Text, default: None };
    Schema {
        tables: vec![TableDef {
            name: "people".to_string(),
            columns: vec![col("id"), col("name"), col("email")],
            primary_key: vec![0],
            indexes: vec![],
            dead: false,
            implicit_rowid: false,
            kind: TableKind::Standard,
        }],
    }
}

#[test]
fn a_map_resolves_against_the_schema() {
    let m = MapSpec::from_toml_str(DOC).unwrap();
    let mut all = resolve_map(&m, &schema(), None).unwrap();
    assert_eq!(all.len(), 1);
    let r = all.remove(0);
    assert_eq!((r.src.as_str(), r.dst.as_str(), r.src_key.as_str(), r.dst_key.as_str()), ("people", "contacts", "id", "pid"));
    assert!(r.create_dst);
    let none = Schema { tables: vec![] };
    let fault = |s: &Schema, broken| resolve_map(&m, s, broken).map(|_| ()).unwrap_err().message();
    assert_eq!(fault(&none, None), "map `crm`: no source table `people`");
    // a table that does not fit comes before its own pairs
    assert_eq!(fault(&none, Some((0, Error::Internal("pair".to_string())))), "map `crm`: no source table `people`");
    let pair = Error::Internal("pair".to_string());
    assert_eq!(fault(&schema(), Some((0, pair.clone()))), pair.message());
    assert!(resolve_map(&m, &schema(), Some((1, pair))).is_ok());
    let sql = install_side("crm", 0, &r, Side::Source);
    assert_eq!(sql.len(), 6);
    assert_eq!(sql[4], "DROP TRIGGER IF EXISTS rrmap_crm_0a_d");
    assert_eq!(
        sql[5],
        "CREATE TRIGGER rrmap_crm_0a_d AFTER DELETE ON \"people\" FOR EACH ROW BEGIN INSERT INTO rretl_map_dirty (map, tbl, side, k) \
         VALUES ('crm', 'contacts', 'a', OLD.\"id\"); END"
    );
    let sql = install_side("crm", 0, &r, Side::Target);
    assert!(sql[1].contains("ON \"contacts\"") && sql[1].contains("NEW.\"pid\""), "{}", sql[1]);
}

#[test]
fn a_missing_target_is_made_and_then_accepted() {
    let m = MapSpec::from_toml_str(DOC).unwrap();
    let r = resolve_map(&m, &schema(), None).unwrap().remove(0);
    let def = mirror_table(&r, &m.tables[0], &vec![]).unwrap();
    assert_eq!((def.name.as_str(), def.key.as_str()), ("contacts", "pid"));
    assert_eq!(def.columns[0], ("pid".to_string(), ColumnType::Text));
    assert!(def.columns[1..].iter().all(|c| c.1 == ColumnType::Any));
    assert_eq!(def.columns.len(), m.tables[0].columns.len() + 1);
    assert!(mirror_table(&r, &m.tables[0], &vec![("contacts".to_string(), vec![])]).is_none());
    let mut after = schema();
    after.tables.push(TableDef {
        name: def.name,
        columns: def.columns.into_iter().map(|(name, ty)| ColumnDef { name, ty, default: None }).collect(),
        primary_key: vec![0],
        indexes: vec![],
        dead: false,
        implicit_rowid: false,
        kind: TableKind::Standard,
    });
    let r = resolve_map(&m, &after, None).unwrap().remove(0);
    assert!(!r.create_dst);
    assert!(mirror_table(&r, &m.tables[0], &vec![]).is_none());
}

#[test]
fn a_definition_replaces_the_triggers_of_the_one_before() {
    let m = MapSpec::from_toml_str(DOC).unwrap();
    let rs = resolve_map(&m, &schema(), None).unwrap();
    let drops = remove("crm", 3);
    assert_eq!(drops.len(), 18);
    assert_eq!(drops[0], "DROP TRIGGER IF EXISTS rrmap_crm_0a_i");
    assert_eq!(drops[17], "DROP TRIGGER IF EXISTS rrmap_crm_2b_d");
    // the target does not exist yet
    let sql = install("crm", &rs, 3, &vec![]);
    assert_eq!(sql.len(), 18 + 6);
    assert_eq!(sql[..18], drops[..]);
    assert_eq!(sql[18..], install_side("crm", 0, &rs[0], Side::Source)[..]);
    let sql = install("crm", &rs, 0, &vec![("CONTACTS".to_string(), vec![])]);
    assert_eq!(sql.len(), 6 + 12);
    assert_eq!(sql[12..], install_side("crm", 0, &rs[0], Side::Target)[..]);
}

#[test]
fn a_sync_clears_the_journal_that_exists() {
    assert!(clear(&vec![("other".to_string(), vec![])]).is_none());
    assert_eq!(
        clear(&vec![("rretl_map_dirty".to_string(), vec![])]).as_deref(),
        Some("DELETE FROM rretl_map_dirty WHERE map = $1")
    );
}

#[test]
fn swept_records_are_named_by_blobs() {
    assert_eq!(sweep_state_row(&Value::Blob(vec![1, 2])).unwrap(), vec![1, 2]);
    assert_eq!(
        sweep_state_row(&Value::Int(3)).unwrap_err().message(),
        Error::Corrupt("map state pk_enc is not a blob: Int(3)".to_string()).message()
    );
}

#[test]
fn statements_of_one_side() {
    let cols = vec!["a".to_string(), "b".to_string()];
    assert_eq!(quoted(&cols), "\"a\", \"b\"");
    let q = side_sql("t", "k", &cols, 50);
    assert_eq!(q.get, "SELECT \"a\", \"b\" FROM \"t\" WHERE \"k\" = $1");
    assert_eq!(q.insert, "INSERT INTO \"t\" (\"k\", \"a\", \"b\") VALUES ($1, $2, $3)");
    assert_eq!(q.update, "UPDATE \"t\" SET \"a\" = $2, \"b\" = $3 WHERE \"k\" = $1");
    assert_eq!(q.delete, "DELETE FROM \"t\" WHERE \"k\" = $1");
    assert_eq!(q.next, "SELECT \"k\", \"a\", \"b\" FROM \"t\" WHERE \"k\" > $1 ORDER BY \"k\" LIMIT 50");
}

// ---------------------------------------------------------------- sync

fn bits(v: &[u8]) -> Vec<Vec<u8>> {
    vec![v.to_vec()]
}

/// A store of one row on either side with a lens that upper-cases.
struct Row {
    a: Option<Vec<Vec<u8>>>,
    b: Option<Vec<Vec<u8>>>,
    st: Option<(String, String)>,
}

fn forward(v: &[Vec<u8>]) -> Vec<Vec<u8>> {
    v.iter().map(|x| x.to_ascii_uppercase()).collect()
}

fn back(v: &[Vec<u8>]) -> Vec<Vec<u8>> {
    v.iter().map(|x| x.to_ascii_lowercase()).collect()
}

fn bytes_cell(b: &[u8]) -> Cell {
    Cell { value: Value::Blob(b.to_vec()), bits: b.to_vec() }
}

/// Every column of the target row, carried back through the lens.
fn carried(a: &[Vec<u8>], b: &[Vec<u8>]) -> Result<Vec<ColumnCarry>, Error> {
    let key = Value::Int(1);
    let ctx = ColumnCtx { src: "people", dst: "contacts", dst_col: "name", key: &key };
    a.iter()
        .zip(b)
        .map(|(x, y)| {
            let c = ColumnCarry::begin(Some(LensClass::Bijective), bytes_cell(x), bytes_cell(y));
            let inverse = y.to_ascii_lowercase();
            let forward = inverse.to_ascii_uppercase();
            c.on_answer(&ctx, Ok(bytes_cell(&inverse)))?.on_answer(&ctx, Ok(bytes_cell(&forward)))
        })
        .collect()
}

/// Every column of a row that was made on the target.
fn created(b: &[Vec<u8>]) -> Vec<CreatedValue> {
    let key = Value::Int(1);
    let ctx = ColumnCtx { src: "people", dst: "contacts", dst_col: "name", key: &key };
    b.iter()
        .map(|y| {
            let x = y.to_ascii_lowercase();
            let fwd = x.to_ascii_uppercase();
            CreatedValue::inverted("crm", &ctx, &bytes_cell(y), bytes_cell(&x), &bytes_cell(&fwd)).unwrap()
        })
        .collect()
}

fn sync_source(row: &mut Row) -> Result<P1, Error> {
    let key = Value::Int(1);
    let a = row.a.clone().expect("a source row");
    let mut m = SourceRow::begin("crm", "contacts", &key, &a, row.st.clone(), row.b.clone())?;
    for _ in 0..20 {
        match m.next() {
            Ask::Done => return Ok(m.plan()),
            Ask::Forward => m.on_forward("crm", "contacts", &key, forward(&a))?,
            Ask::Back => m.on_back(&carried(&a, row.b.as_ref().unwrap())?),
            Ask::InsertTarget | Ask::UpdateTarget => {
                row.b = Some(forward(&a));
                m.on_written();
            }
            Ask::UpdateSource => {
                row.a = Some(back(row.b.as_ref().unwrap()));
                m.on_written();
            }
            Ask::DeleteSource => {
                row.a = None;
                m.on_written();
            }
            Ask::ReadTarget => {
                let got = row.b.as_ref().map(chain);
                m.on_read(&key, got.as_deref())?;
            }
            Ask::ReadSource => {
                let got = row.a.as_ref().map(chain);
                m.on_read(&key, got.as_deref())?;
            }
            Ask::PutState | Ask::SetState => {
                let (x, y) = m.hashes();
                row.st = Some((x.to_string(), y.to_string()));
                m.on_written();
            }
            Ask::DeleteState => {
                row.st = None;
                m.on_written();
            }
            other => panic!("{other:?}"),
        }
    }
    panic!("no end");
}

#[test]
fn a_new_row_flows_over_and_stays() {
    let mut row = Row { a: Some(bits(b"ann")), b: None, st: None };
    assert_eq!(sync_source(&mut row).unwrap(), P1::CreateB);
    assert_eq!(row.b, Some(bits(b"ANN")));
    assert_eq!(row.st, Some((chain(&bits(b"ann")), chain(&bits(b"ANN")))));
    // syncing again does nothing
    assert_eq!(sync_source(&mut row).unwrap(), P1::Unchanged);
    assert_eq!(row.b, Some(bits(b"ANN")));
}

#[test]
fn an_edit_on_one_side_flows_and_on_both_is_a_conflict() {
    let mut row = Row { a: Some(bits(b"ann")), b: None, st: None };
    sync_source(&mut row).unwrap();
    row.a = Some(bits(b"anna"));
    assert_eq!(sync_source(&mut row).unwrap(), P1::AToB);
    assert_eq!(row.b, Some(bits(b"ANNA")));
    row.b = Some(bits(b"HANNA"));
    assert_eq!(sync_source(&mut row).unwrap(), P1::BToA);
    assert_eq!(row.a, Some(bits(b"hanna")));
    row.a = Some(bits(b"x"));
    row.b = Some(bits(b"Y"));
    assert_eq!(
        sync_source(&mut row).unwrap_err().message(),
        "map sync `crm`: CONFLICT on `contacts` row Int(1) — both sides changed since the last sync; the sync is rolled back whole. \
         Fix one side and re-sync"
    );
}

#[test]
fn a_deletion_flows_back() {
    let mut row = Row { a: Some(bits(b"ann")), b: None, st: None };
    sync_source(&mut row).unwrap();
    row.b = None;
    assert_eq!(sync_source(&mut row).unwrap(), P1::DeleteA);
    assert_eq!(row.a, None);
    assert_eq!(row.st, None);
}

#[test]
fn a_row_made_on_the_target_is_carried_to_the_source() {
    let key = Value::Int(1);
    let b = bits(b"BOB");
    let mut m = TargetRow::begin("crm", "people", "contacts", &vec!["name".to_string()], &key, &b, None, false, &vec![None]).unwrap();
    assert_eq!(m.plan(), P2::CreateA);
    let mut a: Option<Vec<Vec<u8>>> = None;
    let mut st = None;
    for _ in 0..20 {
        match m.next() {
            Ask::Done => break,
            Ask::Create => m.on_create(&created(&b)),
            Ask::InsertSource => {
                a = Some(back(&b));
                m.on_written();
            }
            Ask::ReadSource => {
                let got = a.as_ref().map(chain);
                m.on_read(&key, got.as_deref()).unwrap();
            }
            Ask::PutState => {
                let (x, y) = m.hashes();
                st = Some((x.to_string(), y.to_string()));
                m.on_written();
            }
            other => panic!("{other:?}"),
        }
    }
    assert_eq!(a, Some(bits(b"bob")));
    assert_eq!(st, Some((chain(&bits(b"bob")), chain(&b))));
}

#[test]
fn the_first_pair_that_needs_a_residual_is_told() {
    let (bij, lossy, res) = (Some(LensClass::Bijective), Some(LensClass::Lossy), Some(LensClass::Residual));
    assert_eq!(first_not_bijective(&vec![]), None);
    assert_eq!(first_not_bijective(&vec![None, bij]), None);
    assert_eq!(first_not_bijective(&vec![None, bij, res, lossy]), Some(2));
    assert_eq!(first_not_bijective(&vec![lossy, res]), Some(0));
    let cols = vec!["a".to_string(), "b".to_string()];
    let (key, b) = (Value::Int(1), vec![vec![1], vec![2]]);
    let refused = TargetRow::begin("m", "s", "d", &cols, &key, &b, None, false, &vec![None, res]).err().unwrap();
    assert!(refused.message().contains("column `b` maps through a non-bijective pair"));
}

#[test]
fn a_float_is_shown_as_it_reads() {
    let shown = |x: f64| Value::Float(Float { bits: x.to_bits(), shown: format!("{x:?}") });
    for (x, text) in [(1.5, "Float(1.5)"), (-0.0, "Float(-0.0)"), (1e300, "Float(1e300)"), (f64::NAN, "Float(NaN)")] {
        assert_eq!(
            verify_persisted("source", &shown(x), None, "h").unwrap_err().message(),
            format!("map sync: source row {text} vanished")
        );
    }
    let listed = Value::List(vec![shown(2.0), Value::Int(3)]);
    assert!(sync_source_row("m", "d", &listed, P1::Compare, false).unwrap_err().message().contains("row List([Float(2.0), Int(3)])"));
}

#[test]
fn rows_are_classified() {
    assert_eq!(classify_p1(None, "a", None), P1::CreateB);
    assert_eq!(classify_p1(None, "a", Some("b")), P1::Compare);
    assert_eq!(classify_p1(Some(("a", "b")), "a", Some("b")), P1::Unchanged);
    assert_eq!(classify_p1(Some(("a", "b")), "x", None), P1::DeletedBChangedA);
    assert_eq!(classify_p2(Some("b"), "b", false, None), P2::DeleteB);
    assert_eq!(classify_p2(Some("b"), "x", false, None), P2::DeletedAChangedB);
    assert_eq!(classify_p2(None, "x", true, None), P2::NeedsSource);
    assert_eq!(classify_p2(None, "x", false, Some(0)), P2::NoResidual(0));
    let key = Value::Int(1);
    assert!(sync_source_row("m", "d", &key, P1::Compare, true).is_ok());
    assert!(sync_source_row("m", "d", &key, P1::Compare, false).unwrap_err().message().contains("no recorded sync can arbitrate"));
    let cols = vec!["name".to_string()];
    let target = |p| sync_target_row("m", "s", "d", &cols, &key, p).map_err(|e| e.message());
    assert!(target(P2::NeedsSource).unwrap_err().contains("hidden rowid"));
    assert!(target(P2::NoResidual(0)).unwrap_err().contains("column `name` maps through a non-bijective pair"));
    assert!(verify_persisted("source", &key, Some("h"), "h").is_ok());
    assert_eq!(
        verify_persisted("source", &key, None, "h").unwrap_err().message(),
        "map sync: source row Int(1) vanished"
    );
    assert_eq!(
        verify_persisted("target", &key, Some("g"), "h").unwrap_err().message(),
        "map sync: persisted target row Int(1) does not hash to what was written"
    );
}

#[test]
fn a_table_is_swept_in_three_passes() {
    let mut t = TableSync::begin(2);
    assert_eq!(t.pass, Pass::Source);
    t.after_chunk(2);
    assert_eq!(t.pass, Pass::Source);
    t.after_chunk(1);
    assert_eq!(t.pass, Pass::Target);
    t.after_chunk(0);
    assert_eq!(t.pass, Pass::State);
    t.after_chunk(1);
    assert_eq!(t.pass, Pass::Done);
}

#[test]
fn reports_add_up() {
    let mut r = MapSyncReport::new();
    r.count_source(P1::AToB);
    r.count_source(P1::CreateB);
    r.count_source(P1::Unchanged);
    r.count_target(P2::CreateA);
    assert_eq!(r.changed_total(), 3);
    assert_eq!((r.a_to_b, r.created_b, r.unchanged, r.created_a), (1, 1, 1, 1));
}

// ---------------------------------------------------------------- lenses

fn cell(v: i64) -> Cell {
    Cell { value: Value::Int(v), bits: vec![v as u8] }
}

#[test]
fn a_value_comes_back_through_its_lens() {
    let key = Value::Int(1);
    let ctx = ColumnCtx { src: "s", dst: "d", dst_col: "c", key: &key };
    assert!(matches!(begin_carry(None), Carry::Copy));
    // bijective: invert, then check that the forward direction gives the value again
    let s = begin_carry(Some(LensClass::Bijective));
    let s = inverse_all(&ctx, &cell(5), s, Ok(cell(4))).map_err(|e| e.message()).ok().unwrap();
    let s = inverse_all(&ctx, &cell(5), s, Ok(cell(5))).map_err(|e| e.message()).ok().unwrap();
    assert!(matches!(s, Carry::Take(x) if x.value == Value::Int(4)));
    let s = begin_carry(Some(LensClass::Bijective));
    let s = inverse_all(&ctx, &cell(5), s, Ok(cell(4))).map_err(|e| e.message()).ok().unwrap();
    assert!(inverse_all(&ctx, &cell(5), s, Ok(cell(6))).is_err(), "outside the image");
    // lossy: only an unedited value passes
    let s = begin_carry(Some(LensClass::Lossy));
    assert!(matches!(inverse_all(&ctx, &cell(5), s, Ok(cell(5))), Ok(Carry::Keep)));
    let s = begin_carry(Some(LensClass::Lossy));
    assert!(inverse_all(&ctx, &cell(5), s, Ok(cell(6))).is_err());
    assert!(created_value_gate("m", &ctx, &cell(5), &cell(5)).is_ok());
    assert!(created_value_gate("m", &ctx, &cell(5), &cell(6)).is_err());
}

#[test]
fn a_residual_survives_the_way_back() {
    let key = Value::Int(1);
    let ctx = ColumnCtx { src: "s", dst: "d", dst_col: "c", key: &key };
    let run = |rex_again: i64| {
        let mut s = begin_carry(Some(LensClass::Residual));
        for answer in [cell(9), cell(4), cell(5), cell(rex_again)] {
            s = inverse_all(&ctx, &cell(5), s, Ok(answer))?;
        }
        Ok::<Carry, Error>(s)
    };
    assert!(matches!(run(9), Ok(Carry::Take(x)) if x.value == Value::Int(4)));
    assert!(run(8).is_err(), "the residual must come out the same");
}

#[test]
fn a_column_is_carried_only_through_every_check() {
    let key = Value::Int(1);
    let ctx = ColumnCtx { src: "s", dst: "d", dst_col: "c", key: &key };
    // a copied column takes the target value
    assert_eq!(ColumnCarry::begin(None, cell(4), cell(5)).value().value, Value::Int(5));
    // a lossy pair keeps the source value
    let lossy = || ColumnCarry::begin(Some(LensClass::Lossy), cell(4), cell(5));
    assert_eq!(lossy().on_answer(&ctx, Ok(cell(5))).unwrap().value().value, Value::Int(4));
    assert!(lossy().on_answer(&ctx, Ok(cell(6))).map(|_| ()).is_err());
    let residual = |again: i64| {
        let mut c = ColumnCarry::begin(Some(LensClass::Residual), cell(3), cell(5));
        for answer in [cell(9), cell(4), cell(5), cell(again)] {
            c = c.on_answer(&ctx, Ok(answer))?;
        }
        Ok::<Value, Error>(c.value().value.clone())
    };
    assert_eq!(residual(9).unwrap(), Value::Int(4));
    assert!(residual(8).is_err());
    // a created value is in the image of its pair
    assert_eq!(CreatedValue::copied(cell(5)).value().value, Value::Int(5));
    assert_eq!(CreatedValue::inverted("m", &ctx, &cell(5), cell(4), &cell(5)).unwrap().value().value, Value::Int(4));
    let e = CreatedValue::inverted("m", &ctx, &cell(5), cell(4), &cell(6)).map(|_| ()).unwrap_err();
    assert!(e.message().contains("outside its pair's image"));
}

// ---------------------------------------------------------------- runs

fn opts(runner: Option<&str>) -> RunOptions {
    RunOptions { max_secs: None, max_rows: None, runner: runner.map(|s| s.to_string()), lease_secs: None }
}

fn record(runner: &str, owner: &str, until: i64) -> RunRecord {
    RunRecord { runner: runner.to_string(), round: 2, lease_owner: owner.to_string(), lease_until: until }
}

#[test]
fn one_process_holds_the_lease() {
    let got = claim("m", record("", "", 0), &opts(None), "me", 1000).unwrap();
    assert_eq!((got.lease_owner.as_str(), got.lease_until), ("me", 1000 + 300_000_000));
    assert_eq!(claim("m", record("", "other", 2000), &opts(None), "me", 1000).map(|_| ()), Err(Error::Busy));
    assert!(claim("m", record("", "me", 2000), &opts(None), "me", 1000).is_ok());
    assert!(claim("m", record("", "other", 1000), &opts(None), "me", 1000).is_ok(), "an expired lease is free");
    let freed = release_lease(got, "me");
    assert_eq!(freed.lease_until, 0);
    let kept = release_lease(record("", "other", 50), "me");
    assert_eq!(kept.lease_owner, "other");
    let secs = RunOptions { max_secs: Some(10), ..opts(None) };
    assert_eq!(lease_secs(&secs), 70);
    assert_eq!(runner_name(&opts(Some("nightly")), 7).contains("nightly"), true);
}

#[test]
fn a_map_can_be_restricted_to_its_runner() {
    assert!(claim("m", record("nightly", "", 0), &opts(Some("nightly")), "me", 0).is_ok());
    let e = claim("m", record("nightly", "", 0), &opts(Some("other")), "me", 0).map(|_| ()).unwrap_err();
    assert!(e.message().starts_with("map `m` is restricted to runner `nightly`; this process claims `other`"));
    let e = claim("m", record("nightly", "", 0), &opts(None), "me", 0).map(|_| ()).unwrap_err();
    assert!(e.message().contains("claims no runner"));
}

#[test]
fn run_rows_are_read() {
    let t = |s: &str| Value::Text(s.to_string());
    let row = vec![t("nightly"), Value::Int(3), t("me"), Value::Int(9), t("note")];
    let r = read_run(Some(&row)).unwrap();
    assert_eq!((r.runner.as_str(), r.round, r.lease_owner.as_str(), r.lease_until), ("nightly", 3, "me", 9));
    let fresh = read_run(None).unwrap();
    assert_eq!((fresh.runner.as_str(), fresh.round, fresh.lease_until), ("", 0, 0));
    let st = rretl_map_status(Some(&row), &vec![vec![t("contacts"), Value::Int(2)]]).unwrap();
    assert_eq!(st.note, "note");
    assert_eq!(st.in_progress, vec![("contacts".to_string(), 2)]);
    assert_eq!(rretl_map_status(None, &vec![]).unwrap().round, 0);
    assert!(rretl_map_status(Some(&vec![t(""), t(""), t(""), t(""), t("")]), &vec![]).is_err());
    let c = Cursor::read(Some(&vec![Value::Int(2), Value::Int(7), Value::Null])).unwrap();
    assert_eq!((c.phase, c.k), (2, Value::Int(7)));
    assert_eq!(Cursor::read(None).unwrap().phase, 1);
}

#[test]
fn a_cursor_walks_the_passes() {
    let mut c = Cursor::start();
    c.advance(2, 2, Some(Value::Int(5)));
    assert_eq!((c.phase, c.k.clone()), (1, Value::Int(5)));
    c.advance(1, 2, Some(Value::Int(6)));
    assert_eq!(c.phase, 2);
    c.advance(0, 2, None);
    assert_eq!(c.phase, 3);
    c.advance(0, 2, None);
    assert_eq!(c.phase, 0);
}

#[test]
fn a_commit_takes_a_chunk_of_every_table_with_work() {
    assert_eq!(tables_with_work(&vec![1, 0, 3, 2, 0]), vec![0, 2, 3]);
    assert!(tables_with_work(&vec![0, 0]).is_empty());
}

#[test]
fn a_run_stops_on_its_budget_or_its_round() {
    let mut r = MapRunReport::begin(4);
    let o = RunOptions { max_rows: Some(10), ..opts(None) };
    assert_eq!(before_step(&mut r, &o, 0), RunAction::Work);
    assert_eq!(after_step(&mut r, true, 4), StepAction::Commit);
    r.rows = 10;
    assert_eq!(before_step(&mut r, &o, 0), RunAction::Finish);
    assert_eq!(r.stopped_by, Some(RunStop::Budget));
    assert!(r.note().ends_with("budget spent, cursors saved"));
    let mut r = MapRunReport::begin(4);
    assert_eq!(after_step(&mut r, false, 4), StepAction::CompleteRound);
    assert_eq!((r.round, r.stopped_by), (5, Some(RunStop::RoundComplete)));
    assert!(!leaves_lineage(&r));
    r.moved.a_to_b = 2;
    assert!(leaves_lineage(&r));
    for i in 0..9 {
        r.note_conflict(format!("c{i}"));
    }
    assert_eq!((r.conflicts, r.conflict_notes.len()), (9, 8));
    let row = map_lineage(3, "crm", &r.moved, "n".to_string());
    assert_eq!((row.run_id, row.rows), (3, 2));
}

// ---------------------------------------------------------------- streaming

#[test]
fn triggers_have_names_of_their_own() {
    assert_eq!(trigger_name("crm", 2, Side::Source, RowEvent::Insert), "rrmap_crm_2a_i");
    assert_eq!(trigger_name("crm", 2, Side::Target, RowEvent::Update), "rrmap_crm_2b_u");
    let have = vec![("Contacts".to_string(), vec![])];
    assert!(target_exists(&have, "contacts"));
    assert!(!target_exists(&have, "people"));
}

#[test]
fn a_journal_is_drained_key_by_key() {
    let refs = vec![vec![1], vec![2], vec![1], vec![3], vec![2]];
    assert_eq!(drain_chunk(&refs), vec![0, 1, 3]);
    assert_eq!(sync_one_key(true, true), KeyPass::Source);
    assert_eq!(sync_one_key(false, true), KeyPass::Target);
    assert_eq!(sync_one_key(false, false), KeyPass::Sweep);
}

#[test]
fn a_cursor_names_its_pass_and_where_it_goes_on() {
    let at = |phase| Cursor { phase, k: Value::Int(7), pk_enc: Value::Blob(vec![9]) };
    assert_eq!(at(0).pass().0, Pass::Done);
    assert_eq!(at(1).pass(), (Pass::Source, &Value::Int(7)));
    assert_eq!(at(2).pass(), (Pass::Target, &Value::Int(7)));
    assert_eq!(at(3).pass(), (Pass::State, &Value::Blob(vec![9])));
}

#[test]
fn a_run_counts_rows_and_entries() {
    let mut r = MapRunReport::begin(3);
    assert_eq!((r.rows, r.streamed, r.moved.run_id), (0, 0, 0));
    r.note_chunk(5, 2);
    r.note_chunk(1, 0);
    assert_eq!((r.rows, r.streamed), (6, 2));
}

#[test]
fn a_second_sync_counts_every_source_row_as_unchanged() {
    let mut rows: Vec<Row> = [b"ann".as_slice(), b"bob"]
        .iter()
        .map(|a| Row { a: Some(bits(a)), b: None, st: None })
        .collect();
    for (moved, unchanged) in [(2, 0), (0, 2)] {
        let mut report = MapSyncReport::new();
        for row in &mut rows {
            let plan = sync_source(row).unwrap();
            report.count_source(plan);
        }
        assert_eq!((report.changed_total(), report.unchanged), (moved, unchanged));
    }
}
