use mpedb::plan::{
    AccessPath, ColumnDef, CompiledPlan, ExprProgram, Footprint, InsertSource, Instr, KeyAccess, KeyPart, PlanStmt, ScalarFn, TableDef, TableKind,
};
use mpedb::ring_exec::{
    admit_intent, after_mutation, decode_params, decode_ring_result, drain_order, encode_error, encode_params, execute_prepared, key_hash, key_values,
    locality_key, optimistic_eligible, optimistic_prep, optimistic_prep_inner, param_count, plan_cols, plan_delta, plan_range,
    rebase_request, rebase_splice_params, ring_enabled, undo_is_exact, widen_guard, AfterRun, ApplyOp, Attempts, KeyValues, Member,
    OptAction, Placement, Prep, PrepEvent, PrepState, PrepStep, PreparedIntent, RebaseOutcome, Round, RoundAction, Staged, RANK_KEYED,
    RANK_NO_KEY,
};
use mpedb::{ColumnType, Error, ExecResult, PlanHash, Value};

fn plan(stmt: PlanStmt, table: u32, key_access: KeyAccess, n_params: u16) -> CompiledPlan {
    CompiledPlan {
        stmt,
        subplans: vec![],
        consts: vec![Value::Int(0), Value::Int(1)],
        n_params,
        context_keys: vec![],
        param_types: (0..n_params).map(|_| None).collect(),
        policies: vec![],
        footprint: Footprint { read_only: false, tables_read: vec![], tables_written: vec![table], key_access },
        host_call: false,
    }
}

fn insert(table: u32, rows: usize) -> CompiledPlan {
    let row = || vec![InsertSource::Param(0), InsertSource::Const(0)];
    let access = if rows == 1 { KeyAccess::Point(vec![KeyPart::Param(0)]) } else { KeyAccess::Full };
    let stmt = PlanStmt::Insert { table, rows: (0..rows).map(|_| row()).collect(), from_select: None };
    plan(stmt, table, access, rows as u16)
}

fn delete(table: u32, access: KeyAccess) -> CompiledPlan {
    plan(PlanStmt::Delete { table, access: AccessPath::FullScan, filter: None }, table, access, 1)
}

fn update_all(table: u32) -> CompiledPlan {
    let set = vec![(1u16, ExprProgram { instrs: vec![Instr::PushConst(1)] })];
    plan(PlanStmt::Update { table, access: AccessPath::FullScan, filter: None, set }, table, KeyAccess::Full, 0)
}

fn update_point(table: u32) -> CompiledPlan {
    let set = vec![(1u16, ExprProgram { instrs: vec![Instr::PushConst(1)] })];
    let access = AccessPath::PkPoint(vec![KeyPart::Param(0)]);
    plan(PlanStmt::Update { table, access, filter: None, set }, table, KeyAccess::Point(vec![KeyPart::Param(0)]), 1)
}

/// An order-preserving key encoding of integers.
fn encode_key(vs: &[Value]) -> Vec<u8> {
    let mut out = Vec::new();
    for v in vs {
        match v {
            Value::Int(i) => {
                out.push(2);
                out.extend_from_slice(&((*i as u64) ^ (1 << 63)).to_be_bytes());
            }
            other => panic!("no key encoding for {other:?}"),
        }
    }
    out
}

fn prep(p: &CompiledPlan, params: Vec<Value>, idx: u32) -> PreparedIntent {
    let key = match key_values(p, &params) {
        KeyValues::Keyed(vs) => Some(encode_key(&vs)),
        KeyValues::First => Some(Vec::new()),
        KeyValues::Unknown => None,
    };
    PreparedIntent { idx, prepared: Some(Placement { table: Some(p.footprint.tables_written[0]), key }) }
}

fn point(table: u32) -> CompiledPlan {
    delete(table, KeyAccess::Point(vec![KeyPart::Param(0)]))
}

#[test]
fn point_keys_sort_numerically_via_keycode() {
    let two = prep(&insert(0, 1), vec![Value::Int(2)], 1);
    let ten = prep(&insert(0, 1), vec![Value::Int(10)], 0);
    // byte order of the keys is numeric order, not decimal-string order
    assert!(locality_key(&two) < locality_key(&ten));
    let neg = prep(&point(0), vec![Value::Int(-5)], 2);
    assert!(locality_key(&neg) < locality_key(&two));
}

#[test]
fn no_key_intents_sort_last_within_their_table() {
    let point = prep(&update_point(0), vec![Value::Int(i64::MAX)], 0);
    let full = prep(&update_all(0), vec![], 1);
    let multi = prep(&insert(0, 2), vec![Value::Int(0), Value::Int(1)], 2);
    assert_eq!(locality_key(&full).1, RANK_NO_KEY);
    assert_eq!(locality_key(&multi).1, RANK_NO_KEY, "multi-row INSERT degrades to Full");
    assert!(locality_key(&point) < locality_key(&full));
    assert!(locality_key(&point) < locality_key(&multi));
    // ...but still ahead of the NEXT table's intents
    let b_point = prep(&insert(1, 1), vec![Value::Int(i64::MIN)], 3);
    assert!(locality_key(&full) < locality_key(&b_point));
}

#[test]
fn intents_group_by_written_table() {
    let a = prep(&insert(0, 1), vec![Value::Int(1_000_000)], 7);
    let b = prep(&insert(1, 1), vec![Value::Int(-1_000_000)], 0);
    assert_eq!(locality_key(&a).0, 0);
    assert_eq!(locality_key(&b).0, 1);
    assert!(locality_key(&a) < locality_key(&b));
}

#[test]
fn range_uses_lo_bound_and_unbounded_lo_sorts_first() {
    let from = delete(0, KeyAccess::Range { lo: Some(vec![KeyPart::Param(0)]), hi: None });
    let range = prep(&from, vec![Value::Int(5)], 0);
    let k = locality_key(&range);
    assert_eq!(k.1, RANK_KEYED);
    assert_eq!(k.2, encode_key(&[Value::Int(5)]));
    let below = prep(&point(0), vec![Value::Int(4)], 1);
    let above = prep(&point(0), vec![Value::Int(6)], 2);
    assert!(locality_key(&below) < k);
    assert!(k < locality_key(&above));
    // no lower bound: the scan starts at the table's first key
    let upto = delete(0, KeyAccess::Range { lo: None, hi: Some(vec![KeyPart::Param(0)]) });
    let unbounded = prep(&upto, vec![Value::Int(5)], 3);
    let uk = locality_key(&unbounded);
    assert_eq!(uk.1, RANK_KEYED);
    assert!(uk < locality_key(&below));
}

#[test]
fn equal_keys_fall_back_to_slot_order() {
    let early = prep(&insert(0, 1), vec![Value::Int(7)], 3);
    let late = prep(&insert(0, 1), vec![Value::Int(7)], 9);
    assert!(locality_key(&early) < locality_key(&late));
    // swap the slot assignment and the order swaps with it
    let early = prep(&insert(0, 1), vec![Value::Int(7)], 9);
    let late = prep(&insert(0, 1), vec![Value::Int(7)], 3);
    assert!(locality_key(&late) < locality_key(&early));
}

#[test]
fn unloadable_plans_sort_last_globally() {
    let bad = PreparedIntent { idx: 0, prepared: None };
    assert_eq!(locality_key(&bad).0, u32::MAX);
    let b_full = prep(&update_all(1), vec![], 200);
    assert!(locality_key(&b_full) < locality_key(&bad));
}

#[test]
fn slot_permutations_sort_identically() {
    let keys = [40i64, -3, 17, 999, 0, 23];
    let want = vec![-3i64, 0, 17, 23, 40, 999];
    for perm in [[0u32, 1, 2, 3, 4, 5], [5, 4, 3, 2, 1, 0], [2, 0, 5, 1, 4, 3]] {
        let batch: Vec<PreparedIntent> =
            keys.iter().zip(perm).map(|(k, idx)| prep(&insert(0, 1), vec![Value::Int(*k)], idx)).collect();
        let got: Vec<i64> = drain_order(&batch, true).into_iter().map(|i| keys[i]).collect();
        assert_eq!(got, want, "slot layout {perm:?} must not change the drain order");
    }
}

#[test]
fn an_unsorted_drain_keeps_the_slot_scan() {
    let batch: Vec<PreparedIntent> =
        [5i64, 1, 3].iter().map(|k| prep(&insert(0, 1), vec![Value::Int(*k)], 0)).collect();
    assert_eq!(drain_order(&batch, false), vec![0, 1, 2]);
    assert_eq!(drain_order(&batch, true), vec![1, 2, 0]);
}

#[test]
fn only_writing_plans_of_every_connection_enter_the_ring() {
    assert!(admit_intent(&insert(0, 1)).is_ok());
    let mut read = insert(0, 1);
    read.footprint.read_only = true;
    assert_eq!(admit_intent(&read).unwrap_err().message(), "only DML plans may enter the intent ring");
    let mut control = insert(0, 1);
    control.stmt = PlanStmt::Savepoint("s".to_string());
    assert_eq!(admit_intent(&control).unwrap_err().message(), "only DML plans may enter the intent ring");
    let mut host = insert(0, 1);
    host.host_call = true;
    assert!(admit_intent(&host).unwrap_err().message().contains("connection-local"));
}

fn read_byte(buf: &[u8], at: usize) -> Result<(Value, usize), Error> {
    if at < buf.len() {
        Ok((Value::Int(buf[at] as i64), at + 1))
    } else {
        Err(Error::Corrupt("short value".to_string()))
    }
}

#[test]
fn params_travel_behind_their_count() {
    let buf = encode_params(&vec![vec![7], vec![9]]);
    assert_eq!(buf, vec![2, 0, 7, 9]);
    assert_eq!(param_count(&buf).unwrap(), 2);
    assert_eq!(decode_params(&buf, read_byte).unwrap(), vec![Value::Int(7), Value::Int(9)]);
    assert_eq!(decode_params(&buf[..3], read_byte), Err(Error::Corrupt("short value".to_string())));
    assert_eq!(decode_params(&buf[..1], read_byte), Err(Error::Corrupt("truncated intent params".to_string())));
}

#[test]
fn errors_cross_the_ring() {
    for e in [
        Error::Corrupt("bad".to_string()),
        Error::TypeMismatch("int".to_string()),
        Error::WrongParamCount { expected: 1, got: 2 },
        Error::UnknownPlan(PlanHash([0xab; 32])),
        Error::PlanInvalidated,
        Error::DbFull,
        Error::PrimaryKeyViolation { table: "t".to_string() },
        Error::UniqueViolation { table: "t".to_string(), constraint: "u".to_string() },
        Error::NotNullViolation { table: "t".to_string(), column: "c".to_string() },
        Error::CheckViolation { table: "t".to_string(), column: "c".to_string(), expr: "c > 0".to_string() },
    ] {
        let (code, msg) = encode_error(&e);
        assert_ne!(code, 0, "{e:?}");
        assert_eq!(decode_ring_result(code, 0, &msg), Err(e));
    }
    // every other error arrives as its text
    let (code, msg) = encode_error(&Error::Bind("no such column".to_string()));
    assert_eq!(
        decode_ring_result(code, 0, &msg),
        Err(Error::Internal("batched execution failed: no such column".to_string()))
    );
    assert_eq!(decode_ring_result(0, 17, b"").unwrap(), 17);
}

#[test]
fn a_separator_inside_a_field_does_not_survive_the_ring() {
    let e = Error::UniqueViolation { table: "a\u{1f}b".to_string(), constraint: "u".to_string() };
    let (code, msg) = encode_error(&e);
    assert_ne!(decode_ring_result(code, 0, &msg), Err(e));
}

// ---------------------------------------------------------------- rounds

fn member(idx: u32, load_error: Option<Error>) -> Member {
    Member { idx, word: 100 + idx as u64, load_error }
}

fn staged(s: Staged) -> (u32, u64, u64, u32) {
    (s.idx, s.word, s.affected, s.code)
}

/// Drive a round: `tears` says which members fail without a clean undo.
fn drive(members: Vec<Member>, own: bool, tears: &[usize]) -> (Round, usize) {
    let mut r = Round::begin(members, own);
    let mut runs = 0;
    for _ in 0..1000 {
        match r.next() {
            RoundAction::Stage(s) => r.note_staged(s),
            RoundAction::Run(i) => {
                runs += 1;
                let torn = tears.contains(&i);
                let done = if torn { Err(Error::DbFull) } else { Ok(1) };
                match r.after_member(i, done, !torn) {
                    AfterRun::Stage(s) | AfterRun::UndoAndStage(s) => r.note_staged(s),
                    AfterRun::Restart => {}
                    _ => unreachable!(),
                }
            }
            RoundAction::RunOwn => {
                r.after_own(Ok(5), true);
            }
            RoundAction::Commit | RoundAction::Abort => return (r, runs),
        }
    }
    panic!("the round did not end");
}

#[test]
fn a_round_restarts_once_per_torn_member_and_answers_everyone() {
    let ms = vec![member(0, None), member(1, None), member(2, Some(Error::PlanInvalidated)), member(3, None)];
    let (r, runs) = drive(ms, true, &[1, 3]);
    assert_eq!(r.restarts(), 2);
    // 0,1 | 0,3 | 0
    assert_eq!(runs, 5);
    assert_eq!(r.staged().len(), 4);
    let (posted, own) = r.finish();
    let out: Vec<_> = posted.into_iter().map(staged).collect();
    assert_eq!(out.len(), 4);
    assert_eq!((out[0].0, out[0].1, out[0].2, out[0].3), (0, 100, 1, 0));
    assert_eq!(out[1].0, 1);
    assert_ne!(out[1].3, 0);
    assert_ne!(out[2].3, 0);
    assert_ne!(out[3].3, 0);
    assert_eq!(own, Some(Ok(5)));
}

#[test]
fn an_empty_round_without_a_statement_aborts() {
    let mut r = Round::begin(vec![], false);
    assert!(matches!(r.next(), RoundAction::Abort));
    let mut own = Round::begin(vec![], true);
    assert!(matches!(own.next(), RoundAction::RunOwn));
    assert!(matches!(own.after_own(Err(Error::DbFull), true), AfterRun::Undo));
    assert!(matches!(own.next(), RoundAction::Abort));
}

#[test]
fn an_undo_is_exact_unless_the_statement_tore_something() {
    assert!(undo_is_exact(false, false, true));
    assert!(undo_is_exact(false, true, true));
}

#[test]
fn a_partial_statement_is_undone_exactly_only_in_a_pristine_transaction() {
    assert!(undo_is_exact(true, true, true));
    assert!(!undo_is_exact(true, false, true));
    assert!(!undo_is_exact(true, true, false));
    assert!(!undo_is_exact(true, false, false));
}

#[test]
fn the_ring_pays_off_only_for_synced_commits() {
    assert!(ring_enabled(false, false, true));
    assert!(!ring_enabled(false, false, false));
    assert!(!ring_enabled(true, false, true));
}

// ---------------------------------------------------------------- guards

#[test]
fn fnv_hashes_keys() {
    // the published hashes of "" and "a", with the lowest bit set
    assert_eq!(key_hash(b""), 0xcbf2_9ce4_8422_2325);
    assert_eq!(key_hash(b"a"), 0xaf63_dc4c_8601_ec8d);
}

fn splice_update() -> CompiledPlan {
    // SET c1 = splice(c1, $1, $2, $3) WHERE pk = $4
    let set = vec![(
        1u16,
        ExprProgram {
            instrs: vec![
                Instr::PushCol(1),
                Instr::PushParam(0),
                Instr::PushParam(1),
                Instr::PushParam(2),
                Instr::Call(ScalarFn::Splice, 4),
            ],
        },
    )];
    let access = AccessPath::PkPoint(vec![KeyPart::Param(3)]);
    plan(PlanStmt::Update { table: 6, access, filter: None, set }, 6, KeyAccess::Point(vec![KeyPart::Param(3)]), 4)
}

#[test]
fn a_splice_touches_its_bytes_and_shifts_the_rest() {
    let p = splice_update();
    let params = [Value::Int(10), Value::Int(4), Value::Text("abcdefg".to_string()), Value::Int(1)];
    assert_eq!(plan_delta(&p, &params), Some(3));
    assert_eq!(plan_range(&p, &params), Some((10, 14)));
    assert_eq!(plan_cols(&p).unwrap() & 0b10, 0b10);
    let w = widen_guard(&p, &params, Some(b"key"), &vec![]);
    assert_eq!(w.tables, vec![6]);
    assert_eq!(w.key, Some(key_hash(b"key")));
    assert!(w.writes);
    assert_eq!(w.delta, Some(3));
    let r = rebase_request(&p, &params, Some(77)).unwrap();
    assert_eq!((r.table, r.col, r.at_slot, r.at, r.remove, r.key), (6, 1, 0, 10, 4, 77));
    assert!(rebase_request(&p, &params, None).is_none());
}

fn splice_with(instrs: Vec<Instr>) -> CompiledPlan {
    let mut p = splice_update();
    if let PlanStmt::Update { set, .. } = &mut p.stmt {
        set[0].1.instrs = instrs;
    }
    p
}

#[test]
fn a_computed_offset_is_not_told() {
    let params = [Value::Int(10), Value::Int(4), Value::Text("abcdefg".to_string()), Value::Int(1)];
    let splice = Instr::Call(ScalarFn::Splice, 4);
    // splice(c1, $1 + $2, $2, $3): what stands second and third is no offset
    let computed = splice_with(vec![
        Instr::PushCol(1),
        Instr::PushParam(0),
        Instr::PushParam(1),
        Instr::Op(2),
        Instr::PushParam(1),
        Instr::PushParam(2),
        splice,
    ]);
    assert_eq!(plan_range(&computed, &params), None);
    assert_eq!(plan_delta(&computed, &params), None);
    assert!(rebase_request(&computed, &params, Some(77)).is_none());
    // splice(c1, $1, $2, upper($3)): the range is told, the length is not
    let inserted = splice_with(vec![
        Instr::PushCol(1),
        Instr::PushParam(0),
        Instr::PushParam(1),
        Instr::PushParam(2),
        Instr::Call(ScalarFn::Other, 1),
        splice,
    ]);
    assert_eq!(plan_range(&inserted, &params), Some((10, 14)));
    assert_eq!(plan_delta(&inserted, &params), None);
    // splice(c1, $1, $2, CASE WHEN $4 THEN $3 ELSE upper($3) END)
    let branches = |end: u16| {
        splice_with(vec![
            Instr::PushCol(1),
            Instr::PushParam(0),
            Instr::PushParam(1),
            Instr::PushParam(3),
            Instr::JumpIf(7),
            Instr::PushParam(2),
            Instr::Jump(end),
            Instr::PushParam(2),
            Instr::Call(ScalarFn::Other, 1),
            splice,
        ])
    };
    assert_eq!(plan_range(&branches(9), &params), Some((10, 14)));
    assert_eq!(plan_delta(&branches(9), &params), None);
    // a jump past the splice, back, or to where the count differs tells nothing
    assert_eq!(plan_range(&branches(10), &params), None);
    assert_eq!(plan_range(&branches(2), &params), None);
    assert_eq!(plan_range(&branches(7), &params), None);
    // however long the inserted expression is
    let mut long = vec![Instr::PushCol(1), Instr::PushParam(0), Instr::PushParam(1), Instr::PushParam(2)];
    long.extend((0..70_000).map(|_| Instr::Call(ScalarFn::Other, 1)));
    long.push(splice);
    assert_eq!(plan_range(&splice_with(long), &params), Some((10, 14)));
    // another column's value is a whole-value write
    let other = splice_with(vec![
        Instr::PushCol(2),
        Instr::PushParam(0),
        Instr::PushParam(1),
        Instr::PushParam(2),
        splice,
    ]);
    assert_eq!(plan_range(&other, &params), None);
}

#[test]
fn a_rebase_moves_collides_or_was_not_seen() {
    assert_eq!(rebase_splice_params(RebaseOutcome::At(12)).unwrap(), 12);
    assert_eq!(rebase_splice_params(RebaseOutcome::Collision), Err(Error::WriteConflict));
    assert!(rebase_splice_params(RebaseOutcome::Unwitnessed).is_err());
}

// ---------------------------------------------------------------- optimistic writes

fn column(name: &str) -> ColumnDef {
    ColumnDef { name: name.to_string(), ty: ColumnType::Int64, default: None }
}

fn table() -> TableDef {
    TableDef {
        name: "a".to_string(),
        columns: vec![column("id"), column("v")],
        primary_key: vec![0],
        indexes: vec![],
        dead: false,
        implicit_rowid: false,
        kind: TableKind::Standard,
    }
}

#[test]
fn an_insert_is_prepared_on_a_snapshot() {
    let p = insert(0, 1);
    assert!(optimistic_eligible(&p, false, false, false));
    assert!(!optimistic_eligible(&p, true, false, false));
    assert!(!optimistic_eligible(&p, false, true, false));
    assert!(!optimistic_eligible(&p, false, false, true));
    let mut state = match optimistic_prep(&p, &[Value::Int(4)], &table(), 0) {
        PrepStep::Wait(s) => s,
        PrepStep::Done(_) => panic!("nothing was read yet"),
    };
    let mut seen = 0;
    loop {
        let event = match &state {
            PrepState::InsertValidate { row, .. } => {
                assert_eq!(row, &vec![Value::Int(4), Value::Int(0)]);
                PrepEvent::Validated(Ok(()))
            }
            PrepState::InsertKey { pk, .. } => {
                assert_eq!(pk, &vec![Value::Int(4)]);
                PrepEvent::Key(vec![4])
            }
            PrepState::InsertLookup { .. } => PrepEvent::Row(None),
            PrepState::InsertEncode { .. } => PrepEvent::Encoded(Some(vec![9, 9])),
            _ => unreachable!(),
        };
        seen += 1;
        match optimistic_prep_inner(&p, 0, "a", 31, state, event) {
            PrepStep::Wait(s) => state = s,
            PrepStep::Done(Prep::Apply { table, key, snap, op, affected, .. }) => {
                assert_eq!((table, key, snap, affected), (0, vec![4], 31, 1));
                assert!(matches!(op, ApplyOp::Insert(row) if row == vec![9, 9]));
                break;
            }
            PrepStep::Done(_) => panic!("an insert of a new key applies"),
        }
    }
    assert_eq!(seen, 4);
}

#[test]
fn a_taken_key_is_confirmed_before_it_is_reported() {
    let p = insert(0, 1);
    let state = PrepState::InsertLookup { row: vec![Value::Int(4), Value::Int(0)], pk: vec![Value::Int(4)], key: vec![4] };
    match optimistic_prep_inner(&p, 0, "a", 31, state, PrepEvent::Row(Some(vec![Value::Int(4), Value::Int(1)]))) {
        PrepStep::Done(Prep::Confirm { snap, outcome, .. }) => {
            assert_eq!(snap, 31);
            assert_eq!(outcome, Err(Error::PrimaryKeyViolation { table: "a".to_string() }));
        }
        _ => panic!("a snapshot's violation must be confirmed"),
    }
}

#[test]
fn a_valid_attempt_mutates_and_a_stale_one_is_tried_again() {
    let apply = || Prep::Apply { table: 0, key: vec![4], key_hash: 8, snap: 3, op: ApplyOp::Delete, affected: 1 };
    let mut a = Attempts::first();
    assert!(matches!(a.after_validate(apply(), true), OptAction::Mutate { table: 0, key_hash: 8, .. }));
    let mut a = Attempts::first();
    let mut tries = 0;
    while matches!(a.after_validate(apply(), false), OptAction::Prepare) {
        tries += 1;
        assert!(tries < 100, "conflicts must end in the serial path");
    }
    assert!(tries > 0);
    assert!(matches!(after_mutation(0, "a", 8, &ApplyOp::Delete, 1, Ok(true)), OptAction::Commit { affected: 1, .. }));
}

#[test]
fn a_batch_takes_counts_only() {
    assert_eq!(execute_prepared(ExecResult::Affected(4)).unwrap(), 4);
    let rows = ExecResult::Rows { columns: vec![], rows: vec![] };
    assert_eq!(
        execute_prepared(rows).unwrap_err().message(),
        Error::Internal("write plan returned rows".to_string()).message()
    );
}
