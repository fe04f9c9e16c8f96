//! Optimistic execution: a statement on one key is prepared against a read
//! snapshot without the writer lock, then validated and applied under it.
//!
//! Preparation alternates decisions made here with work of the engine: each
//! step names the work it waits for, and the next step takes the outcome.

use vstd::prelude::*;
use crate::error::{Error, Fault, Result};
use crate::plan::{part_values, resolve_pk, AccessPath, ColumnDef, CompiledPlan, DefaultExpr, ExprProgram, InsertSource, PlanStmt, TableDef};
use crate::ring_exec::guard::{key_hash, key_hash_of};
use crate::value::{copy_values, models, Value, ValueModel};

verus! {

/// How often a statement is prepared before it runs serially.
pub const OPT_MAX_RETRIES: u32 = 8;

/// Whether a statement may take the optimistic path: it writes exactly one
/// table, which has no secondary index, no full-text index and no trigger,
/// calls no function of one connection, and is a one-row INSERT or an UPDATE
/// or DELETE of one primary key.
pub open spec fn eligible(plan: CompiledPlan, secondary_index: bool, fts: bool, trigger: bool) -> bool {
    &&& !plan.host_call
    &&& plan.footprint.tables_written@.len() == 1
    &&& !secondary_index
    &&& !fts
    &&& !trigger
    &&& match plan.stmt {
        PlanStmt::Insert { table: _, rows, from_select: _ } => rows@.len() == 1,
        PlanStmt::Update { table: _, access, filter: _, set: _ } => access is PkPoint,
        PlanStmt::Delete { table: _, access, filter: _ } => access is PkPoint,
        _ => false,
    }
}

/// Whether a statement may take the optimistic path, given what the engine
/// knows of the table that it writes.
pub fn optimistic_eligible(plan: &CompiledPlan, secondary_index: bool, fts: bool, trigger: bool) -> (r: bool)
    ensures
        r == eligible(*plan, secondary_index, fts, trigger),
{
    if plan.host_call || plan.footprint.tables_written.len() != 1 || secondary_index || fts || trigger {
        return false;
    }
    match &plan.stmt {
        PlanStmt::Insert { table: _, rows, from_select: _ } => rows.len() == 1,
        PlanStmt::Update { table: _, access, filter: _, set: _ } => match access {
            AccessPath::PkPoint(_) => true,
            _ => false,
        },
        PlanStmt::Delete { table: _, access, filter: _ } => match access {
            AccessPath::PkPoint(_) => true,
            _ => false,
        },
        _ => false,
    }
}

/// The mutation to perform under the lock.
pub enum ApplyOp {
    Insert(Vec<u8>),
    Upsert(Vec<u8>),
    Delete,
}

/// The outcome of preparation.
pub enum Prep {
    /// A mutation to validate and apply.
    Apply { table: u32, key: Vec<u8>, key_hash: u64, snap: u64, op: ApplyOp, affected: u64 },
    /// An outcome that does not depend on the snapshot.
    Direct(Result<u64>),
    /// An outcome that holds if the key was not touched since the snapshot.
    Confirm { table: u32, key_hash: u64, snap: u64, outcome: Result<u64> },
    /// Run it serially.
    Fallback,
}

/// What preparation waits for.
pub enum PrepState {
    /// INSERT: the engine validates `row`, whose key is `pk`.
    InsertValidate { row: Vec<Value>, pk: Vec<Value> },
    /// The engine encodes the key `pk`.
    InsertKey { row: Vec<Value>, pk: Vec<Value> },
    /// The snapshot is asked for the row under `pk`.
    InsertLookup { row: Vec<Value>, pk: Vec<Value>, key: Vec<u8> },
    /// The engine encodes `row`.
    InsertEncode { row: Vec<Value>, key: Vec<u8> },
    /// UPDATE: the engine encodes the key `pk`.
    UpdateKey { pk: Vec<Value> },
    UpdateLookup { pk: Vec<Value>, key: Vec<u8> },
    /// The filter is evaluated on `old`.
    UpdateFilter { key: Vec<u8>, old: Vec<Value> },
    /// Assignment number `i` is evaluated on `old`.
    UpdateSet { key: Vec<u8>, old: Vec<Value>, new: Vec<Value>, i: usize },
    UpdateValidate { key: Vec<u8>, new: Vec<Value> },
    UpdateEncode { key: Vec<u8>, new: Vec<Value> },
    /// DELETE: the engine encodes the key `pk`.
    DeleteKey { pk: Vec<Value> },
    DeleteLookup { pk: Vec<Value>, key: Vec<u8> },
    DeleteFilter { key: Vec<u8>, old: Vec<Value> },
}

/// The outcome of what preparation waited for.
pub enum PrepEvent {
    Validated(Result<()>),
    Key(Vec<u8>),
    /// The row under the key, if the snapshot has one.
    Row(Option<Vec<Value>>),
    /// The snapshot could not be read.
    Unreadable,
    Filtered(Result<bool>),
    Computed(Result<Value>),
    /// The encoded row, if it can be encoded.
    Encoded(Option<Vec<u8>>),
}

/// One step of preparation.
pub enum PrepStep {
    Wait(PrepState),
    Done(Prep),
}

// ------------------------------------------------------------- beginning

/// The value of one inserted column.
pub open spec fn source_value(
    src: InsertSource,
    default: Option<DefaultExpr>,
    consts: Seq<Value>,
    params: Seq<Value>,
    now: int,
) -> Option<ValueModel> {
    match src {
        InsertSource::Param(i) => if i < params.len() { Some(params[i as int].model()) } else { None },
        InsertSource::Const(i) => if i < consts.len() { Some(consts[i as int].model()) } else { None },
        InsertSource::Default => match default {
            Some(DefaultExpr::Const(v)) => Some(v.model()),
            Some(DefaultExpr::Now) => Some(ValueModel::Timestamp(now)),
            None => Some(ValueModel::Null),
        },
        InsertSource::Expr => None,
    }
}

/// The values of an inserted row, where every source is known beforehand.
pub open spec fn source_row(
    srcs: Seq<InsertSource>,
    columns: Seq<ColumnDef>,
    consts: Seq<Value>,
    params: Seq<Value>,
    now: int,
) -> Option<Seq<ValueModel>>
    decreases srcs.len(),
{
    if srcs.len() == 0 {
        Some(Seq::empty())
    } else {
        match (
            source_row(srcs.drop_last(), columns, consts, params, now),
            source_value(srcs.last(), columns[srcs.len() - 1].default, consts, params, now),
        ) {
            (Some(vs), Some(v)) => Some(vs.push(v)),
            _ => None,
        }
    }
}

/// The values at the places `pk`.
pub open spec fn picked(row: Seq<ValueModel>, pk: Seq<u16>) -> Seq<ValueModel> {
    pk.map_values(|c: u16| row[c as int])
}

/// No component of the key is NULL.
pub open spec fn no_null(vs: Seq<ValueModel>) -> bool {
    forall|i: int| 0 <= i < vs.len() ==> #[trigger] vs[i] != ValueModel::Null
}

/// How preparation begins.
pub open spec fn begins_with_step(plan: CompiledPlan, params: Seq<Value>, t: TableDef, now: int, step: PrepStep) -> bool {
    match plan.stmt {
        PlanStmt::Insert { table: _, rows, from_select: _ } => {
            if rows@.len() == 0 || rows@[0]@.len() != t.columns@.len() {
                step == PrepStep::Done(Prep::Fallback)
            } else {
                match source_row(rows@[0]@, t.columns@, plan.consts@, params, now) {
                    None => step == PrepStep::Done(Prep::Fallback),
                    Some(vs) => match step {
                        PrepStep::Wait(PrepState::InsertValidate { row, pk }) => models(row@) == vs && models(pk@) == picked(vs, t.primary_key@),
                        _ => false,
                    },
                }
            }
        },
        PlanStmt::Update { table: _, access: AccessPath::PkPoint(parts), filter: _, set: _ } => match part_values(
            parts@,
            plan.consts@,
            params,
        ) {
            None => step == PrepStep::Done(Prep::Fallback),
            Some(vs) => if no_null(vs) {
                match step {
                    PrepStep::Wait(PrepState::UpdateKey { pk }) => models(pk@) == vs,
                    _ => false,
                }
            } else {
                step == PrepStep::Done(Prep::Direct(Ok(0)))
            },
        },
        PlanStmt::Delete { table: _, access: AccessPath::PkPoint(parts), filter: _ } => match part_values(
            parts@,
            plan.consts@,
            params,
        ) {
            None => step == PrepStep::Done(Prep::Fallback),
            Some(vs) => if no_null(vs) {
                match step {
                    PrepStep::Wait(PrepState::DeleteKey { pk }) => models(pk@) == vs,
                    _ => false,
                }
            } else {
                step == PrepStep::Done(Prep::Direct(Ok(0)))
            },
        },
        _ => step == PrepStep::Done(Prep::Fallback),
    }
}

fn build_row(srcs: &Vec<InsertSource>, t: &TableDef, consts: &[Value], params: &[Value], now: i64) -> (r: Option<Vec<Value>>)
    requires
        srcs@.len() == t.columns@.len(),
    ensures
        match r {
            Some(row) => source_row(srcs@, t.columns@, consts@, params@, now as int) == Some(models(row@)) && row@.len() == srcs@.len(),
            None => source_row(srcs@, t.columns@, consts@, params@, now as int) is None,
        },
{
    let mut row: Vec<Value> = Vec::with_capacity(srcs.len());
    let mut i: usize = 0;
    proof {
        assert(srcs@.take(0) =~= Seq::<InsertSource>::empty());
        assert(models(row@) =~= Seq::<ValueModel>::empty());
    }
    while i < srcs.len()
        invariant
            i <= srcs@.len(),
            srcs@.len() == t.columns@.len(),
            row@.len() == i,
            source_row(srcs@.take(i as int), t.columns@, consts@, params@, now as int) == Some(models(row@)),
        decreases srcs@.len() - i,
    {
        proof {
            assert(srcs@.take(i + 1).drop_last() =~= srcs@.take(i as int));
            if source_row(srcs@, t.columns@, consts@, params@, now as int) is Some {
                lemma_source_row_prefix(srcs@, i + 1, t.columns@, consts@, params@, now as int);
            }
        }
        let v: Value = match &srcs[i] {
            InsertSource::Param(p) => {
                if (*p as usize) < params.len() {
                    params[*p as usize].copied()
                } else {
                    return None;
                }
            },
            InsertSource::Const(c) => {
                if (*c as usize) < consts.len() {
                    consts[*c as usize].copied()
                } else {
                    return None;
                }
            },
            InsertSource::Default => match &t.columns[i].default {
                Some(DefaultExpr::Const(v)) => v.copied(),
                Some(DefaultExpr::Now) => Value::Timestamp(now),
                None => Value::Null,
            },
            InsertSource::Expr => {
                return None;
            },
        };
        let ghost prev = row@;
        row.push(v);
        proof {
            assert(models(row@) =~= models(prev).push(v.model()));
        }
        i += 1;
    }
    proof {
        assert(srcs@.take(i as int) =~= srcs@);
    }
    Some(row)
}

proof fn lemma_source_row_prefix(
    srcs: Seq<InsertSource>,
    n: int,
    columns: Seq<ColumnDef>,
    consts: Seq<Value>,
    params: Seq<Value>,
    now: int,
)
    requires
        0 <= n <= srcs.len(),
        source_row(srcs, columns, consts, params, now) is Some,
    ensures
        source_row(srcs.take(n), columns, consts, params, now) is Some,
    decreases srcs.len(),
{
    if n < srcs.len() {
        lemma_source_row_prefix(srcs.drop_last(), n, columns, consts, params, now);
        assert(srcs.drop_last().take(n) =~= srcs.take(n));
    } else {
        assert(srcs.take(n) =~= srcs);
    }
}

fn pick(row: &Vec<Value>, pk: &Vec<u16>) -> (r: Vec<Value>)
    requires
        forall|i: int| 0 <= i < pk@.len() ==> #[trigger] pk@[i] < row@.len(),
    ensures
        models(r@) == picked(models(row@), pk@),
{
    let mut out: Vec<Value> = Vec::with_capacity(pk.len());
    let mut i: usize = 0;
    while i < pk.len()
        invariant
            i <= pk@.len(),
            out@.len() == i,
            forall|j: int| 0 <= j < pk@.len() ==> #[trigger] pk@[j] < row@.len(),
            forall|j: int| 0 <= j < i ==> (#[trigger] out@[j]).model() == row@[pk@[j] as int].model(),
        decreases pk@.len() - i,
    {
        let c: usize = pk[i] as usize;
        assert(pk@[i as int] < row@.len());
        out.push(row[c].copied());
        i += 1;
    }
    proof {
        assert(models(out@) =~= picked(models(row@), pk@));
    }
    out
}

fn any_null(vs: &Vec<Value>) -> (r: bool)
    ensures
        r == !no_null(models(vs@)),
{
    let mut i: usize = 0;
    while i < vs.len()
        invariant
            i <= vs@.len(),
            forall|j: int| 0 <= j < i ==> #[trigger] models(vs@)[j] != ValueModel::Null,
        decreases vs@.len() - i,
    {
        proof {
            assert(models(vs@)[i as int] == vs@[i as int].model());
        }
        if vs[i].is_null() {
            return true;
        }
        i += 1;
    }
    false
}

/// Begin to prepare a statement on the table `t`. A key with a NULL component
/// matches nothing.
pub fn optimistic_prep(plan: &CompiledPlan, params: &[Value], t: &TableDef, now: i64) -> (step: PrepStep)
    requires
        t.key_wf(),
    ensures
        begins_with_step(*plan, params@, *t, now as int, step),
{
    let consts = plan.consts.as_slice();
    match &plan.stmt {
        PlanStmt::Insert { table: _, rows, from_select: _ } => {
            if rows.len() == 0 || rows[0].len() != t.columns.len() {
                return PrepStep::Done(Prep::Fallback);
            }
            match build_row(&rows[0], t, consts, params, now) {
                None => PrepStep::Done(Prep::Fallback),
                Some(row) => {
                    let pk = pick(&row, &t.primary_key);
                    PrepStep::Wait(PrepState::InsertValidate { row, pk })
                },
            }
        },
        PlanStmt::Update { table: _, access: AccessPath::PkPoint(parts), filter: _, set: _ } => match resolve_pk(
            parts.as_slice(),
            consts,
            params,
        ) {
            None => PrepStep::Done(Prep::Fallback),
            Some(pk) => if any_null(&pk) {
                PrepStep::Done(Prep::Direct(Ok(0)))
            } else {
                PrepStep::Wait(PrepState::UpdateKey { pk })
            },
        },
        PlanStmt::Delete { table: _, access: AccessPath::PkPoint(parts), filter: _ } => match resolve_pk(
            parts.as_slice(),
            consts,
            params,
        ) {
            None => PrepStep::Done(Prep::Fallback),
            Some(pk) => if any_null(&pk) {
                PrepStep::Done(Prep::Direct(Ok(0)))
            } else {
                PrepStep::Wait(PrepState::DeleteKey { pk })
            },
        },
        _ => PrepStep::Done(Prep::Fallback),
    }
}

// -------------------------------------------------------------- next step

/// The assignments of an UPDATE; none for other statements.
pub open spec fn assignments(stmt: PlanStmt) -> Seq<(u16, ExprProgram)> {
    match stmt {
        PlanStmt::Update { table: _, access: _, filter: _, set } => set@,
        _ => Seq::empty(),
    }
}

/// The statement has a filter.
pub open spec fn filtered(stmt: PlanStmt) -> bool {
    match stmt {
        PlanStmt::Update { table: _, access: _, filter, set: _ } => filter is Some,
        PlanStmt::Delete { table: _, access: _, filter } => filter is Some,
        _ => false,
    }
}

/// The outcome holds if the key was not touched since the snapshot.
pub open spec fn confirms(step: PrepStep, table: u32, snap: u64, key: Seq<u8>, outcome: Result<u64>) -> bool {
    step == PrepStep::Done(Prep::Confirm { table, key_hash: key_hash_of(key), snap, outcome })
}

/// The step behind a matched row of an UPDATE: its first assignment, or the
/// validation of the unchanged row where it assigns nothing.
pub open spec fn assigns_from(stmt: PlanStmt, step: PrepStep, key: Vec<u8>, old: Vec<Value>) -> bool {
    if assignments(stmt).len() > 0 {
        step matches PrepStep::Wait(PrepState::UpdateSet { key: k, old: o, new, i }) && k == key && o == old && i == 0
            && models(new@) == models(old@) && new@.len() == old@.len()
    } else {
        step matches PrepStep::Wait(PrepState::UpdateValidate { key: k, new }) && k == key && models(new@) == models(old@)
    }
}

/// How preparation goes on when `event` answers what `state` waits for. An
/// answer to something else makes the statement run serially.
pub open spec fn follows(
    plan: CompiledPlan,
    table: u32,
    name: Seq<char>,
    snap: u64,
    state: PrepState,
    event: PrepEvent,
    step: PrepStep,
) -> bool {
    let serial = PrepStep::Done(Prep::Fallback);
    match (state, event) {
        (PrepState::InsertValidate { row, pk }, PrepEvent::Validated(Ok(_))) => step == PrepStep::Wait(PrepState::InsertKey { row, pk }),
        (PrepState::InsertValidate { row: _, pk: _ }, PrepEvent::Validated(Err(e))) => step == PrepStep::Done(Prep::Direct(Err(e))),
        (PrepState::InsertKey { row, pk }, PrepEvent::Key(key)) => step == PrepStep::Wait(PrepState::InsertLookup { row, pk, key }),
        (PrepState::InsertLookup { row, pk: _, key }, PrepEvent::Row(None)) => step == PrepStep::Wait(PrepState::InsertEncode { row, key }),
        (PrepState::InsertLookup { row: _, pk: _, key }, PrepEvent::Row(Some(_))) => step matches PrepStep::Done(
            Prep::Confirm { table: t, key_hash: h, snap: s, outcome: Err(e) },
        ) && t == table && s == snap && h == key_hash_of(key@) && e@ == (Fault::PrimaryKeyViolation { table: name }),
        (PrepState::InsertEncode { row: _, key }, PrepEvent::Encoded(Some(payload))) => step == PrepStep::Done(
            Prep::Apply { table, key, key_hash: key_hash_of(key@), snap, op: ApplyOp::Insert(payload), affected: 1 },
        ),
        (PrepState::UpdateKey { pk }, PrepEvent::Key(key)) => step == PrepStep::Wait(PrepState::UpdateLookup { pk, key }),
        (PrepState::UpdateLookup { pk: _, key }, PrepEvent::Row(None)) => confirms(step, table, snap, key@, Ok(0)),
        (PrepState::UpdateLookup { pk: _, key }, PrepEvent::Row(Some(old))) => if filtered(plan.stmt) {
            step == PrepStep::Wait(PrepState::UpdateFilter { key, old })
        } else {
            assigns_from(plan.stmt, step, key, old)
        },
        (PrepState::UpdateFilter { key, old }, PrepEvent::Filtered(Ok(hit))) => if hit {
            assigns_from(plan.stmt, step, key, old)
        } else {
            confirms(step, table, snap, key@, Ok(0))
        },
        (PrepState::UpdateFilter { key, old: _ }, PrepEvent::Filtered(Err(e))) => confirms(step, table, snap, key@, Err(e)),
        (PrepState::UpdateSet { key, old, new, i }, PrepEvent::Computed(Ok(v))) => {
            let set = assignments(plan.stmt);
            if i >= set.len() || set[i as int].0 >= new@.len() {
                step == serial
            } else if i + 1 < set.len() {
                step matches PrepStep::Wait(PrepState::UpdateSet { key: k, old: o, new: n, i: j }) && k == key && o == old
                    && n@ == new@.update(set[i as int].0 as int, v) && j == i + 1
            } else {
                step matches PrepStep::Wait(PrepState::UpdateValidate { key: k, new: n }) && k == key && n@ == new@.update(
                    set[i as int].0 as int,
                    v,
                )
            }
        },
        (PrepState::UpdateSet { key, old: _, new: _, i: _ }, PrepEvent::Computed(Err(e))) => confirms(step, table, snap, key@, Err(e)),
        (PrepState::UpdateValidate { key, new }, PrepEvent::Validated(Ok(_))) => step == PrepStep::Wait(PrepState::UpdateEncode { key, new }),
        (PrepState::UpdateValidate { key, new: _ }, PrepEvent::Validated(Err(e))) => confirms(step, table, snap, key@, Err(e)),
        (PrepState::UpdateEncode { key, new: _ }, PrepEvent::Encoded(Some(payload))) => step == PrepStep::Done(
            Prep::Apply { table, key, key_hash: key_hash_of(key@), snap, op: ApplyOp::Upsert(payload), affected: 1 },
        ),
        (PrepState::DeleteKey { pk }, PrepEvent::Key(key)) => step == PrepStep::Wait(PrepState::DeleteLookup { pk, key }),
        (PrepState::DeleteLookup { pk: _, key }, PrepEvent::Row(None)) => confirms(step, table, snap, key@, Ok(0)),
        (PrepState::DeleteLookup { pk: _, key }, PrepEvent::Row(Some(old))) => if filtered(plan.stmt) {
            step == PrepStep::Wait(PrepState::DeleteFilter { key, old })
        } else {
            step == PrepStep::Done(
                Prep::Apply { table, key, key_hash: key_hash_of(key@), snap, op: ApplyOp::Delete, affected: 1 },
            )
        },
        (PrepState::DeleteFilter { key, old: _ }, PrepEvent::Filtered(Ok(hit))) => if hit {
            step == PrepStep::Done(
                Prep::Apply { table, key, key_hash: key_hash_of(key@), snap, op: ApplyOp::Delete, affected: 1 },
            )
        } else {
            confirms(step, table, snap, key@, Ok(0))
        },
        (PrepState::DeleteFilter { key, old: _ }, PrepEvent::Filtered(Err(e))) => confirms(step, table, snap, key@, Err(e)),
        _ => step == serial,
    }
}

fn confirm(table: u32, snap: u64, key: &Vec<u8>, outcome: Result<u64>) -> (step: PrepStep)
    ensures
        confirms(step, table, snap, key@, outcome),
{
    PrepStep::Done(Prep::Confirm { table, key_hash: key_hash(key.as_slice()), snap, outcome })
}

fn begin_assigning(plan: &CompiledPlan, key: Vec<u8>, old: Vec<Value>) -> (step: PrepStep)
    ensures
        assigns_from(plan.stmt, step, key, old),
{
    let new = copy_values(old.as_slice());
    let n: usize = match &plan.stmt {
        PlanStmt::Update { table: _, access: _, filter: _, set } => set.len(),
        _ => 0,
    };
    if n > 0 {
        PrepStep::Wait(PrepState::UpdateSet { key, old, new, i: 0 })
    } else {
        PrepStep::Wait(PrepState::UpdateValidate { key, new })
    }
}

fn has_filter(plan: &CompiledPlan) -> (r: bool)
    ensures
        r == filtered(plan.stmt),
{
    match &plan.stmt {
        PlanStmt::Update { table: _, access: _, filter, set: _ } => filter.is_some(),
        PlanStmt::Delete { table: _, access: _, filter } => filter.is_some(),
        _ => false,
    }
}

/// Go on preparing with the outcome of what was waited for.
pub fn optimistic_prep_inner(plan: &CompiledPlan, table: u32, name: &str, snap: u64, state: PrepState, event: PrepEvent) -> (step: PrepStep)
    ensures
        follows(*plan, table, name@, snap, state, event, step),
{
    match (state, event) {
        (PrepState::InsertValidate { row, pk }, PrepEvent::Validated(r)) => match r {
            Ok(()) => PrepStep::Wait(PrepState::InsertKey { row, pk }),
            Err(e) => PrepStep::Done(Prep::Direct(Err(e))),
        },
        (PrepState::InsertKey { row, pk }, PrepEvent::Key(key)) => PrepStep::Wait(PrepState::InsertLookup { row, pk, key }),
        (PrepState::InsertLookup { row, pk, key }, PrepEvent::Row(found)) => match found {
            None => PrepStep::Wait(PrepState::InsertEncode { row, key }),
            Some(_) => confirm(table, snap, &key, Err(Error::PrimaryKeyViolation { table: name.to_owned() })),
        },
        (PrepState::InsertEncode { row, key }, PrepEvent::Encoded(Some(payload))) => {
            let h: u64 = key_hash(key.as_slice());
            PrepStep::Done(Prep::Apply { table, key, key_hash: h, snap, op: ApplyOp::Insert(payload), affected: 1 })
        },
        (PrepState::UpdateKey { pk }, PrepEvent::Key(key)) => PrepStep::Wait(PrepState::UpdateLookup { pk, key }),
        (PrepState::UpdateLookup { pk, key }, PrepEvent::Row(found)) => match found {
            None => confirm(table, snap, &key, Ok(0)),
            Some(old) => if has_filter(plan) {
                PrepStep::Wait(PrepState::UpdateFilter { key, old })
            } else {
                begin_assigning(plan, key, old)
            },
        },
        (PrepState::UpdateFilter { key, old }, PrepEvent::Filtered(r)) => match r {
            Ok(hit) => if hit {
                begin_assigning(plan, key, old)
            } else {
                confirm(table, snap, &key, Ok(0))
            },
            Err(e) => confirm(table, snap, &key, Err(e)),
        },
        (PrepState::UpdateSet { key, old, new, i }, PrepEvent::Computed(r)) => match r {
            Err(e) => confirm(table, snap, &key, Err(e)),
            Ok(v) => match &plan.stmt {
                PlanStmt::Update { table: _, access: _, filter: _, set } => {
                    if i >= set.len() {
                        return PrepStep::Done(Prep::Fallback);
                    }
                    let c: usize = set[i].0 as usize;
                    if c >= new.len() {
                        return PrepStep::Done(Prep::Fallback);
                    }
                    let mut next = new;
                    next.set(c, v);
                    if i + 1 < set.len() {
                        PrepStep::Wait(PrepState::UpdateSet { key, old, new: next, i: i + 1 })
                    } else {
                        PrepStep::Wait(PrepState::UpdateValidate { key, new: next })
                    }
                },
                _ => PrepStep::Done(Prep::Fallback),
            },
        },
        (PrepState::UpdateValidate { key, new }, PrepEvent::Validated(r)) => match r {
            Ok(()) => PrepStep::Wait(PrepState::UpdateEncode { key, new }),
            Err(e) => confirm(table, snap, &key, Err(e)),
        },
        (PrepState::UpdateEncode { key, new }, PrepEvent::Encoded(Some(payload))) => {
            let h: u64 = key_hash(key.as_slice());
            PrepStep::Done(Prep::Apply { table, key, key_hash: h, snap, op: ApplyOp::Upsert(payload), affected: 1 })
        },
        (PrepState::DeleteKey { pk }, PrepEvent::Key(key)) => PrepStep::Wait(PrepState::DeleteLookup { pk, key }),
        (PrepState::DeleteLookup { pk, key }, PrepEvent::Row(found)) => match found {
            None => confirm(table, snap, &key, Ok(0)),
            Some(old) => if has_filter(plan) {
                PrepStep::Wait(PrepState::DeleteFilter { key, old })
            } else {
                let h: u64 = key_hash(key.as_slice());
                PrepStep::Done(Prep::Apply { table, key, key_hash: h, snap, op: ApplyOp::Delete, affected: 1 })
            },
        },
        (PrepState::DeleteFilter { key, old }, PrepEvent::Filtered(r)) => match r {
            Ok(hit) => if hit {
                let h: u64 = key_hash(key.as_slice());
                PrepStep::Done(Prep::Apply { table, key, key_hash: h, snap, op: ApplyOp::Delete, affected: 1 })
            } else {
                confirm(table, snap, &key, Ok(0))
            },
            Err(e) => confirm(table, snap, &key, Err(e)),
        },
        _ => PrepStep::Done(Prep::Fallback),
    }
}

// ------------------------------------------------------------- execution

/// Where an optimistic execution stands: how many preparations were
/// invalidated so far.
pub struct Attempts {
    conflicts: u32,
}

/// What to do next.
pub enum OptAction {
    /// Prepare against a fresh snapshot.
    Prepare,
    /// Run serially under the writer lock.
    Serial,
    /// Take the writer lock and validate the key's footprint.
    Validate(Prep),
    /// Perform the mutation under the lock.
    Mutate { table: u32, key: Vec<u8>, key_hash: u64, op: ApplyOp, affected: u64 },
    /// Note the commit point, commit, and answer this many rows.
    Commit { table: u32, key_hash: u64, affected: u64 },
    /// Release what is held without a change and answer.
    Answer(Result<u64>),
}

/// What to do with a finished preparation.
pub fn after_prep(prep: Prep) -> (a: OptAction)
    ensures
        match prep {
            Prep::Fallback => a == OptAction::Serial,
            Prep::Direct(outcome) => a == OptAction::Answer(outcome),
            _ => a == OptAction::Validate(prep),
        },
{
    match prep {
        Prep::Fallback => OptAction::Serial,
        Prep::Direct(outcome) => OptAction::Answer(outcome),
        other => OptAction::Validate(other),
    }
}

impl Attempts {
    /// How many preparations were invalidated.
    pub closed spec fn failed(&self) -> u32 {
        self.conflicts
    }

    /// The number of preparations is within its bound.
    pub open spec fn wf(&self) -> bool {
        self.failed() < OPT_MAX_RETRIES
    }

    /// No preparation yet.
    pub fn first() -> (a: Attempts)
        ensures
            a.wf(),
            a.failed() == 0,
    {
        Attempts { conflicts: 0 }
    }

    /// What to do when the footprint was validated under the lock. A conflict
    /// starts over against a fresh snapshot, up to the bound; then the
    /// statement runs serially, which always makes progress.
    pub fn after_validate(&mut self, prep: Prep, valid: bool) -> (a: OptAction)
        requires
            old(self).wf(),
        ensures
            final(self).failed() == old(self).failed() + (if valid { 0int } else { 1int }),
            validated(prep, valid, final(self).failed(), a),
            !valid ==> (if final(self).failed() < OPT_MAX_RETRIES {
                a == OptAction::Prepare && final(self).wf()
            } else {
                a == OptAction::Serial
            }),
            valid ==> match prep {
                Prep::Apply { table, key, key_hash, snap: _, op, affected } => a == (OptAction::Mutate {
                    table,
                    key,
                    key_hash,
                    op,
                    affected,
                }),
                Prep::Confirm { table: _, key_hash: _, snap: _, outcome } => a == OptAction::Answer(outcome),
                Prep::Direct(outcome) => a == OptAction::Answer(outcome),
                Prep::Fallback => a == OptAction::Serial,
            },
    {
        if !valid {
            self.conflicts = self.conflicts + 1;
            return if self.conflicts < OPT_MAX_RETRIES {
                OptAction::Prepare
            } else {
                OptAction::Serial
            };
        }
        match prep {
            Prep::Apply { table, key, key_hash, snap, op, affected } => OptAction::Mutate {
                table,
                key,
                key_hash,
                op,
                affected,
            },
            Prep::Confirm { table, key_hash, snap, outcome } => OptAction::Answer(outcome),
            Prep::Direct(outcome) => OptAction::Answer(outcome),
            Prep::Fallback => OptAction::Serial,
        }
    }
}

/// What is done behind a mutation: `done` tells whether it changed anything.
pub open spec fn mutated(table: u32, name: Seq<char>, key_hash: u64, op: ApplyOp, affected: u64, done: Result<bool>, a: OptAction) -> bool {
    match (done, op) {
        (Err(e), _) => a == OptAction::Answer(Err(e)),
        (Ok(false), ApplyOp::Insert(_)) => a matches OptAction::Answer(Err(e)) && e@ == (Fault::PrimaryKeyViolation { table: name }),
        (Ok(false), ApplyOp::Delete) => a == OptAction::Answer(Ok(0)),
        _ => a == (OptAction::Commit { table, key_hash, affected }),
    }
}

/// What is done once the footprint of a preparation was validated.
pub open spec fn validated(prep: Prep, valid: bool, failed: u32, a: OptAction) -> bool {
    if !valid {
        a == (if failed < OPT_MAX_RETRIES { OptAction::Prepare } else { OptAction::Serial })
    } else {
        match prep {
            Prep::Apply { table, key, key_hash, snap: _, op, affected } => a == (OptAction::Mutate { table, key, key_hash, op, affected }),
            Prep::Confirm { table: _, key_hash: _, snap: _, outcome } => a == OptAction::Answer(outcome),
            Prep::Direct(outcome) => a == OptAction::Answer(outcome),
            Prep::Fallback => a == OptAction::Serial,
        }
    }
}

/// What to do with the outcome of a mutation, `Ok(false)` meaning that nothing
/// was changed: an INSERT met an existing key, a DELETE found no row.
pub fn after_mutation(table: u32, name: &str, key_hash: u64, op: &ApplyOp, affected: u64, done: Result<bool>) -> (a: OptAction)
    ensures
        mutated(table, name@, key_hash, *op, affected, done, a),
        match done {
            Err(e) => a == OptAction::Answer(Err(e)),
            Ok(changed) => match *op {
                ApplyOp::Insert(_) => if changed {
                    a == (OptAction::Commit { table, key_hash, affected })
                } else {
                    a matches OptAction::Answer(Err(e)) && e@ == (Fault::PrimaryKeyViolation { table: name@ })
                },
                ApplyOp::Upsert(_) => a == (OptAction::Commit { table, key_hash, affected }),
                ApplyOp::Delete => if changed {
                    a == (OptAction::Commit { table, key_hash, affected })
                } else {
                    a == OptAction::Answer(Ok(0))
                },
            },
        },
{
    let changed = match done {
        Err(e) => {
            return OptAction::Answer(Err(e));
        },
        Ok(changed) => changed,
    };
    match op {
        ApplyOp::Insert(_) => if changed {
            OptAction::Commit { table, key_hash, affected }
        } else {
            OptAction::Answer(Err(Error::PrimaryKeyViolation { table: name.to_owned() }))
        },
        ApplyOp::Upsert(_) => OptAction::Commit { table, key_hash, affected },
        ApplyOp::Delete => if changed {
            OptAction::Commit { table, key_hash, affected }
        } else {
            OptAction::Answer(Ok(0))
        },
    }
}

// ---------------------------------------------------------------- laws

/// How many steps a preparation has left at most, for a statement with `n`
/// assignments.
pub open spec fn steps_left(state: PrepState, n: int) -> int {
    match state {
        PrepState::InsertValidate { row: _, pk: _ } => 4,
        PrepState::InsertKey { row: _, pk: _ } => 3,
        PrepState::InsertLookup { row: _, pk: _, key: _ } => 2,
        PrepState::InsertEncode { row: _, key: _ } => 1,
        PrepState::UpdateKey { pk: _ } => n + 6,
        PrepState::UpdateLookup { pk: _, key: _ } => n + 5,
        PrepState::UpdateFilter { key: _, old: _ } => n + 4,
        PrepState::UpdateSet { key: _, old: _, new: _, i } => if i < n { n - i + 3 } else { 3 },
        PrepState::UpdateValidate { key: _, new: _ } => 2,
        PrepState::UpdateEncode { key: _, new: _ } => 1,
        PrepState::DeleteKey { pk: _ } => 3,
        PrepState::DeleteLookup { pk: _, key: _ } => 2,
        PrepState::DeleteFilter { key: _, old: _ } => 1,
    }
}

/// Preparation comes to an end: every step has fewer left than the one before.
pub proof fn law_prep_terminates(
    plan: CompiledPlan,
    table: u32,
    name: Seq<char>,
    snap: u64,
    state: PrepState,
    event: PrepEvent,
    step: PrepStep,
)
    requires
        follows(plan, table, name, snap, state, event, step),
    ensures
        step matches PrepStep::Wait(next) ==> 0 <= steps_left(next, assignments(plan.stmt).len() as int) < steps_left(
            state,
            assignments(plan.stmt).len() as int,
        ),
{
}

/// The snapshot was read.
pub open spec fn past_lookup(state: PrepState) -> bool {
    match state {
        PrepState::InsertEncode { row: _, key: _ } => true,
        PrepState::UpdateFilter { key: _, old: _ } => true,
        PrepState::UpdateSet { key: _, old: _, new: _, i: _ } => true,
        PrepState::UpdateValidate { key: _, new: _ } => true,
        PrepState::UpdateEncode { key: _, new: _ } => true,
        PrepState::DeleteFilter { key: _, old: _ } => true,
        _ => false,
    }
}

/// Once the snapshot was read, no outcome is answered without confirming under
/// the lock that the key was not touched; a mutation always names its own
/// key's hash, the snapshot it was prepared on, and one row.
pub proof fn law_snapshot_outcomes_are_confirmed(
    plan: CompiledPlan,
    table: u32,
    name: Seq<char>,
    snap: u64,
    state: PrepState,
    event: PrepEvent,
    step: PrepStep,
)
    requires
        follows(plan, table, name, snap, state, event, step),
    ensures
        past_lookup(state) ==> !(step matches PrepStep::Done(Prep::Direct(_))),
        event is Row ==> !(step matches PrepStep::Done(Prep::Direct(_))),
        step matches PrepStep::Done(Prep::Apply { table: t, key, key_hash: h, snap: s, op: _, affected }) ==> t == table
            && h == key_hash_of(key@) && s == snap && affected == 1,
        step matches PrepStep::Done(Prep::Confirm { table: t, key_hash: _, snap: s, outcome: _ }) ==> t == table && s == snap,
{
}

// ------------------------------------------------------- a whole UPDATE

/// A row after the first `n` assignments, each evaluated on the old row: `eval`
/// is what assignment number `i` gives on a row.
pub open spec fn assigned_row(
    old: Seq<ValueModel>,
    set: Seq<(u16, ExprProgram)>,
    eval: spec_fn(int, Seq<ValueModel>) -> ValueModel,
    n: nat,
) -> Seq<ValueModel>
    decreases n,
{
    if n == 0 {
        old
    } else {
        let row = assigned_row(old, set, eval, (n - 1) as nat);
        if set[n - 1].0 < row.len() {
            row.update(set[n - 1].0 as int, eval(n - 1, old))
        } else {
            row
        }
    }
}

/// Each state follows the one before it on the event that answered it.
pub open spec fn is_trace(
    plan: CompiledPlan,
    table: u32,
    name: Seq<char>,
    snap: u64,
    states: Seq<PrepState>,
    events: Seq<PrepEvent>,
) -> bool {
    &&& events.len() + 1 == states.len()
    &&& forall|k: int| 0 <= k < events.len() ==> follows(plan, table, name, snap, #[trigger] states[k], events[k], PrepStep::Wait(states[k + 1]))
}

/// What the engine answers to an assignment is its value on the row that was
/// handed to it.
pub open spec fn evaluates(states: Seq<PrepState>, events: Seq<PrepEvent>, eval: spec_fn(int, Seq<ValueModel>) -> ValueModel) -> bool {
    forall|k: int| 0 <= k < events.len() ==> match (#[trigger] states[k], events[k]) {
        (PrepState::UpdateSet { key: _, old, new: _, i }, PrepEvent::Computed(Ok(v))) => v.model() == eval(i as int, models(old@)),
        _ => true,
    }
}

/// Where an UPDATE of the row `old` under `key` stands.
pub open spec fn update_stands(
    plan: CompiledPlan,
    state: PrepState,
    key: Vec<u8>,
    old: Vec<Value>,
    eval: spec_fn(int, Seq<ValueModel>) -> ValueModel,
) -> bool {
    let set = assignments(plan.stmt);
    let row = models(old@);
    match state {
        PrepState::UpdateFilter { key: k, old: o } => k == key && o == old,
        PrepState::UpdateSet { key: k, old: o, new, i } => k == key && o == old && i < set.len() && models(new@) == assigned_row(
            row,
            set,
            eval,
            i as nat,
        ),
        PrepState::UpdateValidate { key: k, new } => k == key && models(new@) == assigned_row(row, set, eval, set.len()),
        PrepState::UpdateEncode { key: k, new } => k == key && models(new@) == assigned_row(row, set, eval, set.len()),
        _ => false,
    }
}

/// The first step with a row that was found.
proof fn lemma_update_begins(
    plan: CompiledPlan,
    table: u32,
    name: Seq<char>,
    snap: u64,
    pk: Vec<Value>,
    key: Vec<u8>,
    old: Vec<Value>,
    eval: spec_fn(int, Seq<ValueModel>) -> ValueModel,
    next: PrepState,
)
    requires
        follows(
            plan,
            table,
            name,
            snap,
            PrepState::UpdateLookup { pk, key },
            PrepEvent::Row(Some(old)),
            PrepStep::Wait(next),
        ),
    ensures
        update_stands(plan, next, key, old, eval),
{
    reveal_with_fuel(assigned_row, 1);
}

/// Any later step.
proof fn lemma_update_goes_on(
    plan: CompiledPlan,
    table: u32,
    name: Seq<char>,
    snap: u64,
    state: PrepState,
    event: PrepEvent,
    key: Vec<u8>,
    old: Vec<Value>,
    eval: spec_fn(int, Seq<ValueModel>) -> ValueModel,
    next: PrepState,
)
    requires
        update_stands(plan, state, key, old, eval),
        follows(plan, table, name, snap, state, event, PrepStep::Wait(next)),
        match (state, event) {
            (PrepState::UpdateSet { key: _, old: o, new: _, i }, PrepEvent::Computed(Ok(v))) => v.model() == eval(i as int, models(o@)),
            _ => true,
        },
    ensures
        update_stands(plan, next, key, old, eval),
{
    let set = assignments(plan.stmt);
    match state {
        PrepState::UpdateFilter { key: _, old: _ } => {
            match event {
                PrepEvent::Filtered(Ok(_)) => {},
                _ => {},
            }
        },
        PrepState::UpdateSet { key: _, old: _, new, i } => {
            match event {
                PrepEvent::Computed(Ok(v)) => {
                    let c = set[i as int].0 as int;
                    assert(models(new@.update(c, v)) =~= models(new@).update(c, v.model()));
                    assert(assigned_row(models(old@), set, eval, (i + 1) as nat) == models(new@).update(c, v.model()));
                },
                _ => {},
            }
        },
        PrepState::UpdateValidate { key: _, new: _ } => {
            match event {
                PrepEvent::Validated(Ok(_)) => {},
                _ => {},
            }
        },
        _ => {},
    }
}

proof fn lemma_update_stands(
    plan: CompiledPlan,
    table: u32,
    name: Seq<char>,
    snap: u64,
    states: Seq<PrepState>,
    events: Seq<PrepEvent>,
    key: Vec<u8>,
    old: Vec<Value>,
    eval: spec_fn(int, Seq<ValueModel>) -> ValueModel,
    m: int,
)
    requires
        is_trace(plan, table, name, snap, states, events),
        evaluates(states, events, eval),
        1 <= m < states.len(),
        states[0] matches PrepState::UpdateLookup { pk: _, key: k } && k == key,
        events[0] == PrepEvent::Row(Some(old)),
    ensures
        update_stands(plan, states[m], key, old, eval),
    decreases m,
{
    let before = states[m - 1];
    assert(follows(plan, table, name, snap, before, events[m - 1], PrepStep::Wait(states[m])));
    if m == 1 {
        lemma_update_begins(plan, table, name, snap, states[0]->UpdateLookup_pk, key, old, eval, states[1]);
    } else {
        lemma_update_stands(plan, table, name, snap, states, events, key, old, eval, m - 1);
        lemma_update_goes_on(plan, table, name, snap, states[m - 1], events[m - 1], key, old, eval, states[m]);
    }
}

/// A whole UPDATE: what is encoded and stored under the key is the old row with
/// each assignment, evaluated on the old row, in its column.
pub proof fn law_update_assigns_on_the_old_row(
    plan: CompiledPlan,
    table: u32,
    name: Seq<char>,
    snap: u64,
    states: Seq<PrepState>,
    events: Seq<PrepEvent>,
    key: Vec<u8>,
    old: Vec<Value>,
    new: Vec<Value>,
    payload: Vec<u8>,
    eval: spec_fn(int, Seq<ValueModel>) -> ValueModel,
    last: PrepStep,
)
    requires
        is_trace(plan, table, name, snap, states, events),
        evaluates(states, events, eval),
        states.len() > 1,
        states[0] matches PrepState::UpdateLookup { pk: _, key: k } && k == key,
        events[0] == PrepEvent::Row(Some(old)),
        states.last() matches PrepState::UpdateEncode { key: _, new: n } && n == new,
        follows(plan, table, name, snap, states.last(), PrepEvent::Encoded(Some(payload)), last),
    ensures
        models(new@) == assigned_row(models(old@), assignments(plan.stmt), eval, assignments(plan.stmt).len()),
        last == PrepStep::Done(
            Prep::Apply { table, key, key_hash: key_hash_of(key@), snap, op: ApplyOp::Upsert(payload), affected: 1 },
        ),
{
    lemma_update_stands(plan, table, name, snap, states, events, key, old, eval, states.len() - 1);
}

/// In an updated row a column that is not assigned is as it was.
pub proof fn law_unassigned_column_stays(
    old: Seq<ValueModel>,
    set: Seq<(u16, ExprProgram)>,
    eval: spec_fn(int, Seq<ValueModel>) -> ValueModel,
    n: nat,
    c: int,
)
    requires
        n <= set.len(),
        0 <= c < old.len(),
        forall|j: int| 0 <= j < n ==> (#[trigger] set[j]).0 != c,
    ensures
        assigned_row(old, set, eval, n).len() == old.len(),
        assigned_row(old, set, eval, n)[c] == old[c],
    decreases n,
{
    if n > 0 {
        law_unassigned_column_stays(old, set, eval, (n - 1) as nat, c);
        assert(set[n - 1].0 != c);
    }
}

/// In an updated row an assigned column has the value of its last assignment
/// on the old row.
pub proof fn law_last_assignment_wins(
    old: Seq<ValueModel>,
    set: Seq<(u16, ExprProgram)>,
    eval: spec_fn(int, Seq<ValueModel>) -> ValueModel,
    n: nat,
    j: int,
)
    requires
        0 <= j < n <= set.len(),
        set[j].0 < old.len(),
        forall|k: int| j < k < n ==> (#[trigger] set[k]).0 != set[j].0,
    ensures
        assigned_row(old, set, eval, n).len() == old.len(),
        assigned_row(old, set, eval, n)[set[j].0 as int] == eval(j, old),
    decreases n,
{
    lemma_assigned_len(old, set, eval, n);
    lemma_assigned_len(old, set, eval, (n - 1) as nat);
    if j < n - 1 {
        law_last_assignment_wins(old, set, eval, (n - 1) as nat, j);
        assert(set[n - 1].0 != set[j].0);
    }
}

proof fn lemma_assigned_len(old: Seq<ValueModel>, set: Seq<(u16, ExprProgram)>, eval: spec_fn(int, Seq<ValueModel>) -> ValueModel, n: nat)
    ensures
        assigned_row(old, set, eval, n).len() == old.len(),
    decreases n,
{
    if n > 0 {
        lemma_assigned_len(old, set, eval, (n - 1) as nat);
    }
}

} // verus!
