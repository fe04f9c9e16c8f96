//! How a compiled statement is kept, loaded and run.

use vstd::prelude::*;
use vstd::string::StringExecFns;
use crate::bytes::same_bytes;
use crate::error::{Error, Fault, PlanHash, Result};
use crate::plan::{CompiledPlan, PlanStmt};
use crate::registry::{parse_record, record_parsed};
use crate::risk::{can_multiply, RiskEstimate, RISK_WARN_CEILING};
use crate::text::{dec, push_dec};

verus! {

// ---------------------------------------------------------------- plans

/// Compiled plans hold for one generation of the schema. Gives the generation
/// seen now, and whether the plans kept so far are to be dropped.
pub fn gate_cache_on_schema(seen: u64, live: u64) -> (r: (u64, bool))
    ensures
        r.0 == live,
        r.1 == (seen != live),
{
    (live, seen != live)
}

/// What is done with a compiled plan.
#[derive(Debug, Clone, Copy, PartialEq, Eq, Structural)]
pub enum Register {
    /// It is already kept here.
    UseCached,
    /// It is kept here alone, because it calls functions of this connection.
    KeepLocal,
    /// It is already published as it is.
    Published,
    /// It is to be published.
    Publish,
}

/// A record holds this very plan.
pub open spec fn holds_plan(record: Option<Seq<u8>>, blob: Seq<u8>) -> bool {
    match record {
        Some(b) => match record_parsed(b) {
            Some((_, stored, _)) => stored == blob,
            None => false,
        },
        None => false,
    }
}

/// What is done with a compiled plan, given the record under its hash.
pub open spec fn registered(cached: bool, host_call: bool, record: Option<Seq<u8>>, blob: Seq<u8>) -> Register {
    if cached {
        Register::UseCached
    } else if host_call {
        Register::KeepLocal
    } else if holds_plan(record, blob) {
        Register::Published
    } else {
        Register::Publish
    }
}

/// What is done with a compiled plan, given the record under its hash.
pub fn register(cached: bool, host_call: bool, record: Option<&Vec<u8>>, blob: &[u8]) -> (r: Register)
    ensures
        r == registered(
            cached,
            host_call,
            match record {
                Some(b) => Some(b@),
                None => None,
            },
            blob@,
        ),
{
    if cached {
        return Register::UseCached;
    }
    if host_call {
        return Register::KeepLocal;
    }
    match record {
        Some(b) => match parse_record(b.as_slice()) {
            Some(rec) => if same_bytes(rec.blob, blob) {
                Register::Published
            } else {
                Register::Publish
            },
            None => Register::Publish,
        },
        None => Register::Publish,
    }
}

/// A plan that is asked for by its hash is kept here or has a record.
pub fn lookup_gate(cached: bool, record: Option<&Vec<u8>>, hash: &PlanHash) -> (r: Result<()>)
    ensures
        match r {
            Ok(_) => cached || record is Some,
            Err(e) => !cached && record is None && e@ == Fault::UnknownPlan(hash@),
        },
{
    if !cached && record.is_none() {
        return Err(Error::UnknownPlan(*hash));
    }
    Ok(())
}

/// The estimate above which a plan is warned about.
pub open spec fn warn_threshold(budget: u64) -> u64 {
    if budget != 0 {
        budget
    } else {
        RISK_WARN_CEILING
    }
}

/// The warning on a plan with an estimate, if there is one. A plan that does
/// not multiply is not warned about.
pub fn risk_warning(plan: &CompiledPlan, est: &RiskEstimate, budget: u64) -> (r: Option<String>)
    ensures
        match r {
            Some(m) => can_multiply(*plan) && est.work_rows > warn_threshold(budget) && m@
                == "mpedb: runtime-budget risk — worst-case ~"@ + dec(est.work_rows as nat) + " work-rows (dominant: "@
                + est.dominant@ + ") exceeds "@ + dec(warn_threshold(budget) as nat)
                + "; this query is likely to hit [runtime] max_work_rows"@,
            None => !can_multiply(*plan) || est.work_rows <= warn_threshold(budget),
        },
{
    if !RiskEstimate::plan_can_multiply(plan) {
        return None;
    }
    let threshold: u64 = if budget != 0 { budget } else { RISK_WARN_CEILING };
    if est.work_rows <= threshold {
        return None;
    }
    let mut m = String::from_str("mpedb: runtime-budget risk — worst-case ~");
    push_dec(&mut m, est.work_rows as u128);
    m.append(" work-rows (dominant: ");
    m.append(est.dominant.as_str());
    m.append(") exceeds ");
    push_dec(&mut m, threshold as u128);
    m.append("; this query is likely to hit [runtime] max_work_rows");
    Some(m)
}

// ---------------------------------------------------------------- routing

/// Where a statement outside a transaction runs.
#[derive(Debug, Clone, Copy, PartialEq, Eq, Structural)]
pub enum RunRoute {
    /// On a read snapshot; the writer lock is not touched.
    Read,
    /// In a write transaction of its own.
    Write,
}

/// Where a statement outside a transaction runs. Transactions and savepoints
/// need a session.
pub fn run_plan(plan: &CompiledPlan) -> (r: Result<RunRoute>)
    ensures
        match plan.stmt {
            PlanStmt::Begin | PlanStmt::Commit | PlanStmt::Rollback => r is Err && r->Err_0@ == Fault::Unsupported(
                "BEGIN/COMMIT/ROLLBACK do nothing through execute(); use Database::begin() and WriteSession"@,
            ),
            PlanStmt::Savepoint(_) | PlanStmt::Release(_) | PlanStmt::RollbackTo(_) => r is Err && r->Err_0@ == Fault::Unsupported(
                "SAVEPOINT/RELEASE/ROLLBACK TO require an open transaction; use Database::begin() and run them through the WriteSession (there is no autocommit savepoint)"@,
            ),
            _ => r is Ok && r->Ok_0 == (if plan.footprint.read_only { RunRoute::Read } else { RunRoute::Write }),
        },
{
    match &plan.stmt {
        PlanStmt::Begin | PlanStmt::Commit | PlanStmt::Rollback => Err(
            Error::Unsupported(
                String::from_str(
                    "BEGIN/COMMIT/ROLLBACK do nothing through execute(); use Database::begin() and WriteSession",
                ),
            ),
        ),
        PlanStmt::Savepoint(_) | PlanStmt::Release(_) | PlanStmt::RollbackTo(_) => Err(
            Error::Unsupported(
                String::from_str(
                    "SAVEPOINT/RELEASE/ROLLBACK TO require an open transaction; use Database::begin() and run them through the WriteSession (there is no autocommit savepoint)",
                ),
            ),
        ),
        _ => {
            if plan.footprint.read_only {
                Ok(RunRoute::Read)
            } else {
                Ok(RunRoute::Write)
            }
        },
    }
}

// ---------------------------------------------------------------- writing

/// What is known of a write before it starts.
#[derive(Debug, Clone, Copy, PartialEq, Eq, Structural)]
pub struct WriteFacts {
    /// Writers share commits through the intent ring.
    pub ring_enabled: bool,
    /// The statement calls functions of this connection.
    pub host_call: bool,
    /// The statement is known to the registry by its hash.
    pub has_hash: bool,
}

/// How far a write has come.
#[derive(Debug, Clone, Copy, PartialEq, Eq, Structural)]
pub enum WriteStage {
    /// The writer lock is being tried.
    Trying,
    /// The lock is held by another; the policies are being checked.
    Checking,
    /// The statement is being put on the ring.
    Queueing,
    /// The statement is on the ring; an answer is being waited for.
    Waiting,
    /// No answer came in time; the writer lock is being tried.
    Retrying,
    /// The lock was free; the ring is being drained.
    Draining,
    /// The ring was drained; the answer is being taken.
    Taking,
    /// The statement has run or has been answered.
    Done,
}

/// What happened.
#[derive(Debug, Clone, Copy, PartialEq, Eq, Structural)]
pub enum WriteEvent {
    /// The lock was tried: had or not.
    Lock(bool),
    /// The policies are those that the plan was compiled with.
    PolicyCurrent,
    /// The statement was put on the ring: there was room or not.
    Queued(bool),
    /// An answer came; whether it says that the plan is unknown.
    Answered { unknown_plan: bool },
    /// No answer came in time.
    NoAnswer,
    /// The ring was drained.
    Drained,
    /// The answer was taken: it was there or not.
    Taken(bool),
}

/// What is to be done.
#[derive(Debug, Clone, Copy, PartialEq, Eq, Structural)]
pub enum WriteAction {
    /// Try the writer lock.
    TryLock,
    /// Check the policies on a read snapshot.
    CheckPolicy,
    /// Put the statement on the ring.
    Queue,
    /// Check the policies under the lock and run the statement, with whatever
    /// is on the ring.
    LeadHolding,
    /// Wait for the lock and run the statement, with whatever is on the ring.
    LeadBlocking,
    /// Wait a bounded time for the answer.
    Wait,
    /// Run what is on the ring.
    Drain,
    /// Take the answer.
    Take,
    /// Give the answer back.
    Return,
}

/// The statement may go on the ring, where another process may run it: not
/// when it needs functions of this connection.
pub open spec fn may_queue(f: WriteFacts) -> bool {
    f.ring_enabled && !f.host_call && f.has_hash
}

/// The next stage and action of a write.
pub open spec fn write_next(stage: WriteStage, event: WriteEvent, f: WriteFacts) -> Option<(WriteStage, WriteAction)> {
    match (stage, event) {
        (WriteStage::Trying, WriteEvent::Lock(true)) => Some((WriteStage::Done, WriteAction::LeadHolding)),
        (WriteStage::Trying, WriteEvent::Lock(false)) => Some((WriteStage::Checking, WriteAction::CheckPolicy)),
        (WriteStage::Checking, WriteEvent::PolicyCurrent) => if may_queue(f) {
            Some((WriteStage::Queueing, WriteAction::Queue))
        } else {
            Some((WriteStage::Done, WriteAction::LeadBlocking))
        },
        (WriteStage::Queueing, WriteEvent::Queued(true)) => Some((WriteStage::Waiting, WriteAction::Wait)),
        (WriteStage::Queueing, WriteEvent::Queued(false)) => Some((WriteStage::Done, WriteAction::LeadBlocking)),
        (WriteStage::Waiting, WriteEvent::Answered { unknown_plan: true }) => Some((WriteStage::Done, WriteAction::LeadBlocking)),
        (WriteStage::Waiting, WriteEvent::Answered { unknown_plan: false }) => Some((WriteStage::Done, WriteAction::Return)),
        (WriteStage::Waiting, WriteEvent::NoAnswer) => Some((WriteStage::Retrying, WriteAction::TryLock)),
        (WriteStage::Retrying, WriteEvent::Lock(true)) => Some((WriteStage::Draining, WriteAction::Drain)),
        (WriteStage::Retrying, WriteEvent::Lock(false)) => Some((WriteStage::Waiting, WriteAction::Wait)),
        (WriteStage::Draining, WriteEvent::Drained) => Some((WriteStage::Taking, WriteAction::Take)),
        (WriteStage::Taking, WriteEvent::Taken(true)) => Some((WriteStage::Done, WriteAction::Return)),
        (WriteStage::Taking, WriteEvent::Taken(false)) => Some((WriteStage::Waiting, WriteAction::Wait)),
        _ => None,
    }
}

/// The next stage and action of a write; `None` for an event that does not
/// belong to the stage.
pub fn run_write_plan(stage: WriteStage, event: WriteEvent, f: WriteFacts) -> (r: Option<(WriteStage, WriteAction)>)
    ensures
        r == write_next(stage, event, f),
{
    match (stage, event) {
        (WriteStage::Trying, WriteEvent::Lock(had)) => if had {
            Some((WriteStage::Done, WriteAction::LeadHolding))
        } else {
            Some((WriteStage::Checking, WriteAction::CheckPolicy))
        },
        (WriteStage::Checking, WriteEvent::PolicyCurrent) => if f.ring_enabled && !f.host_call && f.has_hash {
            Some((WriteStage::Queueing, WriteAction::Queue))
        } else {
            Some((WriteStage::Done, WriteAction::LeadBlocking))
        },
        (WriteStage::Queueing, WriteEvent::Queued(room)) => if room {
            Some((WriteStage::Waiting, WriteAction::Wait))
        } else {
            Some((WriteStage::Done, WriteAction::LeadBlocking))
        },
        (WriteStage::Waiting, WriteEvent::Answered { unknown_plan }) => if unknown_plan {
            Some((WriteStage::Done, WriteAction::LeadBlocking))
        } else {
            Some((WriteStage::Done, WriteAction::Return))
        },
        (WriteStage::Waiting, WriteEvent::NoAnswer) => Some((WriteStage::Retrying, WriteAction::TryLock)),
        (WriteStage::Retrying, WriteEvent::Lock(had)) => if had {
            Some((WriteStage::Draining, WriteAction::Drain))
        } else {
            Some((WriteStage::Waiting, WriteAction::Wait))
        },
        (WriteStage::Draining, WriteEvent::Drained) => Some((WriteStage::Taking, WriteAction::Take)),
        (WriteStage::Taking, WriteEvent::Taken(there)) => if there {
            Some((WriteStage::Done, WriteAction::Return))
        } else {
            Some((WriteStage::Waiting, WriteAction::Wait))
        },
        _ => None,
    }
}

// ---------------------------------------------------------------- laws

/// The stage after a list of events, if every event belonged to its stage.
pub open spec fn stage_after(start: WriteStage, events: Seq<WriteEvent>, f: WriteFacts) -> Option<WriteStage>
    decreases events.len(),
{
    if events.len() == 0 {
        Some(start)
    } else {
        match stage_after(start, events.drop_last(), f) {
            Some(s) => match write_next(s, events.last(), f) {
                Some((t, _)) => Some(t),
                None => None,
            },
            None => None,
        }
    }
}

/// The action runs the statement in this process.
pub open spec fn leads(a: WriteAction) -> bool {
    a == WriteAction::LeadHolding || a == WriteAction::LeadBlocking
}

/// A statement is run here, or its answer is given back, once and for all:
/// both end the write, and nothing follows the end.
pub proof fn law_write_ends_once(stage: WriteStage, event: WriteEvent, f: WriteFacts)
    ensures
        write_next(WriteStage::Done, event, f) is None,
        write_next(stage, event, f) matches Some((t, a)) ==> (t == WriteStage::Done <==> leads(a) || a == WriteAction::Return),
{
}

/// A statement that is on the ring is run here only after its answer said
/// that the plan is unknown, so that it is never run twice.
pub proof fn law_queued_write_not_repeated(stage: WriteStage, event: WriteEvent, f: WriteFacts)
    requires
        stage == WriteStage::Waiting || stage == WriteStage::Retrying || stage == WriteStage::Draining || stage == WriteStage::Taking,
        write_next(stage, event, f) matches Some((_, a)) && leads(a),
    ensures
        stage == WriteStage::Waiting,
        event == (WriteEvent::Answered { unknown_plan: true }),
{
}

/// A statement that calls functions of this connection never goes on the
/// ring, in whatever order things happen.
pub proof fn law_host_calls_stay_here(events: Seq<WriteEvent>, f: WriteFacts)
    requires
        f.host_call,
    ensures
        stage_after(WriteStage::Trying, events, f) matches Some(s) ==> s == WriteStage::Trying || s == WriteStage::Checking || s
            == WriteStage::Done,
    decreases events.len(),
{
    if events.len() > 0 {
        law_host_calls_stay_here(events.drop_last(), f);
    }
}

/// A plan that calls functions of this connection is never published.
pub proof fn law_host_plans_not_published(cached: bool, record: Option<Seq<u8>>, blob: Seq<u8>)
    ensures
        registered(cached, true, record, blob) != Register::Publish,
        registered(cached, true, record, blob) != Register::Published,
{
}

/// The statement is on the ring, where another process may run it.
pub open spec fn on_ring(s: WriteStage) -> bool {
    s == WriteStage::Waiting || s == WriteStage::Retrying || s == WriteStage::Draining || s == WriteStage::Taking
}

/// Nothing is done without what it takes. The lock is used only directly behind
/// having had it; the statement goes on the ring only once its policies were
/// found current, and only if another process may run it; an answer is given
/// back only where one came; the statement is run here only where it is not on
/// the ring, or the ring answered that it does not know the plan.
pub proof fn law_actions_are_licensed(stage: WriteStage, event: WriteEvent, f: WriteFacts)
    ensures
        write_next(stage, event, f) matches Some((next, action)) ==> match action {
            WriteAction::LeadHolding => event == WriteEvent::Lock(true) && !on_ring(stage) && next == WriteStage::Done,
            WriteAction::Drain => event == WriteEvent::Lock(true) && on_ring(stage) && next == WriteStage::Draining,
            WriteAction::CheckPolicy => event == WriteEvent::Lock(false) && !on_ring(stage) && next == WriteStage::Checking,
            WriteAction::Queue => event == WriteEvent::PolicyCurrent && f.ring_enabled && !f.host_call && f.has_hash && next
                == WriteStage::Queueing,
            WriteAction::LeadBlocking => next == WriteStage::Done && (event == WriteEvent::Queued(false) || event == (WriteEvent::Answered {
                unknown_plan: true,
            }) || (event == WriteEvent::PolicyCurrent && (!f.ring_enabled || f.host_call || !f.has_hash))),
            WriteAction::Wait => next == WriteStage::Waiting && (event == WriteEvent::Queued(true) || (on_ring(stage) && (event
                == WriteEvent::Lock(false) || event == WriteEvent::Taken(false)))),
            WriteAction::TryLock => event == WriteEvent::NoAnswer && on_ring(stage) && next == WriteStage::Retrying,
            WriteAction::Take => event == WriteEvent::Drained && next == WriteStage::Taking,
            WriteAction::Return => next == WriteStage::Done && on_ring(stage) && (event == WriteEvent::Taken(true) || event == (
            WriteEvent::Answered { unknown_plan: false })),
        },
{
}

/// A write never gets stuck: every outcome of what a stage waits for leads on.
pub proof fn law_write_goes_on(stage: WriteStage, event: WriteEvent, f: WriteFacts)
    ensures
        write_next(stage, event, f) is Some <==> match event {
            WriteEvent::Lock(_) => stage == WriteStage::Trying || stage == WriteStage::Retrying,
            WriteEvent::PolicyCurrent => stage == WriteStage::Checking,
            WriteEvent::Queued(_) => stage == WriteStage::Queueing,
            WriteEvent::Answered { unknown_plan: _ } => stage == WriteStage::Waiting,
            WriteEvent::NoAnswer => stage == WriteStage::Waiting,
            WriteEvent::Drained => stage == WriteStage::Draining,
            WriteEvent::Taken(_) => stage == WriteStage::Taking,
        },
{
}

/// What was published is not published again: a record that was made of this
/// very plan, and no other, stands for it.
pub proof fn law_published_once(sql: Seq<char>, stored: Seq<u8>, last_used: u64, blob: Seq<u8>)
    requires
        vstd::utf8::encode_utf8(sql).len() <= u32::MAX,
        stored.len() <= u32::MAX,
    ensures
        registered(false, false, Some(crate::registry::record_bytes(sql, stored, last_used as nat)), blob) == (if stored == blob {
            Register::Published
        } else {
            Register::Publish
        }),
        registered(false, false, None, blob) == Register::Publish,
{
    crate::registry::law_record_round_trip(sql, stored, last_used);
}

/// A plan that is cached here is used from here; one that only this connection
/// can run stays here.
pub proof fn law_local_plans_stay(host_call: bool, record: Option<Seq<u8>>, blob: Seq<u8>)
    ensures
        registered(true, host_call, record, blob) == Register::UseCached,
        registered(false, true, record, blob) == Register::KeepLocal,
        registered(false, false, record, blob) == Register::Published || registered(false, false, record, blob) == Register::Publish,
{
}

/// A limit in force is what a plan is measured by; without one a plan is warned
/// about from a fixed size on.
pub proof fn law_warning_follows_the_limit(budget: u64)
    ensures
        budget > 0 ==> warn_threshold(budget) == budget,
        warn_threshold(0) == 1_000_000_000,
{
}

} // verus!
