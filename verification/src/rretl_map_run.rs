//! The daemon form of a map sync: bounded work, resumable, restricted to the
//! runner that is supposed to do it, and not twice at once.
//!
//! A run commits as it goes, and every commit advances the whole set by a
//! chunk of each table that still has work. A round is three passes over every
//! table; a conflict is counted and skipped.

use vstd::prelude::*;
use vstd::string::StringExecFns;
use crate::error::{Error, Fault, Result};
use crate::rretl::{as_int, as_text, int_cell, tallies_of, tally_rows, tally_views, text_cell, LineageRow};
use crate::rretl_map::{MapSyncReport, Pass};
use crate::text::{dec, dec_int, push_dec, push_dec_int, quoted_in};
use crate::utf8::same_text;
use crate::value::{Value, ValueModel};

verus! {

/// How many conflicts are kept verbatim.
pub const MAX_CONFLICT_NOTES: usize = 8;

/// How a run ended.
#[derive(Debug, Clone, Copy, PartialEq, Eq, Structural)]
pub enum RunStop {
    /// Every table finished every pass.
    RoundComplete,
    /// The time or the rows ran out; the cursors say where to resume.
    Budget,
}

/// What a run may use.
#[derive(Debug, Clone, Default)]
pub struct RunOptions {
    /// Wall-clock ceiling, checked between transactions.
    pub max_secs: Option<u64>,
    /// Ceiling on rows classified.
    pub max_rows: Option<u64>,
    /// The runner that this process claims to be.
    pub runner: Option<String>,
    /// Lease length.
    pub lease_secs: Option<u64>,
}

/// What a run did.
#[derive(Debug, Default)]
pub struct MapRunReport {
    pub moved: MapSyncReport,
    /// Rows classified.
    pub rows: u64,
    /// Transactions committed.
    pub commits: u64,
    /// Rows that a sync would have aborted on.
    pub conflicts: u64,
    /// The first few of them, verbatim.
    pub conflict_notes: Vec<String>,
    /// Journal entries consumed.
    pub streamed: u64,
    pub round: i64,
    pub stopped_by: Option<RunStop>,
}

/// The status of one map.
#[derive(Debug, Default)]
pub struct MapRunStatus {
    pub runner: String,
    pub round: i64,
    pub lease_owner: String,
    pub lease_until: i64,
    pub note: String,
    /// Table and phase of every table still in the middle of a round.
    pub in_progress: Vec<(String, i64)>,
}

/// Why a run stopped, in words.
pub open spec fn stop_text(s: Option<RunStop>) -> Seq<char> {
    match s {
        Some(RunStop::RoundComplete) => "round complete"@,
        Some(RunStop::Budget) => "budget spent, cursors saved"@,
        None => "nothing to do"@,
    }
}

impl MapRunReport {
    /// A report of nothing, in the given round.
    pub fn begin(round: i64) -> (r: MapRunReport)
        ensures
            r.round == round,
            r.rows == 0 && r.commits == 0 && r.conflicts == 0 && r.streamed == 0,
            r.conflict_notes@.len() == 0,
            r.stopped_by is None,
            r.moved.run_id == 0 && r.moved.moved() == 0 && r.moved.unchanged == 0,
    {
        MapRunReport {
            moved: MapSyncReport::new(),
            rows: 0,
            commits: 0,
            conflicts: 0,
            conflict_notes: Vec::new(),
            streamed: 0,
            round,
            stopped_by: None,
        }
    }

    /// Count rows that were classified, and journal entries that were consumed.
    pub fn note_chunk(&mut self, rows: u64, entries: u64)
        requires
            old(self).rows + rows <= u64::MAX,
            old(self).streamed + entries <= u64::MAX,
        ensures
            *final(self) == (MapRunReport {
                rows: (old(self).rows + rows) as u64,
                streamed: (old(self).streamed + entries) as u64,
                ..*old(self)
            }),
    {
        self.rows = self.rows + rows;
        self.streamed = self.streamed + entries;
    }

    /// Count a conflict and keep the first few verbatim.
    pub fn note_conflict(&mut self, msg: String)
        requires
            old(self).conflicts < u64::MAX,
        ensures
            final(self).conflicts == old(self).conflicts + 1,
            final(self).conflict_notes@ == (if old(self).conflict_notes@.len() < MAX_CONFLICT_NOTES {
                old(self).conflict_notes@.push(msg)
            } else {
                old(self).conflict_notes@
            }),
            *final(self) == (MapRunReport {
                conflicts: final(self).conflicts,
                conflict_notes: final(self).conflict_notes,
                ..*old(self)
            }),
    {
        self.conflicts = self.conflicts + 1;
        if self.conflict_notes.len() < MAX_CONFLICT_NOTES {
            self.conflict_notes.push(msg);
        }
    }

    /// The report in one line.
    pub fn note(&self) -> (r: String)
        ensures
            r@ == "round "@ + dec_int(self.round as int) + ", "@ + dec(self.rows as nat) + " row(s) in "@ + dec(self.commits as nat)
                + " commit(s): a→b "@ + dec(self.moved.a_to_b as nat) + ", b→a "@ + dec(self.moved.b_to_a as nat) + ", +b "@ + dec(
                self.moved.created_b as nat,
            ) + ", +a "@ + dec(self.moved.created_a as nat) + ", -a "@ + dec(self.moved.deleted_a as nat) + ", -b "@ + dec(
                self.moved.deleted_b as nat,
            ) + ", clean "@ + dec(self.moved.unchanged as nat) + ", conflicts "@ + dec(self.conflicts as nat) + " — "@ + stop_text(
                self.stopped_by,
            ),
    {
        let mut s = String::from_str("round ");
        push_dec_int(&mut s, self.round);
        s.append(", ");
        push_dec(&mut s, self.rows as u128);
        s.append(" row(s) in ");
        push_dec(&mut s, self.commits as u128);
        s.append(" commit(s): a→b ");
        push_dec(&mut s, self.moved.a_to_b as u128);
        s.append(", b→a ");
        push_dec(&mut s, self.moved.b_to_a as u128);
        s.append(", +b ");
        push_dec(&mut s, self.moved.created_b as u128);
        s.append(", +a ");
        push_dec(&mut s, self.moved.created_a as u128);
        s.append(", -a ");
        push_dec(&mut s, self.moved.deleted_a as u128);
        s.append(", -b ");
        push_dec(&mut s, self.moved.deleted_b as u128);
        s.append(", clean ");
        push_dec(&mut s, self.moved.unchanged as u128);
        s.append(", conflicts ");
        push_dec(&mut s, self.conflicts as u128);
        s.append(" — ");
        match self.stopped_by {
            Some(RunStop::RoundComplete) => s.append("round complete"),
            Some(RunStop::Budget) => s.append("budget spent, cursors saved"),
            None => s.append("nothing to do"),
        }
        s
    }
}

// ------------------------------------------------------------------ lease

/// What the map's run record says.
#[derive(Debug)]
pub struct RunRecord {
    pub runner: String,
    pub round: i64,
    pub lease_owner: String,
    pub lease_until: i64,
}

impl RunRecord {
    /// The record of a map that never ran.
    pub fn fresh() -> (r: RunRecord)
        ensures
            r.runner@.len() == 0,
            r.round == 0,
            r.lease_owner@.len() == 0,
            r.lease_until == 0,
    {
        RunRecord { runner: String::new(), round: 0, lease_owner: String::new(), lease_until: 0 }
    }
}

/// The length of a lease: as asked for, else a minute over the time limit,
/// else five minutes.
pub open spec fn lease_length(opts: RunOptions) -> int {
    match (opts.lease_secs, opts.max_secs) {
        (Some(n), _) => n as int,
        (None, Some(s)) => s + 60,
        (None, None) => 300,
    }
}

/// The length of a lease in seconds.
pub fn lease_secs(opts: &RunOptions) -> (r: u64)
    requires
        lease_length(*opts) <= u64::MAX,
    ensures
        r == lease_length(*opts),
{
    match (opts.lease_secs, opts.max_secs) {
        (Some(n), _) => n,
        (None, Some(s)) => s + 60,
        (None, None) => 300,
    }
}

/// The name that a run goes by: the runner it claims to be, else its process.
pub fn runner_name(opts: &RunOptions, pid: u32) -> (r: String)
    ensures
        r@ == (match opts.runner {
            Some(n) => n@,
            None => "pid:"@ + dec(pid as nat),
        }),
{
    match &opts.runner {
        Some(n) => n.clone(),
        None => {
            let mut s = String::from_str("pid:");
            push_dec(&mut s, pid as u128);
            s
        },
    }
}

/// Why a run may not begin.
pub open spec fn claim_objection(name: Seq<char>, rec: RunRecord, runner: Option<String>, me: Seq<char>, now: int) -> Option<Fault> {
    if rec.runner@.len() > 0 && !(runner matches Some(r) && r@ == rec.runner@) {
        Some(
            Fault::Unsupported(
                "map `"@ + name + "` is restricted to runner `"@ + rec.runner@ + "`; this process claims "@ + (match runner {
                    Some(r) => "`"@ + r@ + "`"@,
                    None => "no runner"@,
                }) + " — pass the matching --runner, or clear the restriction with `map runner "@ + name + " \"\"`"@,
            ),
        )
    } else if rec.lease_until > now && rec.lease_owner@ != me {
        Some(Fault::Busy)
    } else {
        None
    }
}

/// Claim a map for a run: the runner must be the recorded one, where one is
/// recorded, and no other owner may hold a live lease.
pub fn claim(name: &str, rec: RunRecord, opts: &RunOptions, me: &str, now: i64) -> (r: Result<RunRecord>)
    requires
        lease_length(*opts) * 1_000_000 + now <= i64::MAX,
    ensures
        match r {
            Ok(c) => {
                &&& claim_objection(name@, rec, opts.runner, me@, now as int) is None
                &&& c.runner == rec.runner
                &&& c.round == rec.round
                &&& c.lease_owner@ == me@
                &&& c.lease_until == now + lease_length(*opts) * 1_000_000
            },
            Err(e) => claim_objection(name@, rec, opts.runner, me@, now as int) == Some(e@),
        },
{
    if !rec.runner.as_str().is_empty() {
        let matches_runner = match &opts.runner {
            Some(r) => same_text(r.as_str(), rec.runner.as_str()),
            None => false,
        };
        if !matches_runner {
            let mut m = quoted_in("map `", name, "` is restricted to runner `");
            m.append(rec.runner.as_str());
            m.append("`; this process claims ");
            match &opts.runner {
                Some(r) => {
                    let q = quoted_in("`", r.as_str(), "`");
                    m.append(q.as_str());
                },
                None => {
                    m.append("no runner");
                },
            }
            m.append(" — pass the matching --runner, or clear the restriction with `map runner ");
            m.append(name);
            m.append(" \"\"`");
            return Err(Error::Unsupported(m));
        }
    }
    if rec.lease_until > now && !same_text(rec.lease_owner.as_str(), me) {
        return Err(Error::Busy);
    }
    let until: i128 = now as i128 + lease_secs(opts) as i128 * 1_000_000;
    Ok(RunRecord { runner: rec.runner, round: rec.round, lease_owner: me.to_owned(), lease_until: until as i64 })
}

/// Give the lease up; somebody else's lease stays.
pub fn release_lease(rec: RunRecord, me: &str) -> (r: RunRecord)
    ensures
        r.runner == rec.runner,
        r.round == rec.round,
        rec.lease_owner@ == me@ ==> r.lease_owner@.len() == 0 && r.lease_until == 0,
        rec.lease_owner@ != me@ ==> r == rec,
{
    if same_text(rec.lease_owner.as_str(), me) {
        RunRecord { runner: rec.runner, round: rec.round, lease_owner: String::new(), lease_until: 0 }
    } else {
        rec
    }
}

// ---------------------------------------------------------------- cursors

/// The view of a [`RunRecord`].
pub struct RunModel {
    pub runner: Seq<char>,
    pub round: int,
    pub lease_owner: Seq<char>,
    pub lease_until: int,
}

impl View for RunRecord {
    type V = RunModel;

    open spec fn view(&self) -> RunModel {
        RunModel {
            runner: self.runner@,
            round: self.round as int,
            lease_owner: self.lease_owner@,
            lease_until: self.lease_until as int,
        }
    }
}

/// The run record in a row: runner, round, lease owner, lease end. Without a
/// row nobody has run the map.
pub open spec fn run_of(row: Option<Seq<Value>>) -> std::result::Result<RunModel, Fault> {
    match row {
        None => Ok(RunModel { runner: Seq::empty(), round: 0, lease_owner: Seq::empty(), lease_until: 0 }),
        Some(r) => match (int_cell(r[1].model()), int_cell(r[3].model())) {
            (Err(f), _) => Err(f),
            (Ok(_), Err(f)) => Err(f),
            (Ok(round), Ok(lease_until)) => Ok(
                RunModel { runner: text_cell(r[0].model()), round, lease_owner: text_cell(r[2].model()), lease_until },
            ),
        },
    }
}

pub open spec fn opt_row(row: Option<&Vec<Value>>) -> Option<Seq<Value>> {
    match row {
        Some(r) => Some(r@),
        None => None,
    }
}

/// The run record in a row.
pub fn read_run(row: Option<&Vec<Value>>) -> (r: Result<RunRecord>)
    requires
        row matches Some(v) ==> v@.len() >= 4,
    ensures
        match r {
            Ok(rec) => run_of(opt_row(row)) == Ok::<RunModel, Fault>(rec@),
            Err(e) => run_of(opt_row(row)) == Err::<RunModel, Fault>(e@),
        },
{
    match row {
        None => {
            let rec = RunRecord::fresh();
            proof {
                assert(rec.runner@ =~= Seq::<char>::empty());
                assert(rec.lease_owner@ =~= Seq::<char>::empty());
            }
            Ok(rec)
        },
        Some(v) => {
            let round: i64 = match as_int(&v[1]) {
                Ok(i) => i,
                Err(e) => {
                    return Err(e);
                },
            };
            let lease_until: i64 = match as_int(&v[3]) {
                Ok(i) => i,
                Err(e) => {
                    return Err(e);
                },
            };
            Ok(RunRecord { runner: as_text(&v[0]), round, lease_owner: as_text(&v[2]), lease_until })
        },
    }
}

/// The status of a map from its run row (runner, round, lease owner, lease
/// end, note) and the tables still in the middle of a round.
pub fn rretl_map_status(row: Option<&Vec<Value>>, progress: &Vec<Vec<Value>>) -> (r: Result<MapRunStatus>)
    requires
        row matches Some(v) ==> v@.len() >= 5,
        forall|i: int| 0 <= i < progress@.len() ==> (#[trigger] progress@[i])@.len() >= 2,
    ensures
        match (run_of(opt_row(row)), row) {
            (Err(f), _) => r is Err && r->Err_0@ == f,
            (Ok(m), None) => {
                &&& r is Ok
                &&& r->Ok_0.runner@ == m.runner && r->Ok_0.round == m.round
                &&& r->Ok_0.lease_owner@ == m.lease_owner && r->Ok_0.lease_until == m.lease_until
                &&& r->Ok_0.note@ == Seq::<char>::empty()
                &&& r->Ok_0.in_progress@.len() == 0
            },
            (Ok(m), Some(v)) => match tallies_of(progress@, 0) {
                Err(f) => r is Err && r->Err_0@ == f,
                Ok(ts) => {
                    &&& r is Ok
                    &&& r->Ok_0.runner@ == m.runner && r->Ok_0.round == m.round
                    &&& r->Ok_0.lease_owner@ == m.lease_owner && r->Ok_0.lease_until == m.lease_until
                    &&& r->Ok_0.note@ == text_cell(v@[4].model())
                    &&& tally_views(r->Ok_0.in_progress@) == ts
                },
            },
        },
{
    let rec = match read_run(row) {
        Ok(rec) => rec,
        Err(e) => {
            return Err(e);
        },
    };
    match row {
        None => {
            let note = String::new();
            proof {
                assert(note@ =~= Seq::<char>::empty());
            }
            Ok(
                MapRunStatus {
                    runner: rec.runner,
                    round: rec.round,
                    lease_owner: rec.lease_owner,
                    lease_until: rec.lease_until,
                    note,
                    in_progress: Vec::new(),
                },
            )
        },
        Some(v) => {
            let note = as_text(&v[4]);
            match tally_rows(progress) {
                Err(e) => Err(e),
                Ok(in_progress) => Ok(
                    MapRunStatus {
                        runner: rec.runner,
                        round: rec.round,
                        lease_owner: rec.lease_owner,
                        lease_until: rec.lease_until,
                        note,
                        in_progress,
                    },
                ),
            }
        },
    }
}

/// Where one table stands in the current round.
#[derive(Debug)]
pub struct Cursor {
    /// The pass in progress, 1 to 3; 0 when done for this round.
    pub phase: i64,
    /// The last key handled in the first two passes; NULL at the start.
    pub k: Value,
    /// The last record key handled in the third pass; NULL at the start.
    pub pk_enc: Value,
}

impl Cursor {
    /// The pass that the table is in, and the key behind which it goes on.
    pub fn pass(&self) -> (r: (Pass, &Value))
        ensures
            match self.phase {
                0 => r.0 == Pass::Done,
                1 => r.0 == Pass::Source && *r.1 == self.k,
                2 => r.0 == Pass::Target && *r.1 == self.k,
                _ => r.0 == Pass::State && *r.1 == self.pk_enc,
            },
    {
        match self.phase {
            0 => (Pass::Done, &self.k),
            1 => (Pass::Source, &self.k),
            2 => (Pass::Target, &self.k),
            _ => (Pass::State, &self.pk_enc),
        }
    }

    /// The start of a round.
    pub fn start() -> (c: Cursor)
        ensures
            c.phase == 1,
            c.k.model() == ValueModel::Null,
            c.pk_enc.model() == ValueModel::Null,
    {
        Cursor { phase: 1, k: Value::Null, pk_enc: Value::Null }
    }

    /// The cursor in a row: pass, key, record key. Without a row the table is
    /// at the start of a round.
    pub fn read(row: Option<&Vec<Value>>) -> (r: Result<Cursor>)
        requires
            row matches Some(v) ==> v@.len() >= 3,
        ensures
            match row {
                None => r is Ok && r->Ok_0.phase == 1 && r->Ok_0.k.model() == ValueModel::Null && r->Ok_0.pk_enc.model()
                    == ValueModel::Null,
                Some(v) => match int_cell(v@[0].model()) {
                    Err(f) => r is Err && r->Err_0@ == f,
                    Ok(phase) => r is Ok && r->Ok_0.phase == phase && r->Ok_0.k.model() == v@[1].model() && r->Ok_0.pk_enc.model()
                        == v@[2].model(),
                },
            },
    {
        match row {
            None => Ok(Cursor::start()),
            Some(v) => match as_int(&v[0]) {
                Err(e) => Err(e),
                Ok(phase) => Ok(Cursor { phase, k: v[1].copied(), pk_enc: v[2].copied() }),
            },
        }
    }

    /// Move behind a chunk of `got` rows whose last key was `last`: a short
    /// chunk ends the pass.
    pub fn advance(&mut self, got: usize, chunk: usize, last: Option<Value>)
        requires
            got > 0 ==> last is Some,
        ensures
            ({
                let short = got < chunk;
                let third = old(self).phase != 1 && old(self).phase != 2;
                &&& final(self).phase == (if !short {
                    old(self).phase
                } else if old(self).phase == 1 {
                    2i64
                } else if old(self).phase == 2 {
                    3i64
                } else {
                    0i64
                })
                &&& final(self).k.model() == (if short {
                    ValueModel::Null
                } else if got > 0 && !third {
                    last->Some_0.model()
                } else {
                    old(self).k.model()
                })
                &&& final(self).pk_enc.model() == (if short && old(self).phase != 1 {
                    ValueModel::Null
                } else if got > 0 && third {
                    last->Some_0.model()
                } else {
                    old(self).pk_enc.model()
                })
            }),
    {
        let third = self.phase != 1 && self.phase != 2;
        if got > 0 {
            if let Some(v) = last {
                if third {
                    self.pk_enc = v;
                } else {
                    self.k = v;
                }
            }
        }
        if got < chunk {
            self.k = Value::Null;
            if self.phase == 1 {
                self.phase = 2;
            } else if self.phase == 2 {
                self.phase = 3;
                self.pk_enc = Value::Null;
            } else {
                self.phase = 0;
                self.pk_enc = Value::Null;
            }
        }
    }
}

// --------------------------------------------------------------- the loop

/// Whether the rows or the time of a run are used up.
pub open spec fn spent(opts: RunOptions, rows: u64, elapsed_secs: u64) -> bool {
    (opts.max_rows matches Some(m) && rows >= m) || (opts.max_secs matches Some(m) && elapsed_secs >= m)
}

/// What a run does next.
#[derive(Debug, Clone, Copy, PartialEq, Eq, Structural)]
pub enum RunAction {
    /// One transaction over all tables.
    Work,
    /// Give the lease up and report.
    Finish,
}

/// What to do with a transaction over all tables.
#[derive(Debug, Clone, Copy, PartialEq, Eq, Structural)]
pub enum StepAction {
    /// Commit and go on.
    Commit,
    /// Clear the cursors, count the round, commit, and finish.
    CompleteRound,
}

/// Before each transaction: go on unless the budget is spent.
pub fn before_step(report: &mut MapRunReport, opts: &RunOptions, elapsed_secs: u64) -> (a: RunAction)
    ensures
        spent(*opts, old(report).rows, elapsed_secs) ==> a == RunAction::Finish && *final(report) == (MapRunReport {
            stopped_by: Some(RunStop::Budget),
            ..*old(report)
        }),
        !spent(*opts, old(report).rows, elapsed_secs) ==> a == RunAction::Work && *final(report) == *old(report),
{
    let rows_out = match opts.max_rows {
        Some(m) => report.rows >= m,
        None => false,
    };
    let time_out = match opts.max_secs {
        Some(m) => elapsed_secs >= m,
        None => false,
    };
    if rows_out || time_out {
        report.stopped_by = Some(RunStop::Budget);
        return RunAction::Finish;
    }
    RunAction::Work
}

/// After each transaction: when no table had work, the round is complete.
/// `recorded` is the round in the run record.
pub fn after_step(report: &mut MapRunReport, any: bool, recorded: i64) -> (a: StepAction)
    requires
        old(report).commits < u64::MAX,
        !any ==> recorded < i64::MAX,
    ensures
        final(report).commits == old(report).commits + 1,
        any ==> a == StepAction::Commit && *final(report) == (MapRunReport { commits: final(report).commits, ..*old(report) }),
        !any ==> a == StepAction::CompleteRound && *final(report) == (MapRunReport {
            commits: final(report).commits,
            round: (recorded + 1) as i64,
            stopped_by: Some(RunStop::RoundComplete),
            ..*old(report)
        }),
{
    report.commits = report.commits + 1;
    if any {
        return StepAction::Commit;
    }
    report.round = recorded + 1;
    report.stopped_by = Some(RunStop::RoundComplete);
    StepAction::CompleteRound
}

/// The first `n` tables that are not done for this round, in order.
pub open spec fn unfinished(phases: Seq<i64>, n: nat) -> Seq<usize>
    decreases n,
{
    if n == 0 {
        Seq::empty()
    } else if phases[n - 1] == 0 {
        unfinished(phases, (n - 1) as nat)
    } else {
        unfinished(phases, (n - 1) as nat).push((n - 1) as usize)
    }
}

/// The tables that one transaction takes a chunk of, given the pass that each
/// table is in: all that are not done for this round.
pub fn tables_with_work(phases: &Vec<i64>) -> (r: Vec<usize>)
    ensures
        r@ == unfinished(phases@, phases@.len()),
{
    let mut out: Vec<usize> = Vec::new();
    let mut i: usize = 0;
    while i < phases.len()
        invariant
            i <= phases@.len(),
            out@ == unfinished(phases@, i as nat),
        decreases phases@.len() - i,
    {
        if phases[i] != 0 {
            out.push(i);
        }
        i += 1;
    }
    out
}

/// Whether a run is worth a lineage row: only when something happened.
pub fn leaves_lineage(report: &MapRunReport) -> (r: bool)
    requires
        report.moved.moved() <= u64::MAX,
    ensures
        r == (report.moved.moved() > 0 || report.conflicts > 0),
{
    report.moved.changed_total() > 0 || report.conflicts > 0
}

/// The lineage row of a map.
pub fn map_lineage(run_id: i64, name: &str, moved: &MapSyncReport, note: String) -> (r: LineageRow)
    requires
        moved.moved() <= i64::MAX,
    ensures
        r.run_id == run_id,
        r.lens@ == "map:"@ + name@ && r.forward_hash@ == "map:"@ + name@ && r.inverse_hash@ == "map:"@ + name@,
        r.rex_hash@.len() == 0 && r.table@.len() == 0 && r.source_hash@.len() == 0 && r.output_hash@.len() == 0
            && r.residual_hash@.len() == 0,
        r.column@ == name@,
        r.rows == moved.moved(),
        r.outcome@ == "mapped"@,
        r.error == note,
{
    let lens = String::from_str("map:").concat(name);
    LineageRow {
        run_id,
        lens: lens.clone(),
        forward_hash: lens.clone(),
        rex_hash: String::new(),
        inverse_hash: lens,
        table: String::new(),
        column: name.to_owned(),
        source_hash: String::new(),
        output_hash: String::new(),
        residual_hash: String::new(),
        rows: moved.changed_total() as i64,
        outcome: "mapped",
        error: note,
    }
}

// ---------------------------------------------------------------- laws

/// While a lease is live, nobody but its owner can claim the map; once it has
/// run out, anybody who is the recorded runner can.
pub proof fn law_lease_excludes(name: Seq<char>, rec: RunRecord, runner: Option<String>, me: Seq<char>, now: int)
    ensures
        rec.lease_until > now && rec.lease_owner@ != me ==> claim_objection(name, rec, runner, me, now) is Some,
        rec.lease_until <= now && rec.runner@.len() == 0 ==> claim_objection(name, rec, runner, me, now) is None,
        rec.lease_owner@ == me && rec.runner@.len() == 0 ==> claim_objection(name, rec, runner, me, now) is None,
{
}

/// A map with a recorded runner is never claimed under another name.
pub proof fn law_runner_restricts(name: Seq<char>, rec: RunRecord, runner: Option<String>, me: Seq<char>, now: int)
    requires
        rec.runner@.len() > 0,
        claim_objection(name, rec, runner, me, now) is None,
    ensures
        runner is Some && runner->Some_0@ == rec.runner@,
{
}

/// Every commit advances the whole set: a table takes part in a transaction
/// exactly when it is not done for this round.
pub proof fn law_every_commit_advances_the_set(phases: Seq<i64>, n: nat, i: usize)
    requires
        n <= phases.len() <= usize::MAX,
    ensures
        unfinished(phases, n).contains(i) <==> i < n && phases[i as int] != 0,
    decreases n,
{
    if n > 0 {
        law_every_commit_advances_the_set(phases, (n - 1) as nat, i);
        let before = unfinished(phases, (n - 1) as nat);
        let now = unfinished(phases, n);
        if phases[n - 1] != 0 {
            assert(now.last() == (n - 1) as usize);
            if before.contains(i) {
                let k = choose|k: int| 0 <= k < before.len() && before[k] == i;
                assert(now[k] == i);
            }
            if now.contains(i) && i != n - 1 {
                let k = choose|k: int| 0 <= k < now.len() && now[k] == i;
                assert(before[k] == i);
            }
        }
    }
}

/// The number of passes that a phase still has before it.
pub open spec fn passes_left(phase: int) -> int {
    if phase == 1 { 3 } else if phase == 2 { 2 } else if phase == 0 { 0 } else { 1 }
}

/// A table goes through its passes in order: a short chunk leaves exactly one
/// pass fewer, a full one stays in its pass, and three short chunks end the
/// round.
pub proof fn law_passes_in_order(phase: int, next: int, short: bool)
    requires
        1 <= phase <= 3,
        next == (if !short {
            phase
        } else if phase == 1 {
            2
        } else if phase == 2 {
            3
        } else {
            0
        }),
    ensures
        passes_left(next) == passes_left(phase) - (if short { 1int } else { 0int }),
{
}

/// A run may claim a map exactly where nothing is against it: the map is not
/// restricted, or restricted to the very runner that this process claims to be;
/// and no one else holds the lease, or it ran out.
pub proof fn law_claim_is_granted_iff_free(name: Seq<char>, rec: RunRecord, runner: Option<String>, me: Seq<char>, now: int)
    ensures
        claim_objection(name, rec, runner, me, now) is None <==> {
            &&& rec.runner@.len() == 0 || (runner is Some && runner->Some_0@ == rec.runner@)
            &&& rec.lease_until <= now || rec.lease_owner@ == me
        },
{
}

/// The lease is as long as was asked for; else it outlives the time that the
/// run may take, by a minute.
pub proof fn law_lease_outlives_the_run(opts: RunOptions)
    ensures
        opts.lease_secs is Some ==> lease_length(opts) == opts.lease_secs->Some_0,
        opts.lease_secs is None && opts.max_secs is Some ==> lease_length(opts) == opts.max_secs->Some_0 + 60,
        opts.lease_secs is None && opts.max_secs is None ==> lease_length(opts) == 300,
{
}

/// A run stops where either of its limits is reached, and not before.
pub proof fn law_budget_is_either_limit(opts: RunOptions, rows: u64, elapsed_secs: u64)
    ensures
        spent(opts, rows, elapsed_secs) <==> (opts.max_rows is Some && rows >= opts.max_rows->Some_0) || (opts.max_secs is Some && elapsed_secs
            >= opts.max_secs->Some_0),
{
}

/// The record of a run has everything from its own column; without one no run
/// was, and no one holds a lease.
pub proof fn law_run_record_is_its_row(r: Seq<Value>)
    requires
        r.len() >= 4,
    ensures
        run_of(Some(r)) is Ok <==> r[1].model() is Int && r[3].model() is Int,
        run_of(Some(r)) matches Ok(m) ==> {
            &&& r[0].model() is Text ==> r[0].model() == ValueModel::Text(m.runner)
            &&& r[1].model() == ValueModel::Int(m.round)
            &&& r[2].model() is Text ==> r[2].model() == ValueModel::Text(m.lease_owner)
            &&& r[3].model() == ValueModel::Int(m.lease_until)
        },
        run_of(None) matches Ok(m) && m.runner.len() == 0 && m.round == 0 && m.lease_owner.len() == 0 && m.lease_until == 0,
{
}

/// The tables with work are taken in their order, each once.
pub proof fn law_tables_taken_in_order(phases: Seq<i64>, n: nat)
    requires
        n <= phases.len() <= usize::MAX,
    ensures
        forall|i: int| 0 <= i < unfinished(phases, n).len() ==> #[trigger] unfinished(phases, n)[i] < n && phases[unfinished(phases, n)[i] as int] != 0,
        forall|i: int, j: int| 0 <= i < j < unfinished(phases, n).len() ==> #[trigger] unfinished(phases, n)[i] < #[trigger] unfinished(phases, n)[j],
    decreases n,
{
    if n > 0 {
        law_tables_taken_in_order(phases, (n - 1) as nat);
        let (before, all) = (unfinished(phases, (n - 1) as nat), unfinished(phases, n));
        assert forall|i: int| 0 <= i < all.len() implies #[trigger] all[i] < n && phases[all[i] as int] != 0 by {
            if i < before.len() {
                assert(all[i] == before[i]);
            }
        }
        assert forall|i: int, j: int| 0 <= i < j < all.len() implies #[trigger] all[i] < #[trigger] all[j] by {
            assert(all[i] == before[i]);
            if j < before.len() {
                assert(all[j] == before[j]);
            }
        }
    }
}

} // verus!
