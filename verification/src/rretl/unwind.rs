//! Unwinding a run: `revert` restores the recorded source of an unedited
//! column; `putback` inverts an edited column row by row, checking that each
//! edit can be carried back.
//!
//! Runs on a column unwind strictly last in, first out, and residuals must
//! hash to what the apply wrote before one of them is trusted.

use vstd::prelude::*;
use vstd::string::StringExecFns;
use crate::bytes::same_bytes;
use crate::error::{fault_text, Error, Fault, Result};
use crate::hash::{blake3_digest, framed_all, CanonChain};
use crate::rretl::apply::{law_verified_or_collision, stream_hash, ApplyRun};
use crate::rretl::books::RretlReport;
use crate::text::{dec_int, hex, push_dec_int, quoted_in};
use crate::utf8::same_text;
use crate::value::{push_value_debug, value_debug, Value, ValueModel};

verus! {

/// The two ways to unwind a run.
#[derive(Debug, Clone, Copy, PartialEq, Eq, Structural)]
pub enum Verb {
    Revert,
    Putback,
}

/// What the lineage holds of a run.
#[derive(Debug)]
pub struct RunFacts {
    pub pair: String,
    pub table: String,
    pub column: String,
    pub source_hash: String,
    pub output_hash: String,
    pub outcome: String,
    pub residual_hash: String,
}

fn run_text(a: &str, run_id: i64, b: &str) -> (m: String)
    ensures
        m@ == a@ + dec_int(run_id as int) + b@,
{
    let mut m = String::from_str(a);
    push_dec_int(&mut m, run_id);
    m.append(b);
    m
}

/// Whether a run may be unwound at all, by its lineage row alone; `None` when
/// nothing speaks against it.
pub open spec fn lineage_objection(run_id: int, verb: Verb, exists: bool, row: Option<RunFacts>) -> Option<Fault> {
    if !exists {
        Some(Fault::Unsupported("no rretl lineage in this database"@))
    } else {
        match row {
            None => Some(
                Fault::Unsupported(
                    "no rretl run "@ + dec_int(run_id)
                        + " in the lineage — without its lineage row the residuals are uninterpretable, and guessing is refused"@,
                ),
            ),
            Some(f) => if f.outcome@ == "applied"@ {
                None
            } else if verb == Verb::Revert && f.outcome@ == "reverted"@ {
                Some(Fault::Unsupported("rretl run "@ + dec_int(run_id) + " is already reverted"@))
            } else {
                Some(
                    Fault::Unsupported(
                        "rretl run "@ + dec_int(run_id) + " has outcome `"@ + f.outcome@ + (match verb {
                            Verb::Revert => "`; only an applied run can be reverted"@,
                            Verb::Putback => "`; only an applied run can be putback-inverted"@,
                        }),
                    ),
                )
            },
        }
    }
}

/// The facts of a run that may be unwound.
pub fn open_run(run_id: i64, verb: Verb, exists: bool, row: Option<RunFacts>) -> (r: Result<RunFacts>)
    ensures
        match r {
            Ok(f) => lineage_objection(run_id as int, verb, exists, row) is None && row == Some(f),
            Err(e) => lineage_objection(run_id as int, verb, exists, row) == Some(e@),
        },
{
    if !exists {
        return Err(Error::Unsupported(String::from_str("no rretl lineage in this database")));
    }
    match row {
        None => Err(
            Error::Unsupported(
                run_text(
                    "no rretl run ",
                    run_id,
                    " in the lineage — without its lineage row the residuals are uninterpretable, and guessing is refused",
                ),
            ),
        ),
        Some(f) => {
            if same_text(f.outcome.as_str(), "applied") {
                return Ok(f);
            }
            if verb == Verb::Revert && same_text(f.outcome.as_str(), "reverted") {
                return Err(Error::Unsupported(run_text("rretl run ", run_id, " is already reverted")));
            }
            let mut m = run_text("rretl run ", run_id, " has outcome `");
            m.append(f.outcome.as_str());
            match verb {
                Verb::Revert => m.append("`; only an applied run can be reverted"),
                Verb::Putback => m.append("`; only an applied run can be putback-inverted"),
            }
            Err(Error::Unsupported(m))
        },
    }
}

/// Only the topmost standing run of a column may be unwound.
pub open spec fn lifo_objection(run_id: int, table: Seq<char>, column: Seq<char>, top: Option<i64>) -> Option<Fault> {
    match top {
        Some(t) => if t == run_id {
            None
        } else {
            Some(
                Fault::Unsupported(
                    "rretl run "@ + dec_int(run_id) + " is buried under run "@ + dec_int(t as int) + " on `"@ + table + "."@
                        + column + "` — runs unwind LIFO; revert or putback run "@ + dec_int(t as int) + " first"@,
                ),
            )
        },
        None => Some(
            Fault::Corrupt(
                "rretl run "@ + dec_int(run_id) + " claims outcome 'applied' but no applied run tops `"@ + table + "."@
                    + column + "`"@,
            ),
        ),
    }
}

/// Only the topmost standing run of a column may be unwound; `top` is its
/// number.
pub fn lifo_gate(run_id: i64, table: &str, column: &str, top: Option<i64>) -> (r: Result<()>)
    ensures
        match r {
            Ok(()) => lifo_objection(run_id as int, table@, column@, top) is None,
            Err(e) => lifo_objection(run_id as int, table@, column@, top) == Some(e@),
        },
{
    match top {
        Some(t) => {
            if t == run_id {
                return Ok(());
            }
            let mut m = run_text("rretl run ", run_id, " is buried under run ");
            push_dec_int(&mut m, t);
            m.append(" on `");
            m.append(table);
            m.append(".");
            m.append(column);
            m.append("` — runs unwind LIFO; revert or putback run ");
            push_dec_int(&mut m, t);
            m.append(" first");
            Err(Error::Unsupported(m))
        },
        None => {
            let mut m = run_text("rretl run ", run_id, " claims outcome 'applied' but no applied run tops `");
            m.append(table);
            m.append(".");
            m.append(column);
            m.append("`");
            Err(Error::Corrupt(m))
        },
    }
}

/// The word for what is being done.
pub open spec fn verb_text(verb: Verb) -> Seq<char> {
    match verb {
        Verb::Revert => "reverting"@,
        Verb::Putback => "putback"@,
    }
}

/// The residuals must hash to what the apply wrote.
pub fn residual_gate(run_id: i64, got: &str, want: &str, verb: Verb) -> (r: Result<()>)
    ensures
        match r {
            Ok(()) => got@ == want@,
            Err(e) => got@ != want@ && e@ == Fault::Corrupt(
                "run "@ + dec_int(run_id as int)
                    + "'s residuals no longer hash to what the apply wrote — tampered or deleted at rest; "@ + verb_text(verb)
                    + " would fabricate data, refused"@,
            ),
        },
{
    if same_text(got, want) {
        return Ok(());
    }
    let mut m = run_text(
        "run ",
        run_id,
        "'s residuals no longer hash to what the apply wrote — tampered or deleted at rest; ",
    );
    match verb {
        Verb::Revert => m.append("reverting"),
        Verb::Putback => m.append("putback"),
    }
    m.append(" would fabricate data, refused");
    Err(Error::Corrupt(m))
}

/// A column that changed since the run is not reverted.
pub fn output_gate(run_id: i64, table: &str, column: &str, got: &str, want: &str) -> (r: Result<()>)
    ensures
        match r {
            Ok(()) => got@ == want@,
            Err(e) => got@ != want@ && e@ == Fault::Unsupported(
                "`"@ + table@ + "."@ + column@ + "` changed outside the pipeline since run "@ + dec_int(run_id as int)
                    + " — its hash no longer matches the run's output; reverting would corrupt, so it is refused"@,
            ),
        },
{
    if same_text(got, want) {
        return Ok(());
    }
    let mut m = quoted_in("`", table, ".");
    m.append(column);
    m.append("` changed outside the pipeline since run ");
    push_dec_int(&mut m, run_id);
    m.append(" — its hash no longer matches the run's output; reverting would corrupt, so it is refused");
    Err(Error::Unsupported(m))
}

/// The error for a row whose residual row is absent; a residual that is NULL
/// is present.
pub fn revert_residual(run_id: i64, pk: &Value) -> (e: Error)
    ensures
        e@ == Fault::Corrupt(
            "residual row missing for run "@ + dec_int(run_id as int) + ", pk "@ + value_debug(pk.model())
                + " — what was lost is gone, and reverting without it would fabricate data"@,
        ),
{
    let mut m = run_text("residual row missing for run ", run_id, ", pk ");
    push_value_debug(&mut m, pk);
    m.append(" — what was lost is gone, and reverting without it would fabricate data");
    Error::Corrupt(m)
}

// ---------------------------------------------------------- putback rows

/// The error for a row that was inserted after the apply.
pub fn putback_residual(run_id: i64, table: &str, column: &str, pk: &Value) -> (e: Error)
    ensures
        e@ == Fault::Unsupported(
            "row "@ + value_debug(pk.model()) + " of `"@ + table@ + "."@ + column@ + "` has no residual in run "@
                + dec_int(run_id as int)
                + " — it was inserted after the apply, and inverting it without a residual would fabricate what was never lost; delete the row or revert it by hand, then retry"@,
        ),
{
    let mut m = String::from_str("row ");
    push_value_debug(&mut m, pk);
    m.append(" of `");
    m.append(table);
    m.append(".");
    m.append(column);
    m.append("` has no residual in run ");
    push_dec_int(&mut m, run_id);
    m.append(
        " — it was inserted after the apply, and inverting it without a residual would fabricate what was never lost; delete the row or revert it by hand, then retry",
    );
    Error::Unsupported(m)
}

/// The error for an edited value that the inverse refuses.
pub fn putback_inverse(pk: &Value, y: &Value, e: &Error) -> (r: Error)
    ensures
        r@ == Fault::Unsupported(
            "putback: inverse refuses row "@ + value_debug(pk.model()) + " (edited value "@ + value_debug(y.model()) + ": "@
                + fault_text(e@) + "); the run is aborted"@,
        ),
{
    let mut m = String::from_str("putback: inverse refuses row ");
    push_value_debug(&mut m, pk);
    m.append(" (edited value ");
    push_value_debug(&mut m, y);
    m.append(": ");
    let t = e.message();
    m.append(t.as_str());
    m.append("); the run is aborted");
    Error::Unsupported(m)
}

/// The fault for a check that could not run.
pub open spec fn putres_fault(pk: ValueModel, y: ValueModel, f: Fault) -> Fault {
    Fault::Unsupported(
        "putback verification could not run on row "@ + value_debug(pk) + " (edited value "@ + value_debug(y) + "): "@
            + fault_text(f) + "; rolled back"@,
    )
}

fn putres_err(pk: &Value, y: &Value, e: &Error) -> (r: Error)
    ensures
        r@ == putres_fault(pk.model(), y.model(), e@),
{
    let mut m = String::from_str("putback verification could not run on row ");
    push_value_debug(&mut m, pk);
    m.append(" (edited value ");
    push_value_debug(&mut m, y);
    m.append("): ");
    let t = e.message();
    m.append(t.as_str());
    m.append("; rolled back");
    Error::Unsupported(m)
}

/// A value with its canonical bytes.
pub struct Cell {
    pub value: Value,
    pub bits: Vec<u8>,
}

/// What the forward check of an edited row answers.
pub open spec fn forward_verdict(
    pk: ValueModel,
    y: ValueModel,
    y_bits: Seq<u8>,
    with_residual: bool,
    fwd: std::result::Result<Cell, Error>,
) -> Option<Fault> {
    match fwd {
        Err(e) => Some(putres_fault(pk, y, e@)),
        Ok(c) => if c.bits@ == y_bits {
            None
        } else if with_residual {
            Some(
                Fault::Unsupported(
                    "putback verification FAILED on row "@ + value_debug(pk) + ": the edit "@ + value_debug(y)
                        + " is outside the pair's image — forward(inverse("@ + value_debug(y) + ", r)) = "@ + value_debug(
                        c.value.model(),
                    ) + ", not "@ + value_debug(y) + "; the pair cannot carry this edit back, rolled back"@,
                ),
            )
        } else {
            Some(
                Fault::Unsupported(
                    "putback verification FAILED on row "@ + value_debug(pk) + ": forward(inverse("@ + value_debug(y)
                        + ")) = "@ + value_debug(c.value.model()) + ", not "@ + value_debug(y) + "; rolled back"@,
                ),
            )
        },
    }
}

/// The first half of the check on an edited row: the forward function must
/// give the edited value again.
pub fn putback_forward(pk: &Value, y: &Cell, with_residual: bool, fwd: Result<Cell>) -> (r: Result<()>)
    ensures
        match r {
            Ok(()) => forward_verdict(pk.model(), y.value.model(), y.bits@, with_residual, fwd) is None,
            Err(e) => forward_verdict(pk.model(), y.value.model(), y.bits@, with_residual, fwd) == Some(e@),
        },
{
    match fwd {
        Err(e) => Err(putres_err(pk, &y.value, &e)),
        Ok(c) => {
            if same_bytes(c.bits.as_slice(), y.bits.as_slice()) {
                return Ok(());
            }
            let mut m = String::from_str("putback verification FAILED on row ");
            push_value_debug(&mut m, pk);
            if with_residual {
                m.append(": the edit ");
                push_value_debug(&mut m, &y.value);
                m.append(" is outside the pair's image — forward(inverse(");
                push_value_debug(&mut m, &y.value);
                m.append(", r)) = ");
                push_value_debug(&mut m, &c.value);
                m.append(", not ");
                push_value_debug(&mut m, &y.value);
                m.append("; the pair cannot carry this edit back, rolled back");
            } else {
                m.append(": forward(inverse(");
                push_value_debug(&mut m, &y.value);
                m.append(")) = ");
                push_value_debug(&mut m, &c.value);
                m.append(", not ");
                push_value_debug(&mut m, &y.value);
                m.append("; rolled back");
            }
            Err(Error::Unsupported(m))
        },
    }
}

/// What the residual check of an edited row answers.
pub open spec fn rex_verdict(
    pk: ValueModel,
    y: ValueModel,
    r: Cell,
    rx: std::result::Result<Cell, Error>,
) -> Option<Fault> {
    match rx {
        Err(e) => Some(putres_fault(pk, y, e@)),
        Ok(c) => if c.bits@ == r.bits@ {
            None
        } else {
            Some(
                Fault::Unsupported(
                    "putback verification FAILED on row "@ + value_debug(pk) + ": the residual does not survive the edit "@
                        + value_debug(y) + " — rex(x') = "@ + value_debug(c.value.model()) + " but the stored residual is "@
                        + value_debug(r.value.model()) + "; rolled back"@,
                ),
            )
        },
    }
}

/// The second half of the check on an edited row: the residual extracted again
/// must be the stored one.
pub fn putback_rex(pk: &Value, y: &Value, r: &Cell, rx: Result<Cell>) -> (res: Result<()>)
    ensures
        match res {
            Ok(()) => rex_verdict(pk.model(), y.model(), *r, rx) is None,
            Err(e) => rex_verdict(pk.model(), y.model(), *r, rx) == Some(e@),
        },
{
    match rx {
        Err(e) => Err(putres_err(pk, y, &e)),
        Ok(c) => {
            if same_bytes(c.bits.as_slice(), r.bits.as_slice()) {
                return Ok(());
            }
            let mut m = String::from_str("putback verification FAILED on row ");
            push_value_debug(&mut m, pk);
            m.append(": the residual does not survive the edit ");
            push_value_debug(&mut m, y);
            m.append(" — rex(x') = ");
            push_value_debug(&mut m, &c.value);
            m.append(" but the stored residual is ");
            push_value_debug(&mut m, &r.value);
            m.append("; rolled back");
            Err(Error::Unsupported(m))
        },
    }
}

// --------------------------------------------------------- the whole unwind

/// How far an unwinding has come.
#[derive(Debug, Clone, Copy, PartialEq, Eq, Structural)]
pub enum Stage {
    /// Waiting for the number of the topmost standing run.
    Top,
    /// Waiting for the hash of the stored residuals.
    Residuals,
    /// Revert only: waiting for the hash of the column.
    Column,
    /// Rows are inverted and written.
    Rows,
}

/// An unwinding in progress.
pub struct Unwind {
    run_id: i64,
    verb: Verb,
    facts: RunFacts,
    has_rex: bool,
    stage: Stage,
    back: CanonChain,
    rows: u64,
    evidence: Ghost<(Option<i64>, Seq<char>, Seq<char>)>,
    puts: Ghost<Seq<RowPut>>,
}

/// What was found of one row that was put back, by canonical bytes.
pub struct RowPut {
    /// The edited value.
    pub y: Seq<u8>,
    /// The stored residual.
    pub residual: Option<Seq<u8>>,
    /// The value that is written.
    pub x: Seq<u8>,
    /// What the forward function makes of it.
    pub forward: Seq<u8>,
    /// What the residual function makes of it.
    pub rex: Option<Seq<u8>>,
}

/// A row may be put back: the forward function gives the edit again, and with
/// a residual function there is a residual and it is extracted again.
pub open spec fn put_holds(p: RowPut, has_rex: bool) -> bool {
    &&& p.forward == p.y
    &&& has_rex ==> p.residual is Some && p.rex == p.residual
}

pub open spec fn cell_bits(c: Option<Cell>) -> Option<Seq<u8>> {
    match c {
        Some(c) => Some(c.bits@),
        None => None,
    }
}

/// What is found of a row that passes.
pub open spec fn row_put(y: Cell, residual: Option<Cell>, x: Cell, fwd: std::result::Result<Cell, Error>, rx: Option<std::result::Result<Cell, Error>>) -> RowPut {
    RowPut {
        y: y.bits@,
        residual: cell_bits(residual),
        x: x.bits@,
        forward: fwd->Ok_0.bits@,
        rex: match rx {
            Some(Ok(c)) => Some(c.bits@),
            _ => None,
        },
    }
}

/// The fault of a row without a residual where there must be one.
pub open spec fn missing_residual_fault(run_id: int, verb: Verb, table: Seq<char>, column: Seq<char>, pk: ValueModel) -> Fault {
    match verb {
        Verb::Revert => Fault::Corrupt(
            "residual row missing for run "@ + dec_int(run_id) + ", pk "@ + value_debug(pk)
                + " — what was lost is gone, and reverting without it would fabricate data"@,
        ),
        Verb::Putback => Fault::Unsupported(
            "row "@ + value_debug(pk) + " of `"@ + table + "."@ + column + "` has no residual in run "@ + dec_int(run_id)
                + " — it was inserted after the apply, and inverting it without a residual would fabricate what was never lost; delete the row or revert it by hand, then retry"@,
        ),
    }
}

/// Why a row cannot be put back.
pub open spec fn putback_fault(
    run_id: int,
    table: Seq<char>,
    column: Seq<char>,
    has_rex: bool,
    pk: ValueModel,
    y: Cell,
    residual: Option<Cell>,
    fwd: std::result::Result<Cell, Error>,
    rx: Option<std::result::Result<Cell, Error>>,
) -> Option<Fault> {
    if has_rex && residual is None {
        Some(missing_residual_fault(run_id, Verb::Putback, table, column, pk))
    } else {
        match forward_verdict(pk, y.value.model(), y.bits@, has_rex, fwd) {
            Some(f) => Some(f),
            None => if has_rex {
                rex_verdict(pk, y.value.model(), residual->Some_0, rx->Some_0)
            } else {
                None
            },
        }
    }
}

impl Unwind {
    pub closed spec fn id(&self) -> i64 {
        self.run_id
    }

    pub closed spec fn way(&self) -> Verb {
        self.verb
    }

    pub closed spec fn run(&self) -> RunFacts {
        self.facts
    }

    pub closed spec fn at(&self) -> Stage {
        self.stage
    }

    /// The inverted values so far.
    pub closed spec fn inverted(&self) -> Seq<Seq<u8>> {
        self.back.view()
    }

    pub closed spec fn row_count(&self) -> nat {
        self.rows as nat
    }

    /// The pair has a residual function.
    pub closed spec fn with_rex(&self) -> bool {
        self.has_rex
    }

    /// The rows that were put back so far.
    pub closed spec fn put_rows(&self) -> Seq<RowPut> {
        self.puts@
    }

    /// What was found so far: the topmost run, the residuals' hash, the
    /// column's hash.
    pub closed spec fn found(&self) -> (Option<i64>, Seq<char>, Seq<char>) {
        self.evidence@
    }

    /// Each stage is reached only past the gates before it, and every row that
    /// was put back passed its checks.
    pub closed spec fn wf(&self) -> bool {
        &&& self.back.wf()
        &&& self.rows == self.back.view().len()
        &&& self.puts@.len() == (if self.verb == Verb::Putback { self.rows as int } else { 0 })
        &&& forall|i: int| 0 <= i < self.puts@.len() ==> put_holds(#[trigger] self.puts@[i], self.has_rex) && self.puts@[i].x
            == self.back.view()[i]
        &&& self.facts.outcome@ == "applied"@
        &&& self.stage != Stage::Top ==> self.evidence@.0 == Some(self.run_id)
        &&& (self.stage == Stage::Column || self.stage == Stage::Rows) ==> self.evidence@.1 == self.facts.residual_hash@
        &&& self.stage == Stage::Column ==> self.verb == Verb::Revert
        &&& self.stage == Stage::Rows && self.verb == Verb::Revert ==> self.evidence@.2 == self.facts.output_hash@
        &&& self.stage != Stage::Rows ==> self.rows == 0 && self.back.view().len() == 0
    }

    /// Begin to unwind a run that may be unwound by its lineage row.
    pub fn begin(run_id: i64, verb: Verb, facts: RunFacts, has_rex: bool) -> (u: Unwind)
        requires
            facts.outcome@ == "applied"@,
        ensures
            u.wf(),
            u.id() == run_id,
            u.way() == verb,
            u.run() == facts,
            u.at() == Stage::Top,
            u.with_rex() == has_rex,
            u.row_count() == 0,
            u.put_rows().len() == 0,
            u.inverted().len() == 0,
    {
        Unwind {
            run_id,
            verb,
            facts,
            has_rex,
            stage: Stage::Top,
            back: CanonChain::new(),
            rows: 0,
            evidence: Ghost((None, Seq::empty(), Seq::empty())),
            puts: Ghost(Seq::empty()),
        }
    }

    /// Only the topmost run of a column is undone.
    pub fn on_top(&mut self, top: Option<i64>) -> (r: Result<()>)
        requires
            old(self).wf(),
            old(self).at() == Stage::Top,
        ensures
            final(self).wf(),
            final(self).id() == old(self).id() && final(self).way() == old(self).way() && final(self).run() == old(self).run(),
            final(self).row_count() == old(self).row_count() && final(self).with_rex() == old(self).with_rex(),
            final(self).put_rows() == old(self).put_rows(),
            final(self).inverted() == old(self).inverted(),
            match lifo_objection(old(self).id() as int, old(self).run().table@, old(self).run().column@, top) {
                Some(f) => r is Err && r->Err_0@ == f && final(self).at() == Stage::Top,
                None => r is Ok && final(self).at() == Stage::Residuals,
            },
    {
        match lifo_gate(self.run_id, self.facts.table.as_str(), self.facts.column.as_str(), top) {
            Err(e) => Err(e),
            Ok(()) => {
                self.stage = Stage::Residuals;
                proof {
                    self.evidence = Ghost((top, Seq::empty(), Seq::empty()));
                }
                Ok(())
            },
        }
    }

    /// The stored residuals are those of the run.
    pub fn on_residuals(&mut self, got: &str) -> (r: Result<()>)
        requires
            old(self).wf(),
            old(self).at() == Stage::Residuals,
        ensures
            final(self).wf(),
            final(self).id() == old(self).id() && final(self).way() == old(self).way() && final(self).run() == old(self).run(),
            final(self).row_count() == old(self).row_count() && final(self).with_rex() == old(self).with_rex(),
            final(self).put_rows() == old(self).put_rows(),
            final(self).inverted() == old(self).inverted(),
            got@ == old(self).run().residual_hash@ ==> r is Ok && final(self).at() == (if old(self).way() == Verb::Revert {
                Stage::Column
            } else {
                Stage::Rows
            }),
            got@ != old(self).run().residual_hash@ ==> r is Err && final(self).at() == Stage::Residuals && r->Err_0@ == Fault::Corrupt(
                "run "@ + dec_int(old(self).id() as int)
                    + "'s residuals no longer hash to what the apply wrote — tampered or deleted at rest; "@ + verb_text(
                    old(self).way(),
                ) + " would fabricate data, refused"@,
            ),
    {
        match residual_gate(self.run_id, got, self.facts.residual_hash.as_str(), self.verb) {
            Err(e) => Err(e),
            Ok(()) => {
                self.stage = match self.verb {
                    Verb::Revert => Stage::Column,
                    Verb::Putback => Stage::Rows,
                };
                proof {
                    self.evidence = Ghost((self.evidence@.0, got@, Seq::empty()));
                }
                Ok(())
            },
        }
    }

    /// A revert finds the column as the run left it.
    pub fn on_column(&mut self, got: &str) -> (r: Result<()>)
        requires
            old(self).wf(),
            old(self).at() == Stage::Column,
        ensures
            final(self).wf(),
            final(self).id() == old(self).id() && final(self).way() == old(self).way() && final(self).run() == old(self).run(),
            final(self).row_count() == old(self).row_count() && final(self).with_rex() == old(self).with_rex(),
            final(self).put_rows() == old(self).put_rows(),
            final(self).inverted() == old(self).inverted(),
            got@ == old(self).run().output_hash@ ==> r is Ok && final(self).at() == Stage::Rows,
            got@ != old(self).run().output_hash@ ==> r is Err && final(self).at() == Stage::Column && r->Err_0@ == Fault::Unsupported(
                "`"@ + old(self).run().table@ + "."@ + old(self).run().column@ + "` changed outside the pipeline since run "@
                    + dec_int(old(self).id() as int)
                    + " — its hash no longer matches the run's output; reverting would corrupt, so it is refused"@,
            ),
    {
        match output_gate(
            self.run_id,
            self.facts.table.as_str(),
            self.facts.column.as_str(),
            got,
            self.facts.output_hash.as_str(),
        ) {
            Err(e) => Err(e),
            Ok(()) => {
                self.stage = Stage::Rows;
                proof {
                    self.evidence = Ghost((self.evidence@.0, self.evidence@.1, got@));
                }
                Ok(())
            },
        }
    }

    /// The residual of a row, which must be there where the pair has a
    /// residual function.
    pub fn take_residual(&self, pk: &Value, found: Option<Cell>) -> (r: Result<Option<Cell>>)
        ensures
            match r {
                Ok(c) => (self.with_rex() ==> found is Some) && c == (if self.with_rex() { found } else { None }),
                Err(e) => self.with_rex() && found is None && e@ == missing_residual_fault(
                    self.id() as int,
                    self.way(),
                    self.run().table@,
                    self.run().column@,
                    pk.model(),
                ),
            },
    {
        if !self.has_rex {
            return Ok(None);
        }
        match found {
            Some(c) => Ok(Some(c)),
            None => Err(
                match self.verb {
                    Verb::Revert => revert_residual(self.run_id, pk),
                    Verb::Putback => putback_residual(self.run_id, self.facts.table.as_str(), self.facts.column.as_str(), pk),
                },
            ),
        }
    }

    /// Take one row of a revert, by the canonical bytes of its inverted value.
    pub fn note_row(&mut self, x: &[u8])
        requires
            old(self).wf(),
            old(self).at() == Stage::Rows,
            old(self).way() == Verb::Revert,
            old(self).row_count() < u64::MAX,
        ensures
            final(self).wf(),
            final(self).id() == old(self).id() && final(self).way() == old(self).way() && final(self).run() == old(self).run(),
            final(self).at() == Stage::Rows,
            final(self).found() == old(self).found(),
            final(self).with_rex() == old(self).with_rex(),
            final(self).put_rows() == old(self).put_rows(),
            final(self).inverted() == old(self).inverted().push(x@),
            final(self).row_count() == old(self).row_count() + 1,
    {
        self.back.push(x);
        self.rows = self.rows + 1;
    }

    /// Take one row of a putback: the edited value, the stored residual, the
    /// value that the inverse gave, and what the forward function and the
    /// residual function make of that. Only a row that passes every check is
    /// taken.
    pub fn putback_row(
        &mut self,
        pk: &Value,
        y: &Cell,
        residual: Option<Cell>,
        x: &Cell,
        fwd: Result<Cell>,
        rx: Option<Result<Cell>>,
    ) -> (r: Result<()>)
        requires
            old(self).wf(),
            old(self).at() == Stage::Rows,
            old(self).way() == Verb::Putback,
            old(self).row_count() < u64::MAX,
            old(self).with_rex() && residual is Some ==> rx is Some,
        ensures
            final(self).wf(),
            final(self).id() == old(self).id() && final(self).way() == old(self).way() && final(self).run() == old(self).run(),
            final(self).at() == Stage::Rows,
            final(self).found() == old(self).found(),
            final(self).with_rex() == old(self).with_rex(),
            match putback_fault(
                old(self).id() as int,
                old(self).run().table@,
                old(self).run().column@,
                old(self).with_rex(),
                pk.model(),
                *y,
                residual,
                fwd,
                rx,
            ) {
                Some(f) => r is Err && r->Err_0@ == f && *final(self) == *old(self),
                None => {
                    &&& r is Ok
                    &&& final(self).inverted() == old(self).inverted().push(x.bits@)
                    &&& final(self).put_rows() == old(self).put_rows().push(row_put(*y, residual, *x, fwd, rx))
                    &&& final(self).row_count() == old(self).row_count() + 1
                },
            },
    {
        let ghost put = row_put(*y, residual, *x, fwd, rx);
        let has_rex = self.has_rex;
        if has_rex && residual.is_none() {
            return Err(putback_residual(self.run_id, self.facts.table.as_str(), self.facts.column.as_str(), pk));
        }
        if let Err(e) = putback_forward(pk, y, has_rex, fwd) {
            return Err(e);
        }
        if has_rex {
            if let (Some(stored), Some(again)) = (residual, rx) {
                if let Err(e) = putback_rex(pk, &y.value, &stored, again) {
                    return Err(e);
                }
            }
        }
        let ghost before = *self;
        self.back.push(x.bits.as_slice());
        self.rows = self.rows + 1;
        proof {
            let more = before.puts@.push(put);
            self.puts = Ghost(more);
            assert forall|i: int| 0 <= i < more.len() implies put_holds(#[trigger] more[i], has_rex) && more[i].x == self.back.view()[i] by {
                if i < before.puts@.len() {
                    assert(more[i] == before.puts@[i]);
                }
            }
        }
        Ok(())
    }

    /// End the unwinding. A revert must reproduce the recorded source; the
    /// lineage row then gets the outcome that is answered, and the run's
    /// residuals are deleted.
    pub fn finish(self) -> (r: Result<(RretlReport, &'static str)>)
        requires
            self.wf(),
            self.at() == Stage::Rows,
        ensures
            match (finished(self), r) {
                (Ok(end), Ok((report, outcome))) => {
                    &&& report.run_id == self.id()
                    &&& report.rows == end.rows
                    &&& report.residuals == end.residuals
                    &&& outcome@ == end.outcome
                },
                (Err(f), Err(e)) => e@ == f,
                _ => false,
            },
            self.way() == Verb::Putback ==> {
                &&& r is Ok
                &&& self.put_rows().len() == r->Ok_0.0.rows
                &&& forall|i: int| 0 <= i < self.put_rows().len() ==> put_holds(#[trigger] self.put_rows()[i], self.with_rex())
            },
    {
        let Unwind { run_id, verb, facts, has_rex, stage, back, rows, evidence, puts } = self;
        match verb {
            Verb::Revert => {
                let got = back.hex();
                if !same_text(got.as_str(), facts.source_hash.as_str()) {
                    return Err(
                        Error::Corrupt(
                            run_text(
                                "revert verification FAILED for run ",
                                run_id,
                                ": the inverted stream does not match the recorded source hash; rolled back",
                            ),
                        ),
                    );
                }
                Ok((RretlReport { run_id, rows, residuals: 0 }, "reverted"))
            },
            Verb::Putback => {
                let residuals: u64 = if has_rex {
                    rows
                } else {
                    0
                };
                Ok((RretlReport { run_id, rows, residuals }, "putback"))
            },
        }
    }
}

/// How an unwinding ended well.
pub struct Unwound {
    pub rows: nat,
    pub residuals: nat,
    pub outcome: Seq<char>,
}

/// How an unwinding ends once all rows were taken.
pub open spec fn finished(u: Unwind) -> std::result::Result<Unwound, Fault> {
    match u.way() {
        Verb::Revert => if stream_hash(u.inverted()) == u.run().source_hash@ {
            Ok(Unwound { rows: u.row_count(), residuals: 0, outcome: "reverted"@ })
        } else {
            Err(
                Fault::Corrupt(
                    "revert verification FAILED for run "@ + dec_int(u.id() as int)
                        + ": the inverted stream does not match the recorded source hash; rolled back"@,
                ),
            )
        },
        Verb::Putback => Ok(
            Unwound { rows: u.row_count(), residuals: if u.with_rex() { u.row_count() } else { 0 }, outcome: "putback"@ },
        ),
    }
}

/// A putback keeps every edit: each value that it writes gives the edited
/// value again under the forward function and, for a pair with residuals, the
/// stored residual under the residual function. A pair with residuals uses up
/// one for every row, another pair none.
pub proof fn law_putback_keeps_edits(
    u: Unwind,
    forward: spec_fn(Seq<u8>) -> Seq<u8>,
    rex: spec_fn(Seq<u8>) -> Seq<u8>,
)
    requires
        u.wf(),
        u.way() == Verb::Putback,
        forall|i: int| 0 <= i < u.put_rows().len() ==> (#[trigger] u.put_rows()[i]).forward == forward(u.put_rows()[i].x),
        forall|i: int| 0 <= i < u.put_rows().len() && u.with_rex() ==> (#[trigger] u.put_rows()[i]).rex == Some(rex(u.put_rows()[i].x)),
    ensures
        u.put_rows().len() == u.row_count(),
        u.inverted().len() == u.row_count(),
        forall|i: int| 0 <= i < u.put_rows().len() ==> {
            let p = #[trigger] u.put_rows()[i];
            &&& p.x == u.inverted()[i]
            &&& forward(u.inverted()[i]) == p.y
            &&& u.with_rex() ==> p.residual == Some(rex(u.inverted()[i]))
        },
        finished(u) is Ok,
        finished(u)->Ok_0.residuals == (if u.with_rex() { finished(u)->Ok_0.rows } else { 0 }),
{
}

/// Reverting an untouched run succeeds: where nothing changed since the apply,
/// the inverse gives the stream that the apply verified, so that every gate
/// passes and the outcome is `reverted`. The values given back are the source
/// values, as many as the apply reported, or the two streams are a collision
/// of the hash function. A second revert is refused.
pub proof fn law_revert_undoes_apply(a: ApplyRun, u: Unwind, again: RunFacts)
    requires
        a.wf(),
        // the apply passed its verification
        stream_hash(a.inverted()) == stream_hash(a.sources()),
        u.wf(),
        u.way() == Verb::Revert,
        u.id() == a.id(),
        u.run().source_hash@ == stream_hash(a.sources()),
        u.inverted() == a.inverted(),
        again.outcome@ == "reverted"@,
        forall|i: int| 0 <= i < a.sources().len() ==> (#[trigger] a.sources()[i]).len() <= u64::MAX,
        forall|i: int| 0 <= i < a.inverted().len() ==> (#[trigger] a.inverted()[i]).len() <= u64::MAX,
    ensures
        lifo_objection(u.id() as int, u.run().table@, u.run().column@, Some(a.id())) is None,
        finished(u) == Ok::<Unwound, Fault>(Unwound { rows: u.row_count(), residuals: 0, outcome: "reverted"@ }),
        (u.inverted() == a.sources() && u.row_count() == a.row_count()) || (framed_all(a.inverted()) != framed_all(a.sources())
            && blake3_digest(framed_all(a.inverted())) == blake3_digest(framed_all(a.sources()))),
        lineage_objection(u.id() as int, Verb::Revert, true, Some(again)) is Some,
{
    law_verified_or_collision(a.sources(), a.inverted());
    a.lemma_rows();
    reveal_strlit("applied");
    reveal_strlit("reverted");
    assert("applied"@.len() != "reverted"@.len());
}

/// No row is written before every gate was passed: the run stands on top of
/// its column, its residuals hash to what was recorded, and for a revert so
/// does the column.
pub proof fn law_unwind_gated(u: Unwind)
    requires
        u.wf(),
        u.row_count() > 0,
    ensures
        u.run().outcome@ == "applied"@,
        u.found().0 == Some(u.id()),
        u.found().1 == u.run().residual_hash@,
        u.way() == Verb::Revert ==> u.found().2 == u.run().output_hash@,
{
}

/// Only a run that stands is unwound: one that the lineage records as applied.
/// Nothing else is, neither a second time nor one that is not recorded.
pub proof fn law_only_a_standing_run_unwinds(run_id: int, verb: Verb, exists: bool, row: Option<RunFacts>)
    ensures
        lineage_objection(run_id, verb, exists, row) is None <==> exists && row is Some && row->Some_0.outcome@ == "applied"@,
{
}

/// Runs on a column unwind in reverse order: only the newest that stands may.
pub proof fn law_runs_unwind_newest_first(run_id: int, table: Seq<char>, column: Seq<char>, top: Option<i64>)
    ensures
        lifo_objection(run_id, table, column, top) is None <==> top is Some && top->Some_0 == run_id,
{
}

/// An edit is put back exactly where nothing is made up: the row has a residual
/// where the run kept any, what is put gives the edit again, and gives its
/// residual again.
pub proof fn law_edit_is_put_back_only_if_it_holds(
    run_id: int,
    table: Seq<char>,
    column: Seq<char>,
    has_rex: bool,
    pk: ValueModel,
    y: Cell,
    residual: Option<Cell>,
    fwd: std::result::Result<Cell, Error>,
    rx: Option<std::result::Result<Cell, Error>>,
)
    requires
        has_rex && residual is Some ==> rx is Some,
    ensures
        putback_fault(run_id, table, column, has_rex, pk, y, residual, fwd, rx) is None <==> {
            &&& fwd is Ok && fwd->Ok_0.bits@ == y.bits@
            &&& has_rex ==> residual is Some && rx->Some_0 is Ok && rx->Some_0->Ok_0.bits@ == residual->Some_0.bits@
        },
{
}

/// A revert ends well exactly where the values given back hash to what the
/// apply read.
pub proof fn law_revert_is_verified(u: Unwind)
    requires
        u.way() == Verb::Revert,
    ensures
        finished(u) is Ok <==> u.run().source_hash@ == hex(blake3_digest(framed_all(u.inverted()))),
        finished(u) matches Ok(end) ==> end.rows == u.row_count() && end.residuals == 0 && end.outcome == "reverted"@,
{
}

} // verus!
