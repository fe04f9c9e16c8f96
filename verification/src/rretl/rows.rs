//! Reading bookkeeping rows.

use vstd::prelude::*;
use crate::error::{Error, Fault, Result};
use crate::shard::ExecResult;
use crate::text::{debug_str, dec, numbered, quoted_in, str_debug};
use crate::rretl::books::{as_int, as_text, RretlLogRow};
use crate::value::{value_debug, Value, ValueModel};

verus! {

/// The integer in a cell.
pub open spec fn int_cell(v: ValueModel) -> std::result::Result<int, Fault> {
    match v {
        ValueModel::Int(i) => Ok(i),
        other => Err(Fault::Corrupt("lineage: expected int, got "@ + value_debug(other))),
    }
}

/// The text in a cell.
pub open spec fn text_cell(v: ValueModel) -> Seq<char> {
    match v {
        ValueModel::Text(t) => t,
        other => value_debug(other),
    }
}

/// The rows of a result.
pub fn rows_of(r: ExecResult) -> (res: Result<Vec<Vec<Value>>>)
    ensures
        match r {
            ExecResult::Rows { columns: _, rows } => res == Ok::<Vec<Vec<Value>>, Error>(rows),
            ExecResult::Affected(n) => res is Err && res->Err_0@ == Fault::Unsupported(
                "expected rows, got Affected("@ + dec(n as nat) + ")"@,
            ),
            ExecResult::Explain(t) => res is Err && res->Err_0@ == Fault::Unsupported(
                "expected rows, got Explain("@ + str_debug(t@) + ")"@,
            ),
        },
{
    match r {
        ExecResult::Rows { columns: _, rows } => Ok(rows),
        ExecResult::Affected(n) => Err(Error::Unsupported(numbered("expected rows, got Affected(", n as u128, ")"))),
        ExecResult::Explain(t) => {
            let d = debug_str(t.as_str());
            Err(Error::Unsupported(quoted_in("expected rows, got Explain(", d.as_str(), ")")))
        },
    }
}

/// The view of a [`RretlLogRow`].
pub struct LogModel {
    pub run_id: int,
    pub lens: Seq<char>,
    pub table: Seq<char>,
    pub column: Seq<char>,
    pub rows: int,
    pub outcome: Seq<char>,
    pub error: Seq<char>,
}

impl View for RretlLogRow {
    type V = LogModel;

    open spec fn view(&self) -> LogModel {
        LogModel {
            run_id: self.run_id as int,
            lens: self.lens@,
            table: self.table@,
            column: self.column@,
            rows: self.rows as int,
            outcome: self.outcome@,
            error: self.error@,
        }
    }
}

/// A lineage row as the log shows it.
pub open spec fn log_of(r: Seq<Value>) -> std::result::Result<LogModel, Fault> {
    match (int_cell(r[0].model()), int_cell(r[4].model())) {
        (Err(f), _) => Err(f),
        (Ok(_), Err(f)) => Err(f),
        (Ok(run_id), Ok(rows)) => Ok(
            LogModel {
                run_id,
                lens: text_cell(r[1].model()),
                table: text_cell(r[2].model()),
                column: text_cell(r[3].model()),
                rows,
                outcome: text_cell(r[5].model()),
                error: text_cell(r[6].model()),
            },
        ),
    }
}

/// The lineage rows from `i` on as the log shows them.
pub open spec fn logs_of(rows: Seq<Vec<Value>>, i: int) -> std::result::Result<Seq<LogModel>, Fault>
    decreases rows.len() - i,
{
    if i >= rows.len() {
        Ok(Seq::empty())
    } else {
        match log_of(rows[i]@) {
            Err(f) => Err(f),
            Ok(l) => match logs_of(rows, i + 1) {
                Err(f) => Err(f),
                Ok(rest) => Ok(seq![l] + rest),
            },
        }
    }
}

fn log_row(r: &Vec<Value>) -> (l: Result<RretlLogRow>)
    requires
        r@.len() >= 7,
    ensures
        match l {
            Ok(l) => log_of(r@) == Ok::<LogModel, Fault>(l@),
            Err(e) => log_of(r@) == Err::<LogModel, Fault>(e@),
        },
{
    let run_id: i64 = match as_int(&r[0]) {
        Ok(i) => i,
        Err(e) => {
            return Err(e);
        },
    };
    let rows: i64 = match as_int(&r[4]) {
        Ok(i) => i,
        Err(e) => {
            return Err(e);
        },
    };
    Ok(
        RretlLogRow {
            run_id,
            lens: as_text(&r[1]),
            table: as_text(&r[2]),
            column: as_text(&r[3]),
            rows,
            outcome: as_text(&r[5]),
            error: as_text(&r[6]),
        },
    )
}

/// Every lineage row as the log shows it: run, lens, table, column, rows,
/// outcome and error of each.
pub fn rretl_log(rows: &Vec<Vec<Value>>) -> (r: Result<Vec<RretlLogRow>>)
    requires
        forall|i: int| 0 <= i < rows@.len() ==> (#[trigger] rows@[i])@.len() >= 7,
    ensures
        match r {
            Ok(v) => logs_of(rows@, 0) == Ok::<Seq<LogModel>, Fault>(v@.map_values(|l: RretlLogRow| l@)),
            Err(e) => logs_of(rows@, 0) == Err::<Seq<LogModel>, Fault>(e@),
        },
{
    let mut out: Vec<RretlLogRow> = Vec::new();
    let ghost whole = logs_of(rows@, 0);
    let ghost mut done: Seq<LogModel> = Seq::empty();
    let mut i: usize = 0;
    proof {
        assert(out@.map_values(|l: RretlLogRow| l@) =~= done);
        assert forall|rest: Seq<LogModel>| #[trigger] (done + rest) == rest by {
            assert(done + rest =~= rest);
        }
    }
    while i < rows.len()
        invariant
            i <= rows@.len(),
            forall|j: int| 0 <= j < rows@.len() ==> (#[trigger] rows@[j])@.len() >= 7,
            whole == logs_of(rows@, 0),
            out@.map_values(|l: RretlLogRow| l@) == done,
            whole == (match logs_of(rows@, i as int) {
                Err(f) => Err::<Seq<LogModel>, Fault>(f),
                Ok(rest) => Ok(done + rest),
            }),
        decreases rows@.len() - i,
    {
        assert(rows@[i as int]@.len() >= 7);
        match log_row(&rows[i]) {
            Err(e) => {
                return Err(e);
            },
            Ok(l) => {
                let ghost prev = out@;
                out.push(l);
                proof {
                    let before = done;
                    done = done.push(l@);
                    assert(out@.map_values(|l: RretlLogRow| l@) =~= done);
                    if let Ok(rest) = logs_of(rows@, i + 1) {
                        assert(before + (seq![l@] + rest) =~= done + rest);
                    }
                }
            },
        }
        i += 1;
    }
    proof {
        assert(done + Seq::<LogModel>::empty() =~= done);
    }
    Ok(out)
}

/// Rows of a text and a number from `i` on.
pub open spec fn tallies_of(rows: Seq<Vec<Value>>, i: int) -> std::result::Result<Seq<(Seq<char>, int)>, Fault>
    decreases rows.len() - i,
{
    if i >= rows.len() {
        Ok(Seq::empty())
    } else {
        match int_cell(rows[i]@[1].model()) {
            Err(f) => Err(f),
            Ok(n) => match tallies_of(rows, i + 1) {
                Err(f) => Err(f),
                Ok(rest) => Ok(seq![(text_cell(rows[i]@[0].model()), n)] + rest),
            },
        }
    }
}

pub open spec fn tally_views(v: Seq<(String, i64)>) -> Seq<(Seq<char>, int)> {
    v.map_values(|e: (String, i64)| (e.0@, e.1 as int))
}

/// Rows of a text and a number: the journal's backlog per table, or the pass
/// that each table is in.
pub fn tally_rows(rows: &Vec<Vec<Value>>) -> (r: Result<Vec<(String, i64)>>)
    requires
        forall|i: int| 0 <= i < rows@.len() ==> (#[trigger] rows@[i])@.len() >= 2,
    ensures
        match r {
            Ok(v) => tallies_of(rows@, 0) == Ok::<Seq<(Seq<char>, int)>, Fault>(tally_views(v@)),
            Err(e) => tallies_of(rows@, 0) == Err::<Seq<(Seq<char>, int)>, Fault>(e@),
        },
{
    let mut out: Vec<(String, i64)> = Vec::new();
    let ghost whole = tallies_of(rows@, 0);
    let ghost mut done: Seq<(Seq<char>, int)> = Seq::empty();
    let mut i: usize = 0;
    proof {
        assert(tally_views(out@) =~= done);
        assert forall|rest: Seq<(Seq<char>, int)>| #[trigger] (done + rest) == rest by {
            assert(done + rest =~= rest);
        }
    }
    while i < rows.len()
        invariant
            i <= rows@.len(),
            forall|j: int| 0 <= j < rows@.len() ==> (#[trigger] rows@[j])@.len() >= 2,
            whole == tallies_of(rows@, 0),
            tally_views(out@) == done,
            whole == (match tallies_of(rows@, i as int) {
                Err(f) => Err::<Seq<(Seq<char>, int)>, Fault>(f),
                Ok(rest) => Ok(done + rest),
            }),
        decreases rows@.len() - i,
    {
        assert(rows@[i as int]@.len() >= 2);
        let n: i64 = match as_int(&rows[i][1]) {
            Ok(n) => n,
            Err(e) => {
                return Err(e);
            },
        };
        let t = as_text(&rows[i][0]);
        let ghost one = (t@, n as int);
        out.push((t, n));
        proof {
            let before = done;
            done = done.push(one);
            assert(tally_views(out@) =~= done);
            if let Ok(rest) = tallies_of(rows@, i + 1) {
                assert(before + (seq![one] + rest) =~= done + rest);
            }
        }
        i += 1;
    }
    proof {
        assert(done + Seq::<(Seq<char>, int)>::empty() =~= done);
    }
    Ok(out)
}

/// A line of the log has everything from its own column: what the lineage holds
/// as a number or a text is told as that number or text.
pub proof fn law_log_line_is_its_row(r: Seq<Value>)
    requires
        r.len() >= 7,
    ensures
        log_of(r) is Ok <==> r[0].model() is Int && r[4].model() is Int,
        log_of(r) matches Ok(l) ==> {
            &&& r[0].model() == ValueModel::Int(l.run_id)
            &&& r[1].model() is Text ==> r[1].model() == ValueModel::Text(l.lens)
            &&& r[2].model() is Text ==> r[2].model() == ValueModel::Text(l.table)
            &&& r[3].model() is Text ==> r[3].model() == ValueModel::Text(l.column)
            &&& r[4].model() == ValueModel::Int(l.rows)
            &&& r[5].model() is Text ==> r[5].model() == ValueModel::Text(l.outcome)
            &&& r[6].model() is Text ==> r[6].model() == ValueModel::Text(l.error)
        },
{
}

/// The log has one line for each row, in the rows' order.
pub proof fn law_log_is_whole(rows: Seq<Vec<Value>>, from: int)
    requires
        0 <= from <= rows.len(),
    ensures
        logs_of(rows, from) matches Ok(ls) ==> ls.len() == rows.len() - from && forall|i: int|
            from <= i < rows.len() ==> log_of((#[trigger] rows[i])@) == Ok::<LogModel, Fault>(ls[i - from]),
        (forall|i: int| from <= i < rows.len() ==> log_of((#[trigger] rows[i])@) is Ok) ==> logs_of(rows, from) is Ok,
    decreases rows.len() - from,
{
    if from < rows.len() {
        law_log_is_whole(rows, from + 1);
        if let (Ok(l), Ok(rest)) = (log_of(rows[from]@), logs_of(rows, from + 1)) {
            let ls = seq![l] + rest;
            assert forall|i: int| from <= i < rows.len() implies log_of((#[trigger] rows[i])@) == Ok::<LogModel, Fault>(ls[i - from]) by {
                if i > from {
                    assert(ls[i - from] == rest[i - from - 1]);
                }
            }
        }
    }
}

/// A tally has one entry for each row, in the rows' order: its name and its
/// count.
pub proof fn law_tally_is_whole(rows: Seq<Vec<Value>>, from: int)
    requires
        0 <= from <= rows.len(),
    ensures
        tallies_of(rows, from) matches Ok(ts) ==> ts.len() == rows.len() - from && forall|i: int|
            from <= i < rows.len() ==> (#[trigger] rows[i])@[1].model() == ValueModel::Int(ts[i - from].1) && (rows[i]@[0].model() is Text
                ==> rows[i]@[0].model() == ValueModel::Text(ts[i - from].0)),
        (forall|i: int| from <= i < rows.len() ==> (#[trigger] rows[i])@[1].model() is Int) ==> tallies_of(rows, from) is Ok,
    decreases rows.len() - from,
{
    if from < rows.len() {
        law_tally_is_whole(rows, from + 1);
        if let (Ok(n), Ok(rest)) = (int_cell(rows[from]@[1].model()), tallies_of(rows, from + 1)) {
            let ts = seq![(text_cell(rows[from]@[0].model()), n)] + rest;
            assert forall|i: int| from <= i < rows.len() implies (#[trigger] rows[i])@[1].model() == ValueModel::Int(ts[i - from].1) && (
            rows[i]@[0].model() is Text ==> rows[i]@[0].model() == ValueModel::Text(ts[i - from].0)) by {
                if i > from {
                    assert(ts[i - from] == rest[i - from - 1]);
                }
            }
        }
    }
}

} // verus!
