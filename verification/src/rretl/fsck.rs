//! Verification at rest: what is wrong with the standing runs. It reports and
//! never repairs.

use vstd::prelude::*;
use vstd::string::StringExecFns;
use crate::text::{dec_int, push_dec_int};
use crate::utf8::same_text;
use crate::value::{push_value_debug, value_debug, Value};

verus! {

/// A standing run as the lineage has it.
#[derive(Debug)]
pub struct FsckRun {
    pub run_id: i64,
    pub pair: String,
    pub table: String,
    pub column: String,
    pub output_hash: String,
    pub residual_hash: String,
}

/// What was found of a run at rest.
#[derive(Debug)]
pub struct FsckFacts {
    /// The hash of its stored residuals.
    pub residuals: String,
    /// Why its pair does not load.
    pub pair_error: Option<String>,
    /// The pair has a residual function.
    pub has_rex: bool,
    /// Why its target is gone.
    pub target_error: Option<String>,
    /// The hash of the column now.
    pub column_hash: String,
    /// Rows of the column without a residual.
    pub bare_rows: Vec<Value>,
}

/// Run `i` is the last standing run on its column.
pub open spec fn tops_column(runs: Seq<FsckRun>, i: int) -> bool {
    forall|j: int| i < j < runs.len() ==> !((#[trigger] runs[j]).table@ == runs[i].table@ && runs[j].column@ == runs[i].column@)
}

fn is_top(runs: &Vec<FsckRun>, i: usize) -> (r: bool)
    requires
        i < runs@.len(),
    ensures
        r == tops_column(runs@, i as int),
{
    assert(i < runs.len());
    let mut j: usize = i + 1;
    while j < runs.len()
        invariant
            i < j <= runs@.len(),
            forall|k: int| i < k < j ==> !((#[trigger] runs@[k]).table@ == runs@[i as int].table@ && runs@[k].column@ == runs@[i as int].column@),
        decreases runs@.len() - j,
    {
        if same_text(runs[j].table.as_str(), runs[i].table.as_str()) && same_text(runs[j].column.as_str(), runs[i].column.as_str()) {
            return false;
        }
        j += 1;
    }
    true
}

/// The findings on rows without a residual, for the first `n` of them.
pub open spec fn bare_findings(run: FsckRun, rows: Seq<Value>, n: nat) -> Seq<Seq<char>>
    decreases n,
{
    if n == 0 || n > rows.len() {
        Seq::empty()
    } else {
        bare_findings(run, rows, (n - 1) as nat).push(
            "run "@ + dec_int(run.run_id as int) + ": row "@ + value_debug(rows[n - 1].model()) + " of `"@ + run.table@ + "."@
                + run.column@
                + "` has NO residual — what was lost is gone, and unwinding that row is impossible"@,
        )
    }
}

/// One text, or none.
pub open spec fn when(c: bool, t: Seq<char>) -> Seq<Seq<char>> {
    if c { seq![t] } else { Seq::empty() }
}

/// Everything that is wrong with a run at rest. Its residuals are checked
/// against its own record even where the run is buried or its table is gone;
/// the column only where the run tops it.
pub open spec fn findings_on(runs: Seq<FsckRun>, i: int, f: FsckFacts) -> Seq<Seq<char>> {
    let run = runs[i];
    let id = dec_int(run.run_id as int);
    let residual = when(
        f.residuals@ != run.residual_hash@,
        "run "@ + id
            + ": its stored residuals no longer hash to what the apply wrote — tampered or deleted at rest; unwinding would fabricate data"@,
    );
    let pair = match f.pair_error {
        Some(e) => seq![
            "run "@ + id + ": its pair `"@ + run.pair@ + "` cannot be loaded ("@ + e@
                + ") — unwinding this run is currently impossible"@,
        ],
        None => Seq::empty(),
    };
    let rest = match f.target_error {
        Some(e) => seq!["run "@ + id + ": its target `"@ + run.table@ + "."@ + run.column@ + "` is gone ("@ + e@ + ")"@],
        None => when(
            tops_column(runs, i) && f.column_hash@ != run.output_hash@,
            "run "@ + id + ": `"@ + run.table@ + "."@ + run.column@
                + "` no longer hashes to the run's output — edited outside the pipeline (revert will refuse; putback remains available)"@,
        ) + (if f.pair_error is None && f.has_rex {
            bare_findings(run, f.bare_rows@, f.bare_rows@.len())
        } else {
            Seq::empty()
        }),
    };
    residual + pair + rest
}

/// The texts of findings.
pub open spec fn finding_texts(v: Seq<String>) -> Seq<Seq<char>> {
    v.map_values(|s: String| s@)
}

fn run_prefix(run: &FsckRun, b: &str) -> (m: String)
    ensures
        m@ == "run "@ + dec_int(run.run_id as int) + b@,
{
    let mut m = String::from_str("run ");
    push_dec_int(&mut m, run.run_id);
    m.append(b);
    m
}

proof fn lemma_pushed(v: Seq<String>, s: String)
    ensures
        finding_texts(v.push(s)) == finding_texts(v).push(s@),
{
    assert(finding_texts(v.push(s)) =~= finding_texts(v).push(s@));
}

/// The findings on run `i`.
pub fn fsck_run(runs: &Vec<FsckRun>, i: usize, f: &FsckFacts) -> (out: Vec<String>)
    requires
        i < runs@.len(),
    ensures
        finding_texts(out@) == findings_on(runs@, i as int, *f),
{
    let run = &runs[i];
    let mut out: Vec<String> = Vec::new();
    let ghost id = dec_int(run.run_id as int);
    proof {
        assert(finding_texts(out@) =~= Seq::<Seq<char>>::empty());
    }
    if !same_text(f.residuals.as_str(), run.residual_hash.as_str()) {
        let m = run_prefix(
            run,
            ": its stored residuals no longer hash to what the apply wrote — tampered or deleted at rest; unwinding would fabricate data",
        );
        proof {
            lemma_pushed(out@, m);
        }
        out.push(m);
    }
    let ghost residual = finding_texts(out@);
    proof {
        assert(residual =~= when(
            f.residuals@ != run.residual_hash@,
            "run "@ + id
                + ": its stored residuals no longer hash to what the apply wrote — tampered or deleted at rest; unwinding would fabricate data"@,
        ));
    }
    if let Some(e) = &f.pair_error {
        let mut m = run_prefix(run, ": its pair `");
        m.append(run.pair.as_str());
        m.append("` cannot be loaded (");
        m.append(e.as_str());
        m.append(") — unwinding this run is currently impossible");
        proof {
            lemma_pushed(out@, m);
        }
        out.push(m);
    }
    let ghost head = finding_texts(out@);
    if let Some(e) = &f.target_error {
        let mut m = run_prefix(run, ": its target `");
        m.append(run.table.as_str());
        m.append(".");
        m.append(run.column.as_str());
        m.append("` is gone (");
        m.append(e.as_str());
        m.append(")");
        proof {
            lemma_pushed(out@, m);
        }
        out.push(m);
        proof {
            assert(finding_texts(out@) =~= findings_on(runs@, i as int, *f));
        }
        return out;
    }
    let top = is_top(runs, i);
    if top && !same_text(f.column_hash.as_str(), run.output_hash.as_str()) {
        let mut m = run_prefix(run, ": `");
        m.append(run.table.as_str());
        m.append(".");
        m.append(run.column.as_str());
        m.append(
            "` no longer hashes to the run's output — edited outside the pipeline (revert will refuse; putback remains available)",
        );
        proof {
            lemma_pushed(out@, m);
        }
        out.push(m);
    }
    let ghost upto = finding_texts(out@);
    if f.pair_error.is_none() && f.has_rex {
        let mut k: usize = 0;
        proof {
            assert(upto =~= upto + bare_findings(*run, f.bare_rows@, 0));
        }
        while k < f.bare_rows.len()
            invariant
                k <= f.bare_rows@.len(),
                finding_texts(out@) == upto + bare_findings(*run, f.bare_rows@, k as nat),
            decreases f.bare_rows@.len() - k,
        {
            let mut m = run_prefix(run, ": row ");
            push_value_debug(&mut m, &f.bare_rows[k]);
            m.append(" of `");
            m.append(run.table.as_str());
            m.append(".");
            m.append(run.column.as_str());
            m.append("` has NO residual — what was lost is gone, and unwinding that row is impossible");
            proof {
                lemma_pushed(out@, m);
                assert(finding_texts(out@).push(m@) =~= upto + bare_findings(*run, f.bare_rows@, (k + 1) as nat));
            }
            out.push(m);
            k += 1;
        }
    }
    proof {
        assert(finding_texts(out@) =~= findings_on(runs@, i as int, *f));
    }
    out
}

/// A run is found clean exactly where it can be unwound: its residuals are what
/// the apply wrote, its pair loads, its target is there, the column still holds
/// the run's output where no later run stands on it, and no row lacks a
/// residual that the pair needs.
pub proof fn law_clean_run_can_be_unwound(runs: Seq<FsckRun>, i: int, f: FsckFacts)
    requires
        0 <= i < runs.len(),
    ensures
        findings_on(runs, i, f).len() == 0 <==> {
            &&& f.residuals@ == runs[i].residual_hash@
            &&& f.pair_error is None
            &&& f.target_error is None
            &&& (forall|j: int| i < j < runs.len() ==> (#[trigger] runs[j]).table@ != runs[i].table@ || runs[j].column@ != runs[i].column@)
                ==> f.column_hash@ == runs[i].output_hash@
            &&& f.has_rex ==> f.bare_rows@.len() == 0
        },
{
    lemma_bare_len(runs[i], f.bare_rows@, f.bare_rows@.len());
    let top = forall|j: int| i < j < runs.len() ==> (#[trigger] runs[j]).table@ != runs[i].table@ || runs[j].column@ != runs[i].column@;
    if top {
        assert(tops_column(runs, i));
    } else {
        let j = choose|j: int| i < j < runs.len() && !((#[trigger] runs[j]).table@ != runs[i].table@ || runs[j].column@ != runs[i].column@);
        assert(runs[j].table@ == runs[i].table@ && runs[j].column@ == runs[i].column@);
    }
}

/// Every row without a residual is told, one by one.
proof fn lemma_bare_len(run: FsckRun, rows: Seq<Value>, n: nat)
    requires
        n <= rows.len(),
    ensures
        bare_findings(run, rows, n).len() == n,
    decreases n,
{
    if n > 0 {
        lemma_bare_len(run, rows, (n - 1) as nat);
    }
}

} // verus!
