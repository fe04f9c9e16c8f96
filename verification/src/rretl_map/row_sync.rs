//! Driving one sync: the three passes over a mapped table, and the steps of
//! each row. Every step names the work that comes next; reading, writing and
//! running lens functions is the engine's.

use vstd::prelude::*;
use crate::error::Result;
use crate::rretl_map::sync::{chain, classify_p1, classify_p2, conflict_fault, conflict_reason, first_not_bijective, law_sync_idempotent, needs_residual, opt_hash, opt_str, p1_of, p2_fault, p2_of, persisted_fault, pushed, row_bits, row_hash, sync_source_row, sync_target_row, synced, verify_persisted, RowLens, RowSides, P1, P2};
use crate::bytes::same_bytes;
use crate::rretl_map::carry::{carried_values, created_bits, created_values, row_carried, row_created, values_of, ColumnCarry, CreatedValue};
use crate::rretl_map::lens::LensClass;
use crate::value::Value;

verus! {

/// What comes next for a row.
#[derive(Debug, Clone, Copy, PartialEq, Eq, Structural)]
pub enum Ask {
    /// Run the forward functions on the source row.
    Forward,
    /// Carry the target row back to the source.
    Back,
    /// Invert the target row without a residual.
    Create,
    InsertTarget,
    UpdateTarget,
    InsertSource,
    UpdateSource,
    DeleteSource,
    DeleteTarget,
    /// Read the target row that was just written.
    ReadTarget,
    /// Read the source row that was just written.
    ReadSource,
    /// Record both hashes of a row that had no record.
    PutState,
    /// Record both hashes.
    SetState,
    DeleteState,
    Done,
}

/// A row that the source has, in progress.
pub struct SourceRow {
    plan: P1,
    ask: Ask,
    a_hash: String,
    b_hash: String,
    b: Vec<Vec<u8>>,
    answer: Vec<Vec<u8>>,
    start: Ghost<RowSides>,
    sides: Ghost<RowSides>,
}

/// Both sides once a row that the source has is done: `answer` is what the
/// lens functions gave.
pub open spec fn source_outcome(start: RowSides, p: P1, answer: Seq<Seq<u8>>) -> RowSides {
    match p {
        P1::CreateB => pushed(start.a->Some_0, answer),
        P1::AToB => pushed(start.a->Some_0, answer),
        P1::BToA => pushed(answer, start.b->Some_0),
        P1::Compare => pushed(start.a->Some_0, start.b->Some_0),
        P1::DeleteA => RowSides { a: None, b: None, st: None },
        _ => start,
    }
}

/// Both sides before the step `ask`.
pub open spec fn source_sides_at(start: RowSides, p: P1, answer: Seq<Seq<u8>>, ask: Ask) -> RowSides {
    match ask {
        Ask::Done => source_outcome(start, p, answer),
        Ask::ReadTarget => RowSides { b: Some(answer), ..start },
        Ask::ReadSource => RowSides { a: Some(answer), ..start },
        Ask::DeleteState => RowSides { a: None, ..start },
        Ask::PutState => if p == P1::CreateB { RowSides { b: Some(answer), ..start } } else { start },
        Ask::SetState => if p == P1::AToB { RowSides { b: Some(answer), ..start } } else { RowSides { a: Some(answer), ..start } },
        _ => start,
    }
}

/// The steps of each plan.
pub open spec fn source_step_ok(p: P1, ask: Ask) -> bool {
    match p {
        P1::CreateB => ask == Ask::Forward || ask == Ask::InsertTarget || ask == Ask::ReadTarget || ask == Ask::PutState || ask == Ask::Done,
        P1::AToB => ask == Ask::Forward || ask == Ask::UpdateTarget || ask == Ask::ReadTarget || ask == Ask::SetState || ask == Ask::Done,
        P1::BToA => ask == Ask::Back || ask == Ask::UpdateSource || ask == Ask::ReadSource || ask == Ask::SetState || ask == Ask::Done,
        P1::Compare => ask == Ask::Forward || ask == Ask::PutState || ask == Ask::Done,
        P1::DeleteA => ask == Ask::DeleteSource || ask == Ask::DeleteState || ask == Ask::Done,
        P1::Unchanged => ask == Ask::Done,
        _ => false,
    }
}

/// The recorded hashes as texts.
pub open spec fn recorded(st: Option<(String, String)>) -> Option<(Seq<char>, Seq<char>)> {
    match st {
        Some((a, b)) => Some((a@, b@)),
        None => None,
    }
}

/// The values of an optional row.
pub open spec fn opt_bits(b: Option<Vec<Vec<u8>>>) -> Option<Seq<Seq<u8>>> {
    match b {
        Some(v) => Some(row_bits(v@)),
        None => None,
    }
}

fn same_row(a: &Vec<Vec<u8>>, b: &Vec<Vec<u8>>) -> (r: bool)
    ensures
        r == (row_bits(a@) == row_bits(b@)),
{
    let ghost x = row_bits(a@);
    let ghost y = row_bits(b@);
    if a.len() != b.len() {
        proof {
            assert(x.len() != y.len());
        }
        return false;
    }
    let mut i: usize = 0;
    while i < a.len()
        invariant
            i <= a@.len(),
            a@.len() == b@.len(),
            x == row_bits(a@),
            y == row_bits(b@),
            forall|j: int| 0 <= j < i ==> x[j] == y[j],
        decreases a@.len() - i,
    {
        proof {
            assert(x[i as int] == a@[i as int]@);
            assert(y[i as int] == b@[i as int]@);
        }
        if !same_bytes(a[i].as_slice(), b[i].as_slice()) {
            return false;
        }
        i += 1;
    }
    proof {
        assert(x =~= y);
    }
    true
}

impl SourceRow {
    /// What was found at the beginning.
    pub closed spec fn found(&self) -> RowSides {
        self.start@
    }

    /// Both sides now.
    pub closed spec fn now(&self) -> RowSides {
        self.sides@
    }

    /// What is done with the row.
    pub closed spec fn way(&self) -> P1 {
        self.plan
    }

    /// What comes next.
    pub closed spec fn waits(&self) -> Ask {
        self.ask
    }

    /// What the lens functions gave.
    pub closed spec fn given(&self) -> Seq<Seq<u8>> {
        row_bits(self.answer@)
    }

    /// The step belongs to the plan, both sides are as the steps so far left
    /// them, and the hashes to record are those of the rows.
    pub closed spec fn wf(&self) -> bool {
        let s = self.start@;
        let answer = row_bits(self.answer@);
        &&& s.a is Some
        &&& self.plan == p1_of(s.st, row_hash(s.a->Some_0), opt_hash(s.b))
        &&& source_step_ok(self.plan, self.ask)
        &&& self.sides@ == source_sides_at(s, self.plan, answer, self.ask)
        &&& s.b is Some ==> s.b->Some_0 == row_bits(self.b@)
        &&& match self.ask {
            Ask::Forward => self.a_hash@ == row_hash(s.a->Some_0) && (s.b is Some ==> self.b_hash@ == row_hash(s.b->Some_0)),
            Ask::Back => s.b is Some && self.b_hash@ == row_hash(s.b->Some_0),
            Ask::InsertTarget => self.a_hash@ == row_hash(s.a->Some_0) && self.b_hash@ == row_hash(answer),
            Ask::UpdateTarget => self.a_hash@ == row_hash(s.a->Some_0) && self.b_hash@ == row_hash(answer),
            Ask::ReadTarget => self.a_hash@ == row_hash(s.a->Some_0) && self.b_hash@ == row_hash(answer),
            Ask::UpdateSource => self.a_hash@ == row_hash(answer) && self.b_hash@ == row_hash(s.b->Some_0),
            Ask::ReadSource => self.a_hash@ == row_hash(answer) && self.b_hash@ == row_hash(s.b->Some_0),
            Ask::PutState => source_outcome(s, self.plan, answer).st == Some((self.a_hash@, self.b_hash@)),
            Ask::SetState => source_outcome(s, self.plan, answer).st == Some((self.a_hash@, self.b_hash@)),
            _ => true,
        }
    }

    /// Begin with a row that the source has: its values, the recorded hashes
    /// and the target's row. A conflict is refused before anything is written.
    pub fn begin(name: &str, dst: &str, key: &Value, a: &Vec<Vec<u8>>, st: Option<(String, String)>, b: Option<Vec<Vec<u8>>>) -> (r: Result<SourceRow>)
        ensures
            ({
                let start = RowSides { a: Some(row_bits(a@)), b: opt_bits(b), st: recorded(st) };
                let p = p1_of(start.st, row_hash(row_bits(a@)), opt_hash(start.b));
                match r {
                    Ok(s) => {
                        &&& s.wf()
                        &&& s.found() == start
                        &&& s.now() == start
                        &&& p != P1::DeletedBChangedA && p != P1::BothChanged
                        &&& s.way() == p
                        &&& s.waits() == (match p {
                            P1::BToA => Ask::Back,
                            P1::DeleteA => Ask::DeleteSource,
                            P1::Unchanged => Ask::Done,
                            _ => Ask::Forward,
                        })
                    },
                    Err(e) => (p == P1::DeletedBChangedA || p == P1::BothChanged) && e@ == conflict_fault(
                        name@,
                        dst@,
                        key.model(),
                        conflict_reason(p),
                    ),
                }
            }),
    {
        let ghost start = RowSides { a: Some(row_bits(a@)), b: opt_bits(b), st: recorded(st) };
        let a_hash = chain(a);
        let mut b_hash = String::new();
        let mut b_row: Vec<Vec<u8>> = Vec::new();
        let has_b = b.is_some();
        if let Some(v) = b {
            b_hash = chain(&v);
            b_row = v;
        }
        let st_ref: Option<(&str, &str)> = match &st {
            Some((x, y)) => Some((x.as_str(), y.as_str())),
            None => None,
        };
        let b_ref: Option<&str> = if has_b {
            Some(b_hash.as_str())
        } else {
            None
        };
        let p = classify_p1(st_ref, a_hash.as_str(), b_ref);
        if let Err(e) = sync_source_row(name, dst, key, p, true) {
            return Err(e);
        }
        let ask = match p {
            P1::BToA => Ask::Back,
            P1::DeleteA => Ask::DeleteSource,
            P1::Unchanged => Ask::Done,
            _ => Ask::Forward,
        };
        Ok(
            SourceRow {
                plan: p,
                ask,
                a_hash,
                b_hash,
                b: b_row,
                answer: Vec::new(),
                start: Ghost(start),
                sides: Ghost(start),
            },
        )
    }

    /// What comes next.
    pub fn next(&self) -> (a: Ask)
        ensures
            a == self.waits(),
    {
        self.ask
    }

    /// The plan of the row.
    pub fn plan(&self) -> (p: P1)
        ensures
            p == self.way(),
    {
        self.plan
    }

    /// The hashes to record: of the source, of the target.
    pub fn hashes(&self) -> (r: (&str, &str))
        requires
            self.wf(),
        ensures
            self.waits() == Ask::PutState || self.waits() == Ask::SetState ==> source_outcome(self.found(), self.way(), self.given()).st == Some(
                (r.0@, r.1@),
            ),
    {
        (self.a_hash.as_str(), self.b_hash.as_str())
    }

    /// Take the forwarded row. A row that was never synced is adopted only
    /// where both sides agree.
    pub fn on_forward(&mut self, name: &str, dst: &str, key: &Value, ys: Vec<Vec<u8>>) -> (r: Result<()>)
        requires
            old(self).wf(),
            old(self).waits() == Ask::Forward,
        ensures
            final(self).found() == old(self).found(),
            final(self).way() == old(self).way(),
            final(self).now() == old(self).now(),
            match old(self).way() {
                P1::Compare => if row_bits(ys@) == old(self).found().b->Some_0 {
                    r is Ok && final(self).wf() && final(self).waits() == Ask::PutState
                } else {
                    r is Err && r->Err_0@ == conflict_fault(name@, dst@, key.model(), conflict_reason(P1::Compare))
                },
                P1::CreateB => r is Ok && final(self).wf() && final(self).waits() == Ask::InsertTarget && final(self).given() == row_bits(ys@),
                _ => r is Ok && final(self).wf() && final(self).waits() == Ask::UpdateTarget && final(self).given() == row_bits(ys@),
            },
    {
        match self.plan {
            P1::Compare => {
                let agree = same_row(&ys, &self.b);
                match sync_source_row(name, dst, key, P1::Compare, agree) {
                    Err(e) => Err(e),
                    Ok(_) => {
                        self.ask = Ask::PutState;
                        Ok(())
                    },
                }
            },
            P1::CreateB => {
                self.b_hash = chain(&ys);
                self.answer = ys;
                self.ask = Ask::InsertTarget;
                Ok(())
            },
            _ => {
                self.b_hash = chain(&ys);
                self.answer = ys;
                self.ask = Ask::UpdateTarget;
                Ok(())
            },
        }
    }

    /// Take the row carried back to the source, column by column.
    pub fn on_back(&mut self, cols: &Vec<ColumnCarry>)
        requires
            old(self).wf(),
            old(self).waits() == Ask::Back,
            row_carried(cols@, old(self).found().a->Some_0, old(self).found().b->Some_0),
        ensures
            final(self).wf(),
            final(self).found() == old(self).found(),
            final(self).way() == old(self).way(),
            final(self).now() == old(self).now(),
            final(self).waits() == Ask::UpdateSource,
            final(self).given() == carried_values(cols@),
    {
        let xs = values_of(cols);
        self.a_hash = chain(&xs);
        self.answer = xs;
        self.ask = Ask::UpdateSource;
    }

    /// Note that the write that was asked for is done.
    pub fn on_written(&mut self)
        requires
            old(self).wf(),
            old(self).waits() == Ask::InsertTarget || old(self).waits() == Ask::UpdateTarget || old(self).waits() == Ask::UpdateSource
                || old(self).waits() == Ask::DeleteSource || old(self).waits() == Ask::PutState || old(self).waits() == Ask::SetState
                || old(self).waits() == Ask::DeleteState,
        ensures
            final(self).wf(),
            final(self).found() == old(self).found(),
            final(self).way() == old(self).way(),
            final(self).given() == old(self).given(),
            final(self).waits() == (match old(self).waits() {
                Ask::InsertTarget => Ask::ReadTarget,
                Ask::UpdateTarget => Ask::ReadTarget,
                Ask::UpdateSource => Ask::ReadSource,
                Ask::DeleteSource => Ask::DeleteState,
                _ => Ask::Done,
            }),
    {
        let ghost s = self.start@;
        let ghost answer = row_bits(self.answer@);
        let next = match self.ask {
            Ask::InsertTarget => Ask::ReadTarget,
            Ask::UpdateTarget => Ask::ReadTarget,
            Ask::UpdateSource => Ask::ReadSource,
            Ask::DeleteSource => Ask::DeleteState,
            _ => Ask::Done,
        };
        proof {
            self.sides = Ghost(source_sides_at(s, self.plan, answer, next));
        }
        self.ask = next;
    }

    /// Check the row that was written against what it should hash to.
    pub fn on_read(&mut self, key: &Value, got: Option<&str>) -> (r: Result<()>)
        requires
            old(self).wf(),
            old(self).waits() == Ask::ReadTarget || old(self).waits() == Ask::ReadSource,
        ensures
            final(self).found() == old(self).found(),
            final(self).way() == old(self).way(),
            final(self).given() == old(self).given(),
            match r {
                Ok(()) => {
                    &&& got is Some && got->Some_0@ == row_hash(old(self).given())
                    &&& final(self).wf()
                    &&& final(self).waits() == (if old(self).way() == P1::CreateB { Ask::PutState } else { Ask::SetState })
                },
                Err(e) => persisted_fault(
                    if old(self).waits() == Ask::ReadTarget { "target"@ } else { "source"@ },
                    key.model(),
                    opt_str(got),
                    row_hash(old(self).given()),
                ) == Some(e@),
            },
    {
        let checked = match self.ask {
            Ask::ReadTarget => verify_persisted("target", key, got, self.b_hash.as_str()),
            _ => verify_persisted("source", key, got, self.a_hash.as_str()),
        };
        match checked {
            Err(e) => Err(e),
            Ok(()) => {
                self.ask = match self.plan {
                    P1::CreateB => Ask::PutState,
                    _ => Ask::SetState,
                };
                Ok(())
            },
        }
    }
}

/// A source row that was driven to its end left both sides exactly as a sync
/// of the row does, the lens functions being what answered.
pub proof fn law_source_row_synced(s: SourceRow, lens: RowLens)
    requires
        s.wf(),
        s.waits() == Ask::Done,
        s.way() == P1::CreateB || s.way() == P1::AToB ==> s.given() == (lens.forward)(s.found().a->Some_0),
        s.way() == P1::BToA ==> s.given() == (lens.back)(s.found().a->Some_0, s.found().b->Some_0),
        s.way() == P1::Compare ==> (lens.forward)(s.found().a->Some_0) == s.found().b->Some_0,
    ensures
        synced(s.found(), lens) == Some(s.now()),
{
}

// --------------------------------------------------------------- target rows

/// A row that only the target has, in progress.
pub struct TargetRow {
    plan: P2,
    ask: Ask,
    a_hash: String,
    b_hash: String,
    answer: Vec<Vec<u8>>,
    start: Ghost<RowSides>,
    sides: Ghost<RowSides>,
}

/// Both sides once a row that only the target has is done.
pub open spec fn target_outcome(start: RowSides, p: P2, answer: Seq<Seq<u8>>) -> RowSides {
    match p {
        P2::CreateA => pushed(answer, start.b->Some_0),
        _ => RowSides { a: None, b: None, st: None },
    }
}

/// Both sides before the step `ask`.
pub open spec fn target_sides_at(start: RowSides, p: P2, answer: Seq<Seq<u8>>, ask: Ask) -> RowSides {
    match ask {
        Ask::Done => target_outcome(start, p, answer),
        Ask::ReadSource => RowSides { a: Some(answer), ..start },
        Ask::PutState => RowSides { a: Some(answer), ..start },
        Ask::DeleteState => RowSides { b: None, ..start },
        _ => start,
    }
}

/// The recorded hash of the target.
pub open spec fn recorded_b(st: Option<(Seq<char>, Seq<char>)>) -> Option<Seq<char>> {
    match st {
        Some(s) => Some(s.1),
        None => None,
    }
}

impl TargetRow {
    /// What was found at the beginning.
    pub closed spec fn found(&self) -> RowSides {
        self.start@
    }

    /// Both sides now.
    pub closed spec fn now(&self) -> RowSides {
        self.sides@
    }

    /// What is done with the row.
    pub closed spec fn way(&self) -> P2 {
        self.plan
    }

    /// What comes next.
    pub closed spec fn waits(&self) -> Ask {
        self.ask
    }

    /// What the lens functions gave.
    pub closed spec fn given(&self) -> Seq<Seq<u8>> {
        row_bits(self.answer@)
    }

    /// The step belongs to the plan, both sides are as the steps so far left
    /// them, and the hashes to record are those of the rows.
    pub closed spec fn wf(&self) -> bool {
        let s = self.start@;
        let answer = row_bits(self.answer@);
        &&& s.a is None
        &&& s.b is Some
        &&& match self.plan {
            P2::CreateA => s.st is None && (self.ask == Ask::Create || self.ask == Ask::InsertSource || self.ask == Ask::ReadSource
                || self.ask == Ask::PutState || self.ask == Ask::Done),
            P2::DeleteB => s.st is Some && row_hash(s.b->Some_0) == s.st->Some_0.1 && (self.ask == Ask::DeleteTarget || self.ask
                == Ask::DeleteState || self.ask == Ask::Done),
            _ => false,
        }
        &&& self.sides@ == target_sides_at(s, self.plan, answer, self.ask)
        &&& self.b_hash@ == row_hash(s.b->Some_0)
        &&& self.ask == Ask::InsertSource || self.ask == Ask::ReadSource || self.ask == Ask::PutState ==> self.a_hash@ == row_hash(answer)
    }

    /// Begin with a row that only the target has; `cols` are the target
    /// columns, `pairs` the classes of their pairs.
    pub fn begin(
        name: &str,
        src: &str,
        dst: &str,
        cols: &Vec<String>,
        key: &Value,
        b: &Vec<Vec<u8>>,
        st: Option<(String, String)>,
        rowid: bool,
        pairs: &Vec<Option<LensClass>>,
    ) -> (r: Result<TargetRow>)
        requires
            pairs@.len() == cols@.len(),
        ensures
            ({
                let start = RowSides { a: None, b: Some(row_bits(b@)), st: recorded(st) };
                let p = p2_of(recorded_b(start.st), row_hash(row_bits(b@)), rowid, needs_residual(pairs@, 0));
                match r {
                    Ok(t) => {
                        &&& t.wf()
                        &&& t.found() == start
                        &&& t.now() == start
                        &&& t.way() == p
                        &&& p2_fault(name@, src@, dst@, cols@, key.model(), p) is None
                        &&& t.waits() == (if p == P2::CreateA { Ask::Create } else { Ask::DeleteTarget })
                    },
                    Err(e) => p2_fault(name@, src@, dst@, cols@, key.model(), p) == Some(e@),
                }
            }),
    {
        let ghost start = RowSides { a: None, b: Some(row_bits(b@)), st: recorded(st) };
        let b_hash = chain(b);
        let st_b: Option<&str> = match &st {
            Some((_, y)) => Some(y.as_str()),
            None => None,
        };
        let p = classify_p2(st_b, b_hash.as_str(), rowid, first_not_bijective(pairs));
        if let Err(e) = sync_target_row(name, src, dst, cols, key, p) {
            return Err(e);
        }
        let ask = match p {
            P2::CreateA => Ask::Create,
            _ => Ask::DeleteTarget,
        };
        Ok(
            TargetRow {
                plan: p,
                ask,
                a_hash: String::new(),
                b_hash,
                answer: Vec::new(),
                start: Ghost(start),
                sides: Ghost(start),
            },
        )
    }

    /// What comes next.
    pub fn next(&self) -> (a: Ask)
        ensures
            a == self.waits(),
    {
        self.ask
    }

    /// The plan of the row.
    pub fn plan(&self) -> (p: P2)
        ensures
            p == self.way(),
    {
        self.plan
    }

    /// The hashes to record: of the source, of the target.
    pub fn hashes(&self) -> (r: (&str, &str))
        requires
            self.wf(),
        ensures
            self.waits() == Ask::PutState ==> target_outcome(self.found(), self.way(), self.given()).st == Some((r.0@, r.1@)),
    {
        (self.a_hash.as_str(), self.b_hash.as_str())
    }

    /// Take the row made for the source, column by column.
    pub fn on_create(&mut self, vals: &Vec<CreatedValue>)
        requires
            old(self).wf(),
            old(self).waits() == Ask::Create,
            row_created(vals@, old(self).found().b->Some_0),
        ensures
            final(self).wf(),
            final(self).found() == old(self).found(),
            final(self).way() == old(self).way(),
            final(self).now() == old(self).now(),
            final(self).waits() == Ask::InsertSource,
            final(self).given() == created_bits(vals@),
    {
        let xs = created_values(vals);
        self.a_hash = chain(&xs);
        self.answer = xs;
        self.ask = Ask::InsertSource;
    }

    /// Note that the write that was asked for is done.
    pub fn on_written(&mut self)
        requires
            old(self).wf(),
            old(self).waits() == Ask::InsertSource || old(self).waits() == Ask::DeleteTarget || old(self).waits() == Ask::PutState
                || old(self).waits() == Ask::DeleteState,
        ensures
            final(self).wf(),
            final(self).found() == old(self).found(),
            final(self).way() == old(self).way(),
            final(self).given() == old(self).given(),
            final(self).waits() == (match old(self).waits() {
                Ask::InsertSource => Ask::ReadSource,
                Ask::DeleteTarget => Ask::DeleteState,
                _ => Ask::Done,
            }),
    {
        let ghost s = self.start@;
        let ghost answer = row_bits(self.answer@);
        let next = match self.ask {
            Ask::InsertSource => Ask::ReadSource,
            Ask::DeleteTarget => Ask::DeleteState,
            _ => Ask::Done,
        };
        proof {
            self.sides = Ghost(target_sides_at(s, self.plan, answer, next));
        }
        self.ask = next;
    }

    /// Check the source row that was written.
    pub fn on_read(&mut self, key: &Value, got: Option<&str>) -> (r: Result<()>)
        requires
            old(self).wf(),
            old(self).waits() == Ask::ReadSource,
        ensures
            final(self).found() == old(self).found(),
            final(self).way() == old(self).way(),
            final(self).given() == old(self).given(),
            match r {
                Ok(()) => got is Some && got->Some_0@ == row_hash(old(self).given()) && final(self).wf() && final(self).waits() == Ask::PutState,
                Err(e) => persisted_fault("source"@, key.model(), opt_str(got), row_hash(old(self).given())) == Some(e@),
            },
    {
        match verify_persisted("source", key, got, self.a_hash.as_str()) {
            Err(e) => Err(e),
            Ok(()) => {
                self.ask = Ask::PutState;
                Ok(())
            },
        }
    }
}

/// A target row that was driven to its end left both sides exactly as a sync
/// of the row does.
pub proof fn law_target_row_synced(t: TargetRow, lens: RowLens)
    requires
        t.wf(),
        t.waits() == Ask::Done,
        t.way() == P2::CreateA ==> lens.create is Some && t.given() == (lens.create->Some_0)(t.found().b->Some_0),
    ensures
        synced(t.found(), lens) == Some(t.now()),
{
}

// ------------------------------------------------------------------ passes

/// The passes of a sync over one table.
#[derive(Debug, Clone, Copy, PartialEq, Eq, Structural)]
pub enum Pass {
    /// Every source row.
    Source,
    /// Target rows without a source row.
    Target,
    /// Records with neither.
    State,
    Done,
}

/// A sync over one table in progress.
pub struct TableSync {
    pub pass: Pass,
    pub chunk: usize,
    /// The pass has read a chunk already: resume behind its last key.
    pub resumes: bool,
}

impl TableSync {
    /// Begin with the source rows.
    pub fn begin(chunk: usize) -> (t: TableSync)
        ensures
            t.pass == Pass::Source,
            t.chunk == chunk,
            !t.resumes,
    {
        TableSync { pass: Pass::Source, chunk, resumes: false }
    }

    /// Note a chunk of `got` rows: the pass goes on behind a full chunk; else
    /// the next pass begins.
    pub fn after_chunk(&mut self, got: usize)
        ensures
            final(self).chunk == old(self).chunk,
            got > 0 && got >= old(self).chunk ==> final(self).pass == old(self).pass && final(self).resumes,
            !(got > 0 && got >= old(self).chunk) ==> !final(self).resumes && final(self).pass == (match old(self).pass {
                Pass::Source => Pass::Target,
                Pass::Target => Pass::State,
                _ => Pass::Done,
            }),
    {
        if got > 0 && got >= self.chunk {
            self.resumes = true;
        } else {
            self.resumes = false;
            self.pass = match self.pass {
                Pass::Source => Pass::Target,
                Pass::Target => Pass::State,
                _ => Pass::Done,
            };
        }
    }
}

// ---------------------------------------------------------------- laws

/// What a pass makes of one row: the first takes the rows that the source has,
/// the second those that only the target has, the third records with neither.
pub open spec fn pass_effect(p: Pass, row: RowSides, lens: RowLens) -> Option<RowSides> {
    let taken = match p {
        Pass::Source => row.a is Some,
        Pass::Target => row.a is None && row.b is Some,
        Pass::State => row.a is None && row.b is None,
        Pass::Done => false,
    };
    if taken {
        synced(row, lens)
    } else {
        Some(row)
    }
}

/// The three passes in a row come to one sync of every row: what one pass
/// leaves, the next ones do not undo, and none is refused that the sync takes.
pub proof fn law_passes_make_one_sync(row: RowSides, lens: RowLens)
    ensures
        match pass_effect(Pass::Source, row, lens) {
            None => synced(row, lens) is None,
            Some(r) => match pass_effect(Pass::Target, r, lens) {
                None => synced(row, lens) is None,
                Some(q) => pass_effect(Pass::State, q, lens) == synced(row, lens),
            },
        },
{
}

/// What a sync makes of a table's rows, by key; `None` when one row is refused,
/// and then nothing at all changes.
pub open spec fn table_synced(rows: Map<Seq<u8>, RowSides>, lens: RowLens) -> Option<Map<Seq<u8>, RowSides>> {
    if exists|k: Seq<u8>| #[trigger] rows.contains_key(k) && synced(rows[k], lens) is None {
        None
    } else {
        Some(rows.map_values(|r: RowSides| synced(r, lens)->Some_0))
    }
}

/// Loop safety for a whole table: a sync right behind a sync finds every row
/// clean and leaves the table as it is.
pub proof fn law_table_sync_idempotent(rows: Map<Seq<u8>, RowSides>, lens: RowLens)
    requires
        table_synced(rows, lens) is Some,
    ensures
        table_synced(table_synced(rows, lens)->Some_0, lens) == table_synced(rows, lens),
{
    let t = table_synced(rows, lens)->Some_0;
    assert forall|k: Seq<u8>| #[trigger] t.contains_key(k) implies synced(t[k], lens) == Some(t[k]) by {
        assert(rows.contains_key(k));
        law_sync_idempotent(rows[k], lens);
    }
    assert(t.map_values(|r: RowSides| synced(r, lens)->Some_0) =~= t);
}

} // verus!
