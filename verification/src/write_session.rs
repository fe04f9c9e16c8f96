//! The state of an interactive transaction: its savepoints, and whether a
//! statement left it torn.
//!
//! A statement that fails after it may have applied part of its effects
//! poisons the transaction. A poisoned transaction runs nothing and cannot be
//! committed.

use vstd::prelude::*;
use vstd::string::StringExecFns;
use crate::error::{Error, Fault, Result};
use crate::plan::PlanStmt;
use crate::utf8::{same_folded, same_text_folded};

verus! {

/// The state of an interactive transaction. The snapshots of the savepoints
/// are kept by the caller, in the same order.
#[derive(Debug)]
pub struct WriteState {
    poisoned: bool,
    savepoints: Vec<String>,
}

/// What a statement does in a transaction.
#[derive(Debug, Clone, Copy, PartialEq, Eq, Structural)]
pub enum Control {
    /// It is executed.
    Run,
    /// It opens a savepoint, once a snapshot has been taken.
    Open,
    /// It closed the savepoints from this place on; their changes stay.
    Released(usize),
    /// The changes since the savepoint at this place are to be undone.
    Undo(usize),
}

/// How a schema change ended.
#[derive(Debug, Clone, Copy, PartialEq, Eq, Structural)]
pub enum DdlOutcome {
    /// It was applied; whether the schema could be read back.
    Applied { reloaded: bool },
    /// It failed; whether its effects could be undone.
    Failed { undone: bool },
}

/// The innermost of the first `n` savepoints of that name, up to case.
pub open spec fn innermost(savepoints: Seq<String>, name: Seq<char>, n: int) -> Option<int>
    decreases n,
{
    if n <= 0 || n > savepoints.len() {
        None
    } else if same_folded(savepoints[n - 1]@, name) {
        Some(n - 1)
    } else {
        innermost(savepoints, name, n - 1)
    }
}

pub open spec fn poisoned_fault() -> Fault {
    Fault::Unsupported("transaction poisoned by a partially-applied statement; rollback and retry"@)
}

pub open spec fn no_savepoint(name: Seq<char>) -> Fault {
    Fault::Bind("no such savepoint: "@ + name)
}

fn poisoned_err() -> (e: Error)
    ensures
        e@ == poisoned_fault(),
{
    Error::Unsupported(
        String::from_str("transaction poisoned by a partially-applied statement; rollback and retry"),
    )
}

fn no_such_savepoint(name: &str) -> (e: Error)
    ensures
        e@ == no_savepoint(name@),
{
    let mut m = String::from_str("no such savepoint: ");
    m.append(name);
    Error::Bind(m)
}

/// The statement begins or ends a transaction.
pub open spec fn is_transaction_control(stmt: PlanStmt) -> bool {
    stmt is Begin || stmt is Commit || stmt is Rollback
}

impl WriteState {
    /// A statement left the transaction torn.
    pub closed spec fn torn(&self) -> bool {
        self.poisoned
    }

    /// The names of the open savepoints, innermost last.
    pub closed spec fn open_names(&self) -> Seq<String> {
        self.savepoints@
    }

    /// The names of the open savepoints, innermost last.
    pub fn savepoints(&self) -> (r: &Vec<String>)
        ensures
            r@ == self.open_names(),
    {
        &self.savepoints
    }

    /// A transaction that has just begun.
    pub fn new() -> (s: WriteState)
        ensures
            !s.torn(),
            s.open_names().len() == 0,
    {
        WriteState { poisoned: false, savepoints: Vec::new() }
    }

    /// Nothing runs in a poisoned transaction, and it is not committed: the
    /// caller rolls it back.
    pub fn gate(&self) -> (r: Result<()>)
        ensures
            match r {
                Ok(_) => !self.torn(),
                Err(e) => self.torn() && e@ == poisoned_fault(),
            },
    {
        if self.poisoned {
            return Err(poisoned_err());
        }
        Ok(())
    }

    /// The innermost savepoint of a name, up to case.
    pub fn find_savepoint(&self, name: &str) -> (r: Option<usize>)
        ensures
            match r {
                Some(i) => i < self.open_names().len() && innermost(self.open_names(), name@, self.open_names().len() as int) == Some(
                    i as int,
                ),
                None => innermost(self.open_names(), name@, self.open_names().len() as int) is None,
            },
    {
        let mut n: usize = self.savepoints.len();
        while n > 0
            invariant
                n <= self.savepoints@.len(),
                innermost(self.savepoints@, name@, self.savepoints@.len() as int) == innermost(self.savepoints@, name@, n as int),
            decreases n,
        {
            if same_text_folded(self.savepoints[n - 1].as_str(), name) {
                return Some(n - 1);
            }
            n -= 1;
        }
        None
    }

    /// What a statement does here. RELEASE closes the innermost savepoint of
    /// the name and those above it; ROLLBACK TO closes those above it once the
    /// changes are undone.
    pub fn control(&mut self, stmt: &PlanStmt) -> (r: Result<Control>)
        ensures
            final(self).torn() == old(self).torn(),
            r is Err ==> *final(self) == *old(self),
            match *stmt {
                PlanStmt::Savepoint(_) => r == Ok::<Control, Error>(Control::Open) && *final(self) == *old(self),
                PlanStmt::Release(name) => match innermost(old(self).open_names(), name@, old(self).open_names().len() as int) {
                    Some(i) => r is Ok && r->Ok_0 == Control::Released(i as usize) && final(self).open_names() == old(self).open_names().take(i),
                    None => r is Err && r->Err_0@ == no_savepoint(name@),
                },
                PlanStmt::RollbackTo(name) => match innermost(old(self).open_names(), name@, old(self).open_names().len() as int) {
                    Some(i) => r is Ok && r->Ok_0 == Control::Undo(i as usize) && *final(self) == *old(self),
                    None => r is Err && r->Err_0@ == no_savepoint(name@),
                },
                other => if is_transaction_control(other) {
                    r is Err && r->Err_0@ == Fault::Unsupported(
                        "the session already is a transaction; use WriteSession::commit()/rollback()"@,
                    )
                } else {
                    r == Ok::<Control, Error>(Control::Run) && *final(self) == *old(self)
                },
            },
    {
        match stmt {
            PlanStmt::Savepoint(_) => Ok(Control::Open),
            PlanStmt::Release(name) => match self.find_savepoint(name.as_str()) {
                Some(i) => {
                    self.savepoints.truncate(i);
                    Ok(Control::Released(i))
                },
                None => Err(no_such_savepoint(name.as_str())),
            },
            PlanStmt::RollbackTo(name) => match self.find_savepoint(name.as_str()) {
                Some(i) => Ok(Control::Undo(i)),
                None => Err(no_such_savepoint(name.as_str())),
            },
            PlanStmt::Begin | PlanStmt::Commit | PlanStmt::Rollback => Err(
                Error::Unsupported(
                    String::from_str("the session already is a transaction; use WriteSession::commit()/rollback()"),
                ),
            ),
            _ => Ok(Control::Run),
        }
    }

    /// A savepoint whose snapshot has been taken.
    pub fn open_savepoint(&mut self, name: String)
        ensures
            final(self).torn() == old(self).torn(),
            final(self).open_names() == old(self).open_names().push(name),
    {
        self.savepoints.push(name);
    }

    /// The changes since the savepoint at a place were to be undone. Where they
    /// were, the savepoints above it are closed and it stays; a refusal leaves
    /// them all as they are.
    pub fn after_undo(&mut self, at: usize, undone: bool)
        requires
            at < old(self).open_names().len(),
        ensures
            final(self).torn() == old(self).torn(),
            final(self).open_names() == (if undone { old(self).open_names().take(at + 1) } else { old(self).open_names() }),
    {
        if undone {
            assert(at < self.savepoints.len());
            self.savepoints.truncate(at + 1);
        }
    }

    /// A statement has been executed. One that failed after it may have
    /// applied part of its effects poisons the transaction.
    pub fn after_statement(&mut self, failed: bool, partial: bool)
        ensures
            final(self).torn() == (old(self).torn() || (failed && partial)),
            final(self).open_names() == old(self).open_names(),
    {
        if failed && partial {
            self.poisoned = true;
        }
    }

    /// Whether a schema change may start. Tells whether there is anything to
    /// do: statistics and index rebuilds are accepted and do nothing.
    pub fn ddl_gate(&self, no_op: bool) -> (r: Result<bool>)
        ensures
            match r {
                Ok(b) => !self.torn() && self.open_names().len() == 0 && b == !no_op,
                Err(e) => if self.torn() {
                    e@ == poisoned_fault()
                } else {
                    self.open_names().len() > 0 && e@ == Fault::Unsupported(
                        "DDL inside a SAVEPOINT is not supported by mpedb; RELEASE or ROLLBACK the savepoint first"@,
                    )
                },
            },
    {
        if self.poisoned {
            return Err(poisoned_err());
        }
        if self.savepoints.len() > 0 {
            return Err(
                Error::Unsupported(
                    String::from_str(
                        "DDL inside a SAVEPOINT is not supported by mpedb; RELEASE or ROLLBACK the savepoint first",
                    ),
                ),
            );
        }
        Ok(!no_op)
    }

    /// A schema change has ended. Tells whether cached plans are to be
    /// dropped. A change that cannot be read back, or cannot be undone after
    /// it failed, poisons the transaction.
    pub fn after_ddl(&mut self, outcome: DdlOutcome) -> (drop_plans: bool)
        ensures
            drop_plans == (outcome == DdlOutcome::Applied { reloaded: true }),
            final(self).torn() == (old(self).torn() || outcome == (DdlOutcome::Applied { reloaded: false }) || outcome == (
            DdlOutcome::Failed { undone: false })),
            final(self).open_names() == old(self).open_names(),
    {
        match outcome {
            DdlOutcome::Applied { reloaded } => {
                if !reloaded {
                    self.poisoned = true;
                }
                reloaded
            },
            DdlOutcome::Failed { undone } => {
                if !undone {
                    self.poisoned = true;
                }
                false
            },
        }
    }
}

// ---------------------------------------------------------------- laws

proof fn lemma_innermost_take(savepoints: Seq<String>, name: Seq<char>, n: int, m: int)
    requires
        0 <= n <= m <= savepoints.len(),
    ensures
        innermost(savepoints.take(m), name, n) == innermost(savepoints, name, n),
    decreases n,
{
    if n > 0 && !same_folded(savepoints[n - 1]@, name) {
        lemma_innermost_take(savepoints, name, n - 1, m);
    }
}

/// A savepoint that was rolled back to is still open, and can be rolled back
/// to again.
pub proof fn law_rollback_keeps_savepoint(savepoints: Seq<String>, name: Seq<char>, i: int)
    requires
        innermost(savepoints, name, savepoints.len() as int) == Some(i),
    ensures
        0 <= i < savepoints.len(),
        innermost(savepoints.take(i + 1), name, i + 1) == Some(i),
{
    lemma_innermost_found(savepoints, name, savepoints.len() as int);
    lemma_innermost_take(savepoints, name, i + 1, i + 1);
}

proof fn lemma_innermost_found(savepoints: Seq<String>, name: Seq<char>, n: int)
    requires
        0 <= n <= savepoints.len(),
    ensures
        innermost(savepoints, name, n) matches Some(i) ==> 0 <= i < n && same_folded(savepoints[i]@, name),
    decreases n,
{
    if n > 0 && !same_folded(savepoints[n - 1]@, name) {
        lemma_innermost_found(savepoints, name, n - 1);
    }
}

/// A released savepoint uncovers the next outer one of its name.
pub proof fn law_release_uncovers_outer(savepoints: Seq<String>, name: Seq<char>, i: int)
    requires
        innermost(savepoints, name, savepoints.len() as int) == Some(i),
    ensures
        0 <= i < savepoints.len(),
        innermost(savepoints.take(i), name, i) == innermost(savepoints, name, i),
{
    lemma_innermost_found(savepoints, name, savepoints.len() as int);
    lemma_innermost_take(savepoints, name, i, i);
}

/// A savepoint that was just opened is the innermost of its name, whatever
/// case it is asked for in.
pub proof fn law_newest_savepoint_wins(savepoints: Seq<String>, opened: String, name: Seq<char>)
    requires
        same_folded(opened@, name),
    ensures
        innermost(savepoints.push(opened), name, savepoints.len() as int + 1) == Some(savepoints.len() as int),
{
}

/// A name means the innermost open savepoint that has it, up to case, and means
/// one wherever one has it.
pub proof fn law_savepoint_found(savepoints: Seq<String>, name: Seq<char>, n: int)
    requires
        0 <= n <= savepoints.len(),
    ensures
        match innermost(savepoints, name, n) {
            Some(i) => 0 <= i < n && same_folded(savepoints[i]@, name) && forall|j: int|
                i < j < n ==> !same_folded((#[trigger] savepoints[j])@, name),
            None => forall|j: int| 0 <= j < n ==> !same_folded((#[trigger] savepoints[j])@, name),
        },
    decreases n,
{
    if n > 0 {
        law_savepoint_found(savepoints, name, n - 1);
    }
}

} // verus!
