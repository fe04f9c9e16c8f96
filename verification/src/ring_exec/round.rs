//! Leading a round: run every member of a batch in one transaction, each under
//! its own savepoint, then the leader's own statement, then commit.
//!
//! A failure that its savepoint cannot undo exactly tears the round: the
//! whole transaction starts over with that member's error decided in advance,
//! so that it is staged and never run again.

use vstd::prelude::*;
use vstd::utf8::encode_utf8;
use crate::bytes::copy_bytes;
use crate::error::{Error, Fault, Result};
use crate::ring_exec::wire::{encode_error, wire_text};
use crate::shard::ExecResult;

verus! {

/// How many rows a statement of a batch wrote; a batch holds nothing that
/// answers with rows.
pub fn execute_prepared(r: ExecResult) -> (n: Result<u64>)
    ensures
        match r {
            ExecResult::Affected(k) => n == Ok::<u64, Error>(k),
            _ => n is Err && n->Err_0@ == Fault::Internal("write plan returned rows"@),
        },
{
    match r {
        ExecResult::Affected(k) => Ok(k),
        _ => Err(Error::Internal("write plan returned rows".to_owned())),
    }
}

/// Whether a statement's savepoint undoes its failure exactly: it applied
/// nothing, or the transaction was pristine when it began and it touched no
/// extents.
pub fn undo_is_exact(partial: bool, pristine_before: bool, extents_untouched: bool) -> (r: bool)
    ensures
        r == (!partial || (pristine_before && extents_untouched)),
{
    !partial || (pristine_before && extents_untouched)
}

/// Whether commits are expensive enough to group: the database syncs each
/// commit or log record, writers are not optimistic, and grouping is not
/// switched off.
pub fn ring_enabled(switched_off: bool, optimistic: bool, syncs_commits: bool) -> (r: bool)
    ensures
        r == (!switched_off && !optimistic && syncs_commits),
{
    !switched_off && !optimistic && syncs_commits
}

/// A member of a batch; `load_error` is why its plan or parameters did not
/// load.
pub struct Member {
    pub idx: u32,
    pub word: u64,
    pub load_error: Option<Error>,
}

/// A result for a member's slot.
pub struct Staged {
    pub idx: u32,
    pub word: u64,
    pub affected: u64,
    pub code: u32,
    pub msg: Vec<u8>,
}

/// A round in progress.
pub struct Round {
    members: Vec<Member>,
    has_own: bool,
    decided: Vec<Option<(u32, Vec<u8>)>>,
    own_decided: Option<Error>,
    staged: Vec<Staged>,
    own_result: Option<Result<u64>>,
    restarts: usize,
}

/// What the leader does next.
pub enum RoundAction {
    /// Stage this result; nothing runs.
    Stage(Staged),
    /// Take a savepoint and run this member.
    Run(usize),
    /// Take a savepoint and run the leader's own statement.
    RunOwn,
    /// Commit, and post the staged results under the lock.
    Commit,
    /// There is nothing to commit.
    Abort,
}

/// What the leader does after a statement ran.
pub enum AfterRun {
    /// It stands; stage this result.
    Stage(Staged),
    /// Roll back to its savepoint, then stage this result.
    UndoAndStage(Staged),
    /// The leader's own statement stands.
    Keep,
    /// Roll back to the own statement's savepoint.
    Undo,
    /// The transaction is torn: start it over.
    Restart,
}

/// How many of the decisions are made.
pub open spec fn decisions(decided: Seq<Option<(u32, Vec<u8>)>>) -> nat
    decreases decided.len(),
{
    if decided.len() == 0 {
        0
    } else {
        decisions(decided.drop_last()) + (if decided.last() is Some { 1nat } else { 0nat })
    }
}

/// The staged result of a member that failed with the fault `f`.
pub open spec fn stages_fault(s: Staged, m: Member, f: Fault) -> bool {
    &&& s.idx == m.idx
    &&& s.word == m.word
    &&& s.affected == 0
    &&& s.code == wire_text(f).0
    &&& s.msg@ == encode_utf8(wire_text(f).1)
}

impl Round {
    /// The members, in the order in which they run.
    pub closed spec fn batch(&self) -> Seq<Member> {
        self.members@
    }

    /// The leader brought a statement of its own.
    pub closed spec fn with_own(&self) -> bool {
        self.has_own
    }

    /// Errors decided by an earlier, torn attempt.
    pub closed spec fn verdicts(&self) -> Seq<Option<(u32, Vec<u8>)>> {
        self.decided@
    }

    /// The error that was decided for the own statement.
    pub closed spec fn own_verdict(&self) -> Option<Error> {
        self.own_decided
    }

    /// Results staged in this attempt, one for each member so far.
    pub closed spec fn results(&self) -> Seq<Staged> {
        self.staged@
    }

    /// The outcome of the own statement.
    pub closed spec fn own_answer(&self) -> Option<Result<u64>> {
        self.own_result
    }

    /// How often the round started over.
    pub closed spec fn restart_count(&self) -> nat {
        self.restarts as nat
    }

    /// Every member has a place for its decision; staged results go member by
    /// member; each restart decided one more statement.
    pub closed spec fn wf(&self) -> bool {
        &&& self.decided@.len() == self.members@.len()
        &&& self.staged@.len() <= self.members@.len()
        &&& forall|i: int| 0 <= i < self.staged@.len() ==> (#[trigger] self.staged@[i]).idx == self.members@[i].idx
            && self.staged@[i].word == self.members@[i].word
        &&& self.own_result is Some ==> self.staged@.len() == self.members@.len() && self.has_own
        &&& self.own_result is None ==> self.restarts == decisions(self.decided@) + (if self.own_decided is Some { 1nat } else { 0nat })
        &&& self.own_decided is Some ==> self.has_own
        &&& self.restarts <= self.members@.len() + 1
    }

    /// Everything but the staged results and the own outcome is as in `other`.
    pub open spec fn same_course(&self, other: &Round) -> bool {
        &&& self.batch() == other.batch()
        &&& self.with_own() == other.with_own()
        &&& self.verdicts() == other.verdicts()
        &&& self.own_verdict() == other.own_verdict()
        &&& self.restart_count() == other.restart_count()
    }

    /// Begin a round on a batch, in the order in which it runs.
    pub fn begin(members: Vec<Member>, has_own: bool) -> (r: Round)
        ensures
            r.wf(),
            r.batch() == members@,
            r.with_own() == has_own,
            r.results().len() == 0,
            r.own_answer() is None,
            r.own_verdict() is None,
            r.restart_count() == 0,
            r.verdicts().len() == members@.len(),
            forall|i: int| 0 <= i < members@.len() ==> (#[trigger] r.verdicts()[i]) is None,
    {
        let mut decided: Vec<Option<(u32, Vec<u8>)>> = Vec::with_capacity(members.len());
        let mut i: usize = 0;
        while i < members.len()
            invariant
                i <= members@.len(),
                decided@.len() == i,
                forall|j: int| 0 <= j < i ==> (#[trigger] decided@[j]) is None,
                decisions(decided@) == 0,
            decreases members@.len() - i,
        {
            let ghost before = decided@;
            decided.push(None);
            proof {
                assert(decided@.drop_last() =~= before);
            }
            i += 1;
        }
        Round { members, has_own, decided, own_decided: None, staged: Vec::new(), own_result: None, restarts: 0 }
    }

    /// What the leader does next: members in order, then the own statement,
    /// then the end. What is decided in advance, and what did not load, is
    /// staged without running.
    pub fn next(&mut self) -> (a: RoundAction)
        requires
            old(self).wf(),
        ensures
            final(self).wf(),
            final(self).batch() == old(self).batch(),
            final(self).with_own() == old(self).with_own(),
            final(self).verdicts() == old(self).verdicts(),
            final(self).restart_count() == old(self).restart_count(),
            final(self).results() == old(self).results(),
            old(self).results().len() <= old(self).batch().len(),
            ({
                let n = old(self).results().len() as int;
                if n < old(self).batch().len() {
                    &&& old(self).own_answer() is None
                    &&& final(self).own_answer() is None
                    &&& final(self).own_verdict() == old(self).own_verdict()
                    &&& match (old(self).verdicts()[n], old(self).batch()[n].load_error) {
                        (Some(d), _) => a matches RoundAction::Stage(s) && s.idx == old(self).batch()[n].idx
                            && s.word == old(self).batch()[n].word && s.affected == 0 && s.code == d.0 && s.msg@ == d.1@,
                        (None, Some(e)) => a matches RoundAction::Stage(s) && stages_fault(s, old(self).batch()[n], e@),
                        (None, None) => a == RoundAction::Run(n as usize),
                    }
                } else if old(self).with_own() && old(self).own_answer() is None && old(self).own_verdict() is None {
                    &&& a == RoundAction::RunOwn
                    &&& final(self).own_answer() is None
                    &&& final(self).own_verdict() is None
                } else {
                    &&& final(self).own_answer() == (match (old(self).own_answer(), old(self).own_verdict()) {
                        (None, Some(e)) => Some(Err::<u64, Error>(e)),
                        (r, _) => r,
                    })
                    &&& a == (if n == 0 && !(final(self).own_answer() matches Some(Ok(_))) {
                        RoundAction::Abort
                    } else {
                        RoundAction::Commit
                    })
                }
            }),
    {
        let n: usize = self.staged.len();
        if n < self.members.len() {
            let m = &self.members[n];
            if let Some(d) = &self.decided[n] {
                return RoundAction::Stage(
                    Staged { idx: m.idx, word: m.word, affected: 0, code: d.0, msg: copy_bytes(d.1.as_slice()) },
                );
            }
            if let Some(e) = &m.load_error {
                let (code, msg) = encode_error(e);
                return RoundAction::Stage(Staged { idx: m.idx, word: m.word, affected: 0, code, msg });
            }
            return RoundAction::Run(n);
        }
        if self.own_result.is_none() {
            if self.own_decided.is_some() {
                let e = self.own_decided.take();
                self.own_result = Some(Err(e.unwrap()));
            } else if self.has_own {
                return RoundAction::RunOwn;
            }
        }
        let own_ok = match &self.own_result {
            Some(Ok(_)) => true,
            _ => false,
        };
        if n == 0 && !own_ok {
            RoundAction::Abort
        } else {
            RoundAction::Commit
        }
    }

    /// Note that the result of the next member is staged.
    pub fn note_staged(&mut self, s: Staged)
        requires
            old(self).wf(),
            old(self).results().len() < old(self).batch().len(),
            old(self).own_answer() is None,
            s.idx == old(self).batch()[old(self).results().len() as int].idx,
            s.word == old(self).batch()[old(self).results().len() as int].word,
        ensures
            final(self).wf(),
            final(self).same_course(old(self)),
            final(self).own_answer() == old(self).own_answer(),
            final(self).results() == old(self).results().push(s),
    {
        self.staged.push(s);
    }

    /// What the leader does after member `i` ran: a success and a failure that
    /// its savepoint undoes are staged; any other failure is decided for good
    /// and the round starts over.
    pub fn after_member(&mut self, i: usize, done: Result<u64>, undo_exact: bool) -> (a: AfterRun)
        requires
            old(self).wf(),
            i == old(self).results().len(),
            i < old(self).batch().len(),
            old(self).verdicts()[i as int] is None,
            old(self).own_answer() is None,
            old(self).batch().len() < usize::MAX,
        ensures
            final(self).wf(),
            final(self).batch() == old(self).batch(),
            final(self).with_own() == old(self).with_own(),
            final(self).own_verdict() == old(self).own_verdict(),
            final(self).own_answer() is None,
            match done {
                Ok(n) => a matches AfterRun::Stage(s) && s.idx == old(self).batch()[i as int].idx
                    && s.word == old(self).batch()[i as int].word && s.affected == n && s.code == 0 && s.msg@.len() == 0
                    && *final(self) == *old(self),
                Err(e) => if undo_exact {
                    a matches AfterRun::UndoAndStage(s) && stages_fault(s, old(self).batch()[i as int], e@)
                        && *final(self) == *old(self)
                } else {
                    &&& a == AfterRun::Restart
                    &&& final(self).results().len() == 0
                    &&& final(self).restart_count() == old(self).restart_count() + 1
                    &&& final(self).verdicts()[i as int] matches Some(d) && d.0 == wire_text(e@).0 && d.1@ == encode_utf8(wire_text(e@).1)
                    &&& forall|j: int| 0 <= j < final(self).verdicts().len() && j != i ==> final(self).verdicts()[j] == old(self).verdicts()[j]
                },
            },
    {
        let m = &self.members[i];
        match done {
            Ok(n) => AfterRun::Stage(
                Staged { idx: m.idx, word: m.word, affected: n, code: 0, msg: Vec::new() },
            ),
            Err(e) => {
                let (code, msg) = encode_error(&e);
                if undo_exact {
                    return AfterRun::UndoAndStage(
                        Staged { idx: m.idx, word: m.word, affected: 0, code, msg },
                    );
                }
                proof {
                    lemma_decide_one(self.decided@, i as int, Some((code, msg)));
                    lemma_decisions_bound(self.decided@.update(i as int, Some((code, msg))));
                }
                self.decided.set(i, Some((code, msg)));
                self.staged.clear();
                self.restarts = self.restarts + 1;
                AfterRun::Restart
            },
        }
    }

    /// The results to post once the round is over, and the outcome of the own
    /// statement.
    pub fn finish(self) -> (r: (Vec<Staged>, Option<Result<u64>>))
        requires
            self.wf(),
        ensures
            r.0@ == self.results(),
            r.1 == self.own_answer(),
    {
        (self.staged, self.own_result)
    }

    /// How often the round started over.
    pub fn restarts(&self) -> (n: usize)
        ensures
            n == self.restart_count(),
    {
        self.restarts
    }

    /// The results to post, one for each member so far.
    pub fn staged(&self) -> (r: &Vec<Staged>)
        ensures
            r@ == self.results(),
    {
        &self.staged
    }

    /// What the leader does after its own statement ran.
    pub fn after_own(&mut self, done: Result<u64>, undo_exact: bool) -> (a: AfterRun)
        requires
            old(self).wf(),
            old(self).with_own(),
            old(self).results().len() == old(self).batch().len(),
            old(self).own_answer() is None,
            old(self).own_verdict() is None,
            old(self).batch().len() < usize::MAX,
        ensures
            final(self).wf(),
            final(self).batch() == old(self).batch(),
            final(self).with_own() == old(self).with_own(),
            final(self).verdicts() == old(self).verdicts(),
            match done {
                Ok(n) => a == AfterRun::Keep && final(self).same_course(old(self)) && final(self).results() == old(self).results()
                    && final(self).own_answer() == Some(Ok::<u64, Error>(n)),
                Err(e) => if undo_exact {
                    a == AfterRun::Undo && final(self).same_course(old(self)) && final(self).results() == old(self).results()
                        && final(self).own_answer() == Some(Err::<u64, Error>(e))
                } else {
                    &&& a == AfterRun::Restart
                    &&& final(self).own_verdict() == Some(e)
                    &&& final(self).own_answer() is None
                    &&& final(self).results().len() == 0
                    &&& final(self).restart_count() == old(self).restart_count() + 1
                },
            },
    {
        proof {
            lemma_decisions_bound(self.decided@);
        }
        match done {
            Ok(n) => {
                self.own_result = Some(Ok(n));
                AfterRun::Keep
            },
            Err(e) => {
                if undo_exact {
                    self.own_result = Some(Err(e));
                    AfterRun::Undo
                } else {
                    self.own_decided = Some(e);
                    self.staged.clear();
                    self.restarts = self.restarts + 1;
                    AfterRun::Restart
                }
            },
        }
    }
}

proof fn lemma_decide_one(decided: Seq<Option<(u32, Vec<u8>)>>, i: int, d: Option<(u32, Vec<u8>)>)
    requires
        0 <= i < decided.len(),
        decided[i] is None,
        d is Some,
    ensures
        decisions(decided.update(i, d)) == decisions(decided) + 1,
    decreases decided.len(),
{
    let u = decided.update(i, d);
    if i == decided.len() - 1 {
        assert(u.drop_last() =~= decided.drop_last());
    } else {
        assert(u.drop_last() =~= decided.drop_last().update(i, d));
        lemma_decide_one(decided.drop_last(), i, d);
        assert(u.last() == decided.last());
    }
}

proof fn lemma_decisions_bound(decided: Seq<Option<(u32, Vec<u8>)>>)
    ensures
        decisions(decided) <= decided.len(),
    decreases decided.len(),
{
    if decided.len() > 0 {
        lemma_decisions_bound(decided.drop_last());
    }
}

/// A round ends: it starts over at most once for each member and once for the
/// leader's own statement.
pub proof fn law_round_restarts_bounded(r: Round)
    requires
        r.wf(),
    ensures
        r.restart_count() <= r.batch().len() + 1,
        !r.with_own() && r.own_answer() is None ==> r.restart_count() <= r.batch().len(),
{
    lemma_decisions_bound(r.verdicts());
}

/// When a round commits, every member has exactly one staged result, for its
/// own slot and incarnation.
pub proof fn law_commit_answers_every_member(r: Round, i: int)
    requires
        r.wf(),
        r.results().len() == r.batch().len(),
        0 <= i < r.batch().len(),
    ensures
        r.results()[i].idx == r.batch()[i].idx,
        r.results()[i].word == r.batch()[i].word,
{
}

} // verus!
