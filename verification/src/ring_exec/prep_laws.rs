//! What a whole optimistic preparation comes to, for every answer of the
//! engine: a DELETE removes the row that it found and whose filter holds, an
//! UPDATE stores the row that its assignments make of the one found, an INSERT
//! stores the row that its sources name where none has its key.

use vstd::prelude::*;
use crate::error::{Error, Fault, Result};
use crate::plan::{law_key_has_its_slots, part_values, AccessPath, CompiledPlan, DefaultExpr, ExprProgram, InsertSource, KeyPart, PlanStmt, TableDef};
use crate::ring_exec::guard::key_hash_of;
use crate::ring_exec::optimistic::{
    assigned_row, assignments, assigns_from, begins_with_step, follows, mutated, no_null, picked, source_row, source_value, validated, ApplyOp, OptAction, Prep,
    PrepEvent, PrepState, PrepStep,
};
use crate::value::{models, Value, ValueModel};

verus! {

/// What the engine answers on one snapshot: the encoding of a key, the row
/// under a key, whether the filter holds on a row, what assignment number `i`
/// gives on a row, whether a row is valid, and the encoding of a row.
pub struct Answers {
    pub key: spec_fn(Seq<ValueModel>) -> Seq<u8>,
    pub row: spec_fn(Seq<ValueModel>) -> Option<Seq<ValueModel>>,
    pub holds: spec_fn(Seq<ValueModel>) -> std::result::Result<bool, Fault>,
    pub eval: spec_fn(int, Seq<ValueModel>) -> std::result::Result<ValueModel, Fault>,
    pub valid: spec_fn(Seq<ValueModel>) -> std::result::Result<(), Fault>,
    pub encode: spec_fn(Seq<ValueModel>) -> Option<Seq<u8>>,
}

pub open spec fn says_key(a: Answers, pk: Seq<Value>, e: PrepEvent) -> bool {
    e matches PrepEvent::Key(k) && k@ == (a.key)(models(pk))
}

pub open spec fn says_row(a: Answers, pk: Seq<Value>, e: PrepEvent) -> bool {
    match e {
        PrepEvent::Row(None) => (a.row)(models(pk)) is None,
        PrepEvent::Row(Some(r)) => (a.row)(models(pk)) == Some(models(r@)),
        _ => false,
    }
}

pub open spec fn says_held(a: Answers, row: Seq<Value>, e: PrepEvent) -> bool {
    match e {
        PrepEvent::Filtered(Ok(b)) => (a.holds)(models(row)) == Ok::<bool, Fault>(b),
        PrepEvent::Filtered(Err(x)) => (a.holds)(models(row)) == Err::<bool, Fault>(x@),
        _ => false,
    }
}

pub open spec fn says_valid(a: Answers, row: Seq<Value>, e: PrepEvent) -> bool {
    match e {
        PrepEvent::Validated(Ok(_)) => (a.valid)(models(row)) is Ok,
        PrepEvent::Validated(Err(x)) => (a.valid)(models(row)) == Err::<(), Fault>(x@),
        _ => false,
    }
}

pub open spec fn says_encoded(a: Answers, row: Seq<Value>, e: PrepEvent) -> bool {
    match e {
        PrepEvent::Encoded(None) => (a.encode)(models(row)) is None,
        PrepEvent::Encoded(Some(p)) => (a.encode)(models(row)) == Some(p@),
        _ => false,
    }
}

/// The event is the engine's answer to what the state waits for.
pub open spec fn answers(a: Answers, state: PrepState, e: PrepEvent) -> bool {
    match state {
        PrepState::InsertValidate { row, pk: _ } => says_valid(a, row@, e),
        PrepState::InsertKey { row: _, pk } => says_key(a, pk@, e),
        PrepState::InsertLookup { row: _, pk, key: _ } => says_row(a, pk@, e),
        PrepState::InsertEncode { row, key: _ } => says_encoded(a, row@, e),
        PrepState::UpdateKey { pk } => says_key(a, pk@, e),
        PrepState::UpdateLookup { pk, key: _ } => says_row(a, pk@, e),
        PrepState::UpdateFilter { key: _, old } => says_held(a, old@, e),
        PrepState::UpdateSet { key: _, old, new: _, i } => match e {
            PrepEvent::Computed(Ok(v)) => (a.eval)(i as int, models(old@)) == Ok::<ValueModel, Fault>(v.model()),
            PrepEvent::Computed(Err(x)) => (a.eval)(i as int, models(old@)) == Err::<ValueModel, Fault>(x@),
            _ => false,
        },
        PrepState::UpdateValidate { key: _, new } => says_valid(a, new@, e),
        PrepState::UpdateEncode { key: _, new } => says_encoded(a, new@, e),
        PrepState::DeleteKey { pk } => says_key(a, pk@, e),
        PrepState::DeleteLookup { pk, key: _ } => says_row(a, pk@, e),
        PrepState::DeleteFilter { key: _, old } => says_held(a, old@, e),
    }
}

/// A statement on table `t`, as it is prepared on a snapshot.
pub struct Prepared {
    pub plan: CompiledPlan,
    pub params: Seq<Value>,
    pub t: TableDef,
    pub now: int,
    pub table: u32,
    pub name: Seq<char>,
    pub snap: u64,
    /// What was waited for, and what came.
    pub states: Seq<PrepState>,
    pub events: Seq<PrepEvent>,
    /// What it came to.
    pub prep: Prep,
}

impl Prepared {
    /// The step behind state number `k`.
    pub open spec fn after(self, k: int) -> PrepStep {
        if k + 1 < self.states.len() {
            PrepStep::Wait(self.states[k + 1])
        } else {
            PrepStep::Done(self.prep)
        }
    }

    /// The preparation ran from its first step to its last, and the engine
    /// answered every time.
    pub open spec fn ran(self, a: Answers) -> bool {
        &&& begins_with_step(self.plan, self.params, self.t, self.now, self.after(-1))
        &&& self.events.len() == self.states.len()
        &&& forall|k: int|
            0 <= k < self.states.len() ==> follows(
                self.plan,
                self.table,
                self.name,
                self.snap,
                #[trigger] self.states[k],
                self.events[k],
                self.after(k),
            )
        &&& forall|k: int| 0 <= k < self.states.len() ==> answers(a, #[trigger] self.states[k], self.events[k])
    }

    /// It came to an outcome that holds if the key was not touched.
    pub open spec fn confirmed(self, key: Seq<u8>, n: std::result::Result<u64, Fault>) -> bool {
        self.prep matches Prep::Confirm { table, key_hash, snap, outcome } && table == self.table && snap == self.snap && key_hash == key_hash_of(
            key,
        ) && match (outcome, n) {
            (Ok(x), Ok(y)) => x == y,
            (Err(e), Err(f)) => e@ == f,
            _ => false,
        }
    }

    /// It came to a mutation of one row under the key.
    pub open spec fn applies(self, key: Seq<u8>, op: ApplyOp) -> bool {
        self.prep matches Prep::Apply { table, key: k, key_hash, snap, op: o, affected } && table == self.table && k@ == key && key_hash
            == key_hash_of(key) && snap == self.snap && o == op && affected == 1
    }
}

/// The values `key` are what the key parts are bound to.
pub open spec fn bound_to(parts: Seq<KeyPart>, consts: Seq<Value>, params: Seq<Value>, key: Seq<ValueModel>) -> bool {
    &&& key.len() == parts.len()
    &&& forall|j: int|
        0 <= j < parts.len() ==> match #[trigger] parts[j] {
            KeyPart::Param(i) => i < params.len() && key[j] == params[i as int].model(),
            KeyPart::Const(i) => i < consts.len() && key[j] == consts[i as int].model(),
            KeyPart::OuterCol(_) => false,
        }
}

// ---------------------------------------------------------------- DELETE

/// A whole DELETE of one key. The row under the key is removed exactly where
/// there is one and the statement has no filter or its filter holds on that
/// row. Where there is none, or the filter does not hold, no row is removed
/// and zero rows are reported; where the filter fails, its fault is.
pub proof fn law_delete_removes_the_matching_row(p: Prepared, a: Answers, parts: Vec<KeyPart>, filter: Option<ExprProgram>, key: Seq<ValueModel>)
    requires
        p.ran(a),
        p.plan.stmt matches PlanStmt::Delete { table: _, access: AccessPath::PkPoint(q), filter: f } && q == parts && f == filter,
        bound_to(parts@, p.plan.consts@, p.params, key),
        forall|i: int| 0 <= i < key.len() ==> #[trigger] key[i] != ValueModel::Null,
    ensures
        match (a.row)(key) {
            None => p.confirmed((a.key)(key), Ok(0)),
            Some(row) => if filter is None {
                p.applies((a.key)(key), ApplyOp::Delete)
            } else {
                match (a.holds)(row) {
                    Ok(true) => p.applies((a.key)(key), ApplyOp::Delete),
                    Ok(false) => p.confirmed((a.key)(key), Ok(0)),
                    Err(f) => p.confirmed((a.key)(key), Err(f)),
                }
            },
        },
{
    law_key_has_its_slots(parts@, p.plan.consts@, p.params, key);
    assert(p.after(-1) is Wait);
    assert(p.states[0] matches PrepState::DeleteKey { pk } && models(pk@) == key);
    assert(answers(a, p.states[0], p.events[0]));
    assert(follows(p.plan, p.table, p.name, p.snap, p.states[0], p.events[0], p.after(0)));
    assert(p.states[1] matches PrepState::DeleteLookup { pk, key: k } && models(pk@) == key && k@ == (a.key)(key));
    assert(answers(a, p.states[1], p.events[1]));
    assert(follows(p.plan, p.table, p.name, p.snap, p.states[1], p.events[1], p.after(1)));
    if (a.row)(key) is Some && filter is Some {
        let row = (a.row)(key)->Some_0;
        assert(p.states[2] matches PrepState::DeleteFilter { key: k, old } && models(old@) == row && k@ == (a.key)(key));
        assert(answers(a, p.states[2], p.events[2]));
        assert(follows(p.plan, p.table, p.name, p.snap, p.states[2], p.events[2], p.after(2)));
    }
}

/// A DELETE or UPDATE of a key with a NULL in it touches nothing and asks
/// nothing; one whose key cannot be made out beforehand runs serially.
pub proof fn law_null_key_matches_nothing(p: Prepared, a: Answers, parts: Vec<KeyPart>)
    requires
        p.ran(a),
        match p.plan.stmt {
            PlanStmt::Delete { table: _, access: AccessPath::PkPoint(q), filter: _ } => q == parts,
            PlanStmt::Update { table: _, access: AccessPath::PkPoint(q), filter: _, set: _ } => q == parts,
            _ => false,
        },
    ensures
        forall|key: Seq<ValueModel>|
            #[trigger] bound_to(parts@, p.plan.consts@, p.params, key) && (exists|i: int|
                0 <= i < key.len() && #[trigger] key[i] == ValueModel::Null) ==> p.states.len() == 0 && p.prep == Prep::Direct(Ok(0)),
        (forall|key: Seq<ValueModel>| !(#[trigger] bound_to(parts@, p.plan.consts@, p.params, key))) ==> p.states.len() == 0 && p.prep
            == Prep::Fallback,
{
    assert forall|key: Seq<ValueModel>|
        #[trigger] bound_to(parts@, p.plan.consts@, p.params, key) && (exists|i: int|
            0 <= i < key.len() && #[trigger] key[i] == ValueModel::Null) implies p.states.len() == 0 && p.prep == Prep::Direct(Ok(0)) by {
        law_key_has_its_slots(parts@, p.plan.consts@, p.params, key);
        assert(!no_null(key));
    }
    if forall|key: Seq<ValueModel>| !(#[trigger] bound_to(parts@, p.plan.consts@, p.params, key)) {
        if part_values(parts@, p.plan.consts@, p.params) is Some {
            let key = part_values(parts@, p.plan.consts@, p.params)->Some_0;
            law_key_has_its_slots(parts@, p.plan.consts@, p.params, key);
            assert(bound_to(parts@, p.plan.consts@, p.params, key));
        }
    }
}

// ---------------------------------------------------------------- UPDATE

/// Assignment number `j` has a value on the row, and a column to go to.
pub open spec fn assigns(a: Answers, set: Seq<(u16, ExprProgram)>, row: Seq<ValueModel>, j: int) -> bool {
    (a.eval)(j, row) is Ok && set[j].0 < row.len()
}

/// The row that all assignments make of `row`.
pub open spec fn updated(a: Answers, set: Seq<(u16, ExprProgram)>, row: Seq<ValueModel>) -> Seq<ValueModel> {
    assigned_row(row, set, |j: int, r: Seq<ValueModel>| (a.eval)(j, r)->Ok_0, set.len())
}

/// What an UPDATE comes to once its row is found and matches, from assignment
/// number `i` on.
pub open spec fn update_comes_to(p: Prepared, a: Answers, set: Seq<(u16, ExprProgram)>, key: Seq<u8>, row: Seq<ValueModel>, i: int) -> bool {
    let new = updated(a, set, row);
    let all = forall|j: int| i <= j < set.len() ==> assigns(a, set, row, j);
    // it stores the updated row where there is nothing against it, and only there
    &&& p.prep is Apply ==> all && (a.valid)(new) is Ok && (a.encode)(new) is Some && (exists|b: Vec<u8>|
        Some(b@) == (a.encode)(new) && #[trigger] p.applies(key, ApplyOp::Upsert(b)))
    &&& all && (a.valid)(new) is Ok && (a.encode)(new) is Some ==> p.prep is Apply
    // else it tells what was against it
    &&& forall|j: int|
        i <= j < set.len() && (#[trigger] (a.eval)(j, row)) is Err && (forall|l: int| i <= l < j ==> assigns(a, set, row, l)) ==> p.confirmed(
            key,
            Err((a.eval)(j, row)->Err_0),
        )
    &&& all && (a.valid)(new) is Err ==> p.confirmed(key, Err((a.valid)(new)->Err_0))
    &&& !(p.prep is Direct)
    &&& p.prep matches Prep::Confirm { table: _, key_hash: _, snap: _, outcome } ==> outcome is Err
}

/// [`Prepared::ran`], unfolded only where it is needed.
#[verifier::opaque]
spec fn went(p: Prepared, a: Answers) -> bool {
    p.ran(a)
}

/// [`update_comes_to`], unfolded only where it is needed.
#[verifier::opaque]
spec fn comes_to(p: Prepared, a: Answers, set: Seq<(u16, ExprProgram)>, key: Seq<u8>, row: Seq<ValueModel>, i: int) -> bool {
    update_comes_to(p, a, set, key, row, i)
}

proof fn lemma_update_stored(p: Prepared, a: Answers, set: Seq<(u16, ExprProgram)>, kb: Vec<u8>, row: Seq<ValueModel>, k: int, new: Vec<Value>)
    requires
        went(p, a),
        set == assignments(p.plan.stmt),
        0 <= k < p.states.len(),
        p.states[k] == (PrepState::UpdateValidate { key: kb, new }),
        models(new@) == updated(a, set, row),
    ensures
        comes_to(p, a, set, kb@, row, set.len() as int),
{
    reveal(went);
    reveal(comes_to);
    let now = updated(a, set, row);
    assert(answers(a, p.states[k], p.events[k]));
    assert(follows(p.plan, p.table, p.name, p.snap, p.states[k], p.events[k], p.after(k)));
    if (a.valid)(now) is Ok {
        assert(p.states[k + 1] == (PrepState::UpdateEncode { key: kb, new }));
        assert(answers(a, p.states[k + 1], p.events[k + 1]));
        assert(follows(p.plan, p.table, p.name, p.snap, p.states[k + 1], p.events[k + 1], p.after(k + 1)));
        match p.events[k + 1] {
            PrepEvent::Encoded(Some(b)) => {
                assert(p.applies(kb@, ApplyOp::Upsert(b)));
            },
            _ => {},
        }
    }
}

/// One more assignment in front of those that an UPDATE goes on with.
proof fn lemma_comes_to_with(p: Prepared, a: Answers, set: Seq<(u16, ExprProgram)>, key: Seq<u8>, row: Seq<ValueModel>, i: int)
    requires
        0 <= i < set.len(),
        assigns(a, set, row, i),
        comes_to(p, a, set, key, row, i + 1),
    ensures
        comes_to(p, a, set, key, row, i),
{
    reveal(comes_to);
    assert((forall|j: int| i + 1 <= j < set.len() ==> assigns(a, set, row, j)) == (forall|j: int|
        i <= j < set.len() ==> assigns(a, set, row, j))) by {
        if forall|j: int| i + 1 <= j < set.len() ==> assigns(a, set, row, j) {
            assert forall|j: int| i <= j < set.len() implies assigns(a, set, row, j) by {
                if j > i {
                    assert(i + 1 <= j);
                }
            }
        }
    }
    assert forall|j: int|
        i <= j < set.len() && (#[trigger] (a.eval)(j, row)) is Err && (forall|l: int| i <= l < j ==> assigns(a, set, row, l)) implies p.confirmed(
        key,
        Err((a.eval)(j, row)->Err_0),
    ) by {
        assert(j != i);
        assert forall|l: int| i + 1 <= l < j implies assigns(a, set, row, l) by {}
    }
}

/// The assignment that an UPDATE ends at.
proof fn lemma_comes_to_end(p: Prepared, a: Answers, set: Seq<(u16, ExprProgram)>, key: Seq<u8>, row: Seq<ValueModel>, i: int)
    requires
        0 <= i < set.len(),
        !assigns(a, set, row, i),
        match (a.eval)(i, row) {
            Err(f) => p.confirmed(key, Err(f)),
            Ok(_) => p.prep == Prep::Fallback,
        },
    ensures
        comes_to(p, a, set, key, row, i),
{
    reveal(comes_to);
    assert forall|j: int|
        i <= j < set.len() && (#[trigger] (a.eval)(j, row)) is Err && (forall|l: int| i <= l < j ==> assigns(a, set, row, l)) implies p.confirmed(
        key,
        Err((a.eval)(j, row)->Err_0),
    ) by {
        if j > i {
            assert(assigns(a, set, row, i));
        }
    }
}

/// What comes behind one assignment.
proof fn lemma_set_step(p: Prepared, a: Answers, set: Seq<(u16, ExprProgram)>, kb: Vec<u8>, k: int, old: Vec<Value>, new: Vec<Value>, i: usize)
    requires
        went(p, a),
        set == assignments(p.plan.stmt),
        0 <= k < p.states.len(),
        p.states[k] == (PrepState::UpdateSet { key: kb, old, new, i }),
        i < set.len(),
    ensures
        match (a.eval)(i as int, models(old@)) {
            Err(f) => p.confirmed(kb@, Err(f)),
            Ok(v) => if set[i as int].0 >= new@.len() {
                p.prep == Prep::Fallback
            } else {
                let c = set[i as int].0 as int;
                &&& k + 1 < p.states.len()
                &&& if i + 1 < set.len() {
                    p.states[k + 1] matches PrepState::UpdateSet { key, old: o, new: n, i: j } && key == kb && o == old && j == i + 1
                        && n@.len() == new@.len() && models(n@) == models(new@).update(c, v)
                } else {
                    p.states[k + 1] matches PrepState::UpdateValidate { key, new: n } && key == kb && models(n@) == models(new@).update(c, v)
                }
            },
        },
{
    reveal(went);
    assert(answers(a, p.states[k], p.events[k]));
    assert(follows(p.plan, p.table, p.name, p.snap, p.states[k], p.events[k], p.after(k)));
    match p.events[k] {
        PrepEvent::Computed(Ok(v)) => {
            let c = set[i as int].0 as int;
            if c < new@.len() {
                assert(models(new@.update(c, v)) =~= models(new@).update(c, v.model()));
            }
        },
        _ => {},
    }
}

proof fn lemma_update_assigned(p: Prepared, a: Answers, set: Seq<(u16, ExprProgram)>, kb: Vec<u8>, row: Seq<ValueModel>, k: int, old: Vec<Value>, new: Vec<Value>, i: usize)
    requires
        went(p, a),
        set == assignments(p.plan.stmt),
        0 <= k < p.states.len(),
        p.states[k] == (PrepState::UpdateSet { key: kb, old, new, i }),
        models(old@) == row,
        i < set.len(),
        models(new@) == assigned_row(row, set, |j: int, r: Seq<ValueModel>| (a.eval)(j, r)->Ok_0, i as nat),
        new@.len() == row.len(),
    ensures
        comes_to(p, a, set, kb@, row, i as int),
    decreases set.len() - i,
{
    let eval = |j: int, r: Seq<ValueModel>| (a.eval)(j, r)->Ok_0;
    lemma_set_step(p, a, set, kb, k, old, new, i);
    if assigns(a, set, row, i as int) {
        let c = set[i as int].0 as int;
        assert(assigned_row(row, set, eval, (i + 1) as nat) == models(new@).update(c, eval(i as int, row)));
        if i + 1 < set.len() {
            lemma_update_assigned(p, a, set, kb, row, k + 1, old, p.states[k + 1]->UpdateSet_new, (i + 1) as usize);
        } else {
            lemma_update_stored(p, a, set, kb, row, k + 1, p.states[k + 1]->UpdateValidate_new);
        }
        lemma_comes_to_with(p, a, set, kb@, row, i as int);
    } else {
        lemma_comes_to_end(p, a, set, kb@, row, i as int);
    }
}

proof fn lemma_update_matched(p: Prepared, a: Answers, set: Seq<(u16, ExprProgram)>, kb: Vec<u8>, row: Seq<ValueModel>, k: int, old: Vec<Value>)
    requires
        p.ran(a),
        set == assignments(p.plan.stmt),
        set.len() <= usize::MAX,
        -1 <= k < p.states.len(),
        assigns_from(p.plan.stmt, p.after(k), kb, old),
        models(old@) == row,
    ensures
        update_comes_to(p, a, set, kb@, row, 0),
{
    reveal(went);
    reveal(comes_to);
    reveal_with_fuel(assigned_row, 1);
    if set.len() > 0 {
        let new = p.states[k + 1]->UpdateSet_new;
        lemma_update_assigned(p, a, set, kb, row, k + 1, old, new, 0);
    } else {
        let new = p.states[k + 1]->UpdateValidate_new;
        lemma_update_stored(p, a, set, kb, row, k + 1, new);
    }
}

/// A whole UPDATE of one key. Where there is no row under the key, or the
/// filter does not hold on it, nothing is stored and zero rows are reported;
/// where the filter fails, its fault is. Else, where every assignment, on the
/// row that was found, has a value and the row that they make is valid, that
/// row is stored under the key; a failing assignment, the first, or an invalid
/// row is reported and nothing is stored.
pub proof fn law_update_stores_the_assigned_row(
    p: Prepared,
    a: Answers,
    parts: Vec<KeyPart>,
    filter: Option<ExprProgram>,
    set: Vec<(u16, ExprProgram)>,
    key: Seq<ValueModel>,
)
    requires
        p.ran(a),
        p.plan.stmt matches PlanStmt::Update { table: _, access: AccessPath::PkPoint(q), filter: f, set: s } && q == parts && f == filter && s
            == set,
        bound_to(parts@, p.plan.consts@, p.params, key),
        forall|i: int| 0 <= i < key.len() ==> #[trigger] key[i] != ValueModel::Null,
    ensures
        match (a.row)(key) {
            None => p.confirmed((a.key)(key), Ok(0)),
            Some(row) => if filter is Some && (a.holds)(row) == Ok::<bool, Fault>(false) {
                p.confirmed((a.key)(key), Ok(0))
            } else if filter is Some && (a.holds)(row) is Err {
                p.confirmed((a.key)(key), Err((a.holds)(row)->Err_0))
            } else {
                update_comes_to(p, a, set@, (a.key)(key), row, 0)
            },
        },
{
    lemma_update_found(p, a, parts, filter, set, key);
    assert(set.len() == set@.len());
    if (a.row)(key) is Some {
        let row = (a.row)(key)->Some_0;
        let kb = p.states[1]->UpdateLookup_key;
        let old = p.events[1]->Row_0->Some_0;
        if filter is None {
            lemma_update_matched(p, a, set@, kb, row, 1, old);
        } else if (a.holds)(row) == Ok::<bool, Fault>(true) {
            lemma_update_matched(p, a, set@, kb, row, 2, old);
        }
    }
}

proof fn lemma_update_found(
    p: Prepared,
    a: Answers,
    parts: Vec<KeyPart>,
    filter: Option<ExprProgram>,
    set: Vec<(u16, ExprProgram)>,
    key: Seq<ValueModel>,
)
    requires
        p.ran(a),
        p.plan.stmt matches PlanStmt::Update { table: _, access: AccessPath::PkPoint(q), filter: f, set: s } && q == parts && f == filter && s
            == set,
        bound_to(parts@, p.plan.consts@, p.params, key),
        forall|i: int| 0 <= i < key.len() ==> #[trigger] key[i] != ValueModel::Null,
    ensures
        p.states.len() > 1,
        match (a.row)(key) {
            None => p.confirmed((a.key)(key), Ok(0)),
            Some(row) => {
                let kb = p.states[1]->UpdateLookup_key;
                let old = p.events[1]->Row_0->Some_0;
                &&& kb@ == (a.key)(key)
                &&& models(old@) == row
                &&& if filter is None {
                    assigns_from(p.plan.stmt, p.after(1), kb, old)
                } else {
                    p.states.len() > 2 && match (a.holds)(row) {
                        Ok(true) => assigns_from(p.plan.stmt, p.after(2), kb, old),
                        Ok(false) => p.confirmed((a.key)(key), Ok(0)),
                        Err(f) => p.confirmed((a.key)(key), Err(f)),
                    }
                }
            },
        },
{
    law_key_has_its_slots(parts@, p.plan.consts@, p.params, key);
    assert(p.states[0] matches PrepState::UpdateKey { pk } && models(pk@) == key);
    assert(answers(a, p.states[0], p.events[0]));
    assert(follows(p.plan, p.table, p.name, p.snap, p.states[0], p.events[0], p.after(0)));
    assert(p.states[1] matches PrepState::UpdateLookup { pk, key: k } && models(pk@) == key && k@ == (a.key)(key));
    assert(answers(a, p.states[1], p.events[1]));
    assert(follows(p.plan, p.table, p.name, p.snap, p.states[1], p.events[1], p.after(1)));
    if (a.row)(key) is Some && filter is Some {
        let kb = p.states[1]->UpdateLookup_key;
        let old = p.events[1]->Row_0->Some_0;
        assert(p.states[2] == (PrepState::UpdateFilter { key: kb, old }));
        assert(answers(a, p.states[2], p.events[2]));
        assert(follows(p.plan, p.table, p.name, p.snap, p.states[2], p.events[2], p.after(2)));
    }
}

/// In the row that an UPDATE stores, a column has the value of the last
/// assignment to it, on the row that was found; a column without one is as it
/// was.
pub proof fn law_updated_row(a: Answers, set: Seq<(u16, ExprProgram)>, row: Seq<ValueModel>, c: int)
    requires
        0 <= c < row.len(),
    ensures
        updated(a, set, row).len() == row.len(),
        (forall|j: int| 0 <= j < set.len() ==> (#[trigger] set[j]).0 != c) ==> updated(a, set, row)[c] == row[c],
        forall|j: int|
            0 <= j < set.len() && (#[trigger] set[j]).0 == c && (forall|l: int| j < l < set.len() ==> (#[trigger] set[l]).0 != c)
                ==> updated(a, set, row)[c] == (a.eval)(j, row)->Ok_0,
{
    let eval = |j: int, r: Seq<ValueModel>| (a.eval)(j, r)->Ok_0;
    if forall|j: int| 0 <= j < set.len() ==> (#[trigger] set[j]).0 != c {
        crate::ring_exec::optimistic::law_unassigned_column_stays(row, set, eval, set.len(), c);
    } else {
        let j = choose|j: int| 0 <= j < set.len() && (#[trigger] set[j]).0 == c;
        lemma_last_of(set, c, j, set.len() as int);
    }
    assert forall|j: int|
        0 <= j < set.len() && (#[trigger] set[j]).0 == c && (forall|l: int| j < l < set.len() ==> (#[trigger] set[l]).0 != c) implies updated(
        a,
        set,
        row,
    )[c] == (a.eval)(j, row)->Ok_0 && updated(a, set, row).len() == row.len() by {
        crate::ring_exec::optimistic::law_last_assignment_wins(row, set, eval, set.len(), j);
    }
}

proof fn lemma_last_of(set: Seq<(u16, ExprProgram)>, c: int, j: int, n: int)
    requires
        0 <= j < n <= set.len(),
        set[j].0 == c,
    ensures
        exists|k: int| 0 <= k < n && (#[trigger] set[k]).0 == c && forall|l: int| k < l < n ==> (#[trigger] set[l]).0 != c,
    decreases n,
{
    if set[n - 1].0 != c {
        lemma_last_of(set, c, j, n - 1);
        let k = choose|k: int| 0 <= k < n - 1 && (#[trigger] set[k]).0 == c && forall|l: int| k < l < n - 1 ==> (#[trigger] set[l]).0 != c;
        assert(set[k].0 == c);
    } else {
        assert(set[n - 1].0 == c);
    }
}

// ---------------------------------------------------------------- INSERT

/// The values `vs` are what the sources of an inserted row name: a parameter
/// slot that parameter, a constant slot that constant, and no source the
/// column's default, where the time of the statement stands for `now`.
pub open spec fn row_named(srcs: Seq<InsertSource>, t: TableDef, consts: Seq<Value>, params: Seq<Value>, now: int, vs: Seq<ValueModel>) -> bool {
    &&& vs.len() == srcs.len()
    &&& forall|c: int|
        0 <= c < srcs.len() ==> match #[trigger] srcs[c] {
            InsertSource::Param(i) => i < params.len() && vs[c] == params[i as int].model(),
            InsertSource::Const(i) => i < consts.len() && vs[c] == consts[i as int].model(),
            InsertSource::Default => vs[c] == (match t.columns@[c].default {
                None => ValueModel::Null,
                Some(DefaultExpr::Now) => ValueModel::Timestamp(now),
                Some(DefaultExpr::Const(v)) => v.model(),
            }),
            InsertSource::Expr => false,
        }
}

proof fn lemma_row_named(srcs: Seq<InsertSource>, t: TableDef, consts: Seq<Value>, params: Seq<Value>, now: int, vs: Seq<ValueModel>)
    requires
        srcs.len() <= t.columns@.len(),
    ensures
        source_row(srcs, t.columns@, consts, params, now) == Some(vs) <==> row_named(srcs, t, consts, params, now, vs),
    decreases srcs.len(),
{
    if srcs.len() == 0 {
        assert(vs.len() == 0 ==> vs =~= Seq::empty());
    } else if vs.len() > 0 {
        let before = srcs.drop_last();
        lemma_row_named(before, t, consts, params, now, vs.drop_last());
        assert(vs.drop_last().push(vs.last()) =~= vs);
        assert(srcs[srcs.len() - 1] == srcs.last());
        let got = source_row(srcs, t.columns@, consts, params, now);
        if got == Some(vs) {
            let rest = source_row(before, t.columns@, consts, params, now)->Some_0;
            let v = source_value(srcs.last(), t.columns@[srcs.len() - 1].default, consts, params, now)->Some_0;
            assert(rest.push(v) == vs);
            assert(vs.drop_last() =~= rest);
            assert(vs.last() == v);
            assert(row_named(before, t, consts, params, now, rest));
            assert forall|c: int| 0 <= c < srcs.len() implies match #[trigger] srcs[c] {
                InsertSource::Param(i) => i < params.len() && vs[c] == params[i as int].model(),
                InsertSource::Const(i) => i < consts.len() && vs[c] == consts[i as int].model(),
                InsertSource::Default => vs[c] == (match t.columns@[c].default {
                    None => ValueModel::Null,
                    Some(DefaultExpr::Now) => ValueModel::Timestamp(now),
                    Some(DefaultExpr::Const(v)) => v.model(),
                }),
                InsertSource::Expr => false,
            } by {
                if c < before.len() {
                    assert(before[c] == srcs[c]);
                    assert(vs[c] == rest[c]);
                }
            }
        }
        if row_named(srcs, t, consts, params, now, vs) {
            assert forall|c: int| 0 <= c < before.len() implies #[trigger] before[c] == srcs[c] && vs.drop_last()[c] == vs[c] by {}
            assert(row_named(before, t, consts, params, now, vs.drop_last()));
        }
    } else {
        let got = source_row(srcs, t.columns@, consts, params, now);
        if got == Some(vs) {
            assert(vs.len() > 0);
        }
    }
}

/// A whole INSERT of one row. The row that its sources name is stored under its
/// own key where it is valid and no row has that key; an invalid row is
/// reported at once, and a key that is taken is a violation, if it still is
/// when it is confirmed.
pub proof fn law_insert_stores_the_named_row(p: Prepared, a: Answers, rows: Vec<Vec<InsertSource>>, vs: Seq<ValueModel>, key: Seq<ValueModel>)
    requires
        p.ran(a),
        p.plan.stmt matches PlanStmt::Insert { table: _, rows: r, from_select: _ } && r == rows,
        rows@.len() > 0,
        rows@[0]@.len() == p.t.columns@.len(),
        p.t.key_wf(),
        row_named(rows@[0]@, p.t, p.plan.consts@, p.params, p.now, vs),
        key.len() == p.t.primary_key@.len(),
        forall|j: int| 0 <= j < key.len() ==> #[trigger] key[j] == vs[p.t.primary_key@[j] as int],
    ensures
        match (a.valid)(vs) {
            Err(f) => p.prep matches Prep::Direct(Err(e)) && e@ == f,
            Ok(_) => match ((a.row)(key), (a.encode)(vs)) {
                (Some(_), _) => p.confirmed((a.key)(key), Err(Fault::PrimaryKeyViolation { table: p.name })),
                (None, Some(bytes)) => exists|b: Vec<u8>| b@ == bytes && #[trigger] p.applies((a.key)(key), ApplyOp::Insert(b)),
                (None, None) => p.prep == Prep::Fallback,
            },
        },
{
    lemma_row_named(rows@[0]@, p.t, p.plan.consts@, p.params, p.now, vs);
    assert(picked(vs, p.t.primary_key@) =~= key);
    assert(p.states[0] matches PrepState::InsertValidate { row, pk } && models(row@) == vs && models(pk@) == key);
    assert(answers(a, p.states[0], p.events[0]));
    assert(follows(p.plan, p.table, p.name, p.snap, p.states[0], p.events[0], p.after(0)));
    if (a.valid)(vs) is Ok {
        assert(p.states[1] matches PrepState::InsertKey { row, pk } && models(row@) == vs && models(pk@) == key);
        assert(answers(a, p.states[1], p.events[1]));
        assert(follows(p.plan, p.table, p.name, p.snap, p.states[1], p.events[1], p.after(1)));
        assert(p.states[2] matches PrepState::InsertLookup { row, pk, key: k } && models(row@) == vs && models(pk@) == key && k@ == (a.key)(key));
        assert(answers(a, p.states[2], p.events[2]));
        assert(follows(p.plan, p.table, p.name, p.snap, p.states[2], p.events[2], p.after(2)));
        if (a.row)(key) is None {
            assert(p.states[3] matches PrepState::InsertEncode { row, key: k } && models(row@) == vs && k@ == (a.key)(key));
            assert(answers(a, p.states[3], p.events[3]));
            assert(follows(p.plan, p.table, p.name, p.snap, p.states[3], p.events[3], p.after(3)));
            match p.events[3] {
                PrepEvent::Encoded(Some(b)) => {
                    assert(p.applies((a.key)(key), ApplyOp::Insert(b)));
                },
                _ => {},
            }
        }
    }
}

/// An INSERT whose row cannot be named beforehand runs serially.
pub proof fn law_unnamed_row_runs_serially(p: Prepared, a: Answers, rows: Vec<Vec<InsertSource>>)
    requires
        p.ran(a),
        p.plan.stmt matches PlanStmt::Insert { table: _, rows: r, from_select: _ } && r == rows,
        rows@.len() == 0 || rows@[0]@.len() != p.t.columns@.len() || forall|vs: Seq<ValueModel>|
            !(#[trigger] row_named(rows@[0]@, p.t, p.plan.consts@, p.params, p.now, vs)),
    ensures
        p.states.len() == 0,
        p.prep == Prep::Fallback,
{
    if rows@.len() > 0 && rows@[0]@.len() == p.t.columns@.len() {
        let got = source_row(rows@[0]@, p.t.columns@, p.plan.consts@, p.params, p.now);
        if got is Some {
            lemma_row_named(rows@[0]@, p.t, p.plan.consts@, p.params, p.now, got->Some_0);
            assert(row_named(rows@[0]@, p.t, p.plan.consts@, p.params, p.now, got->Some_0));
        }
    }
}

// ---------------------------------------------------------------- under the lock

/// Rows are reported only where they were changed: a commit comes only behind a
/// mutation that did what it was for, and reports the rows it was prepared for
/// under its own key. Where the mutation failed, or an INSERT met a row that
/// has its key, an error is answered; where a DELETE found no row, zero rows
/// are, and nothing is committed.
pub proof fn law_commit_only_what_changed(
    table: u32,
    name: Seq<char>,
    key_hash: u64,
    op: ApplyOp,
    affected: u64,
    done: Result<bool>,
    a: OptAction,
)
    requires
        mutated(table, name, key_hash, op, affected, done, a),
    ensures
        a is Commit <==> done == Ok::<bool, Error>(true) || (done is Ok && op is Upsert),
        a is Commit ==> a == (OptAction::Commit { table, key_hash, affected }),
        !(a is Commit) ==> a is Answer,
        a matches OptAction::Answer(r) ==> (r is Ok <==> op is Delete && done == Ok::<bool, Error>(false)) && (r is Ok ==> r->Ok_0 == 0),
        done is Err ==> a == OptAction::Answer(Err(done->Err_0)),
        op is Insert && done == Ok::<bool, Error>(false) ==> a->Answer_0->Err_0@ == (Fault::PrimaryKeyViolation { table: name }),
{
}

/// Nothing that was prepared is used once its key was touched: it is prepared
/// anew, or run serially when that was tried often enough. What still holds is
/// carried out as it was prepared: the same mutation under the same key, or the
/// same answer.
pub proof fn law_touched_key_is_prepared_anew(prep: Prep, valid: bool, failed: u32, a: OptAction)
    requires
        validated(prep, valid, failed, a),
    ensures
        !valid ==> a is Prepare || a is Serial,
        !valid && failed < 8 ==> a is Prepare,
        !valid && failed >= 8 ==> a is Serial,
        a is Mutate ==> valid && prep is Apply,
        a matches OptAction::Mutate { table, key, key_hash, op, affected } ==> prep->Apply_table == table && prep->Apply_key == key
            && prep->Apply_key_hash == key_hash && prep->Apply_op == op && prep->Apply_affected == affected,
        valid && prep is Apply ==> a is Mutate,
        valid && prep is Confirm ==> a == OptAction::Answer(prep->Confirm_outcome),
{
}

} // verus!
