//! Edits inside a value: an UPDATE that splices a column's own value says
//! before it runs which bytes it rewrites.

use vstd::prelude::*;
use vstd::utf8::encode_utf8;
use crate::error::{Error, Fault, Result};
use crate::plan::{CompiledPlan, ExprProgram, Instr, PlanStmt, ScalarFn};
use crate::value::{Value, ValueModel};

verus! {

/// A literal or a bound parameter that is a non-negative integer.
pub open spec fn known_count(i: Instr, consts: Seq<Value>, params: Seq<Value>) -> Option<int> {
    let v = match i {
        Instr::PushConst(k) => if k < consts.len() { consts[k as int].model() } else { ValueModel::Null },
        Instr::PushParam(p) => if p < params.len() { params[p as int].model() } else { ValueModel::Null },
        _ => ValueModel::Null,
    };
    match v {
        ValueModel::Int(n) => if n >= 0 { Some(n) } else { None },
        _ => None,
    }
}

fn const_or_param(i: &Instr, consts: &[Value], params: &[Value]) -> (r: Option<i64>)
    ensures
        match r {
            Some(n) => known_count(*i, consts@, params@) == Some(n as int) && n >= 0,
            None => known_count(*i, consts@, params@) is None,
        },
{
    let v: &Value = match i {
        Instr::PushConst(k) => {
            if (*k as usize) < consts.len() {
                &consts[*k as usize]
            } else {
                return None;
            }
        },
        Instr::PushParam(p) => {
            if (*p as usize) < params.len() {
                &params[*p as usize]
            } else {
                return None;
            }
        },
        _ => {
            return None;
        },
    };
    match v {
        Value::Int(n) => if *n >= 0 { Some(*n) } else { None },
        _ => None,
    }
}

/// How many values there are once an instruction that does not jump has run on
/// `d` of them; `None` where it takes more than there are.
pub open spec fn count_after(i: Instr, d: nat) -> Option<nat> {
    match i {
        Instr::PushCol(_) => Some(d + 1),
        Instr::PushConst(_) => Some(d + 1),
        Instr::PushParam(_) => Some(d + 1),
        Instr::Call(_, k) => if d >= k { Some((d - k + 1) as nat) } else { None },
        Instr::Op(k) => if d >= k { Some((d - k + 1) as nat) } else { None },
        Instr::Jump(_) => Some(d),
        Instr::JumpIf(_) => if d >= 1 { Some((d - 1) as nat) } else { None },
    }
}

/// The instruction may jump to instruction `n`.
pub open spec fn jumps_to(i: Instr, n: int) -> bool {
    match i {
        Instr::Jump(t) => t == n,
        Instr::JumpIf(t) => t == n,
        _ => false,
    }
}

/// How many values the instructions from `from` on have left when instruction
/// `n` is reached: by the one before it, or, where that always jumps away, by
/// the last jump to it.
pub open spec fn entered(is: Seq<Instr>, from: int, n: int) -> Option<nat>
    decreases n - from, 1int, 0int,
{
    if n <= from {
        Some(0)
    } else {
        match is[n - 1] {
            Instr::Jump(_) => jumped_to(is, from, n, n - 1),
            other => match entered(is, from, n - 1) {
                None => None,
                Some(d) => count_after(other, d),
            },
        }
    }
}

/// How many values there are at instruction `n` behind the last jump to it at
/// or before instruction `j`.
pub open spec fn jumped_to(is: Seq<Instr>, from: int, n: int, j: int) -> Option<nat>
    decreases n - from, 0int, j - from + 1,
{
    if j < from || j >= n {
        None
    } else if jumps_to(is[j], n) {
        match entered(is, from, j) {
            None => None,
            Some(d) => count_after(is[j], d),
        }
    } else {
        jumped_to(is, from, n, j - 1)
    }
}

/// Instruction `j` does not jump, or it jumps ahead, no further than `to`, to
/// an instruction that is reached with as many values on every way.
pub open spec fn jump_agrees(is: Seq<Instr>, from: int, to: int, j: int) -> bool {
    match is[j] {
        Instr::Jump(t) => j < t <= to && (entered(is, from, j) matches Some(d) && entered(is, from, t as int) == Some(d)),
        Instr::JumpIf(t) => j < t <= to && (entered(is, from, j) matches Some(d) && d >= 1 && entered(is, from, t as int) == Some(
            (d - 1) as nat,
        )),
        _ => true,
    }
}

/// How many values the instructions from `from` up to `to` leave on top of
/// what was there, on every way through them; `None` where that cannot be
/// told, or they reach below.
pub open spec fn values_left(is: Seq<Instr>, from: int, to: int) -> Option<nat> {
    if forall|j: int| from <= j < to ==> #[trigger] jump_agrees(is, from, to, j) {
        entered(is, from, to)
    } else {
        None
    }
}

/// The statement is an UPDATE that assigns one column a splice of that same
/// column, with an offset and a length of one instruction each; its
/// instructions: the column, the offset, the length, what is inserted, the
/// call.
pub open spec fn own_splice(stmt: PlanStmt) -> Option<Seq<Instr>> {
    match stmt {
        PlanStmt::Update { table: _, access: _, filter: _, set } => if set@.len() == 1 {
            let is = set@[0].1.instrs@;
            if 5 <= is.len() && is[0] == Instr::PushCol(set@[0].0) && is.last() == Instr::Call(ScalarFn::Splice, 4) && pushes(is[1])
                && pushes(is[2]) && values_left(is, 3, is.len() - 1) == Some(1nat) {
                Some(is)
            } else {
                None
            }
        } else {
            None
        },
        _ => None,
    }
}

/// The instruction gives one value and takes none.
pub open spec fn pushes(i: Instr) -> bool {
    i is PushCol || i is PushConst || i is PushParam
}

fn is_push(i: &Instr) -> (r: bool)
    ensures
        r == pushes(*i),
{
    match i {
        Instr::PushCol(_) => true,
        Instr::PushConst(_) => true,
        Instr::PushParam(_) => true,
        _ => false,
    }
}

fn step_count(i: &Instr, d: usize) -> (r: Option<usize>)
    requires
        d < usize::MAX,
    ensures
        match r {
            Some(n) => count_after(*i, d as nat) == Some(n as nat) && n <= d + 1,
            None => count_after(*i, d as nat) is None,
        },
{
    match i {
        Instr::PushCol(_) => Some(d + 1),
        Instr::PushConst(_) => Some(d + 1),
        Instr::PushParam(_) => Some(d + 1),
        Instr::Call(_, k) => if d >= *k as usize { Some(d - *k as usize + 1) } else { None },
        Instr::Op(k) => if d >= *k as usize { Some(d - *k as usize + 1) } else { None },
        Instr::Jump(_) => Some(d),
        Instr::JumpIf(_) => if d >= 1 { Some(d - 1) } else { None },
    }
}

/// The counts at the instructions from `from` on are `counts`.
spec fn counts_are(is: Seq<Instr>, from: int, counts: Seq<Option<usize>>) -> bool {
    forall|k: int| 0 <= k < counts.len() ==> (match #[trigger] counts[k] {
        Some(d) => entered(is, from, from + k) == Some(d as nat) && d <= k,
        None => entered(is, from, from + k) is None,
    })
}

fn find_jump(is: &Vec<Instr>, from: usize, n: usize, counts: &Vec<Option<usize>>) -> (r: Option<usize>)
    requires
        from < n <= is@.len(),
        counts@.len() == n - from,
        counts_are(is@, from as int, counts@),
    ensures
        match r {
            Some(d) => jumped_to(is@, from as int, n as int, n - 1) == Some(d as nat) && d <= n - from,
            None => jumped_to(is@, from as int, n as int, n - 1) is None,
        },
{
    let mut j: usize = n;
    while j > from
        invariant
            from <= j <= n <= is@.len(),
            counts@.len() == n - from,
            counts_are(is@, from as int, counts@),
            jumped_to(is@, from as int, n as int, n - 1) == jumped_to(is@, from as int, n as int, j - 1),
        decreases j - from,
    {
        let at: usize = j - 1;
        let here = match is[at] {
            Instr::Jump(t) => t as usize == n,
            Instr::JumpIf(t) => t as usize == n,
            _ => false,
        };
        if here {
            proof {
                assert(counts@[at - from] == counts@[at - from]);
            }
            return match counts[at - from] {
                None => None,
                Some(d) => step_count(&is[at], d),
            };
        }
        j -= 1;
    }
    None
}

fn count_values(is: &Vec<Instr>, from: usize, to: usize) -> (r: Option<usize>)
    requires
        from <= to <= is@.len(),
    ensures
        match r {
            Some(d) => values_left(is@, from as int, to as int) == Some(d as nat),
            None => values_left(is@, from as int, to as int) is None,
        },
{
    let mut counts: Vec<Option<usize>> = Vec::new();
    counts.push(Some(0));
    let mut n: usize = from;
    while n < to
        invariant
            from <= n <= to <= is@.len(),
            counts@.len() == n - from + 1,
            counts_are(is@, from as int, counts@),
        decreases to - n,
    {
        let ghost before = counts@;
        assert(counts@[n - from] == counts@[n - from]);
        let c: Option<usize> = match is[n] {
            Instr::Jump(_) => {
                let done = n + 1;
                find_jump(is, from, done, &counts)
            },
            _ => match counts[n - from] {
                None => None,
                Some(d) => step_count(&is[n], d),
            },
        };
        counts.push(c);
        proof {
            assert forall|k: int| 0 <= k < counts@.len() implies (match #[trigger] counts@[k] {
                Some(d) => entered(is@, from as int, from + k) == Some(d as nat) && d <= k,
                None => entered(is@, from as int, from + k) is None,
            }) by {
                if k < before.len() {
                    assert(counts@[k] == before[k]);
                }
            }
        }
        n += 1;
    }
    let mut j: usize = from;
    while j < to
        invariant
            from <= j <= to <= is@.len(),
            counts@.len() == to - from + 1,
            counts_are(is@, from as int, counts@),
            forall|k: int| from <= k < j ==> #[trigger] jump_agrees(is@, from as int, to as int, k),
        decreases to - j,
    {
        assert(counts@[j - from] == counts@[j - from]);
        let target: Option<u16> = match is[j] {
            Instr::Jump(t) => Some(t),
            Instr::JumpIf(t) => Some(t),
            _ => None,
        };
        if let Some(t) = target {
            let t: usize = t as usize;
            let mut agrees = false;
            if j < t && t <= to {
                assert(counts@[t - from] == counts@[t - from]);
                if let (Some(d), Some(at)) = (counts[j - from], counts[t - from]) {
                    if let Some(next) = step_count(&is[j], d) {
                        agrees = next == at;
                    }
                }
            }
            proof {
                assert(agrees == jump_agrees(is@, from as int, to as int, j as int));
            }
            if !agrees {
                return None;
            }
        }
        j += 1;
    }
    assert(counts@[to - from] == counts@[to - from]);
    counts[to - from]
}

/// The byte range inside a value that a statement rewrites; `None` means the
/// whole value. Exact where the start and the length removed are literals or
/// parameters.
pub open spec fn range_touched(plan: CompiledPlan, params: Seq<Value>) -> Option<(int, int)> {
    match own_splice(plan.stmt) {
        Some(is) => match (known_count(is[1], plan.consts@, params), known_count(is[2], plan.consts@, params)) {
            (Some(at), Some(remove)) => if at <= u32::MAX && remove <= u32::MAX && at + remove <= u32::MAX {
                Some((at, at + remove))
            } else {
                None
            },
            _ => None,
        },
        None => None,
    }
}

fn splice_instrs(plan: &CompiledPlan) -> (r: Option<&Vec<Instr>>)
    ensures
        match r {
            Some(is) => own_splice(plan.stmt) == Some(is@),
            None => own_splice(plan.stmt) is None,
        },
{
    match &plan.stmt {
        PlanStmt::Update { table: _, access: _, filter: _, set } => {
            if set.len() != 1 {
                return None;
            }
            let col: u16 = set[0].0;
            let is = &set[0].1.instrs;
            if is.len() < 5 {
                return None;
            }
            let head = match is[0] {
                Instr::PushCol(c) => c == col,
                _ => false,
            };
            let tail = match is[is.len() - 1] {
                Instr::Call(ScalarFn::Splice, n) => n == 4,
                _ => false,
            };
            if !head || !tail || !is_push(&is[1]) || !is_push(&is[2]) {
                return None;
            }
            match count_values(is, 3, is.len() - 1) {
                Some(1) => Some(is),
                _ => None,
            }
        },
        _ => None,
    }
}

/// The byte range inside a value that a statement rewrites.
pub fn plan_range(plan: &CompiledPlan, params: &[Value]) -> (r: Option<(u32, u32)>)
    ensures
        match r {
            Some((lo, hi)) => range_touched(*plan, params@) == Some((lo as int, hi as int)),
            None => range_touched(*plan, params@) is None,
        },
{
    let is = match splice_instrs(plan) {
        Some(is) => is,
        None => {
            return None;
        },
    };
    let consts = plan.consts.as_slice();
    match (const_or_param(&is[1], consts, params), const_or_param(&is[2], consts, params)) {
        (Some(at), Some(remove)) => {
            if at <= 0xFFFF_FFFF && remove <= 0xFFFF_FFFF && at + remove <= 0xFFFF_FFFF {
                Some((at as u32, (at + remove) as u32))
            } else {
                None
            }
        },
        _ => None,
    }
}

/// The length in bytes of inserted text or bytes, where it is known.
pub open spec fn known_len(i: Instr, consts: Seq<Value>, params: Seq<Value>) -> Option<int> {
    let v = match i {
        Instr::PushConst(k) => if k < consts.len() { consts[k as int].model() } else { ValueModel::Null },
        Instr::PushParam(p) => if p < params.len() { params[p as int].model() } else { ValueModel::Null },
        _ => ValueModel::Null,
    };
    match v {
        ValueModel::Text(t) => Some(encode_utf8(t).len() as int),
        ValueModel::Blob(b) => Some(b.len() as int),
        _ => None,
    }
}

/// How much a splice changes the value's length: what it inserts less what it
/// removes, where both are literals or parameters.
pub open spec fn length_change(plan: CompiledPlan, params: Seq<Value>) -> Option<int> {
    match own_splice(plan.stmt) {
        Some(is) => if is.len() != 5 {
            None
        } else {
            match (known_count(is[2], plan.consts@, params), known_len(is[3], plan.consts@, params)) {
                (Some(remove), Some(ins)) => Some(ins - remove),
                _ => None,
            }
        },
        None => None,
    }
}

fn inserted_len(i: &Instr, consts: &[Value], params: &[Value]) -> (r: Option<usize>)
    ensures
        match r {
            Some(n) => known_len(*i, consts@, params@) == Some(n as int),
            None => known_len(*i, consts@, params@) is None,
        },
{
    let v: &Value = match i {
        Instr::PushConst(k) => {
            if (*k as usize) < consts.len() {
                &consts[*k as usize]
            } else {
                return None;
            }
        },
        Instr::PushParam(p) => {
            if (*p as usize) < params.len() {
                &params[*p as usize]
            } else {
                return None;
            }
        },
        _ => {
            return None;
        },
    };
    match v {
        Value::Text(t) => Some(t.as_str().as_bytes().len()),
        Value::Blob(b) => Some(b.len()),
        _ => None,
    }
}

/// How much a splice changes the value's length.
pub fn plan_delta(plan: &CompiledPlan, params: &[Value]) -> (r: Option<i128>)
    ensures
        match r {
            Some(d) => length_change(*plan, params@) == Some(d as int),
            None => length_change(*plan, params@) is None,
        },
{
    let is = match splice_instrs(plan) {
        Some(is) => is,
        None => {
            return None;
        },
    };
    if is.len() != 5 {
        return None;
    }
    let consts = plan.consts.as_slice();
    match (const_or_param(&is[2], consts, params), inserted_len(&is[3], consts, params)) {
        (Some(remove), Some(ins)) => Some(ins as i128 - remove as i128),
        _ => None,
    }
}

// --------------------------------------------------- carrying an edit forward

/// A pending sub-edit whose offset may have to be carried forward.
pub struct Rebase {
    pub table: u32,
    pub col: u16,
    /// The parameter that holds the offset.
    pub at_slot: u16,
    pub at: u64,
    pub remove: u64,
    pub key: u64,
}

/// How carrying an offset forward ended.
pub enum RebaseOutcome {
    At(u64),
    Collision,
    /// What happened since cannot be told.
    Unwitnessed,
}

/// What can be carried forward: a splice of an UPDATE's own column whose
/// offset is a parameter, on one known key.
pub open spec fn rebase_of(plan: CompiledPlan, params: Seq<Value>, key: Option<u64>) -> Option<Rebase> {
    match (own_splice(plan.stmt), plan.stmt) {
        (Some(is), PlanStmt::Update { table, access: _, filter: _, set }) => match (
            is[1],
            known_count(is[1], plan.consts@, params),
            known_count(is[2], plan.consts@, params),
            key,
        ) {
            (Instr::PushParam(slot), Some(at), Some(remove), Some(key)) => Some(
                Rebase { table, col: set@[0].0, at_slot: slot, at: at as u64, remove: remove as u64, key },
            ),
            _ => None,
        },
        _ => None,
    }
}

/// What of a statement can be carried forward, if anything.
pub fn rebase_request(plan: &CompiledPlan, params: &[Value], key: Option<u64>) -> (r: Option<Rebase>)
    ensures
        r == rebase_of(*plan, params@, key),
{
    let is = match splice_instrs(plan) {
        Some(is) => is,
        None => {
            return None;
        },
    };
    let slot: u16 = match is[1] {
        Instr::PushParam(slot) => slot,
        _ => {
            return None;
        },
    };
    let consts = plan.consts.as_slice();
    let at: i64 = match const_or_param(&is[1], consts, params) {
        Some(n) => n,
        None => {
            return None;
        },
    };
    let remove: i64 = match const_or_param(&is[2], consts, params) {
        Some(n) => n,
        None => {
            return None;
        },
    };
    match (&plan.stmt, key) {
        (PlanStmt::Update { table, access: _, filter: _, set }, Some(key)) => Some(
            Rebase { table: *table, col: set[0].0, at_slot: slot, at: at as u64, remove: remove as u64, key },
        ),
        _ => None,
    }
}

/// The offset to run with: moved, or refused where the edits concern the same
/// bytes or the history is unknown.
pub fn rebase_splice_params(outcome: RebaseOutcome) -> (r: Result<i64>)
    requires
        outcome matches RebaseOutcome::At(n) ==> n <= i64::MAX,
    ensures
        match outcome {
            RebaseOutcome::At(n) => r is Ok && r->Ok_0 == n,
            _ => r is Err && r->Err_0@ == Fault::WriteConflict,
        },
{
    match outcome {
        RebaseOutcome::At(n) => Ok(n as i64),
        RebaseOutcome::Collision => Err(Error::WriteConflict),
        RebaseOutcome::Unwitnessed => Err(Error::WriteConflict),
    }
}

// ---------------------------------------------------------------- laws

/// What an expression is evaluated with: the row's columns, what every call
/// and operator makes of its arguments, and on which values a jump is taken.
pub struct Env {
    pub col: spec_fn(u16) -> ValueModel,
    pub call: spec_fn(Instr, Seq<ValueModel>) -> ValueModel,
    pub jumps: spec_fn(Instr, ValueModel) -> bool,
}

/// The value in a slot.
pub open spec fn slot_value(vs: Seq<Value>, i: u16) -> ValueModel {
    if i < vs.len() {
        vs[i as int].model()
    } else {
        ValueModel::Null
    }
}

/// A call of `k` arguments on a stack.
pub open spec fn called(i: Instr, k: nat, s: Seq<ValueModel>, env: Env) -> Option<Seq<ValueModel>> {
    if s.len() < k {
        None
    } else {
        let at = s.len() - k;
        Some(s.take(at).push((env.call)(i, s.skip(at))))
    }
}

/// What running the instructions from `pc` to the end on a stack leaves;
/// `None` where they take more than there is or jump back or out.
pub open spec fn ran(is: Seq<Instr>, pc: int, s: Seq<ValueModel>, consts: Seq<Value>, params: Seq<Value>, env: Env) -> Option<Seq<ValueModel>>
    decreases is.len() - pc,
{
    if pc < 0 || pc >= is.len() {
        Some(s)
    } else {
        match is[pc] {
            Instr::PushCol(c) => ran(is, pc + 1, s.push((env.col)(c)), consts, params, env),
            Instr::PushConst(k) => ran(is, pc + 1, s.push(slot_value(consts, k)), consts, params, env),
            Instr::PushParam(p) => ran(is, pc + 1, s.push(slot_value(params, p)), consts, params, env),
            Instr::Call(_, k) => match called(is[pc], k as nat, s, env) {
                None => None,
                Some(t) => ran(is, pc + 1, t, consts, params, env),
            },
            Instr::Op(k) => match called(is[pc], k as nat, s, env) {
                None => None,
                Some(t) => ran(is, pc + 1, t, consts, params, env),
            },
            Instr::Jump(t) => if pc < t <= is.len() { ran(is, t as int, s, consts, params, env) } else { None },
            Instr::JumpIf(t) => if s.len() == 0 || !(pc < t <= is.len()) {
                None
            } else if (env.jumps)(is[pc], s.last()) {
                ran(is, t as int, s.drop_last(), consts, params, env)
            } else {
                ran(is, pc + 1, s.drop_last(), consts, params, env)
            },
        }
    }
}

/// Every instruction is reached with a known number of values.
proof fn lemma_reached(is: Seq<Instr>, from: int, to: int, m: int)
    requires
        from <= m <= to,
        forall|j: int| from <= j < to ==> #[trigger] jump_agrees(is, from, to, j),
        entered(is, from, to) is Some,
    ensures
        entered(is, from, m) is Some,
    decreases to - m,
{
    if m < to {
        lemma_reached(is, from, to, m + 1);
        assert(jump_agrees(is, from, to, m));
    }
}

/// Whatever way the instructions from `pc` up to `to` take, they come to `to`
/// with what was there before and the values that they leave.
proof fn lemma_values_on_top(is: Seq<Instr>, from: int, to: int, pc: int, base: Seq<ValueModel>, s: Seq<ValueModel>, consts: Seq<Value>, params: Seq<Value>, env: Env) -> (t: Seq<ValueModel>)
    requires
        0 <= from <= pc <= to < is.len(),
        forall|j: int| from <= j < to ==> #[trigger] jump_agrees(is, from, to, j),
        entered(is, from, to) is Some,
        entered(is, from, pc) is Some,
        s.len() == base.len() + entered(is, from, pc)->Some_0,
        s.take(base.len() as int) == base,
    ensures
        ran(is, pc, s, consts, params, env) == ran(is, to, t, consts, params, env),
        t.len() == base.len() + entered(is, from, to)->Some_0,
        t.take(base.len() as int) == base,
    decreases to - pc,
{
    let b = base.len() as int;
    if pc == to {
        s
    } else {
        assert(jump_agrees(is, from, to, pc));
        let d = entered(is, from, pc)->Some_0;
        match is[pc] {
            Instr::PushCol(c) => {
                let n = s.push((env.col)(c));
                assert(n.take(b) =~= s.take(b));
                lemma_values_on_top(is, from, to, pc + 1, base, n, consts, params, env)
            },
            Instr::PushConst(k) => {
                let n = s.push(slot_value(consts, k));
                assert(n.take(b) =~= s.take(b));
                lemma_values_on_top(is, from, to, pc + 1, base, n, consts, params, env)
            },
            Instr::PushParam(p) => {
                let n = s.push(slot_value(params, p));
                assert(n.take(b) =~= s.take(b));
                lemma_values_on_top(is, from, to, pc + 1, base, n, consts, params, env)
            },
            Instr::Call(_, k) => {
                lemma_reached(is, from, to, pc + 1);
                let n = called(is[pc], k as nat, s, env)->Some_0;
                assert(n.take(b) =~= s.take(b));
                lemma_values_on_top(is, from, to, pc + 1, base, n, consts, params, env)
            },
            Instr::Op(k) => {
                lemma_reached(is, from, to, pc + 1);
                let n = called(is[pc], k as nat, s, env)->Some_0;
                assert(n.take(b) =~= s.take(b));
                lemma_values_on_top(is, from, to, pc + 1, base, n, consts, params, env)
            },
            Instr::Jump(t) => lemma_values_on_top(is, from, to, t as int, base, s, consts, params, env),
            Instr::JumpIf(t) => {
                lemma_reached(is, from, to, pc + 1);
                let n = s.drop_last();
                assert(n.take(b) =~= s.take(b));
                if (env.jumps)(is[pc], s.last()) {
                    lemma_values_on_top(is, from, to, t as int, base, n, consts, params, env)
                } else {
                    lemma_values_on_top(is, from, to, pc + 1, base, n, consts, params, env)
                }
            },
        }
    }
}

/// Where a byte range is told, the statement's value is a splice of the
/// column's own value at exactly that range: whatever is inserted, no byte
/// outside the range is rewritten.
pub proof fn law_told_range_is_what_is_spliced(
    plan: CompiledPlan,
    params: Seq<Value>,
    env: Env,
    table: u32,
    set: Vec<(u16, ExprProgram)>,
    lo: int,
    hi: int,
)
    requires
        plan.stmt matches PlanStmt::Update { table: t, access: _, filter: _, set: s } && t == table && s == set,
        range_touched(plan, params) == Some((lo, hi)),
    ensures
        ({
            let end = ran(set@[0].1.instrs@, 0, Seq::empty(), plan.consts@, params, env);
            &&& set@.len() == 1
            &&& end is Some
            &&& end->Some_0.len() == 1
            &&& exists|args: Seq<ValueModel>|
                args.len() == 4 && args[0] == (env.col)(set@[0].0) && args[1] == ValueModel::Int(lo) && args[2] == ValueModel::Int(
                    hi - lo,
                ) && end->Some_0[0] == #[trigger] (env.call)(Instr::Call(ScalarFn::Splice, 4), args)
        }),
{
    let is = set@[0].1.instrs@;
    let n = is.len() as int;
    let (c, p) = (plan.consts@, params);
    let base = seq![(env.col)(set@[0].0), ValueModel::Int(lo), ValueModel::Int(hi - lo)];
    reveal_with_fuel(ran, 4);
    let none = Seq::<ValueModel>::empty();
    assert(none.push(base[0]).push(base[1]).push(base[2]) =~= base);
    assert(ran(is, 0, none, c, p, env) == ran(is, 3, base, c, p, env));
    assert(base.take(3) =~= base);
    assert(entered(is, 3, 3) == Some(0nat));
    let s = lemma_values_on_top(is, 3, n - 1, 3, base, base, c, p, env);
    let args = s.skip(0);
    assert forall|i: int| 0 <= i < 3 implies args[i] == base[i] by {
        assert(s.take(3)[i] == base[i]);
    }
    assert(is[n - 1] == Instr::Call(ScalarFn::Splice, 4));
    let last = called(is[n - 1], 4, s, env)->Some_0;
    assert(s.take(0) =~= none);
    assert(last =~= seq![(env.call)(Instr::Call(ScalarFn::Splice, 4), args)]);
    assert(ran(is, n - 1, s, c, p, env) == Some(last));
}

/// Where a change of length is told, the inserted value is what a literal or a
/// parameter holds, and the change is its length in bytes less what is removed.
pub proof fn law_told_change_is_inserted_less_removed(plan: CompiledPlan, params: Seq<Value>, d: int, is: Seq<Instr>)
    requires
        length_change(plan, params) == Some(d),
        own_splice(plan.stmt) == Some(is),
    ensures
        is.len() == 5,
        ({
            let held = |i: Instr| match i {
                Instr::PushConst(k) => slot_value(plan.consts@, k),
                Instr::PushParam(p) => slot_value(params, p),
                _ => ValueModel::Null,
            };
            exists|removed: int|
                held(is[2]) == ValueModel::Int(removed) && removed >= 0 && match held(is[3]) {
                    ValueModel::Text(t) => #[trigger] (d + removed) == encode_utf8(t).len(),
                    ValueModel::Blob(b) => d + removed == b.len(),
                    _ => false,
                }
        }),
{
    let removed = known_count(is[2], plan.consts@, params)->Some_0;
    assert(d + removed == known_len(is[3], plan.consts@, params)->Some_0);
}

/// What is carried forward is the edit that the statement makes: the offset is
/// the parameter in the slot that is named, the length is what it removes, the
/// column is the one that it splices, and the key is the one given.
pub proof fn law_rebase_is_the_edit(plan: CompiledPlan, params: Seq<Value>, key: Option<u64>, r: Rebase)
    requires
        rebase_of(plan, params, key) == Some(r),
    ensures
        key == Some(r.key),
        slot_value(params, r.at_slot) == ValueModel::Int(r.at as int),
        plan.stmt matches PlanStmt::Update { table, access: _, filter: _, set } && table == r.table && set@.len() == 1 && set@[0].0 == r.col,
        range_touched(plan, params) matches Some((lo, hi)) ==> lo == r.at && hi - lo == r.remove,
{
    let is = own_splice(plan.stmt)->Some_0;
    let at = known_count(is[1], plan.consts@, params)->Some_0;
    assert(at == slot_value(params, r.at_slot)->Int_0);
    assert(params[r.at_slot as int].model() == ValueModel::Int(at));
    match params[r.at_slot as int] {
        Value::Int(n) => {
            assert(at == n);
        },
        _ => {},
    }
    let remove = known_count(is[2], plan.consts@, params)->Some_0;
    match is[2] {
        Instr::PushConst(k) => match plan.consts@[k as int] {
            Value::Int(n) => {
                assert(remove == n);
            },
            _ => {},
        },
        Instr::PushParam(p) => match params[p as int] {
            Value::Int(n) => {
                assert(remove == n);
            },
            _ => {},
        },
        _ => {},
    }
}

/// A splice of the column's own value by literals or parameters is told: its
/// range where both ends fit, whatever is inserted.
pub proof fn law_plain_splice_is_told(plan: CompiledPlan, params: Seq<Value>, set: Vec<(u16, ExprProgram)>, at: int, remove: int)
    requires
        plan.stmt matches PlanStmt::Update { table: _, access: _, filter: _, set: s } && s == set,
        set@.len() == 1,
        set@[0].1.instrs@.len() == 5,
        set@[0].1.instrs@[0] == Instr::PushCol(set@[0].0),
        set@[0].1.instrs@[4] == Instr::Call(ScalarFn::Splice, 4),
        forall|i: int|
            1 <= i < 4 ==> match #[trigger] set@[0].1.instrs@[i] {
                Instr::PushConst(k) => k < plan.consts@.len(),
                Instr::PushParam(p) => p < params.len(),
                _ => false,
            },
        at >= 0,
        remove >= 0,
        at + remove <= u32::MAX,
        match set@[0].1.instrs@[1] {
            Instr::PushConst(k) => slot_value(plan.consts@, k) == ValueModel::Int(at),
            Instr::PushParam(p) => slot_value(params, p) == ValueModel::Int(at),
            _ => false,
        },
        match set@[0].1.instrs@[2] {
            Instr::PushConst(k) => slot_value(plan.consts@, k) == ValueModel::Int(remove),
            Instr::PushParam(p) => slot_value(params, p) == ValueModel::Int(remove),
            _ => false,
        },
    ensures
        range_touched(plan, params) == Some((at, at + remove)),
{
    let is = set@[0].1.instrs@;
    reveal_with_fuel(entered, 3);
    assert(entered(is, 3, 3) == Some(0nat));
    assert(is[3] is PushConst || is[3] is PushParam);
    assert(entered(is, 3, 4) == Some(1nat));
    assert forall|j: int| 3 <= j < 4 implies #[trigger] jump_agrees(is, 3, 4, j) by {}
    assert(values_left(is, 3, 4) == Some(1nat));
    assert(is[1] is PushConst || is[1] is PushParam);
    assert(is[2] is PushConst || is[2] is PushParam);
}

} // verus!
