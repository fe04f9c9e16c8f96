//! A worst-case estimate of the work that one execution of a plan may do,
//! made before it runs from the exact row counts of the tables.
//!
//! Cardinalities multiply along joins and along correlated subqueries, which
//! run once per outer row. All arithmetic clamps at `u64::MAX`.

use vstd::prelude::*;
use vstd::string::StringExecFns;
use crate::plan::{
    AccessPath, CompiledPlan, CompoundArm, CompoundPlan, DerivedPlan, PlanStmt, Schema, SelectPlan, SubBody, SubPlan,
};
use crate::text::{dec, numbered, push_dec, quoted_in};

verus! {

/// The table id of a SELECT without FROM.
pub const DUAL_TABLE: u32 = u32::MAX;

/// A worst-case estimate of the work one execution may do.
#[derive(Debug, Clone, PartialEq, Eq)]
pub struct RiskEstimate {
    /// Worst-case number of rows worked on.
    pub work_rows: u64,
    /// A label for the node that contributes the dominant term.
    pub dominant: String,
    /// That node's own contribution.
    pub dominant_rows: u64,
}

/// An estimate in the making: rows, and the dominant node with its share.
pub struct Weighed {
    pub rows: u64,
    pub label: Seq<char>,
    pub label_rows: u64,
}

impl View for RiskEstimate {
    type V = Weighed;

    open spec fn view(&self) -> Weighed {
        Weighed { rows: self.work_rows, label: self.dominant@, label_rows: self.dominant_rows }
    }
}

pub open spec fn clamped(n: nat) -> u64 {
    if n > u64::MAX {
        u64::MAX
    } else {
        n as u64
    }
}

pub open spec fn larger(a: u64, b: u64) -> u64 {
    if a >= b {
        a
    } else {
        b
    }
}

fn sat_mul(a: u64, b: u64) -> (r: u64)
    ensures
        r == clamped(a as nat * b as nat),
{
    let p: u128 = {
        proof {
            assert(a as int * b as int <= 0xffff_ffff_ffff_ffff * 0xffff_ffff_ffff_ffff) by (nonlinear_arith)
                requires
                    0 <= a as int <= 0xffff_ffff_ffff_ffff,
                    0 <= b as int <= 0xffff_ffff_ffff_ffff,
            ;
            assert(a as int * b as int >= 0) by (nonlinear_arith)
                requires
                    a as int >= 0,
                    b as int >= 0,
            ;
        }
        (a as u128) * (b as u128)
    };
    if p > u64::MAX as u128 {
        u64::MAX
    } else {
        p as u64
    }
}

// ---------------------------------------------------------------- parts of an estimate

/// The row count of a table; 0 for an unknown id.
pub open spec fn count_of(counts: Seq<u64>, id: u32) -> u64 {
    if id < counts.len() {
        counts[id as int]
    } else {
        0
    }
}

/// The name of a table in a label.
pub open spec fn shown_table(schema: Schema, id: u32) -> Seq<char> {
    if id == DUAL_TABLE {
        "dual"@
    } else if id < schema.tables@.len() {
        schema.tables@[id as int].name@
    } else {
        "table #"@ + dec(id as nat)
    }
}

/// The index numbered `index_no`, counted from one, is unique and probed over
/// its whole width.
pub open spec fn full_unique_probe(schema: Schema, table: u32, index_no: u32, parts: nat) -> bool {
    &&& table < schema.tables@.len()
    &&& 1 <= index_no <= schema.tables@[table as int].indexes@.len()
    &&& schema.tables@[table as int].indexes@[index_no - 1].unique
    &&& schema.tables@[table as int].indexes@[index_no - 1].columns@.len() == parts
}

/// The most rows that an access path of a table gives.
pub open spec fn access_rows(access: AccessPath, table: u32, schema: Schema, counts: Seq<u64>) -> u64 {
    if table == DUAL_TABLE {
        1
    } else {
        match access {
            AccessPath::PkPoint(_) => 1,
            AccessPath::IndexPoint { index_no, parts } => if full_unique_probe(schema, table, index_no, parts@.len()) {
                1
            } else {
                count_of(counts, table)
            },
            _ => count_of(counts, table),
        }
    }
}

/// One more candidate for the dominant node; the later of two equal ones
/// stays.
pub open spec fn considered(a: Weighed, rows: u64, label: Seq<char>) -> Weighed {
    Weighed {
        rows: larger(a.rows, rows),
        label: if rows >= a.label_rows { label } else { a.label },
        label_rows: larger(a.label_rows, rows),
    }
}

pub open spec fn started(rows: u64, label: Seq<char>) -> Weighed {
    Weighed { rows, label, label_rows: rows }
}

pub open spec fn scan_label(schema: Schema, table: u32) -> Seq<char> {
    "scan of table \""@ + shown_table(schema, table) + "\""@
}

/// The rows of a SELECT's first table times those of its first `n` joins.
pub open spec fn join_product(sp: SelectPlan, schema: Schema, counts: Seq<u64>, n: nat) -> u64
    decreases n,
{
    if n == 0 {
        access_rows(sp.access, sp.table, schema, counts)
    } else {
        let j = sp.joins@[n - 1];
        clamped(
            join_product(sp, schema, counts, (n - 1) as nat) as nat * access_rows(j.access, j.table, schema, counts) as nat,
        )
    }
}

/// The estimate of a SELECT's first table and its first `n` joins.
pub open spec fn joined(sp: SelectPlan, schema: Schema, counts: Seq<u64>, n: nat) -> Weighed
    decreases n,
{
    if n == 0 {
        started(access_rows(sp.access, sp.table, schema, counts), scan_label(schema, sp.table))
    } else {
        considered(
            joined(sp, schema, counts, (n - 1) as nat),
            join_product(sp, schema, counts, n),
            "nested-loop join with \""@ + shown_table(schema, sp.joins@[n - 1].table) + "\""@,
        )
    }
}

pub open spec fn correlated_label(schema: Schema, body: SubBody) -> Seq<char> {
    match body {
        SubBody::Select(sp) => "correlated subquery over \""@ + shown_table(schema, sp.table) + "\""@,
        SubBody::Compound(_) => "correlated subquery"@,
    }
}

/// One lifted subquery beside `outer` rows, given its own estimate.
pub open spec fn with_sub(a: Weighed, outer: u64, sub: SubPlan, inner: Weighed, schema: Schema) -> Weighed {
    if sub.correlated {
        considered(a, clamped(outer as nat * inner.rows as nat), correlated_label(schema, sub.body))
    } else {
        considered(a, inner.rows, inner.label)
    }
}

// ---------------------------------------------------------------- nesting

/// How much nested material the first `n` subqueries hold.
pub open spec fn subs_size(subs: Seq<SubPlan>, n: nat) -> nat
    decreases subs, n,
{
    if n == 0 || n > subs.len() {
        0
    } else {
        1 + body_size(subs[n - 1].body) + subs_size(subs[n - 1].subplans@, subs[n - 1].subplans@.len()) + subs_size(
            subs,
            (n - 1) as nat,
        )
    }
}

/// How much nested material a body holds.
pub open spec fn body_size(body: SubBody) -> nat
    decreases body, 0nat,
{
    match body {
        SubBody::Select(_) => 0,
        SubBody::Compound(c) => 1 + arms_size(c.arms@, c.arms@.len()),
    }
}

/// How much nested material the first `n` arms hold.
pub open spec fn arms_size(arms: Seq<CompoundArm>, n: nat) -> nat
    decreases arms, n,
{
    if n == 0 || n > arms.len() {
        0
    } else {
        arms_size(arms, (n - 1) as nat) + match arms[n - 1] {
            CompoundArm::Select(_) => 0,
            CompoundArm::Derived(dp) => 1 + body_size(dp.body) + subs_size(dp.body_subplans@, dp.body_subplans@.len()),
        }
    }
}

pub proof fn lemma_subs_size(subs: Seq<SubPlan>, n: nat, i: int)
    requires
        0 <= i < n <= subs.len(),
    ensures
        subs_size(subs, n) >= 1 + body_size(subs[i].body) + subs_size(subs[i].subplans@, subs[i].subplans@.len()),
    decreases n,
{
    if i < n - 1 {
        lemma_subs_size(subs, (n - 1) as nat, i);
    }
}

pub proof fn lemma_arms_size(arms: Seq<CompoundArm>, n: nat, i: int)
    requires
        0 <= i < n <= arms.len(),
    ensures
        arms[i] matches CompoundArm::Derived(dp) ==> arms_size(arms, n) >= 1 + body_size(dp.body) + subs_size(
            dp.body_subplans@,
            dp.body_subplans@.len(),
        ),
    decreases n,
{
    if i < n - 1 {
        lemma_arms_size(arms, (n - 1) as nat, i);
    }
}

// ---------------------------------------------------------------- the estimate

/// The first `n` subqueries beside `outer` rows.
pub open spec fn with_subs(a: Weighed, outer: u64, subs: Seq<SubPlan>, schema: Schema, counts: Seq<u64>, n: nat) -> Weighed
    decreases subs_size(subs, subs.len()), 0nat, n,
{
    if n == 0 || n > subs.len() {
        a
    } else {
        let sub = subs[n - 1];
        proof {
            lemma_subs_size(subs, subs.len(), n - 1);
        }
        with_sub(
            with_subs(a, outer, subs, schema, counts, (n - 1) as nat),
            outer,
            sub,
            body_estimate(sub.body, sub.subplans@, schema, counts),
            schema,
        )
    }
}

/// The estimate of one SELECT with its subqueries.
pub open spec fn select_estimate(sp: SelectPlan, subs: Seq<SubPlan>, schema: Schema, counts: Seq<u64>) -> Weighed
    decreases subs_size(subs, subs.len()), 1nat, 0nat,
{
    with_subs(
        joined(sp, schema, counts, sp.joins@.len()),
        join_product(sp, schema, counts, sp.joins@.len()),
        subs,
        schema,
        counts,
        subs.len(),
    )
}

/// The estimate of a subquery's body.
pub open spec fn body_estimate(body: SubBody, subs: Seq<SubPlan>, schema: Schema, counts: Seq<u64>) -> Weighed
    decreases body_size(body) + subs_size(subs, subs.len()), 4nat, 0nat,
{
    match body {
        SubBody::Select(sp) => select_estimate(sp, subs, schema, counts),
        SubBody::Compound(c) => compound_estimate(c.arms@, subs, schema, counts),
    }
}

/// The estimate of one arm of a compound.
pub open spec fn arm_estimate(arms: Seq<CompoundArm>, i: nat, subs: Seq<SubPlan>, schema: Schema, counts: Seq<u64>) -> Weighed
    decreases arms_size(arms, arms.len()) + subs_size(subs, subs.len()), 2nat, 0nat,
{
    if i >= arms.len() {
        started(0, Seq::empty())
    } else {
        match arms[i as int] {
            CompoundArm::Select(sp) => select_estimate(sp, subs, schema, counts),
            CompoundArm::Derived(dp) => {
                proof {
                    lemma_arms_size(arms, arms.len(), i as int);
                }
                derived_arm(
                    body_estimate(dp.body, dp.body_subplans@, schema, counts),
                    select_estimate(dp.outer, Seq::empty(), schema, counts),
                )
            },
        }
    }
}

/// A derived table as an arm: the rows add up, and the larger node of the two
/// stays.
pub open spec fn derived_arm(body: Weighed, outer: Weighed) -> Weighed {
    considered(
        Weighed {
            rows: clamped(body.rows as nat + outer.rows as nat),
            label: body.label,
            label_rows: body.label_rows,
        },
        outer.label_rows,
        outer.label,
    )
}

/// The sum of the rows of the first `n` arms.
pub open spec fn arms_total(arms: Seq<CompoundArm>, subs: Seq<SubPlan>, schema: Schema, counts: Seq<u64>, n: nat) -> u64
    decreases arms_size(arms, arms.len()) + subs_size(subs, subs.len()), 3nat, n,
{
    if n == 0 {
        0
    } else {
        clamped(
            arms_total(arms, subs, schema, counts, (n - 1) as nat) as nat + arm_estimate(
                arms,
                (n - 1) as nat,
                subs,
                schema,
                counts,
            ).rows as nat,
        )
    }
}

/// The estimate of the worst of the first `n` arms: the one with the largest
/// single node, the first among equals.
pub open spec fn worst_arm(arms: Seq<CompoundArm>, subs: Seq<SubPlan>, schema: Schema, counts: Seq<u64>, n: nat) -> Option<Weighed>
    decreases arms_size(arms, arms.len()) + subs_size(subs, subs.len()), 3nat, n,
{
    if n == 0 {
        None
    } else {
        let a = arm_estimate(arms, (n - 1) as nat, subs, schema, counts);
        match worst_arm(arms, subs, schema, counts, (n - 1) as nat) {
            Some(b) => if b.label_rows >= a.label_rows { Some(b) } else { Some(a) },
            None => Some(a),
        }
    }
}

/// The estimate of a compound: the sum of the arms, with the largest node of
/// the worst.
pub open spec fn compound_estimate(arms: Seq<CompoundArm>, subs: Seq<SubPlan>, schema: Schema, counts: Seq<u64>) -> Weighed
    decreases arms_size(arms, arms.len()) + subs_size(subs, subs.len()), 4nat, 0nat,
{
    let best = match worst_arm(arms, subs, schema, counts, arms.len()) {
        Some(b) => b,
        None => started(0, "empty compound"@),
    };
    Weighed {
        rows: larger(arms_total(arms, subs, schema, counts, arms.len()), best.rows),
        label: best.label,
        label_rows: best.label_rows,
    }
}

/// The largest node takes the whole estimate as its contribution.
pub open spec fn attributed(a: Weighed) -> Weighed {
    Weighed { rows: a.rows, label: a.label, label_rows: a.rows }
}

/// The estimate of a whole plan.
pub open spec fn plan_estimate(plan: CompiledPlan, schema: Schema, counts: Seq<u64>) -> Weighed {
    attributed(stmt_estimate(plan, schema, counts))
}

/// The estimate of a plan's statement, with the rows of its largest node.
pub open spec fn stmt_estimate(plan: CompiledPlan, schema: Schema, counts: Seq<u64>) -> Weighed {
    let subs = plan.subplans@;
    match plan.stmt {
        PlanStmt::Select(sp) => select_estimate(sp, subs, schema, counts),
        PlanStmt::Compound(c) => compound_estimate(c.arms@, subs, schema, counts),
        PlanStmt::Insert { table, rows, from_select } => match from_select {
            Some(sel) => select_estimate(sel, subs, schema, counts),
            None => started(
                rows@.len() as u64,
                "insert of "@ + dec(rows@.len()) + " row(s) into \""@ + shown_table(schema, table) + "\""@,
            ),
        },
        PlanStmt::Update { table, access, filter: _, set: _ } => {
            let base = access_rows(access, table, schema, counts);
            with_subs(started(base, scan_label(schema, table)), base, subs, schema, counts, subs.len())
        },
        PlanStmt::Delete { table, access, filter: _ } => {
            let base = access_rows(access, table, schema, counts);
            with_subs(started(base, scan_label(schema, table)), base, subs, schema, counts, subs.len())
        },
        PlanStmt::RecursiveCte { name, limit, offset } => match limit {
            Some(lim) => started(
                clamped(lim as nat + (if offset is Some { offset->Some_0 as nat } else { 0 })),
                "recursive CTE \""@ + name@ + "\" bounded by outer LIMIT"@,
            ),
            None => started(u64::MAX, "recursive CTE \""@ + name@ + "\" (unbounded — no outer LIMIT)"@),
        },
        PlanStmt::Derived(dp) => {
            let outer = select_estimate(dp.outer, subs, schema, counts);
            considered(body_estimate(dp.body, subs, schema, counts), outer.rows, outer.label)
        },
        _ => started(0, "no-op statement"@),
    }
}

// ---------------------------------------------------------------- multiplying plans

/// One of the first `n` arms joins, or holds a subquery that multiplies.
pub open spec fn arms_join(arms: Seq<CompoundArm>, n: nat) -> bool
    decreases arms, n,
{
    if n == 0 || n > arms.len() {
        false
    } else {
        arms_join(arms, (n - 1) as nat) || match arms[n - 1] {
            CompoundArm::Select(sp) => sp.joins@.len() > 0,
            CompoundArm::Derived(dp) => dp.outer.joins@.len() > 0 || body_joins(dp.body) || subs_multiply(
                dp.body_subplans@,
                dp.body_subplans@.len(),
            ),
        }
    }
}

/// A body joins, or holds a subquery that multiplies.
pub open spec fn body_joins(body: SubBody) -> bool
    decreases body, 0nat,
{
    match body {
        SubBody::Select(sp) => sp.joins@.len() > 0,
        SubBody::Compound(c) => arms_join(c.arms@, c.arms@.len()),
    }
}

/// One of the first `n` subqueries runs once per outer row, joins, or holds
/// one that does.
pub open spec fn subs_multiply(subs: Seq<SubPlan>, n: nat) -> bool
    decreases subs, n,
{
    if n == 0 || n > subs.len() {
        false
    } else {
        subs_multiply(subs, (n - 1) as nat) || subs[n - 1].correlated || body_joins(subs[n - 1].body) || subs_multiply(
            subs[n - 1].subplans@,
            subs[n - 1].subplans@.len(),
        )
    }
}

/// A plan joins anywhere, or has a subquery that runs once per outer row, or
/// recurses.
pub open spec fn can_multiply(plan: CompiledPlan) -> bool {
    let subs = subs_multiply(plan.subplans@, plan.subplans@.len());
    match plan.stmt {
        PlanStmt::Select(sp) => sp.joins@.len() > 0 || subs,
        PlanStmt::Compound(c) => arms_join(c.arms@, c.arms@.len()) || subs,
        PlanStmt::Insert { table: _, rows: _, from_select } => (from_select matches Some(sp) && sp.joins@.len() > 0) || subs,
        PlanStmt::Update { table: _, access: _, filter: _, set: _ } => subs,
        PlanStmt::Delete { table: _, access: _, filter: _ } => subs,
        PlanStmt::RecursiveCte { name: _, limit: _, offset: _ } => true,
        PlanStmt::Derived(dp) => body_joins(dp.body) || dp.outer.joins@.len() > 0 || subs_multiply(
            dp.body_subplans@,
            dp.body_subplans@.len(),
        ) || subs,
        _ => false,
    }
}

proof fn lemma_subs_multiply_from(subs: Seq<SubPlan>, m: nat, n: nat)
    requires
        m <= n <= subs.len(),
        subs_multiply(subs, m),
    ensures
        subs_multiply(subs, n),
    decreases n,
{
    if m < n {
        lemma_subs_multiply_from(subs, m, (n - 1) as nat);
    }
}

fn some_sub_multiplies(subs: &Vec<SubPlan>) -> (r: bool)
    ensures
        r == subs_multiply(subs@, subs@.len()),
    decreases subs_size(subs@, subs@.len()), 2nat,
{
    let mut i: usize = 0;
    while i < subs.len()
        invariant
            i <= subs@.len(),
            !subs_multiply(subs@, i as nat),
        decreases subs@.len() - i,
    {
        proof {
            lemma_subs_size(subs@, subs@.len(), i as int);
        }
        let sub = &subs[i];
        if sub.correlated || some_body_joins(&sub.body) || some_sub_multiplies(&sub.subplans) {
            proof {
                assert(subs_multiply(subs@, (i + 1) as nat));
                lemma_subs_multiply_from(subs@, (i + 1) as nat, subs@.len());
            }
            return true;
        }
        i += 1;
    }
    false
}

proof fn lemma_arms_join_from(arms: Seq<CompoundArm>, m: nat, n: nat)
    requires
        m <= n <= arms.len(),
        arms_join(arms, m),
    ensures
        arms_join(arms, n),
    decreases n,
{
    if m < n {
        lemma_arms_join_from(arms, m, (n - 1) as nat);
    }
}

fn some_arm_joins(arms: &Vec<CompoundArm>) -> (r: bool)
    ensures
        r == arms_join(arms@, arms@.len()),
    decreases arms_size(arms@, arms@.len()), 1nat,
{
    let mut i: usize = 0;
    while i < arms.len()
        invariant
            i <= arms@.len(),
            !arms_join(arms@, i as nat),
        decreases arms@.len() - i,
    {
        let joins = match &arms[i] {
            CompoundArm::Select(sp) => sp.joins.len() > 0,
            CompoundArm::Derived(dp) => {
                proof {
                    lemma_arms_size(arms@, arms@.len(), i as int);
                }
                dp.outer.joins.len() > 0 || some_body_joins(&dp.body) || some_sub_multiplies(&dp.body_subplans)
            },
        };
        if joins {
            proof {
                assert(arms_join(arms@, (i + 1) as nat));
                lemma_arms_join_from(arms@, (i + 1) as nat, arms@.len());
            }
            return true;
        }
        i += 1;
    }
    false
}

fn some_body_joins(body: &SubBody) -> (r: bool)
    ensures
        r == body_joins(*body),
    decreases body_size(*body), 0nat,
{
    match body {
        SubBody::Select(sp) => sp.joins.len() > 0,
        SubBody::Compound(c) => some_arm_joins(&c.arms),
    }
}

impl RiskEstimate {
    /// Whether the estimate is over a budget. A budget of 0 has no limit.
    pub fn exceeds(&self, budget: u64) -> (r: bool)
        ensures
            r == (budget != 0 && self@.rows > budget),
    {
        budget != 0 && self.work_rows > budget
    }

    /// Whether a plan multiplies cardinalities at all, so that an estimate is
    /// worth the row counts it reads.
    pub fn plan_can_multiply(plan: &CompiledPlan) -> (r: bool)
        ensures
            r == can_multiply(*plan),
    {
        match &plan.stmt {
            PlanStmt::Select(sp) => sp.joins.len() > 0 || some_sub_multiplies(&plan.subplans),
            PlanStmt::Compound(c) => some_arm_joins(&c.arms) || some_sub_multiplies(&plan.subplans),
            PlanStmt::Insert { table: _, rows: _, from_select } => {
                let joins = match from_select {
                    Some(sp) => sp.joins.len() > 0,
                    None => false,
                };
                joins || some_sub_multiplies(&plan.subplans)
            },
            PlanStmt::Update { table: _, access: _, filter: _, set: _ } => some_sub_multiplies(&plan.subplans),
            PlanStmt::Delete { table: _, access: _, filter: _ } => some_sub_multiplies(&plan.subplans),
            PlanStmt::RecursiveCte { name: _, limit: _, offset: _ } => true,
            PlanStmt::Derived(dp) => some_body_joins(&dp.body) || dp.outer.joins.len() > 0 || some_sub_multiplies(&dp.body_subplans)
                || some_sub_multiplies(&plan.subplans),
            _ => false,
        }
    }
}

// ---------------------------------------------------------------- computing it

/// A running estimate as a walk folds a plan together.
pub struct Acc {
    rows: u64,
    label: String,
    label_rows: u64,
}

impl View for Acc {
    type V = Weighed;

    closed spec fn view(&self) -> Weighed {
        Weighed { rows: self.rows, label: self.label@, label_rows: self.label_rows }
    }
}

impl Acc {
    /// An estimate of one node.
    pub fn new(rows: u64, label: String) -> (a: Acc)
        ensures
            a@ == started(rows, label@),
    {
        Acc { rows, label_rows: rows, label }
    }

    /// Record a candidate for the dominant node; the larger one stays.
    pub fn consider(&mut self, rows: u64, label: String)
        ensures
            final(self)@ == considered(old(self)@, rows, label@),
    {
        if rows >= self.label_rows {
            self.label_rows = rows;
            self.label = label;
        }
        if rows > self.rows {
            self.rows = rows;
        }
    }

    /// The finished estimate.
    pub fn into_estimate(self) -> (e: RiskEstimate)
        ensures
            e@ == attributed(self@),
    {
        RiskEstimate { work_rows: self.rows, dominant: self.label, dominant_rows: self.rows }
    }
}

/// The name of a table in a label.
pub fn table_name(schema: &Schema, id: u32) -> (r: String)
    ensures
        r@ == shown_table(*schema, id),
{
    if id == DUAL_TABLE {
        return String::from_str("dual");
    }
    match schema.table(id) {
        Some(t) => t.name.clone(),
        None => {
            let mut s = String::from_str("table #");
            push_dec(&mut s, id as u128);
            s
        },
    }
}

fn row_count(counts: &Vec<u64>, id: u32) -> (r: u64)
    ensures
        r == count_of(counts@, id),
{
    if (id as usize) < counts.len() {
        counts[id as usize]
    } else {
        0
    }
}

/// The most rows that an access path of a table gives. A key gives at most
/// one row, and so does a full-width probe of a unique index.
pub fn card_access(access: &AccessPath, table: u32, schema: &Schema, counts: &Vec<u64>) -> (r: u64)
    ensures
        r == access_rows(*access, table, *schema, counts@),
{
    if table == DUAL_TABLE {
        return 1;
    }
    match access {
        AccessPath::PkPoint(_) => 1,
        AccessPath::IndexPoint { index_no, parts } => {
            let uniq_full = match schema.table(table) {
                Some(t) => {
                    let n: u32 = *index_no;
                    n >= 1 && n as usize <= t.indexes.len() && t.indexes[n as usize - 1].unique && parts.len() == t.indexes[n as usize
                        - 1].columns.len()
                },
                None => false,
            };
            if uniq_full {
                1
            } else {
                row_count(counts, table)
            }
        },
        _ => row_count(counts, table),
    }
}

fn add_subs(acc: &mut Acc, outer: u64, subs: &Vec<SubPlan>, schema: &Schema, counts: &Vec<u64>)
    ensures
        final(acc)@ == with_subs(old(acc)@, outer, subs@, *schema, counts@, subs@.len()),
    decreases subs_size(subs@, subs@.len()), 0nat,
{
    let ghost start = acc@;
    let mut i: usize = 0;
    while i < subs.len()
        invariant
            i <= subs@.len(),
            acc@ == with_subs(start, outer, subs@, *schema, counts@, i as nat),
        decreases subs@.len() - i,
    {
        let sub = &subs[i];
        proof {
            lemma_subs_size(subs@, subs@.len(), i as int);
        }
        let inner = estimate_body(&sub.body, &sub.subplans, schema, counts);
        if !sub.correlated {
            acc.consider(inner.rows, inner.label);
        } else {
            let work: u64 = sat_mul(outer, inner.rows);
            let label = match &sub.body {
                SubBody::Select(sp) => quoted_in(
                    "correlated subquery over \"",
                    table_name(schema, sp.table).as_str(),
                    "\"",
                ),
                SubBody::Compound(_) => String::from_str("correlated subquery"),
            };
            acc.consider(work, label);
        }
        i += 1;
    }
}

fn estimate_select(sp: &SelectPlan, subs: &Vec<SubPlan>, schema: &Schema, counts: &Vec<u64>) -> (acc: Acc)
    ensures
        acc@ == select_estimate(*sp, subs@, *schema, counts@),
    decreases subs_size(subs@, subs@.len()), 1nat,
{
    let base: u64 = card_access(&sp.access, sp.table, schema, counts);
    let mut acc = Acc::new(base, quoted_in("scan of table \"", table_name(schema, sp.table).as_str(), "\""));
    let mut product: u64 = base;
    let mut i: usize = 0;
    while i < sp.joins.len()
        invariant
            i <= sp.joins@.len(),
            product == join_product(*sp, *schema, counts@, i as nat),
            acc@ == joined(*sp, *schema, counts@, i as nat),
        decreases sp.joins@.len() - i,
    {
        let join = &sp.joins[i];
        let inner: u64 = card_access(&join.access, join.table, schema, counts);
        product = sat_mul(product, inner);
        acc.consider(product, quoted_in("nested-loop join with \"", table_name(schema, join.table).as_str(), "\""));
        i += 1;
    }
    add_subs(&mut acc, product, subs, schema, counts);
    acc
}

fn estimate_body(body: &SubBody, subs: &Vec<SubPlan>, schema: &Schema, counts: &Vec<u64>) -> (acc: Acc)
    ensures
        acc@ == body_estimate(*body, subs@, *schema, counts@),
    decreases body_size(*body) + subs_size(subs@, subs@.len()), 4nat,
{
    match body {
        SubBody::Select(sp) => estimate_select(sp, subs, schema, counts),
        SubBody::Compound(c) => estimate_compound(c, subs, schema, counts),
    }
}

fn estimate_derived_arm(dp: &DerivedPlan, schema: &Schema, counts: &Vec<u64>) -> (acc: Acc)
    ensures
        acc@ == derived_arm(
            body_estimate(dp.body, dp.body_subplans@, *schema, counts@),
            select_estimate(dp.outer, Seq::empty(), *schema, counts@),
        ),
    decreases body_size(dp.body) + subs_size(dp.body_subplans@, dp.body_subplans@.len()), 5nat,
{
    let none: Vec<SubPlan> = Vec::new();
    let mut acc = estimate_body(&dp.body, &dp.body_subplans, schema, counts);
    proof {
        assert(none@ =~= Seq::<SubPlan>::empty());
        assert(subs_size(none@, none@.len()) == 0);
    }
    let outer = estimate_select(&dp.outer, &none, schema, counts);
    acc.rows = acc.rows.saturating_add(outer.rows);
    acc.consider(outer.label_rows, outer.label);
    acc
}

fn estimate_compound(c: &CompoundPlan, subs: &Vec<SubPlan>, schema: &Schema, counts: &Vec<u64>) -> (acc: Acc)
    ensures
        acc@ == compound_estimate(c.arms@, subs@, *schema, counts@),
    decreases arms_size(c.arms@, c.arms@.len()) + subs_size(subs@, subs@.len()), 4nat,
{
    let mut total: u64 = 0;
    let mut best: Option<Acc> = None;
    let mut i: usize = 0;
    while i < c.arms.len()
        invariant
            i <= c.arms@.len(),
            total == arms_total(c.arms@, subs@, *schema, counts@, i as nat),
            match best {
                Some(b) => worst_arm(c.arms@, subs@, *schema, counts@, i as nat) == Some(b@),
                None => worst_arm(c.arms@, subs@, *schema, counts@, i as nat) is None,
            },
        decreases c.arms@.len() - i,
    {
        let a = match &c.arms[i] {
            CompoundArm::Select(sp) => estimate_select(sp, subs, schema, counts),
            CompoundArm::Derived(dp) => {
                proof {
                    lemma_arms_size(c.arms@, c.arms@.len(), i as int);
                }
                estimate_derived_arm(dp, schema, counts)
            },
        };
        assert(a@ == arm_estimate(c.arms@, i as nat, subs@, *schema, counts@));
        total = total.saturating_add(a.rows);
        best = match best {
            Some(b) => if b.label_rows >= a.label_rows {
                Some(b)
            } else {
                Some(a)
            },
            None => Some(a),
        };
        i += 1;
    }
    let mut acc = match best {
        Some(b) => b,
        None => Acc::new(0, String::from_str("empty compound")),
    };
    if total > acc.rows {
        acc.rows = total;
    }
    acc
}

fn estimate_write(table: u32, access: &AccessPath, subs: &Vec<SubPlan>, schema: &Schema, counts: &Vec<u64>) -> (acc: Acc)
    ensures
        ({
            let base = access_rows(*access, table, *schema, counts@);
            acc@ == with_subs(started(base, scan_label(*schema, table)), base, subs@, *schema, counts@, subs@.len())
        }),
{
    let base: u64 = card_access(access, table, schema, counts);
    let mut acc = Acc::new(base, quoted_in("scan of table \"", table_name(schema, table).as_str(), "\""));
    add_subs(&mut acc, base, subs, schema, counts);
    acc
}

/// The worst-case estimate of a plan, from the live row count of each table.
pub fn estimate_plan_risk(plan: &CompiledPlan, schema: &Schema, counts: &Vec<u64>) -> (e: RiskEstimate)
    ensures
        e@ == plan_estimate(*plan, *schema, counts@),
        e.dominant_rows == e.work_rows,
{
    proof {
        law_dominant_is_estimate(*plan, *schema, counts@);
    }
    let subs = &plan.subplans;
    let acc = match &plan.stmt {
        PlanStmt::Select(sp) => estimate_select(sp, subs, schema, counts),
        PlanStmt::Compound(c) => estimate_compound(c, subs, schema, counts),
        PlanStmt::Insert { table, rows, from_select } => match from_select {
            Some(sel) => estimate_select(sel, subs, schema, counts),
            None => {
                let head = numbered("insert of ", rows.len() as u128, " row(s) into \"");
                Acc::new(rows.len() as u64, quoted_in(head.as_str(), table_name(schema, *table).as_str(), "\""))
            },
        },
        PlanStmt::Update { table, access, filter: _, set: _ } => estimate_write(*table, access, subs, schema, counts),
        PlanStmt::Delete { table, access, filter: _ } => estimate_write(*table, access, subs, schema, counts),
        PlanStmt::RecursiveCte { name, limit, offset } => match limit {
            Some(lim) => {
                let skipped: u64 = match offset {
                    Some(o) => *o,
                    None => 0,
                };
                Acc::new(
                    lim.saturating_add(skipped),
                    quoted_in("recursive CTE \"", name.as_str(), "\" bounded by outer LIMIT"),
                )
            },
            None => Acc::new(
                u64::MAX,
                quoted_in("recursive CTE \"", name.as_str(), "\" (unbounded — no outer LIMIT)"),
            ),
        },
        PlanStmt::Derived(dp) => {
            let mut acc = estimate_body(&dp.body, subs, schema, counts);
            let outer = estimate_select(&dp.outer, subs, schema, counts);
            acc.consider(outer.rows, outer.label);
            acc
        },
        _ => Acc::new(0, String::from_str("no-op statement")),
    };
    acc.into_estimate()
}

/// The estimate above which a prepared plan is warned about: the limit in
/// force where there is one, else this ceiling.
pub const RISK_WARN_CEILING: u64 = 1_000_000_000;

// ---------------------------------------------------------------- laws

/// A cross join of `n` and `m` rows is estimated at `n * m`.
pub proof fn law_cross_join_is_product(plan: CompiledPlan, sp: SelectPlan, schema: Schema, counts: Seq<u64>)
    requires
        plan.stmt == PlanStmt::Select(sp),
        plan.subplans@.len() == 0,
        sp.joins@.len() == 1,
        sp.table != DUAL_TABLE,
        sp.joins@[0].table != DUAL_TABLE,
        sp.access is FullScan,
        sp.joins@[0].access is FullScan,
        count_of(counts, sp.joins@[0].table) > 0,
    ensures
        plan_estimate(plan, schema, counts).rows == clamped(
            count_of(counts, sp.table) as nat * count_of(counts, sp.joins@[0].table) as nat,
        ),
{
    reveal_with_fuel(joined, 2);
    reveal_with_fuel(join_product, 2);
    reveal_with_fuel(with_subs, 2);
    let n = count_of(counts, sp.table) as int;
    let m = count_of(counts, sp.joins@[0].table) as int;
    assert(n * m >= n) by (nonlinear_arith)
        requires
            n >= 0,
            m >= 1,
    ;
}

/// A correlated subquery over `n` outer rows and an inner estimate of `m` is
/// estimated at no less than `n * m`.
pub proof fn law_correlated_is_product(plan: CompiledPlan, sp: SelectPlan, schema: Schema, counts: Seq<u64>, i: int)
    requires
        plan.stmt == PlanStmt::Select(sp),
        0 <= i < plan.subplans@.len(),
        plan.subplans@[i].correlated,
    ensures
        ({
            let outer = join_product(sp, schema, counts, sp.joins@.len());
            let inner = body_estimate(plan.subplans@[i].body, plan.subplans@[i].subplans@, schema, counts).rows;
            plan_estimate(plan, schema, counts).rows >= clamped(outer as nat * inner as nat)
        }),
{
    lemma_sub_counts(
        joined(sp, schema, counts, sp.joins@.len()),
        join_product(sp, schema, counts, sp.joins@.len()),
        plan.subplans@,
        schema,
        counts,
        plan.subplans@.len(),
        i,
    );
}

proof fn lemma_sub_counts(a: Weighed, outer: u64, subs: Seq<SubPlan>, schema: Schema, counts: Seq<u64>, n: nat, i: int)
    requires
        0 <= i < n <= subs.len(),
        subs[i].correlated,
    ensures
        with_subs(a, outer, subs, schema, counts, n).rows >= clamped(
            outer as nat * body_estimate(subs[i].body, subs[i].subplans@, schema, counts).rows as nat,
        ),
    decreases n,
{
    reveal_with_fuel(with_subs, 2);
    if i < n - 1 {
        lemma_sub_counts(a, outer, subs, schema, counts, (n - 1) as nat, i);
    }
}

/// A statement over one table without subqueries is estimated at no more than
/// that table's rows, or at one row: it cannot exceed a budget by
/// multiplying.
pub proof fn law_single_table_is_bounded(plan: CompiledPlan, schema: Schema, counts: Seq<u64>)
    requires
        !can_multiply(plan),
        plan.subplans@.len() == 0,
        plan.stmt is Select || plan.stmt is Update || plan.stmt is Delete,
    ensures
        ({
            let table = match plan.stmt {
                PlanStmt::Select(sp) => sp.table,
                PlanStmt::Update { table, access: _, filter: _, set: _ } => table,
                PlanStmt::Delete { table, access: _, filter: _ } => table,
                _ => 0,
            };
            plan_estimate(plan, schema, counts).rows <= larger(1, count_of(counts, table))
        }),
{
    reveal_with_fuel(joined, 2);
    reveal_with_fuel(with_subs, 2);
}

/// The dominant node's own contribution is the estimate.
pub proof fn law_dominant_is_estimate(plan: CompiledPlan, schema: Schema, counts: Seq<u64>)
    ensures
        plan_estimate(plan, schema, counts).label_rows == plan_estimate(plan, schema, counts).rows,
{
}

} // verus!
