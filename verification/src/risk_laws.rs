//! What the estimates of [`crate::risk`] promise: they bound the rows that any
//! contents of the tables can give, multiply where work multiplies, and are no
//! larger than one of the terms that they are made of.

use vstd::prelude::*;
use vstd::set_lib::{lemma_int_range, lemma_len_subset, set_int_range};
use crate::plan::{AccessPath, CompiledPlan, CompoundArm, PlanStmt, Schema, SelectPlan, SubBody, SubPlan, TableDef};
use crate::risk::{
    access_rows, arm_estimate, arms_join, arms_total, body_estimate, body_joins, can_multiply, clamped, compound_estimate, count_of,
    join_product, joined, lemma_subs_size, plan_estimate, scan_label, select_estimate, shown_table, subs_multiply, subs_size, with_subs,
    worst_arm, Weighed, DUAL_TABLE,
};
use crate::value::ValueModel;

verus! {

// ---------------------------------------------------------------- one table

/// Two rows never agree in all columns of the primary key, nor, where none of
/// the values is NULL, in all columns of a unique index.
pub open spec fn keys_hold(t: TableDef, rows: Seq<Seq<ValueModel>>) -> bool {
    &&& forall|i: int, j: int|
        0 <= i < j < rows.len() ==> exists|k: int|
            0 <= k < t.primary_key@.len() && (#[trigger] rows[i])[t.primary_key@[k] as int] != (#[trigger] rows[j])[#[trigger] t.primary_key@[k] as int]
    &&& forall|x: int, i: int, j: int|
        0 <= x < t.indexes@.len() && t.indexes@[x].unique && 0 <= i < j < rows.len() ==> exists|k: int|
            0 <= k < t.indexes@[x].columns@.len() && {
                let c = #[trigger] (#[trigger] t.indexes@[x]).columns@[k] as int;
                (#[trigger] rows[i])[c] != (#[trigger] rows[j])[c] || rows[i][c] == ValueModel::Null
            }
}

/// A row may come through an access path that asks for the values `vs`: a key
/// access asks for the whole key, an index access for the leading columns of
/// the index, where NULL equals nothing.
pub open spec fn may_come(access: AccessPath, t: TableDef, vs: Seq<ValueModel>, row: Seq<ValueModel>) -> bool {
    match access {
        AccessPath::PkPoint(_) => forall|k: int| 0 <= k < t.primary_key@.len() ==> row[#[trigger] t.primary_key@[k] as int] == vs[k],
        AccessPath::IndexPoint { index_no, parts } => 1 <= index_no <= t.indexes@.len() ==> forall|k: int|
            0 <= k < parts@.len() && k < t.indexes@[index_no - 1].columns@.len() ==> row[#[trigger] t.indexes@[index_no - 1].columns@[k] as int]
                == vs[k] && vs[k] != ValueModel::Null,
        _ => true,
    }
}

/// The estimate of an access is a bound: whatever rows the table holds, as many
/// as are counted and with its keys intact, and whatever values are asked for,
/// no more rows come than are estimated.
pub proof fn law_access_is_bounded(
    access: AccessPath,
    table: u32,
    schema: Schema,
    counts: Seq<u64>,
    rows: Seq<Seq<ValueModel>>,
    vs: Seq<ValueModel>,
    came: Set<int>,
)
    requires
        table != DUAL_TABLE,
        table < schema.tables@.len(),
        table < counts.len(),
        rows.len() == counts[table as int],
        keys_hold(schema.tables@[table as int], rows),
        forall|i: int|
            #[trigger] came.contains(i) ==> 0 <= i < rows.len() && may_come(access, schema.tables@[table as int], vs, rows[i]),
    ensures
        came.finite(),
        came.len() <= access_rows(access, table, schema, counts),
{
    let t = schema.tables@[table as int];
    let n = rows.len() as int;
    lemma_int_range(0, n);
    assert(came.subset_of(set_int_range(0, n)));
    lemma_len_subset(came, set_int_range(0, n));
    if access_rows(access, table, schema, counts) < n {
        assert forall|i: int, j: int| #[trigger] came.contains(i) && #[trigger] came.contains(j) implies i == j by {
            if i != j {
                lemma_keys_tell_apart(access, table, schema, counts, rows, vs, if i < j { i } else { j }, if i < j { j } else { i });
            }
        }
        if came.len() > 0 {
            Set::lemma_is_singleton(came);
        }
        if access is IndexPoint {
            assert(access_rows(access, table, schema, counts) == 1);
        }
    }
}

proof fn lemma_keys_tell_apart(
    access: AccessPath,
    table: u32,
    schema: Schema,
    counts: Seq<u64>,
    rows: Seq<Seq<ValueModel>>,
    vs: Seq<ValueModel>,
    i: int,
    j: int,
)
    requires
        table != DUAL_TABLE,
        table < schema.tables@.len(),
        table < counts.len(),
        rows.len() == counts[table as int],
        keys_hold(schema.tables@[table as int], rows),
        access_rows(access, table, schema, counts) < rows.len(),
        0 <= i < j < rows.len(),
    ensures
        !(may_come(access, schema.tables@[table as int], vs, rows[i]) && may_come(access, schema.tables@[table as int], vs, rows[j])),
{
    let t = schema.tables@[table as int];
    if may_come(access, t, vs, rows[i]) && may_come(access, t, vs, rows[j]) {
        match access {
            AccessPath::PkPoint(_) => {
                let k = choose|k: int|
                    0 <= k < t.primary_key@.len() && rows[i][t.primary_key@[k] as int] != rows[j][#[trigger] t.primary_key@[k] as int];
                assert(rows[i][t.primary_key@[k] as int] == vs[k]);
            },
            AccessPath::IndexPoint { index_no, parts } => {
                let x = index_no - 1;
                assert(t.indexes@[x].unique);
                let k = choose|k: int|
                    0 <= k < t.indexes@[x].columns@.len() && {
                        let c = #[trigger] t.indexes@[x].columns@[k] as int;
                        rows[i][c] != rows[j][c] || rows[i][c] == ValueModel::Null
                    };
                let c = t.indexes@[x].columns@[k] as int;
                assert(rows[i][c] == vs[k] && vs[k] != ValueModel::Null);
            },
            _ => {},
        }
    }
}

/// An access is taken for less than the whole table only where at most one row
/// can come: through the whole key, or through a unique index over its whole
/// width. There it is taken for one row.
pub proof fn law_only_keys_pin_a_row(access: AccessPath, table: u32, schema: Schema, counts: Seq<u64>)
    requires
        table != DUAL_TABLE,
        table < schema.tables@.len(),
        table < counts.len(),
    ensures
        access_rows(access, table, schema, counts) != counts[table as int] ==> match access {
            AccessPath::PkPoint(_) => true,
            AccessPath::IndexPoint { index_no, parts } => exists|x: int|
                0 <= x < schema.tables@[table as int].indexes@.len() && x + 1 == index_no && (#[trigger] schema.tables@[table as int].indexes@[x]).unique
                    && schema.tables@[table as int].indexes@[x].columns@.len() == parts@.len(),
            _ => false,
        },
        access is PkPoint ==> access_rows(access, table, schema, counts) == 1,
        access_rows(access, table, schema, counts) == 1 || access_rows(access, table, schema, counts) == counts[table as int],
        access matches AccessPath::IndexPoint { index_no, parts } ==> forall|x: int|
            0 <= x < schema.tables@[table as int].indexes@.len() && x + 1 == index_no && (#[trigger] schema.tables@[table as int].indexes@[x]).unique
                && schema.tables@[table as int].indexes@[x].columns@.len() == parts@.len() ==> access_rows(access, table, schema, counts) == 1,
{
    match access {
        AccessPath::IndexPoint { index_no, parts } => {
            if access_rows(access, table, schema, counts) != counts[table as int] {
                let x = index_no - 1;
                assert(schema.tables@[table as int].indexes@[x].unique);
            }
        },
        _ => {},
    }
}

/// A SELECT without a table works on one row, whatever its path says.
pub proof fn law_no_table_is_one_row(access: AccessPath, schema: Schema, counts: Seq<u64>)
    ensures
        access_rows(access, u32::MAX, schema, counts) == 1,
{
}

// ---------------------------------------------------------------- joins

/// The product of all numbers.
pub open spec fn product(ns: Seq<nat>) -> nat
    decreases ns.len(),
{
    if ns.len() == 0 {
        1
    } else {
        product(ns.drop_last()) * ns.last()
    }
}

/// Joins multiply: the rows that `n` joins work on are the product of what
/// every table of the join gives, up to the largest number there is.
pub proof fn law_joins_multiply(sp: SelectPlan, schema: Schema, counts: Seq<u64>, n: nat, given: Seq<nat>)
    requires
        n <= sp.joins@.len(),
        given.len() == n + 1,
        given[0] == access_rows(sp.access, sp.table, schema, counts),
        forall|i: int|
            0 <= i < n ==> given[i + 1] == access_rows((#[trigger] sp.joins@[i]).access, sp.joins@[i].table, schema, counts),
    ensures
        join_product(sp, schema, counts, n) == clamped(product(given)),
        joined(sp, schema, counts, n).rows >= clamped(product(given)),
    decreases n,
{
    reveal_with_fuel(product, 2);
    if n == 0 {
        assert(given.drop_last() =~= Seq::<nat>::empty());
        assert(product(given) == given[0]) by (nonlinear_arith)
            requires
                product(given) == 1 * given.last(),
                given.last() == given[0],
        ;
    } else {
        let before = given.drop_last();
        assert forall|i: int| 0 <= i < n - 1 implies before[i + 1] == access_rows(
            (#[trigger] sp.joins@[i]).access,
            sp.joins@[i].table,
            schema,
            counts,
        ) by {
            assert(before[i + 1] == given[i + 1]);
        }
        law_joins_multiply(sp, schema, counts, (n - 1) as nat, before);
        let (a, b) = (product(before), given.last());
        assert(given[n as int] == access_rows(sp.joins@[n - 1].access, sp.joins@[n - 1].table, schema, counts)) by {
            assert(given[(n - 1) + 1] == access_rows(sp.joins@[n - 1].access, sp.joins@[n - 1].table, schema, counts));
        }
        lemma_clamped_product(a, b);
    }
}

proof fn lemma_clamped_product(a: nat, b: nat)
    ensures
        clamped(clamped(a) as nat * b) == clamped(a * b),
{
    let m = u64::MAX as nat;
    if a > m {
        if b == 0 {
            assert(m * b == 0) by (nonlinear_arith)
                requires
                    b == 0,
            ;
            assert(a * b == 0) by (nonlinear_arith)
                requires
                    b == 0,
            ;
        } else {
            assert(m * b >= m) by (nonlinear_arith)
                requires
                    b >= 1,
            ;
            assert(a * b > m) by (nonlinear_arith)
                requires
                    b >= 1,
                    a > m,
            ;
        }
    }
}

/// The estimate of the joins is one of them, and is named after it: the scan
/// of the first table, or the join with the table at which the product stands.
pub proof fn law_join_estimate_is_a_node(sp: SelectPlan, schema: Schema, counts: Seq<u64>, n: nat) -> (at: nat)
    requires
        n <= sp.joins@.len(),
    ensures
        at <= n,
        joined(sp, schema, counts, n).rows == join_product(sp, schema, counts, at),
        joined(sp, schema, counts, n).label_rows == join_product(sp, schema, counts, at),
        joined(sp, schema, counts, n).label == (if at == 0 {
            "scan of table \""@ + shown_table(schema, sp.table) + "\""@
        } else {
            "nested-loop join with \""@ + shown_table(schema, sp.joins@[at - 1].table) + "\""@
        }),
        forall|k: nat| k <= n ==> #[trigger] join_product(sp, schema, counts, k) <= joined(sp, schema, counts, n).rows,
        forall|k: nat| at < k <= n ==> #[trigger] join_product(sp, schema, counts, k) < joined(sp, schema, counts, n).rows,
    decreases n,
{
    if n == 0 {
        0
    } else {
        let before = law_join_estimate_is_a_node(sp, schema, counts, (n - 1) as nat);
        if join_product(sp, schema, counts, n) >= join_product(sp, schema, counts, before) {
            n
        } else {
            before
        }
    }
}

/// A table is shown by its own name.
pub proof fn law_tables_are_named(schema: Schema, table: u32)
    requires
        table < schema.tables@.len(),
        table != u32::MAX,
    ensures
        shown_table(schema, table) == schema.tables@[table as int].name@,
{
}

// ---------------------------------------------------------------- subqueries

/// What a subquery adds beside `outer` rows: as often as there are outer rows
/// where it depends on them, else once.
pub open spec fn sub_work(sub: SubPlan, outer: u64, schema: Schema, counts: Seq<u64>) -> u64 {
    let own = body_estimate(sub.body, sub.subplans@, schema, counts).rows;
    if sub.correlated {
        clamped(outer as nat * own as nat)
    } else {
        own
    }
}

/// The estimate of a statement with subqueries is the largest of its own and of
/// what each of its subqueries adds.
pub proof fn law_subqueries_are_counted(a: Weighed, outer: u64, subs: Seq<SubPlan>, schema: Schema, counts: Seq<u64>, n: nat)
    requires
        n <= subs.len(),
    ensures
        with_subs(a, outer, subs, schema, counts, n).rows >= a.rows,
        forall|i: int| 0 <= i < n ==> with_subs(a, outer, subs, schema, counts, n).rows >= sub_work(#[trigger] subs[i], outer, schema, counts),
        with_subs(a, outer, subs, schema, counts, n).rows == a.rows || exists|i: int|
            0 <= i < n && with_subs(a, outer, subs, schema, counts, n).rows == sub_work(#[trigger] subs[i], outer, schema, counts),
    decreases n,
{
    reveal_with_fuel(with_subs, 2);
    if n > 0 {
        law_subqueries_are_counted(a, outer, subs, schema, counts, (n - 1) as nat);
        let now = with_subs(a, outer, subs, schema, counts, n).rows;
        let before = with_subs(a, outer, subs, schema, counts, (n - 1) as nat).rows;
        if now == before {
            if before != a.rows {
                let i = choose|i: int| 0 <= i < n - 1 && before == sub_work(#[trigger] subs[i], outer, schema, counts);
                assert(now == sub_work(subs[i], outer, schema, counts));
            }
        } else {
            assert(now == sub_work(subs[n - 1], outer, schema, counts));
        }
    }
}

/// The subqueries of a SELECT run beside the rows that its joins give.
pub proof fn law_select_counts_subqueries(sp: SelectPlan, subs: Seq<SubPlan>, schema: Schema, counts: Seq<u64>)
    ensures
        ({
            let e = select_estimate(sp, subs, schema, counts).rows;
            let own = joined(sp, schema, counts, sp.joins@.len()).rows;
            let outer = join_product(sp, schema, counts, sp.joins@.len());
            &&& e >= own
            &&& forall|i: int| 0 <= i < subs.len() ==> e >= sub_work(#[trigger] subs[i], outer, schema, counts)
            &&& e == own || exists|i: int| 0 <= i < subs.len() && e == sub_work(#[trigger] subs[i], outer, schema, counts)
        }),
{
    law_subqueries_are_counted(
        joined(sp, schema, counts, sp.joins@.len()),
        join_product(sp, schema, counts, sp.joins@.len()),
        subs,
        schema,
        counts,
        subs.len(),
    );
}

// ---------------------------------------------------------------- compounds

/// The sum of all numbers.
pub open spec fn sum(ns: Seq<u64>) -> nat
    decreases ns.len(),
{
    if ns.len() == 0 {
        0
    } else {
        sum(ns.drop_last()) + ns.last() as nat
    }
}

proof fn lemma_arms_add_up(arms: Seq<CompoundArm>, subs: Seq<SubPlan>, schema: Schema, counts: Seq<u64>, n: nat, each: Seq<u64>)
    requires
        n <= arms.len(),
        each.len() == n,
        forall|i: int| 0 <= i < n ==> #[trigger] each[i] == arm_estimate(arms, i as nat, subs, schema, counts).rows,
    ensures
        arms_total(arms, subs, schema, counts, n) == clamped(sum(each)),
        worst_arm(arms, subs, schema, counts, n) is Some <==> n > 0,
        worst_arm(arms, subs, schema, counts, n) matches Some(b) ==> b.rows <= arms_total(arms, subs, schema, counts, n),
    decreases n,
{
    reveal_with_fuel(arms_total, 2);
    reveal_with_fuel(worst_arm, 2);
    if n > 0 {
        let before = each.drop_last();
        assert forall|i: int| 0 <= i < n - 1 implies #[trigger] before[i] == arm_estimate(arms, i as nat, subs, schema, counts).rows by {
            assert(before[i] == each[i]);
        }
        lemma_arms_add_up(arms, subs, schema, counts, (n - 1) as nat, before);
        assert(each[n - 1] == arm_estimate(arms, (n - 1) as nat, subs, schema, counts).rows);
    }
}

/// Every arm of a compound runs: the estimate is the sum of the arms', up to
/// the largest number there is.
pub proof fn law_compound_adds_up(arms: Seq<CompoundArm>, subs: Seq<SubPlan>, schema: Schema, counts: Seq<u64>, each: Seq<u64>)
    requires
        each.len() == arms.len(),
        forall|i: int| 0 <= i < arms.len() ==> #[trigger] each[i] == arm_estimate(arms, i as nat, subs, schema, counts).rows,
    ensures
        compound_estimate(arms, subs, schema, counts).rows == clamped(sum(each)),
{
    lemma_arms_add_up(arms, subs, schema, counts, arms.len(), each);
    if arms.len() == 0 {
        assert(each =~= Seq::<u64>::empty());
    }
}

/// The node that a compound is named after belongs to an arm, the first that
/// no arm exceeds in its largest node.
pub proof fn law_compound_names_its_worst_arm(arms: Seq<CompoundArm>, subs: Seq<SubPlan>, schema: Schema, counts: Seq<u64>, n: nat) -> (at: nat)
    requires
        0 < n <= arms.len(),
    ensures
        at < n,
        worst_arm(arms, subs, schema, counts, n) == Some(arm_estimate(arms, at, subs, schema, counts)),
        n == arms.len() ==> compound_estimate(arms, subs, schema, counts).label == arm_estimate(arms, at, subs, schema, counts).label,
        forall|i: nat|
            i < n ==> (#[trigger] arm_estimate(arms, i, subs, schema, counts)).label_rows <= arm_estimate(arms, at, subs, schema, counts).label_rows,
        forall|i: nat|
            i < at ==> (#[trigger] arm_estimate(arms, i, subs, schema, counts)).label_rows < arm_estimate(arms, at, subs, schema, counts).label_rows,
    decreases n,
{
    reveal_with_fuel(worst_arm, 2);
    if n == 1 {
        0
    } else {
        let before = law_compound_names_its_worst_arm(arms, subs, schema, counts, (n - 1) as nat);
        if arm_estimate(arms, before, subs, schema, counts).label_rows >= arm_estimate(arms, (n - 1) as nat, subs, schema, counts).label_rows {
            before
        } else {
            (n - 1) as nat
        }
    }
}

/// An arm is estimated as the SELECT that it is; a derived table as its body
/// and the SELECT over it together, both of which run.
pub proof fn law_arms_are_whole(arms: Seq<CompoundArm>, i: nat, subs: Seq<SubPlan>, schema: Schema, counts: Seq<u64>)
    requires
        i < arms.len(),
    ensures
        match arms[i as int] {
            CompoundArm::Select(sp) => arm_estimate(arms, i, subs, schema, counts) == select_estimate(sp, subs, schema, counts),
            CompoundArm::Derived(dp) => {
                let e = arm_estimate(arms, i, subs, schema, counts);
                let body = body_estimate(dp.body, dp.body_subplans@, schema, counts);
                let outer = select_estimate(dp.outer, Seq::empty(), schema, counts);
                &&& e.rows >= clamped(body.rows as nat + outer.rows as nat)
                &&& e.label_rows >= body.label_rows && e.label_rows >= outer.label_rows
                &&& (e.label_rows == body.label_rows && e.label == body.label) || (e.label_rows == outer.label_rows && e.label == outer.label)
                &&& e.rows == clamped(body.rows as nat + outer.rows as nat) || e.rows == outer.label_rows
            },
        },
{
}

// ---------------------------------------------------------------- statements

/// What every kind of statement is estimated at.
pub proof fn law_statement_estimates(plan: CompiledPlan, schema: Schema, counts: Seq<u64>)
    ensures
        ({
            let e = plan_estimate(plan, schema, counts).rows;
            let subs = plan.subplans@;
            match plan.stmt {
                // the rows written, one by one
                PlanStmt::Insert { table: _, rows, from_select: None } => rows@.len() <= u64::MAX ==> e == rows@.len(),
                // a write finds its rows, and runs its subqueries beside them
                PlanStmt::Update { table, access, filter: _, set: _ } => {
                    let found = access_rows(access, table, schema, counts);
                    e >= found && forall|i: int| 0 <= i < subs.len() ==> e >= sub_work(#[trigger] subs[i], found, schema, counts)
                },
                PlanStmt::Delete { table, access, filter: _ } => {
                    let found = access_rows(access, table, schema, counts);
                    e >= found && forall|i: int| 0 <= i < subs.len() ==> e >= sub_work(#[trigger] subs[i], found, schema, counts)
                },
                // recursion ends only by the limit over it
                PlanStmt::RecursiveCte { name: _, limit: None, offset: _ } => e == u64::MAX,
                PlanStmt::RecursiveCte { name: _, limit: Some(l), offset: None } => e == l,
                PlanStmt::RecursiveCte { name: _, limit: Some(l), offset: Some(o) } => l + o <= u64::MAX ==> e == l + o,
                // the larger of the body and of what runs over it
                PlanStmt::Derived(dp) => {
                    let body = body_estimate(dp.body, subs, schema, counts).rows;
                    let outer = select_estimate(dp.outer, subs, schema, counts).rows;
                    e >= body && e >= outer && (e == body || e == outer)
                },
                PlanStmt::Select(_) => true,
                PlanStmt::Compound(_) => true,
                PlanStmt::Insert { table: _, rows: _, from_select: Some(_) } => true,
                _ => e == 0,
            }
        }),
        plan.stmt matches PlanStmt::Select(sp) ==> plan_estimate(plan, schema, counts).rows >= select_estimate(
            sp,
            plan.subplans@,
            schema,
            counts,
        ).rows,
        plan.stmt matches PlanStmt::Insert { table: _, rows: _, from_select: Some(sp) } ==> plan_estimate(plan, schema, counts).rows
            >= select_estimate(sp, plan.subplans@, schema, counts).rows,
        plan.stmt matches PlanStmt::Compound(c) ==> plan_estimate(plan, schema, counts).rows == compound_estimate(
            c.arms@,
            plan.subplans@,
            schema,
            counts,
        ).rows,
{
    match plan.stmt {
        PlanStmt::Update { table, access, filter: _, set: _ } => {
            let base = access_rows(access, table, schema, counts);
            let a = Weighed { rows: base, label: scan_label(schema, table), label_rows: base };
            law_subqueries_are_counted(a, base, plan.subplans@, schema, counts, plan.subplans@.len());
        },
        PlanStmt::Delete { table, access, filter: _ } => {
            let base = access_rows(access, table, schema, counts);
            let a = Weighed { rows: base, label: scan_label(schema, table), label_rows: base };
            law_subqueries_are_counted(a, base, plan.subplans@, schema, counts, plan.subplans@.len());
        },
        _ => {},
    }
}

// ---------------------------------------------------------------- multiplying

/// Whatever multiplies, at any depth, is seen: a subquery that depends on outer
/// rows, a join in its body, or such a thing below it.
pub proof fn law_multiplying_subquery_is_seen(subs: Seq<SubPlan>, n: nat)
    requires
        n <= subs.len(),
    ensures
        subs_multiply(subs, n) <==> exists|i: int|
            0 <= i < n && {
                let sub = #[trigger] subs[i];
                sub.correlated || body_joins(sub.body) || subs_multiply(sub.subplans@, sub.subplans@.len())
            },
    decreases n,
{
    if n > 0 {
        law_multiplying_subquery_is_seen(subs, (n - 1) as nat);
        let sub = subs[n - 1];
        if sub.correlated || body_joins(sub.body) || subs_multiply(sub.subplans@, sub.subplans@.len()) {
            assert(subs_multiply(subs, n));
        }
        if subs_multiply(subs, (n - 1) as nat) {
            let i = choose|i: int|
                0 <= i < n - 1 && {
                    let sub = #[trigger] subs[i];
                    sub.correlated || body_joins(sub.body) || subs_multiply(sub.subplans@, sub.subplans@.len())
                };
            assert(subs[i] == subs[i]);
        }
    }
}

/// A join in an arm, or in what an arm is derived from, is seen.
pub proof fn law_joining_arm_is_seen(arms: Seq<CompoundArm>, n: nat)
    requires
        n <= arms.len(),
    ensures
        arms_join(arms, n) <==> exists|i: int|
            0 <= i < n && match #[trigger] arms[i] {
                CompoundArm::Select(sp) => sp.joins@.len() > 0,
                CompoundArm::Derived(dp) => dp.outer.joins@.len() > 0 || subs_multiply(dp.body_subplans@, dp.body_subplans@.len())
                    || match dp.body {
                    SubBody::Select(sp) => sp.joins@.len() > 0,
                    SubBody::Compound(c) => arms_join(c.arms@, c.arms@.len()),
                },
            },
    decreases n,
{
    if n > 0 {
        law_joining_arm_is_seen(arms, (n - 1) as nat);
        reveal_with_fuel(arms_join, 2);
        reveal_with_fuel(body_joins, 2);
        let here = match arms[n - 1] {
            CompoundArm::Select(sp) => sp.joins@.len() > 0,
            CompoundArm::Derived(dp) => dp.outer.joins@.len() > 0 || body_joins(dp.body) || subs_multiply(
                dp.body_subplans@,
                dp.body_subplans@.len(),
            ),
        };
        assert(arms_join(arms, n) == (arms_join(arms, (n - 1) as nat) || here));
        if arms_join(arms, (n - 1) as nat) {
            let i = choose|i: int|
                0 <= i < n - 1 && match #[trigger] arms[i] {
                    CompoundArm::Select(sp) => sp.joins@.len() > 0,
                    CompoundArm::Derived(dp) => dp.outer.joins@.len() > 0 || subs_multiply(dp.body_subplans@, dp.body_subplans@.len())
                        || match dp.body {
                        SubBody::Select(sp) => sp.joins@.len() > 0,
                        SubBody::Compound(c) => arms_join(c.arms@, c.arms@.len()),
                    },
                };
            assert(arms[i] == arms[i]);
        }
    }
}

/// Every subquery, at any depth, is a single SELECT.
pub open spec fn all_single(subs: Seq<SubPlan>, n: nat) -> bool
    decreases subs, n,
{
    if n == 0 || n > subs.len() {
        true
    } else {
        all_single(subs, (n - 1) as nat) && subs[n - 1].body is Select && all_single(subs[n - 1].subplans@, subs[n - 1].subplans@.len())
    }
}

proof fn lemma_single_subs_bounded(a: Weighed, outer: u64, subs: Seq<SubPlan>, schema: Schema, counts: Seq<u64>, n: nat, most: u64)
    requires
        n <= subs.len(),
        all_single(subs, n),
        !subs_multiply(subs, n),
        a.rows <= most,
        most >= 1,
        forall|t: int| 0 <= t < counts.len() ==> #[trigger] counts[t] <= most,
    ensures
        with_subs(a, outer, subs, schema, counts, n).rows <= most,
    decreases subs_size(subs, subs.len()), n,
{
    reveal_with_fuel(with_subs, 2);
    if n > 0 {
        reveal_with_fuel(subs_multiply, 2);
        reveal_with_fuel(body_joins, 2);
        reveal_with_fuel(all_single, 2);
        lemma_single_subs_bounded(a, outer, subs, schema, counts, (n - 1) as nat, most);
        let sub = subs[n - 1];
        assert(!sub.correlated && !body_joins(sub.body));
        lemma_subs_size(subs, subs.len(), n - 1);
        let sp = sub.body->Select_0;
        reveal_with_fuel(joined, 2);
        reveal_with_fuel(join_product, 2);
        lemma_single_subs_bounded(
            joined(sp, schema, counts, 0),
            join_product(sp, schema, counts, 0),
            sub.subplans@,
            schema,
            counts,
            sub.subplans@.len(),
            most,
        );
        assert(body_estimate(sub.body, sub.subplans@, schema, counts) == select_estimate(sp, sub.subplans@, schema, counts));
    }
}

/// A statement that is not said to multiply does not: made of single SELECTs,
/// it is estimated at no more rows than the largest table has.
pub proof fn law_unmultiplied_stays_within_a_table(plan: CompiledPlan, schema: Schema, counts: Seq<u64>, most: u64)
    requires
        !can_multiply(plan),
        plan.stmt is Select || plan.stmt is Update || plan.stmt is Delete || (plan.stmt is Insert && plan.stmt->Insert_from_select is Some),
        all_single(plan.subplans@, plan.subplans@.len()),
        most >= 1,
        forall|t: int| 0 <= t < counts.len() ==> #[trigger] counts[t] <= most,
    ensures
        plan_estimate(plan, schema, counts).rows <= most,
{
    reveal_with_fuel(joined, 2);
    reveal_with_fuel(join_product, 2);
    let subs = plan.subplans@;
    match plan.stmt {
        PlanStmt::Select(sp) => lemma_single_subs_bounded(
            joined(sp, schema, counts, 0),
            join_product(sp, schema, counts, 0),
            subs,
            schema,
            counts,
            subs.len(),
            most,
        ),
        PlanStmt::Insert { table: _, rows: _, from_select: Some(sp) } => lemma_single_subs_bounded(
            joined(sp, schema, counts, 0),
            join_product(sp, schema, counts, 0),
            subs,
            schema,
            counts,
            subs.len(),
            most,
        ),
        PlanStmt::Update { table, access, filter: _, set: _ } => {
            let base = access_rows(access, table, schema, counts);
            let a = Weighed { rows: base, label: scan_label(schema, table), label_rows: base };
            lemma_single_subs_bounded(a, base, subs, schema, counts, subs.len(), most);
        },
        PlanStmt::Delete { table, access, filter: _ } => {
            let base = access_rows(access, table, schema, counts);
            let a = Weighed { rows: base, label: scan_label(schema, table), label_rows: base };
            lemma_single_subs_bounded(a, base, subs, schema, counts, subs.len(), most);
        },
        _ => {},
    }
}

/// A statement is said to multiply wherever one of its parts does.
pub proof fn law_multiplying_statement_is_seen(plan: CompiledPlan)
    ensures
        plan.stmt is RecursiveCte ==> can_multiply(plan),
        (plan.stmt is Select || plan.stmt is Compound || plan.stmt is Insert || plan.stmt is Update || plan.stmt is Delete || plan.stmt is Derived)
            && subs_multiply(plan.subplans@, plan.subplans@.len()) ==> can_multiply(plan),
        plan.stmt matches PlanStmt::Select(sp) && sp.joins@.len() > 0 ==> can_multiply(plan),
        plan.stmt matches PlanStmt::Compound(c) && arms_join(c.arms@, c.arms@.len()) ==> can_multiply(plan),
        plan.stmt matches PlanStmt::Insert { table: _, rows: _, from_select: Some(sp) } && sp.joins@.len() > 0 ==> can_multiply(plan),
        plan.stmt matches PlanStmt::Derived(dp) && (body_joins(dp.body) || dp.outer.joins@.len() > 0 || subs_multiply(
            dp.body_subplans@,
            dp.body_subplans@.len(),
        )) ==> can_multiply(plan),
        plan.stmt is Begin || plan.stmt is Commit || plan.stmt is Rollback || plan.stmt is Savepoint || plan.stmt is Release
            || plan.stmt is RollbackTo ==> !can_multiply(plan),
{
}

} // verus!
