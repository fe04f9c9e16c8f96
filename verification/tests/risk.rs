use mpedb::plan::{
    AccessPath, ColumnDef, CompiledPlan, CompoundArm, CompoundPlan, DerivedPlan, Footprint, IndexDef, Join, KeyAccess, KeyPart, PlanStmt,
    Schema, SelectPlan, SubBody, SubPlan, TableDef, TableKind,
};
use mpedb::risk::{card_access, table_name, Acc, DUAL_TABLE};
use mpedb::{estimate_plan_risk, ColumnType, RiskEstimate};

fn table(name: &str) -> TableDef {
    let column = |n: &str| ColumnDef { name: n.to_string(), ty: ColumnType::Int64, default: None };
    TableDef {
        name: name.to_string(),
        columns: vec![column("id"), column("v")],
        primary_key: vec![0],
        indexes: vec![IndexDef { columns: vec![1], unique: true }, IndexDef { columns: vec![1, 0], unique: true }],
        dead: false,
        implicit_rowid: false,
        kind: TableKind::Standard,
    }
}

fn schema() -> Schema {
    Schema { tables: vec![table("orders"), table("lines")] }
}

const COUNTS: [u64; 2] = [100, 1000];

fn select(table: u32, access: AccessPath, joins: Vec<u32>) -> SelectPlan {
    SelectPlan {
        table,
        access,
        joins: joins.into_iter().map(|t| Join { table: t, access: AccessPath::FullScan }).collect(),
        filter: None,
        projection: vec![],
        aggregate: false,
        windows: false,
        distinct: false,
        order_by: false,
        joined_filter: false,
        post_filter: false,
        limit: None,
        offset: None,
    }
}

fn scan(table: u32) -> SelectPlan {
    select(table, AccessPath::FullScan, vec![])
}

fn sub(correlated: bool, body: SubBody) -> SubPlan {
    SubPlan { correlated, body, subplans: vec![] }
}

fn plan(stmt: PlanStmt, subplans: Vec<SubPlan>) -> CompiledPlan {
    CompiledPlan {
        stmt,
        subplans,
        consts: vec![],
        n_params: 0,
        context_keys: vec![],
        param_types: vec![],
        policies: vec![],
        footprint: Footprint { read_only: true, tables_read: vec![], tables_written: vec![], key_access: KeyAccess::Full },
        host_call: false,
    }
}

fn estimate(stmt: PlanStmt, subs: Vec<SubPlan>) -> (u64, String) {
    let e = estimate_plan_risk(&plan(stmt, subs), &schema(), &COUNTS.to_vec());
    assert_eq!(e.dominant_rows, e.work_rows);
    (e.work_rows, e.dominant)
}

#[test]
fn a_cross_join_multiplies() {
    let p = PlanStmt::Select(select(0, AccessPath::FullScan, vec![1]));
    assert_eq!(estimate(p, vec![]), (100_000, "nested-loop join with \"lines\"".to_string()));
    let p = PlanStmt::Select(select(0, AccessPath::FullScan, vec![1, 1]));
    assert_eq!(estimate(p, vec![]).0, 100_000_000);
}

#[test]
fn a_correlated_subquery_runs_once_per_outer_row() {
    let correlated = vec![sub(true, SubBody::Select(scan(1)))];
    assert_eq!(
        estimate(PlanStmt::Select(scan(0)), correlated),
        (100_000, "correlated subquery over \"lines\"".to_string())
    );
    let once = vec![sub(false, SubBody::Select(scan(1)))];
    assert_eq!(estimate(PlanStmt::Select(scan(0)), once), (1000, "scan of table \"lines\"".to_string()));
    let compound = SubBody::Compound(CompoundPlan { arms: vec![CompoundArm::Select(scan(0)), CompoundArm::Select(scan(1))] });
    assert_eq!(
        estimate(PlanStmt::Select(scan(0)), vec![sub(true, compound)]),
        (110_000, "correlated subquery".to_string())
    );
    let del = PlanStmt::Delete { table: 0, access: AccessPath::FullScan, filter: None };
    assert_eq!(estimate(del, vec![sub(true, SubBody::Select(scan(1)))]).0, 100_000);
}

#[test]
fn a_compound_adds_up_and_names_its_worst_arm() {
    let c = CompoundPlan { arms: vec![CompoundArm::Select(scan(1)), CompoundArm::Select(scan(0)), CompoundArm::Select(scan(1))] };
    assert_eq!(estimate(PlanStmt::Compound(c), vec![]), (2100, "scan of table \"lines\"".to_string()));
    assert_eq!(
        estimate(PlanStmt::Compound(CompoundPlan { arms: vec![] }), vec![]),
        (0, "empty compound".to_string())
    );
    let derived = DerivedPlan { body: SubBody::Select(scan(1)), body_subplans: vec![], outer: scan(0) };
    let c = CompoundPlan { arms: vec![CompoundArm::Derived(derived)] };
    assert_eq!(estimate(PlanStmt::Compound(c), vec![]), (1100, "scan of table \"lines\"".to_string()));
}

#[test]
fn keys_and_full_unique_probes_give_one_row() {
    let s = schema();
    let counts = COUNTS.to_vec();
    let part = || KeyPart::Param(0);
    assert_eq!(card_access(&AccessPath::PkPoint(vec![part()]), 1, &s, &counts), 1);
    assert_eq!(card_access(&AccessPath::IndexPoint { index_no: 1, parts: vec![part()] }, 1, &s, &counts), 1);
    assert_eq!(card_access(&AccessPath::IndexPoint { index_no: 2, parts: vec![part()] }, 1, &s, &counts), 1000);
    assert_eq!(card_access(&AccessPath::IndexPoint { index_no: 9, parts: vec![part()] }, 1, &s, &counts), 1000);
    assert_eq!(card_access(&AccessPath::PkRange, 0, &s, &counts), 100);
    assert_eq!(card_access(&AccessPath::FullScan, 7, &s, &counts), 0);
    assert_eq!(card_access(&AccessPath::FullScan, DUAL_TABLE, &s, &counts), 1);
    assert_eq!(table_name(&s, 1), "lines");
    assert_eq!(table_name(&s, 7), "table #7");
    assert_eq!(table_name(&s, DUAL_TABLE), "dual");
}

#[test]
fn recursion_is_bounded_by_its_limit_alone() {
    let cte = |limit, offset| PlanStmt::RecursiveCte { name: "r".to_string(), limit, offset };
    assert_eq!(
        estimate(cte(Some(10), Some(5)), vec![]),
        (15, "recursive CTE \"r\" bounded by outer LIMIT".to_string())
    );
    assert_eq!(
        estimate(cte(None, None), vec![]),
        (u64::MAX, "recursive CTE \"r\" (unbounded — no outer LIMIT)".to_string())
    );
    assert_eq!(estimate(cte(Some(u64::MAX), Some(5)), vec![]).0, u64::MAX);
}

#[test]
fn estimates_clamp() {
    let huge = vec![u64::MAX, 3];
    let p = plan(PlanStmt::Select(select(0, AccessPath::FullScan, vec![1])), vec![]);
    assert_eq!(estimate_plan_risk(&p, &schema(), &huge).work_rows, u64::MAX);
    let p = plan(PlanStmt::Select(select(0, AccessPath::FullScan, vec![1])), vec![]);
    // an empty inner table leaves the outer scan
    assert_eq!(estimate_plan_risk(&p, &schema(), &vec![7, 0]).work_rows, 7);
}

#[test]
fn other_statements() {
    assert_eq!(
        estimate(PlanStmt::Insert { table: 0, rows: vec![vec![], vec![]], from_select: None }, vec![]),
        (2, "insert of 2 row(s) into \"orders\"".to_string())
    );
    assert_eq!(
        estimate(PlanStmt::Insert { table: 0, rows: vec![], from_select: Some(scan(1)) }, vec![]),
        (1000, "scan of table \"lines\"".to_string())
    );
    assert_eq!(estimate(PlanStmt::Begin, vec![]), (0, "no-op statement".to_string()));
    let derived = DerivedPlan { body: SubBody::Select(scan(0)), body_subplans: vec![], outer: scan(1) };
    assert_eq!(estimate(PlanStmt::Derived(derived), vec![]), (1000, "scan of table \"lines\"".to_string()));
}

#[test]
fn budgets() {
    let e = RiskEstimate { work_rows: 10, dominant: String::new(), dominant_rows: 10 };
    assert!(e.exceeds(9));
    assert!(!e.exceeds(10));
    assert!(!e.exceeds(0), "no limit is never exceeded");
    let can = |stmt, subs| RiskEstimate::plan_can_multiply(&plan(stmt, subs));
    assert!(!can(PlanStmt::Select(scan(0)), vec![]));
    assert!(can(PlanStmt::Select(select(0, AccessPath::FullScan, vec![1])), vec![]));
    assert!(can(PlanStmt::Select(scan(0)), vec![sub(true, SubBody::Select(scan(1)))]));
    assert!(!can(PlanStmt::Select(scan(0)), vec![sub(false, SubBody::Select(scan(1)))]));
    assert!(can(PlanStmt::RecursiveCte { name: "r".to_string(), limit: Some(1), offset: None }, vec![]));
    let inner = DerivedPlan {
        body: SubBody::Select(select(0, AccessPath::FullScan, vec![1])),
        body_subplans: vec![],
        outer: scan(0),
    };
    let arms = vec![CompoundArm::Select(scan(0)), CompoundArm::Derived(inner)];
    assert!(can(PlanStmt::Compound(CompoundPlan { arms }), vec![]));
    assert!(!can(PlanStmt::Begin, vec![]));
}

#[test]
fn the_later_of_two_equal_nodes_is_named() {
    let mut a = Acc::new(5, "first".to_string());
    a.consider(5, "second".to_string());
    a.consider(4, "third".to_string());
    let e = a.into_estimate();
    assert_eq!((e.work_rows, e.dominant.as_str(), e.dominant_rows), (5, "second", 5));
}

#[test]
fn the_dominant_node_contributes_the_estimate() {
    let c = CompoundPlan { arms: vec![CompoundArm::Select(scan(0)), CompoundArm::Select(scan(1))] };
    let e = estimate_plan_risk(&plan(PlanStmt::Compound(c), vec![]), &schema(), &vec![3, 2]);
    assert_eq!((e.work_rows, e.dominant_rows), (5, 5));
    assert_eq!(e.dominant, "scan of table \"orders\"");
}

#[test]
fn a_join_anywhere_multiplies() {
    let multiplies = |stmt, subs| RiskEstimate::plan_can_multiply(&plan(stmt, subs));
    let joins = || SubBody::Select(select(0, AccessPath::FullScan, vec![1]));
    assert!(multiplies(PlanStmt::Select(scan(0)), vec![sub(false, joins())]));
    let del = || PlanStmt::Delete { table: 0, access: AccessPath::FullScan, filter: None };
    assert!(multiplies(del(), vec![sub(false, joins())]));
    // a subquery of a subquery
    let nested = |inner| SubPlan { correlated: false, body: SubBody::Select(scan(1)), subplans: vec![inner] };
    assert!(multiplies(del(), vec![nested(sub(false, joins()))]));
    assert!(multiplies(PlanStmt::Select(scan(0)), vec![nested(sub(true, SubBody::Select(scan(0))))]));
    assert!(!multiplies(PlanStmt::Select(scan(0)), vec![nested(sub(false, SubBody::Select(scan(0))))]));
    // a subquery of an arm
    let arm = |inner| {
        let derived = DerivedPlan { body: SubBody::Select(scan(1)), body_subplans: vec![inner], outer: scan(0) };
        PlanStmt::Compound(CompoundPlan { arms: vec![CompoundArm::Derived(derived)] })
    };
    assert!(multiplies(arm(sub(true, SubBody::Select(scan(0)))), vec![]));
    assert!(!multiplies(arm(sub(false, SubBody::Select(scan(0)))), vec![]));
}

#[test]
fn the_arm_with_the_largest_node_is_named() {
    let derived = |body, outer| CompoundArm::Derived(DerivedPlan { body: SubBody::Select(body), body_subplans: vec![], outer });
    let compound = |arms| plan(PlanStmt::Compound(CompoundPlan { arms }), vec![]);
    // a scan of five rows beside an arm of three and three
    let p = compound(vec![derived(scan(1), scan(1)), CompoundArm::Select(scan(0))]);
    let e = estimate_plan_risk(&p, &schema(), &vec![5, 3]);
    assert_eq!((e.work_rows, e.dominant.as_str(), e.dominant_rows), (11, "scan of table \"orders\"", 11));
    // the arm of six and three is worse, though its body alone is named
    let p = compound(vec![CompoundArm::Select(scan(0)), derived(scan(1), scan(0))]);
    let e = estimate_plan_risk(&p, &schema(), &vec![5, 6]);
    assert_eq!((e.work_rows, e.dominant.as_str(), e.dominant_rows), (16, "scan of table \"lines\"", 16));
    // a compound below is as large as its largest node
    let body = SubBody::Compound(CompoundPlan { arms: vec![CompoundArm::Select(scan(1)), CompoundArm::Select(scan(1))] });
    let below = CompoundArm::Derived(DerivedPlan { body, body_subplans: vec![], outer: scan(1) });
    let e = estimate_plan_risk(&compound(vec![below, CompoundArm::Select(scan(0))]), &schema(), &vec![5, 3]);
    assert_eq!((e.work_rows, e.dominant.as_str(), e.dominant_rows), (14, "scan of table \"orders\"", 14));
}
