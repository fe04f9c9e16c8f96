use mpedb::multifile::{
    build_scope, create_config, cross_check, cross_layout, cross_map, cross_write_bug, ephemeral_config, ephemeral_name, read_only_gate, route_of,
    schema_refused, sidecars, strip_temp_qualifier, verbatim_view, AttachList, AttachTarget, CrossPlan, DbResolution, DbRoute,
    MemberFacts, MultiCtx, TempViews,
};
use mpedb::plan::{Schema, TableDef, TableKind};
use mpedb::Error;

fn attached(names: &[&str]) -> AttachList {
    let mut l = AttachList::new();
    for n in names {
        l.attach_gate("/data/x.mpedb", n).unwrap();
        l.attach(n.to_string(), false);
    }
    l
}

#[test]
fn databases_attach_and_detach() {
    let mut l = attached(&["aux", "Other"]);
    assert_eq!(l.epoch(), 2);
    assert_eq!(l.find("AUX"), Some(0));
    assert_eq!(l.require("other").unwrap(), 1);
    assert_eq!(l.require("nope").unwrap_err(), Error::Bind("no such database: nope".to_string()));
    assert_eq!(l.detach("aux").unwrap(), (0, false));
    assert_eq!(l.find("other"), Some(0));
    assert_eq!(l.epoch(), 3);
    assert_eq!(l.detach("aux").unwrap_err(), Error::Bind("no such database: aux".to_string()));
    assert_eq!(l.detach("Main").unwrap_err(), Error::Bind("cannot detach database Main".to_string()));
    assert_eq!(l.detach("temp").unwrap_err(), Error::Bind("cannot detach database temp".to_string()));
}

#[test]
fn what_cannot_be_attached_is_refused() {
    let l = attached(&["aux"]);
    let gate = |path: &str, name: &str| l.attach_gate(path, name).map_err(|e| e.message());
    assert_eq!(gate("x", ""), Err("attach name must be non-empty and contain no '.'".to_string()));
    assert_eq!(gate("x", "a.b"), Err("attach name must be non-empty and contain no '.'".to_string()));
    assert_eq!(gate("x", "MAIN"), Err("database MAIN is already in use".to_string()));
    assert_eq!(gate("x", "Temp"), Err("database Temp is already in use".to_string()));
    assert_eq!(gate("x", "AUX"), Err("database AUX is already in use".to_string()));
    assert!(gate("file:x.db", "b").unwrap_err().starts_with("ATTACH of URI databases is not supported"));
    assert_eq!(gate("file::memory:", "b"), Ok(AttachTarget::Memory));
    assert_eq!(gate(":memory:", "b"), Ok(AttachTarget::Memory));
    assert_eq!(gate("", "b"), Ok(AttachTarget::Memory));
    assert_eq!(gate("/x.mpedb", "b"), Ok(AttachTarget::File));
}

#[test]
fn the_temp_schema_does_not_count_against_the_limit() {
    let mut l = AttachList::new();
    assert!(l.ensure_temp());
    assert!(!l.ensure_temp());
    assert_eq!(l.epoch(), 1);
    for i in 0..10 {
        let name = format!("d{i}");
        assert!(l.attach_gate("x", &name).is_ok(), "{name}");
        l.attach(name, false);
    }
    assert_eq!(
        l.attach_gate("x", "one_more").unwrap_err(),
        Error::Unsupported("too many attached databases - max 10".to_string())
    );
    assert!(l.members()[0].ephemeral);
}

#[test]
fn configurations_escape_their_path() {
    assert_eq!(
        create_config("/a\\b\"c"),
        "[database]\npath = \"/a\\\\b\\\"c\"\nsize_mb = 16\nmax_readers = 32\n"
    );
    let c = ephemeral_config("/x");
    assert!(c.starts_with("[database]\npath = \"/x\"\n"));
    assert!(c.contains("name = \"attach_seed\""));
    assert_eq!(ephemeral_name(false, 12, 3), "mpedb-attach-mem-12-3.mpedb");
    assert_eq!(ephemeral_name(true, 12, 3), "mpedb-temp-12-3.mpedb");
    assert_eq!(sidecars("/x"), ("/x-wal".to_string(), "/x.wlock".to_string()));
}

#[test]
fn a_temp_qualifier_comes_off() {
    assert_eq!(strip_temp_qualifier("DROP VIEW temp.v"), Some("DROP VIEW v".to_string()));
    assert_eq!(strip_temp_qualifier("DROP VIEW TEMP.v"), Some("DROP VIEW v".to_string()));
    assert_eq!(strip_temp_qualifier("DROP VIEW main.v"), None);
    assert_eq!(strip_temp_qualifier("DROP VIEW v"), None);
    assert_eq!(strip_temp_qualifier("temp.v"), None);
    assert_eq!(strip_temp_qualifier("DROP VIEW é.temp.v"), None, "only the first dot counts");
    assert_eq!(verbatim_view("CREATE VIEW temp.v AS SELECT temp.x"), "CREATE VIEW v AS SELECT temp.x");
    assert_eq!(verbatim_view("CREATE VIEW v"), "CREATE VIEW v");
}

#[test]
fn temp_views_shadow_and_unshadow() {
    let mut t = TempViews::new();
    let main = "SELECT 1".to_string();
    assert_eq!(t.source("v", Some(&main)), Some(&main));
    let made = t.create("v".to_string(), "SELECT 2".to_string(), "CREATE VIEW v AS SELECT 2".to_string(), false);
    assert_eq!(made, Ok(true));
    assert_eq!(t.source("v", Some(&main)).unwrap(), "SELECT 2");
    assert_eq!(t.create("v".to_string(), String::new(), String::new(), true), Ok(false));
    assert_eq!(
        t.create("v".to_string(), String::new(), String::new(), false),
        Err(Error::Bind("view v already exists".to_string()))
    );
    assert_eq!(t.remove("v", true), Ok(true));
    assert_eq!(t.source("v", Some(&main)), Some(&main));
    assert_eq!(t.remove("v", false), Ok(false), "the database's own view is not touched here");
    assert_eq!(t.remove("v", true), Err(Error::Bind("no such view: temp.v".to_string())));
}

#[test]
fn statements_are_routed() {
    let none = AttachList::new();
    assert!(!none.needs_resolution("SELECT 1"));
    assert!(none.needs_resolution("SELECT main.t"));
    assert!(attached(&["a"]).needs_resolution("SELECT 1"));
    let main = |s: &str| DbResolution::MainOnly(s.to_string());
    assert!(matches!(route_of("q", false, main("q")), DbRoute::Passthrough));
    assert!(matches!(route_of("main.q", false, main("q")), DbRoute::Main(s) if s == "q"));
    assert!(matches!(route_of("q", true, main("q")), DbRoute::Main(s) if s == "q"));
    let only = DbResolution::AttachedOnly { db: "a".to_string(), sql: "q".to_string() };
    assert!(matches!(route_of("q", false, only), DbRoute::AttachedOnly { db, .. } if db == "a"));
}

fn table(name: &str, dead: bool) -> TableDef {
    TableDef { name: name.to_string(), columns: vec![], primary_key: vec![], indexes: vec![], dead, implicit_rowid: false, kind: TableKind::Standard }
}

fn facts(tables: Vec<TableDef>, schema_gen: u64) -> MemberFacts {
    MemberFacts { schema: Schema { tables }, schema_gen, has_policies: false }
}

fn refs(r: &[(&str, &str)]) -> Vec<(String, String)> {
    r.iter().map(|(a, b)| (a.to_string(), b.to_string())).collect()
}

#[test]
fn a_merged_schema_leads_back_to_its_files() {
    let l = attached(&["aux", "other"]);
    let main = Schema { tables: vec![table("t", true), table("t", false), table("s", false)] };
    let fs = vec![facts(vec![table("u", true), table("U", false)], 7), facts(vec![table("w", false)], 9)];
    let slots = cross_layout(&refs(&[("OTHER", "w"), ("aux", "u"), ("other", "w")]), &l, &fs, &main, 5, false).unwrap();
    assert_eq!(slots.member_names, vec!["other".to_string(), "aux".to_string()]);
    assert_eq!(slots.gens, vec![5, 9, 7]);
    let merged: Vec<String> = ["aux.u", "other.w", "s", "t"].iter().map(|s| s.to_string()).collect();
    let map = cross_map(&merged, &slots, &main).unwrap();
    // the live `t`, not the dropped one
    assert_eq!(map, vec![(2, 1), (1, 0), (0, 2), (0, 1)]);
    let ctx = MultiCtx { map: &map };
    assert_eq!(ctx.slot(0), (2, 1));
    assert_eq!(ctx.slot(9), (0, 9));
    let lost = cross_map(&vec!["x".to_string()], &slots, &main).unwrap_err();
    assert_eq!(lost, Error::Internal("merged table `x` missing from the main schema".to_string()));
}

#[test]
fn cross_file_refusals() {
    let l = attached(&["aux"]);
    let main = Schema { tables: vec![table("aux.u", false)] };
    let plain = vec![facts(vec![table("u", false), table("v", false)], 1)];
    let layout = |r: &[(&str, &str)], fs: &Vec<MemberFacts>, policies| {
        cross_layout(&refs(r), &l, fs, &main, 1, policies).map(|_| ()).map_err(|e| e.message())
    };
    assert_eq!(layout(&[("aux", "v")], &plain, false), Ok(()));
    assert_eq!(
        layout(&[("aux", "v")], &plain, true),
        Err("cross-file SELECT is not supported on a database with RLS policies (v1)".to_string())
    );
    assert_eq!(layout(&[("zz", "v")], &plain, false), Err("no such table: zz.v".to_string()));
    assert_eq!(layout(&[("aux", "zz")], &plain, false), Err("no such table: aux.zz".to_string()));
    assert_eq!(
        layout(&[("aux", "u")], &plain, false),
        Err("a main table is literally named `aux.u`, which collides with the attached reference; rename one".to_string())
    );
    let guarded = vec![MemberFacts { schema: Schema { tables: vec![table("v", false)] }, schema_gen: 1, has_policies: true }];
    assert_eq!(
        layout(&[("aux", "v")], &guarded, false),
        Err("cross-file SELECT from attached database `aux` is not supported: it declares RLS policies (v1)".to_string())
    );
    assert!(read_only_gate(true).is_ok());
    assert_eq!(read_only_gate(false).unwrap_err().message(), "cross-file statements are read-only in v1");
    assert_eq!(
        schema_refused("too many tables").message(),
        "cannot build the cross-file schema for this statement: too many tables"
    );
    assert_eq!(cross_write_bug(), Error::Internal("cross-file plan routed a write operation".to_string()));
}

#[test]
fn a_cross_plan_goes_stale() {
    let mut l = attached(&["a", "b"]);
    let cp = CrossPlan { member_names: vec!["b".to_string()], gens: vec![3, 8], epoch: l.epoch() };
    assert_eq!(cross_check(&cp, &l, 3, &vec![1, 8]).unwrap(), vec![1]);
    assert_eq!(cross_check(&cp, &l, 4, &vec![1, 8]), Err(Error::PlanInvalidated));
    assert_eq!(cross_check(&cp, &l, 3, &vec![1, 9]), Err(Error::PlanInvalidated));
    l.detach("a").unwrap();
    assert_eq!(cross_check(&cp, &l, 3, &vec![8]), Err(Error::PlanInvalidated));
}

#[test]
fn a_database_answers_to_its_live_tables_and_views() {
    let table = |name: &str, dead: bool| TableDef {
        name: name.to_string(),
        columns: vec![],
        primary_key: vec![],
        indexes: vec![],
        dead,
        implicit_rowid: false,
        kind: TableKind::Standard,
    };
    let schema = Schema { tables: vec![table("t", false), table("gone", true)] };
    let names = build_scope(&schema, &vec!["v".to_string()]);
    assert!(names.contains(&"t".to_string()) && names.contains(&"v".to_string()));
    assert!(!names.contains(&"gone".to_string()));
    assert_eq!(names.len(), 2);
}
