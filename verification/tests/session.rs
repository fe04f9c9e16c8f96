use mpedb::plan::{AccessPath, CompiledPlan, Footprint, KeyAccess, PlanStmt};
use mpedb::{resolve_params, ColumnType, Error, Session, Value};

fn sess(tenant: i64) -> Session {
    let mut s = Session::empty();
    s.set("app.tenant", Value::Int(tenant));
    s
}

/// `WHERE tenant = current_setting('app.tenant')`, behind `user` parameters.
fn plan(user: u16, key: &str, ty: Option<ColumnType>) -> CompiledPlan {
    let mut param_types: Vec<Option<ColumnType>> = (0..user).map(|_| Some(ColumnType::Int64)).collect();
    param_types.push(ty);
    CompiledPlan {
        stmt: PlanStmt::Delete { table: 0, access: AccessPath::FullScan, filter: None },
        subplans: vec![],
        consts: vec![],
        n_params: user + 1,
        context_keys: vec![key.to_string()],
        param_types,
        policies: vec![],
        footprint: Footprint { read_only: false, tables_read: vec![], tables_written: vec![0], key_access: KeyAccess::Full },
        host_call: false,
    }
}

#[test]
fn context_mixes_with_user_params() {
    // $1 is a user param, current_setting is a reserved slot after it.
    let p = plan(1, "app.tenant", Some(ColumnType::Int64));
    let got = resolve_params(&p, &[Value::Int(2)], &sess(7)).unwrap();
    assert_eq!(got, vec![Value::Int(2), Value::Int(7)]);
    // Wrong user-param count (context slot is NOT caller-suppliable).
    assert!(matches!(
        resolve_params(&p, &[Value::Int(2), Value::Int(7)], &sess(7)),
        Err(Error::WrongParamCount { expected: 1, got: 2 })
    ));
}

#[test]
fn fail_closed_missing_null_and_wrong_type() {
    let p = plan(0, "app.tenant", Some(ColumnType::Int64));
    // missing key
    assert!(matches!(resolve_params(&p, &[], &Session::empty()), Err(Error::Bind(_))));
    // NULL value
    let mut s = Session::empty();
    s.set("app.tenant", Value::Null);
    assert!(matches!(resolve_params(&p, &[], &s), Err(Error::TypeMismatch(_))));
    // wrong type (text where int required)
    let mut s = Session::empty();
    s.set("app.tenant", Value::Text("x".into()));
    assert!(matches!(resolve_params(&p, &[], &s), Err(Error::TypeMismatch(_))));
}

#[test]
fn in_context_missing_key_is_a_hard_error() {
    let r = resolve_params(&plan(0, "app.orgs", None), &[], &Session::empty());
    assert!(matches!(r, Err(Error::Bind(_))), "got {r:?}");
}

#[test]
fn set_list_rejects_nesting() {
    let mut s = Session::empty();
    let r = s.set_list("k", vec![Value::List(vec![Value::Int(1)])]);
    assert!(matches!(r, Err(Error::TypeMismatch(_))), "got {r:?}");
}

#[test]
fn a_list_is_one_value_whatever_its_length() {
    let p = plan(0, "app.orgs", None);
    let mut s = Session::empty();
    s.set_list("app.orgs", vec![]).unwrap();
    assert_eq!(resolve_params(&p, &[], &s).unwrap(), vec![Value::List(vec![])]);
    s.set_list("app.orgs", (0..50).map(Value::Int).collect()).unwrap();
    assert_eq!(resolve_params(&p, &[], &s).unwrap(), vec![Value::List((0..50).map(Value::Int).collect())]);
}

#[test]
fn variables_are_set_replaced_and_removed() {
    let mut s = Session::empty();
    assert!(s.is_empty());
    s.set("k", Value::Int(1));
    s.set("k", Value::Int(2));
    s.set("l", Value::Bool(true));
    assert_eq!(s.get("k"), Some(&Value::Int(2)));
    assert_eq!(s.unset("k"), Some(Value::Int(2)));
    assert_eq!(s.unset("k"), None);
    assert_eq!(s.get("k"), None);
    assert!(!s.is_empty());
    s.reset();
    assert!(s.is_empty());
}

#[test]
fn settings_chain_and_copies_are_apart() {
    let mut s = Session::default();
    s.set("a", Value::Int(1)).set("b", Value::Int(2)).set_list("c", vec![Value::Int(3)]).unwrap().set("a", Value::Int(4));
    assert_eq!(s.get("a"), Some(&Value::Int(4)));
    assert_eq!(s.get("c"), Some(&Value::List(vec![Value::Int(3)])));
    let taken = s.clone();
    s.set("b", Value::Null);
    assert_eq!(taken.get("b"), Some(&Value::Int(2)), "a later change does not reach a copy");
}

#[test]
fn refused_context_says_why() {
    let p = plan(0, "app.tenant", Some(ColumnType::Int64));
    assert_eq!(
        resolve_params(&p, &[], &Session::empty()).unwrap_err().message(),
        "session context 'app.tenant' is required by the statement but is not set"
    );
    let mut s = Session::empty();
    s.set("app.tenant", Value::Null);
    assert_eq!(
        resolve_params(&p, &[], &s).unwrap_err().message(),
        "session context 'app.tenant' is NULL; a concrete value is required"
    );
    s.set("app.tenant", Value::Text("x".to_string()));
    assert_eq!(
        resolve_params(&p, &[], &s).unwrap_err().message(),
        "session context 'app.tenant' is text, statement requires int64"
    );
}

#[test]
fn sessions_are_equal_by_what_they_hold() {
    let mut a = Session::empty();
    a.set("x", Value::Int(1)).set("y", Value::List(vec![Value::Text("t".to_string()), Value::Null]));
    let mut b = Session::empty();
    b.set("y", Value::Null).set("y", Value::List(vec![Value::Text("t".to_string()), Value::Null])).set("x", Value::Int(1));
    assert!(a == b, "the order of setting does not matter");
    assert!(a == a.clone());
    b.set("z", Value::Bool(true));
    assert!(a != b && b != a);
    b.unset("z");
    b.set("x", Value::Timestamp(1));
    assert!(a != b);
    assert!(Session::default() == Session::empty());
    let mut c = Session::empty();
    c.set("b", Value::Blob(vec![1, 2]));
    let mut d = Session::empty();
    d.set("b", Value::Blob(vec![1, 3]));
    assert!(c != d);
}
