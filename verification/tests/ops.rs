use mpedb::hash::hash_hex;
use mpedb::model::{
    model_source, synthesize_statements, unreadable_model, validate_against_schema, AccessKind, AccessModel, StatementModel, TableModel,
    TableRole, WorkloadModel,
};
use mpedb::opdef::{
    decode_op_record, encode_op_record, expansion_text, find_operator, install_model_operators, macro_gate, missing_macro, operator_info,
    scan_op_records, validate_symbol, OpFixity,
};
use mpedb::plan::{ColumnDef, Schema, TableDef, TableKind};
use mpedb::spellfn::{
    call_gate, decode_func_record, decoded_gate, encode_func_record, function_gate, function_info, load_step, refuse_db, scalar_result,
    scan_func_records, BlobStep, BlobUse, Returned,
};
use mpedb::{ColumnType, Error, Value};

// ---------------------------------------------------------------- operators

#[test]
fn fixities_are_two_bits() {
    for (f, bits, n, name) in [
        (OpFixity::Infix, 3u8, 2u16, "infix"),
        (OpFixity::Postfix, 2, 1, "postfix"),
        (OpFixity::Prefix, 1, 1, "prefix"),
        (OpFixity::Niladic, 0, 0, "niladic"),
    ] {
        assert_eq!(f.bits(), bits);
        assert_eq!(OpFixity::from_bits(bits), Some(f));
        assert_eq!(f.operand_count(), n);
        assert_eq!(f.name(), name);
    }
    assert_eq!(OpFixity::from_bits(4), None);
}

#[test]
fn operator_records_round_trip() {
    let rec = encode_op_record(OpFixity::Prefix, &[7; 32], "dökumentation");
    assert_eq!(&rec[..3], &[1, 1, 7]);
    assert_eq!(decode_op_record(&rec), Some((OpFixity::Prefix, [7; 32], "dökumentation".to_string())));
    assert_eq!(decode_op_record(&rec[..33]), None);
    let mut bad = rec.clone();
    bad[0] = 2;
    assert_eq!(decode_op_record(&bad), None);
    let mut bad = rec.clone();
    bad[1] = 4;
    assert_eq!(decode_op_record(&bad), None);
    // doc bytes that are not text are replaced
    let mut torn = encode_op_record(OpFixity::Infix, &[0; 32], "a");
    torn.push(0xff);
    assert_eq!(decode_op_record(&torn).unwrap().2, "a\u{fffd}");
}

#[test]
fn corrupt_operator_records_are_passed_over() {
    let entries = vec![
        (b"op\0->".to_vec(), encode_op_record(OpFixity::Infix, &[1; 32], "edge")),
        (b"op\0x".to_vec(), b"junk".to_vec()),
    ];
    let ops = scan_op_records(&entries);
    assert_eq!(ops.len(), 1);
    let info = operator_info(&ops[0]);
    assert_eq!(info.symbol, "->");
    assert_eq!(info.fixity, OpFixity::Infix);
    assert_eq!(info.spell_hash_hex, "01".repeat(32));
    assert_eq!(info.doc, "edge");
}

#[test]
fn symbols_are_short_and_plain() {
    assert!(validate_symbol("->").is_ok());
    assert!(validate_symbol("0123456789abcdef").is_ok());
    let size = Error::Unsupported("an operator symbol is 1..=16 bytes between colons".to_string());
    assert_eq!(validate_symbol(""), Err(size.clone()));
    assert_eq!(validate_symbol("0123456789abcdefg"), Err(size));
    let plain = Error::Unsupported("an operator symbol cannot contain `:` or whitespace".to_string());
    for bad in ["a:b", "a b", "a\tb", "a\u{a0}", "\u{3000}", "\u{2003}x"] {
        assert_eq!(validate_symbol(bad), Err(plain.clone()), "{bad:?}");
    }
    assert!(validate_symbol("\u{200b}").is_ok(), "a zero-width space is not white space");
}

#[test]
fn a_macro_fits_its_operator() {
    assert!(macro_gate(OpFixity::Infix, false, 2).is_ok());
    assert_eq!(
        macro_gate(OpFixity::Postfix, false, 2).unwrap_err().message(),
        "a postfix operator takes 1 operand(s), but the macro takes 2 argument(s)"
    );
    assert_eq!(
        macro_gate(OpFixity::Infix, true, 2).unwrap_err().message(),
        "an operator macro cannot run SQL — it RETURNS SQL text"
    );
}

#[test]
fn expansions_are_sql_text() {
    let symbols = vec!["->".to_string(), "~".to_string()];
    assert_eq!(find_operator(&symbols, "~").unwrap(), 1);
    assert_eq!(find_operator(&symbols, "!").unwrap_err().message(), ":!: is not in this catalog");
    assert_eq!(expansion_text("~", Value::Text("1".to_string())).unwrap(), "1");
    assert_eq!(
        expansion_text("~", Value::Int(1)).unwrap_err(),
        Error::TypeMismatch(":~: macro returned int64 — an operator macro must return SQL text".to_string())
    );
    assert_eq!(missing_macro("~").message(), ":~: names a spell blob that is missing");
}

fn access(kind: AccessKind, columns: &[&str], weight: u64) -> AccessModel {
    AccessModel { kind, columns: columns.iter().map(|c| c.to_string()).collect(), weight }
}

fn modelled(name: &str, role: Option<TableRole>, access: Vec<AccessModel>) -> TableModel {
    TableModel { name: name.to_string(), role, access }
}

#[test]
fn roles_install_operators() {
    let m = WorkloadModel {
        tables: vec![
            modelled("follows", Some(TableRole::Edge), vec![access(AccessKind::Traverse, &["src", "dst"], 1)]),
            modelled("docs", Some(TableRole::Embedding), vec![access(AccessKind::Knn, &["emb"], 1)]),
            modelled("plain", None, vec![access(AccessKind::Traverse, &["x"], 1)]),
        ],
        statements: vec![],
    };
    let (ops, err) = install_model_operators(Some(&m));
    assert!(err.is_none());
    assert_eq!(ops.len(), 2);
    assert_eq!(ops[0].symbol, "->");
    assert_eq!(
        ops[0].source,
        "def op_edge(l, r):\n    return \"EXISTS (SELECT 1 FROM follows WHERE follows.src = (\" + l + \") AND follows.dst = (\" + r + \"))\"\n"
    );
    assert_eq!(ops[0].doc, "edge step over `follows` (src → dst); a :->: b = an edge exists");
    assert_eq!(ops[1].symbol, "~");
    assert_eq!(ops[1].source, "def op_near(l, r):\n    return \"vec_l2((\" + l + \"), (\" + r + \"))\"\n");
}

#[test]
fn a_model_without_the_roles_installs_nothing() {
    let (ops, err) = install_model_operators(None);
    assert!(ops.is_empty());
    assert!(err.unwrap().message().starts_with("no model stored"));
    let empty = WorkloadModel { tables: vec![modelled("t", Some(TableRole::Edge), vec![])], statements: vec![] };
    let (ops, err) = install_model_operators(Some(&empty));
    assert!(ops.is_empty());
    assert!(err.unwrap().message().ends_with("nothing to install"));
    let bad = WorkloadModel {
        tables: vec![
            modelled("docs", Some(TableRole::Embedding), vec![access(AccessKind::Knn, &["emb"], 1)]),
            modelled("e", Some(TableRole::Edge), vec![access(AccessKind::Traverse, &["src"], 1)]),
        ],
        statements: vec![],
    };
    let (ops, err) = install_model_operators(Some(&bad));
    assert_eq!(ops.len(), 1, "what came before the error stays");
    assert!(err.unwrap().message().starts_with("edge table `e`: a traverse declaration needs [source, destination]"));
}

// ---------------------------------------------------------------- functions

#[test]
fn function_records_round_trip() {
    let rec = encode_func_record(&[5; 32], 0x0102);
    assert_eq!(rec.len(), 35);
    assert_eq!(&rec[33..], &[2, 1]);
    assert_eq!(decode_func_record(&rec), Some(([5; 32], 0x0102)));
    for cut in 0..35 {
        assert_eq!(decode_func_record(&rec[..cut]), None);
    }
    let mut long = rec.clone();
    long.push(0);
    assert_eq!(decode_func_record(&long), None);
    let mut other = rec;
    other[0] = 2;
    assert_eq!(decode_func_record(&other), None);
}

#[test]
fn the_function_catalog_skips_what_it_cannot_read() {
    let entries = vec![
        (b"func\0double".to_vec(), encode_func_record(&[0xab; 32], 1)),
        (b"func\0broken".to_vec(), vec![]),
        (b"func\0\xff".to_vec(), encode_func_record(&[1; 32], 0)),
    ];
    let found = scan_func_records(&entries);
    assert_eq!(found.len(), 2);
    let info = function_info(&found[0]);
    assert_eq!((info.name.as_str(), info.argc), ("double", 1));
    assert_eq!(info.hash_hex, "ab".repeat(32));
    assert_eq!(found[1].name, "\u{fffd}");
}

#[test]
fn function_gates() {
    assert!(function_gate(false).is_ok());
    assert!(function_gate(true).unwrap_err().message().starts_with("a stored SQL function cannot run SQL"));
    assert_eq!(refuse_db().message(), "a stored SQL function cannot touch the database");
    assert!(call_gate("f", 2, 2).is_ok());
    assert_eq!(call_gate("f", 2, 3), Err(Error::TypeMismatch("f() takes 2 argument(s), got 3".to_string())));
    assert_eq!(scalar_result("f", Returned::Scalar(Value::Int(4))).unwrap(), Value::Int(4));
    assert_eq!(
        scalar_result("f", Returned::Compound("[1, 2]".to_string())).unwrap_err().message(),
        "f() returned a non-scalar ([1, 2]); a SQL function must return a scalar"
    );
}

#[test]
fn a_definition_is_the_one_that_was_stored() {
    let blob = b"".to_vec();
    // the published blake3 digest of the empty input
    let hex = "af1349b9f5f9a1a6a0404dea36dcc9499bcb25c9adc112b7cc9a93cae41f3262";
    assert_eq!(hash_hex(&blob), hex);
    let mut hash = [0u8; 32];
    for i in 0..32 {
        hash[i] = u8::from_str_radix(&hex[2 * i..2 * i + 2], 16).unwrap();
    }
    assert_eq!(load_step(BlobUse::Function, false, Some(&blob), &hash).unwrap(), BlobStep::Decode);
    assert_eq!(load_step(BlobUse::Function, false, None, &hash).unwrap(), BlobStep::Missing);
    assert_eq!(load_step(BlobUse::Function, true, None, &hash).unwrap(), BlobStep::UseCached);
    hash[0] ^= 1;
    assert_eq!(
        load_step(BlobUse::Function, false, Some(&blob), &hash),
        Err(Error::Corrupt("stored function blob does not match its hash".to_string()))
    );
    assert_eq!(
        load_step(BlobUse::Operator, false, Some(&blob), &hash),
        Err(Error::Corrupt("stored spell blob does not match its hash".to_string()))
    );
    assert!(decoded_gate(BlobUse::Operator, false).is_ok());
    assert_eq!(
        decoded_gate(BlobUse::Operator, true).unwrap_err().message(),
        "stored spell blob contains database operations"
    );
    assert_eq!(
        decoded_gate(BlobUse::Function, true).unwrap_err().message(),
        "stored function blob contains database operations"
    );
}

// ---------------------------------------------------------------- the model

fn schema() -> Schema {
    let column = |n: &str| ColumnDef { name: n.to_string(), ty: ColumnType::Int64, default: None };
    let t = |name: &str, dead| TableDef {
        name: name.to_string(),
        columns: vec![column("a"), column("b"), column("c")],
        primary_key: vec![0, 2],
        indexes: vec![],
        dead,
        implicit_rowid: false,
        kind: TableKind::Standard,
    };
    Schema { tables: vec![t("gone", true), t("t", false)] }
}

#[test]
fn a_model_names_what_the_schema_has() {
    let m = |name: &str, col: &str| WorkloadModel {
        tables: vec![modelled(name, None, vec![access(AccessKind::FilterEq, &["a", col], 1)])],
        statements: vec![],
    };
    assert!(validate_against_schema(&m("t", "b"), &schema()).is_ok());
    assert_eq!(
        validate_against_schema(&m("gone", "b"), &schema()).unwrap_err().message(),
        "model names table `gone`, which does not exist in the schema"
    );
    assert_eq!(
        validate_against_schema(&m("t", "z"), &schema()).unwrap_err().message(),
        "model access on `t` names column `z`, which does not exist"
    );
    let mut fts = schema();
    fts.tables[1].kind = TableKind::Virtual;
    assert_eq!(
        validate_against_schema(&m("t", "b"), &fts).unwrap_err().message(),
        "model names table `t`, which does not exist in the schema"
    );
    assert_eq!(model_source(Some(&b"x = 1".to_vec())), Some("x = 1".to_string()));
    assert_eq!(model_source(None), None);
    assert_eq!(
        unreadable_model("line 1"),
        Error::Corrupt("stored model no longer parses: line 1".to_string())
    );
}

#[test]
fn shapes_become_statements() {
    let m = WorkloadModel {
        tables: vec![modelled(
            "t",
            None,
            vec![
                access(AccessKind::FilterEq, &["a", "b"], 4),
                access(AccessKind::JoinKey, &["b"], 0),
                access(AccessKind::FilterRange, &["c"], 2),
                access(AccessKind::OrderBy, &["a", "b"], 10),
                access(AccessKind::Point, &[], 7),
                access(AccessKind::Traverse, &["a", "b"], 3),
                access(AccessKind::Knn, &["c"], 9),
            ],
        )],
        statements: vec![StatementModel { sql: "SELECT 1".to_string(), weight: 0 }],
    };
    let got: Vec<(String, u64)> = synthesize_statements(&m, &schema()).into_iter().map(|s| (s.sql, s.weight)).collect();
    let want = [
        ("SELECT * FROM t WHERE a = $1 AND b = $2", 4u64),
        ("SELECT * FROM t WHERE b = $1", 1),
        ("SELECT * FROM t WHERE c > $1", 2),
        ("SELECT * FROM t ORDER BY a, b", 10),
        ("SELECT * FROM t WHERE a = $1 AND c = $2", 7),
        ("SELECT * FROM t WHERE a = $1", 3),
        ("SELECT 1", 0),
    ];
    assert_eq!(got, want.iter().map(|(s, w)| (s.to_string(), *w)).collect::<Vec<_>>());
    let absent = WorkloadModel {
        tables: vec![modelled("gone", None, vec![access(AccessKind::Point, &[], 1)])],
        statements: vec![],
    };
    assert!(synthesize_statements(&absent, &schema()).is_empty());
}
