//! The stored workload model: what tables are for and how they are accessed.
//! A model names only what the schema has, and gives a weighted list of
//! statements.

use vstd::prelude::*;
use vstd::string::StringExecFns;
use crate::error::{Error, Fault, Result};
use crate::plan::{column_at, find_column, find_live_table, live_table_at, ColumnDef, Schema, TableDef, TableKind};
use crate::utf8::{lossy_text, lossy_utf8};
use crate::text::{dec, join_text, joined_text, push_dec, quoted_in, texts};

verus! {

/// The namespace of the stored model.
pub const NS: &'static str = "model";

/// What a table is for.
#[derive(Debug, Clone, Copy, PartialEq, Eq, Structural)]
pub enum TableRole {
    Edge,
    Embedding,
    Other,
}

/// How a table is accessed.
#[derive(Debug, Clone, Copy, PartialEq, Eq, Structural)]
pub enum AccessKind {
    FilterEq,
    FilterRange,
    JoinKey,
    OrderBy,
    Point,
    Traverse,
    Knn,
}

/// One declared access.
#[derive(Debug)]
pub struct AccessModel {
    pub kind: AccessKind,
    pub columns: Vec<String>,
    /// The relative weight in tenths.
    pub weight: u64,
}

/// One declared table.
#[derive(Debug)]
pub struct TableModel {
    pub name: String,
    pub role: Option<TableRole>,
    pub access: Vec<AccessModel>,
}

/// One weighted statement.
#[derive(Debug)]
pub struct StatementModel {
    pub sql: String,
    pub weight: u64,
}

/// A workload model.
#[derive(Debug)]
pub struct WorkloadModel {
    pub tables: Vec<TableModel>,
    pub statements: Vec<StatementModel>,
}

/// The text and weight of statements.
pub open spec fn weighted(v: Seq<StatementModel>) -> Seq<(Seq<char>, u64)> {
    v.map_values(|s: StatementModel| (s.sql@, s.weight))
}

// ---------------------------------------------------------------- against the schema

/// The first name from `i` on that no column has.
pub open spec fn missing_column(columns: Seq<ColumnDef>, named: Seq<String>, i: int) -> Option<Seq<char>>
    decreases named.len() - i,
{
    if i >= named.len() {
        None
    } else if column_at(columns, named[i]@, 0) is None {
        Some(named[i]@)
    } else {
        missing_column(columns, named, i + 1)
    }
}

/// The first column from access `i` on that the table lacks.
pub open spec fn missing_access_column(columns: Seq<ColumnDef>, access: Seq<AccessModel>, i: int) -> Option<Seq<char>>
    decreases access.len() - i,
{
    if i >= access.len() {
        None
    } else {
        match missing_column(columns, access[i].columns@, 0) {
            Some(c) => Some(c),
            None => missing_access_column(columns, access, i + 1),
        }
    }
}

/// What is wrong with the tables of a model from `i` on.
pub open spec fn model_fault(tables: Seq<TableModel>, schema: Schema, i: int) -> Option<Fault>
    decreases tables.len() - i,
{
    if i >= tables.len() {
        None
    } else {
        match live_table_at(schema.tables@, tables[i].name@, 0) {
            None => Some(
                Fault::Unsupported("model names table `"@ + tables[i].name@ + "`, which does not exist in the schema"@),
            ),
            Some(at) => if schema.tables@[at].kind != TableKind::Standard {
                Some(
                    Fault::Unsupported("model names table `"@ + tables[i].name@ + "`, which does not exist in the schema"@),
                )
            } else {
                match missing_access_column(schema.tables@[at].columns@, tables[i].access@, 0) {
                    Some(c) => Some(
                        Fault::Unsupported(
                            "model access on `"@ + tables[i].name@ + "` names column `"@ + c + "`, which does not exist"@,
                        ),
                    ),
                    None => model_fault(tables, schema, i + 1),
                }
            },
        }
    }
}

fn first_missing<'a>(td: &TableDef, access: &'a Vec<AccessModel>) -> (r: Option<&'a String>)
    ensures
        match r {
            Some(c) => missing_access_column(td.columns@, access@, 0) == Some(c@),
            None => missing_access_column(td.columns@, access@, 0) is None,
        },
{
    let mut i: usize = 0;
    while i < access.len()
        invariant
            i <= access@.len(),
            missing_access_column(td.columns@, access@, 0) == missing_access_column(td.columns@, access@, i as int),
        decreases access@.len() - i,
    {
        let named = &access[i].columns;
        let mut j: usize = 0;
        while j < named.len()
            invariant
                i < access@.len(),
                *named == access@[i as int].columns,
                j <= named@.len(),
                missing_access_column(td.columns@, access@, 0) == missing_access_column(td.columns@, access@, i as int),
                missing_column(td.columns@, named@, 0) == missing_column(td.columns@, named@, j as int),
            decreases named@.len() - j,
        {
            if find_column(td, named[j].as_str()).is_none() {
                return Some(&named[j]);
            }
            j += 1;
        }
        i += 1;
    }
    None
}

/// Every named table is a live standard table and every named column is in its
/// table. A model may leave tables out.
pub fn validate_against_schema(model: &WorkloadModel, schema: &Schema) -> (r: Result<()>)
    ensures
        match r {
            Ok(_) => model_fault(model.tables@, *schema, 0) is None,
            Err(e) => model_fault(model.tables@, *schema, 0) == Some(e@),
        },
{
    let mut i: usize = 0;
    while i < model.tables.len()
        invariant
            i <= model.tables@.len(),
            model_fault(model.tables@, *schema, 0) == model_fault(model.tables@, *schema, i as int),
        decreases model.tables@.len() - i,
    {
        let t = &model.tables[i];
        match find_live_table(schema, t.name.as_str()) {
            None => {
                return Err(
                    Error::Unsupported(
                        quoted_in("model names table `", t.name.as_str(), "`, which does not exist in the schema"),
                    ),
                );
            },
            Some(td) => {
                if td.kind != TableKind::Standard {
                    return Err(
                        Error::Unsupported(
                            quoted_in("model names table `", t.name.as_str(), "`, which does not exist in the schema"),
                        ),
                    );
                }
                if let Some(c) = first_missing(td, &t.access) {
                    let mut m = quoted_in("model access on `", t.name.as_str(), "` names column `");
                    m.append(c.as_str());
                    m.append("`, which does not exist");
                    return Err(Error::Unsupported(m));
                }
            },
        }
        i += 1;
    }
    Ok(())
}

/// The source of the stored model, if one was stored.
pub fn model_source(record: Option<&Vec<u8>>) -> (r: Option<String>)
    ensures
        match r {
            Some(s) => record is Some && s@ == lossy_text(record->Some_0@),
            None => record is None,
        },
{
    match record {
        Some(b) => Some(lossy_utf8(b.as_slice())),
        None => None,
    }
}

/// A stored source that cannot be read as a model is a corrupt record.
pub fn unreadable_model(reason: &str) -> (e: Error)
    ensures
        e@ == Fault::Corrupt("stored model no longer parses: "@ + reason@),
{
    let mut m = String::from_str("stored model no longer parses: ");
    m.append(reason);
    Error::Corrupt(m)
}

// ---------------------------------------------------------------- statements

/// `a = $1`, `b = $2` and so on.
pub open spec fn equalities(cols: Seq<Seq<char>>) -> Seq<Seq<char>> {
    Seq::new(cols.len(), |i: int| cols[i] + " = $"@ + dec((i + 1) as nat))
}

/// The names of the key columns of a table.
pub open spec fn key_names(td: TableDef) -> Seq<Seq<char>> {
    Seq::new(td.primary_key@.len(), |i: int| td.columns@[td.primary_key@[i] as int].name@)
}

/// `SELECT * FROM t WHERE a = $1 AND b = $2`.
pub open spec fn probe_sql(table: Seq<char>, cols: Seq<Seq<char>>) -> Seq<char> {
    "SELECT * FROM "@ + table + " WHERE "@ + joined_text(equalities(cols), " AND "@)
}

/// The statement of one access, if it has one.
pub open spec fn access_sql(table: Seq<char>, a: AccessModel, td: Option<TableDef>) -> Option<Seq<char>> {
    match a.kind {
        AccessKind::FilterEq => Some(probe_sql(table, texts(a.columns@))),
        AccessKind::JoinKey => Some(probe_sql(table, texts(a.columns@))),
        AccessKind::FilterRange => Some("SELECT * FROM "@ + table + " WHERE "@ + a.columns@[0]@ + " > $1"@),
        AccessKind::OrderBy => Some("SELECT * FROM "@ + table + " ORDER BY "@ + joined_text(texts(a.columns@), ", "@)),
        AccessKind::Point => match td {
            Some(t) => Some(probe_sql(table, key_names(t))),
            None => None,
        },
        AccessKind::Traverse => Some("SELECT * FROM "@ + table + " WHERE "@ + a.columns@[0]@ + " = $1"@),
        AccessKind::Knn => None,
    }
}

/// The statements of the first `n` accesses of a table. A weight is at least
/// one.
pub open spec fn table_statements(t: TableModel, td: Option<TableDef>, n: nat) -> Seq<(Seq<char>, u64)>
    decreases n,
{
    if n == 0 {
        Seq::empty()
    } else {
        let done = table_statements(t, td, (n - 1) as nat);
        let a = t.access@[n - 1];
        match access_sql(t.name@, a, td) {
            Some(sql) => done.push((sql, if a.weight == 0 { 1u64 } else { a.weight })),
            None => done,
        }
    }
}

/// The live table that a model's table names.
pub open spec fn named_table(schema: Schema, name: Seq<char>) -> Option<TableDef> {
    match live_table_at(schema.tables@, name, 0) {
        Some(at) => Some(schema.tables@[at]),
        None => None,
    }
}

/// The statements of the first `n` tables.
pub open spec fn shape_statements(tables: Seq<TableModel>, schema: Schema, n: nat) -> Seq<(Seq<char>, u64)>
    decreases n,
{
    if n == 0 {
        Seq::empty()
    } else {
        let t = tables[n - 1];
        shape_statements(tables, schema, (n - 1) as nat) + table_statements(t, named_table(schema, t.name@), t.access@.len())
    }
}

/// An access that probes one column names one.
pub open spec fn access_named(a: AccessModel) -> bool {
    (a.kind == AccessKind::FilterRange || a.kind == AccessKind::Traverse) ==> a.columns@.len() > 0
}

pub open spec fn model_named(tables: Seq<TableModel>) -> bool {
    forall|i: int, j: int| 0 <= i < tables.len() && 0 <= j < tables[i].access@.len() ==> access_named(#[trigger] tables[i].access@[j])
}

/// Every key column of every table exists.
pub open spec fn keys_exist(schema: Schema) -> bool {
    forall|i: int, j: int|
        0 <= i < schema.tables@.len() && 0 <= j < schema.tables@[i].primary_key@.len()
            ==> #[trigger] schema.tables@[i].primary_key@[j] < schema.tables@[i].columns@.len()
}

fn probe(table: &str, cols: &Vec<String>) -> (r: String)
    ensures
        r@ == probe_sql(table@, texts(cols@)),
{
    let mut parts: Vec<String> = Vec::new();
    let mut i: usize = 0;
    while i < cols.len()
        invariant
            i <= cols@.len(),
            parts@.len() == i,
            forall|j: int| 0 <= j < i ==> (#[trigger] parts@[j])@ == cols@[j]@ + " = $"@ + dec((j + 1) as nat),
        decreases cols@.len() - i,
    {
        let mut p = cols[i].clone();
        p.append(" = $");
        push_dec(&mut p, i as u128 + 1);
        parts.push(p);
        i += 1;
    }
    proof {
        assert(texts(parts@) =~= equalities(texts(cols@)));
    }
    let preds = join_text(&parts, " AND ");
    let mut s = quoted_in("SELECT * FROM ", table, " WHERE ");
    s.append(preds.as_str());
    s
}

fn key_columns(td: &TableDef) -> (r: Vec<String>)
    requires
        forall|j: int| 0 <= j < td.primary_key@.len() ==> #[trigger] td.primary_key@[j] < td.columns@.len(),
    ensures
        texts(r@) == key_names(*td),
{
    let mut out: Vec<String> = Vec::new();
    let mut i: usize = 0;
    while i < td.primary_key.len()
        invariant
            i <= td.primary_key@.len(),
            forall|j: int| 0 <= j < td.primary_key@.len() ==> #[trigger] td.primary_key@[j] < td.columns@.len(),
            out@.len() == i,
            forall|j: int| 0 <= j < i ==> (#[trigger] out@[j])@ == td.columns@[td.primary_key@[j] as int].name@,
        decreases td.primary_key@.len() - i,
    {
        assert(td.primary_key@[i as int] < td.columns@.len());
        out.push(td.columns[td.primary_key[i] as usize].name.clone());
        i += 1;
    }
    proof {
        assert(texts(out@) =~= key_names(*td));
    }
    out
}

fn one_probe(table: &str, col: &str, op: &str) -> (r: String)
    ensures
        r@ == "SELECT * FROM "@ + table@ + " WHERE "@ + col@ + op@,
{
    let mut s = quoted_in("SELECT * FROM ", table, " WHERE ");
    s.append(col);
    s.append(op);
    s
}

fn access_statement(table: &str, a: &AccessModel, td: Option<&TableDef>) -> (r: Option<String>)
    requires
        access_named(*a),
        td matches Some(t) ==> forall|j: int| 0 <= j < t.primary_key@.len() ==> #[trigger] t.primary_key@[j] < t.columns@.len(),
    ensures
        ({
            let want = access_sql(
                table@,
                *a,
                match td {
                    Some(t) => Some(*t),
                    None => None,
                },
            );
            match r {
                Some(s) => want == Some(s@),
                None => want is None,
            }
        }),
{
    match a.kind {
        AccessKind::FilterEq => Some(probe(table, &a.columns)),
        AccessKind::JoinKey => Some(probe(table, &a.columns)),
        AccessKind::FilterRange => Some(one_probe(table, a.columns[0].as_str(), " > $1")),
        AccessKind::OrderBy => {
            let cols = join_text(&a.columns, ", ");
            let mut s = quoted_in("SELECT * FROM ", table, " ORDER BY ");
            s.append(cols.as_str());
            Some(s)
        },
        AccessKind::Point => match td {
            Some(t) => {
                let cols = key_columns(t);
                Some(probe(table, &cols))
            },
            None => None,
        },
        AccessKind::Traverse => Some(one_probe(table, a.columns[0].as_str(), " = $1")),
        AccessKind::Knn => None,
    }
}

fn add_table_statements(out: &mut Vec<StatementModel>, t: &TableModel, td: Option<&TableDef>)
    requires
        forall|j: int| 0 <= j < t.access@.len() ==> access_named(#[trigger] t.access@[j]),
        td matches Some(d) ==> forall|j: int| 0 <= j < d.primary_key@.len() ==> #[trigger] d.primary_key@[j] < d.columns@.len(),
    ensures
        weighted(final(out)@) == weighted(old(out)@) + table_statements(
            *t,
            match td {
                Some(d) => Some(*d),
                None => None,
            },
            t.access@.len(),
        ),
{
    let ghost start = weighted(out@);
    let ghost sd = match td {
        Some(d) => Some(*d),
        None => None,
    };
    let mut i: usize = 0;
    proof {
        assert(weighted(out@) =~= start + table_statements(*t, sd, 0));
    }
    while i < t.access.len()
        invariant
            i <= t.access@.len(),
            forall|j: int| 0 <= j < t.access@.len() ==> access_named(#[trigger] t.access@[j]),
            td matches Some(d) ==> forall|j: int| 0 <= j < d.primary_key@.len() ==> #[trigger] d.primary_key@[j] < d.columns@.len(),
            sd == (match td {
                Some(d) => Some(*d),
                None => None,
            }),
            weighted(out@) == start + table_statements(*t, sd, i as nat),
        decreases t.access@.len() - i,
    {
        let a = &t.access[i];
        assert(access_named(t.access@[i as int]));
        if let Some(sql) = access_statement(t.name.as_str(), a, td) {
            let ghost prev = out@;
            let weight: u64 = if a.weight == 0 { 1 } else { a.weight };
            out.push(StatementModel { sql, weight });
            proof {
                assert(weighted(out@) =~= weighted(prev).push((sql@, weight)));
                assert(weighted(out@) =~= start + table_statements(*t, sd, (i + 1) as nat));
            }
        }
        i += 1;
    }
}

/// The weighted statements of a model: one for each declared access that an
/// index could serve, then the statements it lists, as they are.
pub fn synthesize_statements(model: &WorkloadModel, schema: &Schema) -> (r: Vec<StatementModel>)
    requires
        model_named(model.tables@),
        keys_exist(*schema),
    ensures
        weighted(r@) == shape_statements(model.tables@, *schema, model.tables@.len()) + weighted(model.statements@),
{
    let mut out: Vec<StatementModel> = Vec::new();
    let mut i: usize = 0;
    proof {
        assert(weighted(out@) =~= shape_statements(model.tables@, *schema, 0));
    }
    while i < model.tables.len()
        invariant
            i <= model.tables@.len(),
            model_named(model.tables@),
            keys_exist(*schema),
            weighted(out@) == shape_statements(model.tables@, *schema, i as nat),
        decreases model.tables@.len() - i,
    {
        let t = &model.tables[i];
        let td = find_live_table(schema, t.name.as_str());
        proof {
            assert forall|j: int| 0 <= j < t.access@.len() implies access_named(#[trigger] t.access@[j]) by {
                assert(access_named(model.tables@[i as int].access@[j]));
            }
            if let Some(d) = td {
                let at = live_table_at(schema.tables@, t.name@, 0)->Some_0;
                assert forall|j: int| 0 <= j < d.primary_key@.len() implies #[trigger] d.primary_key@[j] < d.columns@.len() by {
                    assert(schema.tables@[at].primary_key@[j] < schema.tables@[at].columns@.len());
                }
            }
        }
        add_table_statements(&mut out, t, td);
        i += 1;
    }
    let ghost shapes = weighted(out@);
    let mut k: usize = 0;
    proof {
        assert(shapes + weighted(model.statements@).take(0) =~= shapes);
    }
    while k < model.statements.len()
        invariant
            k <= model.statements@.len(),
            weighted(out@) == shapes + weighted(model.statements@).take(k as int),
        decreases model.statements@.len() - k,
    {
        let s = &model.statements[k];
        let ghost prev = out@;
        out.push(StatementModel { sql: s.sql.clone(), weight: s.weight });
        proof {
            assert(weighted(out@) =~= weighted(prev).push((s.sql@, s.weight)));
            assert(weighted(out@) =~= shapes + weighted(model.statements@).take(k + 1));
        }
        k += 1;
    }
    proof {
        assert(weighted(model.statements@).take(k as int) =~= weighted(model.statements@));
    }
    out
}

// ---------------------------------------------------------------- laws

/// A model that was accepted names only live standard tables, and only columns
/// that they have.
pub proof fn law_accepted_model_names_live_tables(tables: Seq<TableModel>, schema: Schema, i: int, k: int)
    requires
        0 <= i <= k < tables.len(),
        model_fault(tables, schema, i) is None,
    ensures
        named_table(schema, tables[k].name@) is Some,
        named_table(schema, tables[k].name@)->Some_0.kind == TableKind::Standard,
        missing_access_column(named_table(schema, tables[k].name@)->Some_0.columns@, tables[k].access@, 0) is None,
    decreases k - i,
{
    if i < k {
        law_accepted_model_names_live_tables(tables, schema, i + 1, k);
    }
}

/// Every synthesized statement counts: no weight is zero.
pub proof fn law_shape_weights_positive(tables: Seq<TableModel>, schema: Schema, n: nat, k: int)
    requires
        n <= tables.len(),
        0 <= k < shape_statements(tables, schema, n).len(),
    ensures
        shape_statements(tables, schema, n)[k].1 >= 1,
    decreases n,
{
    if n > 0 {
        let t = tables[n - 1];
        let before = shape_statements(tables, schema, (n - 1) as nat);
        if k < before.len() {
            law_shape_weights_positive(tables, schema, (n - 1) as nat, k);
        } else {
            lemma_table_weights_positive(t, named_table(schema, t.name@), t.access@.len(), k - before.len());
        }
    }
}

proof fn lemma_table_weights_positive(t: TableModel, td: Option<TableDef>, n: nat, k: int)
    requires
        n <= t.access@.len(),
        0 <= k < table_statements(t, td, n).len(),
    ensures
        table_statements(t, td, n)[k].1 >= 1,
    decreases n,
{
    if n > 0 && k < table_statements(t, td, (n - 1) as nat).len() {
        lemma_table_weights_positive(t, td, (n - 1) as nat, k);
    }
}

proof fn lemma_table_statements(t: TableModel, td: Option<TableDef>, n: nat)
    requires
        n <= t.access@.len(),
    ensures
        forall|i: int|
            0 <= i < n && access_sql(t.name@, #[trigger] t.access@[i], td) is Some ==> table_statements(t, td, n).contains(
                (access_sql(t.name@, t.access@[i], td)->Some_0, if t.access@[i].weight == 0 { 1u64 } else { t.access@[i].weight }),
            ),
        forall|k: int|
            0 <= k < table_statements(t, td, n).len() ==> exists|i: int|
                0 <= i < n && access_sql(t.name@, #[trigger] t.access@[i], td) == Some((#[trigger] table_statements(t, td, n)[k]).0)
                    && table_statements(t, td, n)[k].1 == (if t.access@[i].weight == 0 { 1u64 } else { t.access@[i].weight }),
    decreases n,
{
    if n > 0 {
        lemma_table_statements(t, td, (n - 1) as nat);
        let (before, all) = (table_statements(t, td, (n - 1) as nat), table_statements(t, td, n));
        assert forall|i: int| 0 <= i < n && access_sql(t.name@, #[trigger] t.access@[i], td) is Some implies all.contains(
            (access_sql(t.name@, t.access@[i], td)->Some_0, if t.access@[i].weight == 0 { 1u64 } else { t.access@[i].weight }),
        ) by {
            let s = (access_sql(t.name@, t.access@[i], td)->Some_0, if t.access@[i].weight == 0 { 1u64 } else { t.access@[i].weight });
            if i < n - 1 {
                let k = before.index_of(s);
                assert(before[k] == s);
                assert(all[k] == s);
            } else {
                assert(all[before.len() as int] == s);
            }
        }
        assert forall|k: int| 0 <= k < all.len() implies exists|i: int|
            0 <= i < n && access_sql(t.name@, #[trigger] t.access@[i], td) == Some((#[trigger] all[k]).0) && all[k].1 == (if t.access@[i].weight
                == 0 {
                1u64
            } else {
                t.access@[i].weight
            }) by {
            if k < before.len() {
                assert(all[k] == before[k]);
                let i = choose|i: int|
                    0 <= i < n - 1 && access_sql(t.name@, #[trigger] t.access@[i], td) == Some(before[k].0) && before[k].1 == (if t.access@[i].weight
                        == 0 {
                        1u64
                    } else {
                        t.access@[i].weight
                    });
                assert(access_sql(t.name@, t.access@[i], td) == Some(all[k].0));
            } else {
                assert(access_sql(t.name@, t.access@[n - 1], td) == Some(all[k].0));
            }
        }
    }
}

/// Every declared access counts with its own weight, at least one: it gives the
/// statement that stands for it, on its own table.
pub proof fn law_every_access_gives_its_statement(tables: Seq<TableModel>, schema: Schema, n: nat, t: int, i: int)
    requires
        0 <= t < n <= tables.len(),
        0 <= i < tables[t].access@.len(),
        access_sql(tables[t].name@, tables[t].access@[i], named_table(schema, tables[t].name@)) is Some,
    ensures
        shape_statements(tables, schema, n).contains(
            (
                access_sql(tables[t].name@, tables[t].access@[i], named_table(schema, tables[t].name@))->Some_0,
                if tables[t].access@[i].weight == 0 { 1u64 } else { tables[t].access@[i].weight },
            ),
        ),
    decreases n,
{
    let before = shape_statements(tables, schema, (n - 1) as nat);
    let last = tables[n - 1];
    let own = table_statements(last, named_table(schema, last.name@), last.access@.len());
    let s = (
        access_sql(tables[t].name@, tables[t].access@[i], named_table(schema, tables[t].name@))->Some_0,
        if tables[t].access@[i].weight == 0 { 1u64 } else { tables[t].access@[i].weight },
    );
    if t < n - 1 {
        law_every_access_gives_its_statement(tables, schema, (n - 1) as nat, t, i);
        let k = before.index_of(s);
        assert(before[k] == s);
        assert((before + own)[k] == s);
    } else {
        lemma_table_statements(last, named_table(schema, last.name@), last.access@.len());
        assert(own.contains(s)) by {
            assert(access_sql(last.name@, last.access@[i], named_table(schema, last.name@)) is Some);
        }
        let k = own.index_of(s);
        assert(own[k] == s);
        assert((before + own)[before.len() + k] == s);
    }
}

/// An access that is probed by equality, and a key that is joined on, give the
/// same statement; a point gives the one for the table's own key; a traversal
/// probes its source; a search among vectors has no statement, and nothing else
/// lacks one.
pub proof fn law_accesses_are_probed_alike(table: Seq<char>, a: AccessModel, b: AccessModel, td: TableDef)
    requires
        a.columns == b.columns,
    ensures
        a.kind == AccessKind::FilterEq && b.kind == AccessKind::JoinKey ==> access_sql(table, a, Some(td)) == access_sql(table, b, Some(td)),
        a.kind == AccessKind::FilterEq && b.kind == AccessKind::Point && texts(a.columns@) == key_names(td) ==> access_sql(table, a, Some(td))
            == access_sql(table, b, Some(td)),
        a.kind == AccessKind::Traverse ==> access_sql(table, a, Some(td)) == Some("SELECT * FROM "@ + table + " WHERE "@ + a.columns@[0]@ + " = $1"@),
        a.kind == AccessKind::FilterRange ==> access_sql(table, a, Some(td)) == Some(
            "SELECT * FROM "@ + table + " WHERE "@ + a.columns@[0]@ + " > $1"@,
        ),
        access_sql(table, a, Some(td)) is None <==> a.kind == AccessKind::Knn,
        access_sql(table, a, None) is None <==> a.kind == AccessKind::Knn || a.kind == AccessKind::Point,
{
}

/// A probe compares its columns in their order with the parameters in theirs.
pub proof fn law_probe_binds_in_order(cols: Seq<Seq<char>>, i: int)
    requires
        0 <= i < cols.len(),
    ensures
        equalities(cols).len() == cols.len(),
        equalities(cols)[i] == cols[i] + " = $"@ + dec((i + 1) as nat),
{
}

proof fn lemma_columns_present(columns: Seq<ColumnDef>, named: Seq<String>, from: int)
    requires
        0 <= from <= named.len(),
    ensures
        missing_column(columns, named, from) is None <==> forall|j: int|
            from <= j < named.len() ==> exists|c: int| 0 <= c < columns.len() && (#[trigger] columns[c]).name@ == (#[trigger] named[j])@,
    decreases named.len() - from,
{
    if from < named.len() {
        lemma_columns_present(columns, named, from + 1);
        crate::plan::law_column_found(columns, named[from]@, 0);
        match column_at(columns, named[from]@, 0) {
            Some(c) => {
                assert(columns[c].name@ == named[from]@);
            },
            None => {
                assert(named[from]@ == named[from]@);
            },
        }
    }
}

proof fn lemma_accesses_present(columns: Seq<ColumnDef>, access: Seq<AccessModel>, from: int)
    requires
        0 <= from <= access.len(),
    ensures
        missing_access_column(columns, access, from) is None <==> forall|i: int|
            from <= i < access.len() ==> missing_column(columns, (#[trigger] access[i]).columns@, 0) is None,
    decreases access.len() - from,
{
    if from < access.len() {
        lemma_accesses_present(columns, access, from + 1);
    }
}

/// A table of a model is accepted exactly where it is a live standard table and
/// has every column that an access names.
pub proof fn law_model_table_is_accepted_iff_there(tables: Seq<TableModel>, schema: Schema, i: int)
    requires
        0 <= i < tables.len(),
    ensures
        model_fault(tables, schema, i) is None <==> model_fault(tables, schema, i + 1) is None && named_table(schema, tables[i].name@) is Some && {
            let td = named_table(schema, tables[i].name@)->Some_0;
            &&& td.kind == TableKind::Standard
            &&& forall|a: int|
                0 <= a < tables[i].access@.len() ==> forall|j: int|
                    0 <= j < (#[trigger] tables[i].access@[a]).columns@.len() ==> exists|c: int|
                        0 <= c < td.columns@.len() && (#[trigger] td.columns@[c]).name@ == (#[trigger] tables[i].access@[a].columns@[j])@
        },
{
    match named_table(schema, tables[i].name@) {
        Some(td) => {
            lemma_accesses_present(td.columns@, tables[i].access@, 0);
            assert forall|a: int| 0 <= a < tables[i].access@.len() implies (missing_column(td.columns@, (#[trigger] tables[i].access@[a]).columns@, 0) is None
                <==> forall|j: int|
                0 <= j < tables[i].access@[a].columns@.len() ==> exists|c: int|
                    0 <= c < td.columns@.len() && (#[trigger] td.columns@[c]).name@ == (#[trigger] tables[i].access@[a].columns@[j])@) by {
                lemma_columns_present(td.columns@, tables[i].access@[a].columns@, 0);
            }
        },
        None => {},
    }
}

} // verus!
