//! The bookkeeping tables: their names and shapes, the lineage row, and the
//! resolution of a run's target.

use vstd::prelude::*;
use vstd::string::StringExecFns;
use crate::error::{Error, Fault, Result};
use crate::plan::{column_at, find_column, find_live_table, live_table_at, Schema};
use crate::text::{debug_str, dec, push_dec, quoted_in, str_debug, texts};
use crate::utf8::same_text;
use crate::value::{models, push_value_debug, value_debug, ColumnType, Value, ValueModel};

verus! {

/// What a run did.
#[derive(Debug)]
pub struct RretlReport {
    pub run_id: i64,
    pub rows: u64,
    /// Residual rows written, or used up.
    pub residuals: u64,
}

/// One lineage row as the log shows it.
#[derive(Debug)]
pub struct RretlLogRow {
    pub run_id: i64,
    pub lens: String,
    pub table: String,
    pub column: String,
    pub rows: i64,
    pub outcome: String,
    pub error: String,
}

/// The names of all bookkeeping tables.
pub open spec fn bookkeeping() -> Seq<Seq<char>> {
    seq![
        "rretl_lineage"@,
        "rretl_residual"@,
        "rretl_versions"@,
        "rretl_archives"@,
        "rretl_archive_members"@,
        "rretl_map_state"@,
        "rretl_map_cursor"@,
        "rretl_map_run"@,
        "rretl_map_dirty"@,
    ]
}

/// The texts of a list of strings.
pub open spec fn str_texts(v: Seq<&str>) -> Seq<Seq<char>> {
    v.map_values(|s: &str| s@)
}

/// Every table name that is refused as the target of a transform or a map.
pub fn rretl_bookkeeping_names() -> (r: [&'static str; 9])
    ensures
        str_texts(r@) == bookkeeping(),
{
    let r = [
        "rretl_lineage",
        "rretl_residual",
        "rretl_versions",
        "rretl_archives",
        "rretl_archive_members",
        "rretl_map_state",
        "rretl_map_cursor",
        "rretl_map_run",
        "rretl_map_dirty",
    ];
    proof {
        assert(str_texts(r@) =~= bookkeeping());
    }
    r
}

/// Whether a name is that of a bookkeeping table.
pub fn is_bookkeeping(name: &str) -> (r: bool)
    ensures
        r == bookkeeping().contains(name@),
{
    let names = rretl_bookkeeping_names();
    let mut i: usize = 0;
    while i < 9
        invariant
            i <= 9,
            str_texts(names@) == bookkeeping(),
            names@.len() == 9,
            forall|j: int| 0 <= j < i ==> bookkeeping()[j] != name@,
        decreases 9 - i,
    {
        proof {
            assert(bookkeeping()[i as int] == str_texts(names@)[i as int]);
        }
        if same_text(names[i], name) {
            proof {
                assert(bookkeeping()[i as int] == name@);
            }
            return true;
        }
        i += 1;
    }
    false
}

/// Texts in debug notation, between the brackets.
pub open spec fn texts_debug(ts: Seq<Seq<char>>) -> Seq<char>
    decreases ts.len(),
{
    if ts.len() == 0 {
        Seq::empty()
    } else if ts.len() == 1 {
        str_debug(ts[0])
    } else {
        texts_debug(ts.drop_last()) + ", "@ + str_debug(ts.last())
    }
}

fn push_text_debug(s: &mut String, first: bool, t: &str)
    ensures
        final(s)@ == old(s)@ + (if first { Seq::empty() } else { ", "@ }) + str_debug(t@),
{
    if !first {
        s.append(", ");
    }
    let d = debug_str(t);
    s.append(d.as_str());
    proof {
        assert(s@ =~= old(s)@ + (if first { Seq::empty() } else { ", "@ }) + str_debug(t@));
    }
}

fn push_strings_debug(s: &mut String, ts: &Vec<String>)
    ensures
        final(s)@ == old(s)@ + texts_debug(texts(ts@)),
{
    let mut i: usize = 0;
    proof {
        assert(texts(ts@).take(0) =~= Seq::<Seq<char>>::empty());
        assert(s@ =~= old(s)@ + texts_debug(texts(ts@).take(0)));
    }
    while i < ts.len()
        invariant
            i <= ts@.len(),
            s@ == old(s)@ + texts_debug(texts(ts@).take(i as int)),
        decreases ts@.len() - i,
    {
        push_text_debug(s, i == 0, ts[i].as_str());
        proof {
            let t = texts(ts@);
            assert(t.take(i + 1).drop_last() =~= t.take(i as int));
            assert(t.take(i + 1).last() == ts@[i as int]@);
            assert(s@ =~= old(s)@ + texts_debug(t.take(i + 1)));
        }
        i += 1;
    }
    proof {
        assert(texts(ts@).take(i as int) =~= texts(ts@));
    }
}

fn push_strs_debug(s: &mut String, ts: &[&str])
    ensures
        final(s)@ == old(s)@ + texts_debug(str_texts(ts@)),
{
    let mut i: usize = 0;
    proof {
        assert(str_texts(ts@).take(0) =~= Seq::<Seq<char>>::empty());
        assert(s@ =~= old(s)@ + texts_debug(str_texts(ts@).take(0)));
    }
    while i < ts.len()
        invariant
            i <= ts@.len(),
            s@ == old(s)@ + texts_debug(str_texts(ts@).take(i as int)),
        decreases ts@.len() - i,
    {
        push_text_debug(s, i == 0, ts[i]);
        proof {
            let t = str_texts(ts@);
            assert(t.take(i + 1).drop_last() =~= t.take(i as int));
            assert(t.take(i + 1).last() == ts@[i as int]@);
            assert(s@ =~= old(s)@ + texts_debug(t.take(i + 1)));
        }
        i += 1;
    }
    proof {
        assert(str_texts(ts@).take(i as int) =~= str_texts(ts@));
    }
}

/// The place of the first table of that name from `i` on.
pub open spec fn named_at(have: Seq<(String, Vec<String>)>, name: Seq<char>, i: int) -> Option<int>
    decreases have.len() - i,
{
    if i < 0 || i >= have.len() {
        None
    } else if have[i].0@ == name {
        Some(i)
    } else {
        named_at(have, name, i + 1)
    }
}

/// Whether a bookkeeping table exists; a table that merely has its name is
/// refused.
pub open spec fn shape_verdict(have: Seq<(String, Vec<String>)>, name: Seq<char>, want: Seq<Seq<char>>) -> std::result::Result<bool, Fault> {
    match named_at(have, name, 0) {
        None => Ok(false),
        Some(i) => {
            let cols = texts(have[i].1@);
            if cols == want {
                Ok(true)
            } else {
                Err(
                    Fault::Unsupported(
                        "a table named `"@ + name + "` already exists but is NOT rretl's bookkeeping table (columns ["@
                            + texts_debug(cols) + "], expected ["@ + texts_debug(want)
                            + "]) — rename or drop it; rretl will not write into a shape it does not own"@,
                    ),
                )
            }
        },
    }
}

fn same_names(cols: &Vec<String>, want: &[&str]) -> (r: bool)
    ensures
        r == (texts(cols@) == str_texts(want@)),
{
    let ghost a = texts(cols@);
    let ghost b = str_texts(want@);
    if cols.len() != want.len() {
        proof {
            assert(a.len() != b.len());
        }
        return false;
    }
    let mut i: usize = 0;
    while i < cols.len()
        invariant
            i <= cols@.len(),
            cols@.len() == want@.len(),
            a == texts(cols@),
            b == str_texts(want@),
            forall|j: int| 0 <= j < i ==> a[j] == b[j],
        decreases cols@.len() - i,
    {
        proof {
            assert(a[i as int] == cols@[i as int]@);
            assert(b[i as int] == want@[i as int]@);
        }
        if !same_text(cols[i].as_str(), want[i]) {
            return false;
        }
        i += 1;
    }
    proof {
        assert(a =~= b);
    }
    true
}

/// Whether a bookkeeping table exists with exactly its columns; refused where
/// another table has its name.
pub fn shape_gate(have: &Vec<(String, Vec<String>)>, name: &str, want: &[&str]) -> (r: Result<bool>)
    ensures
        match r {
            Ok(b) => shape_verdict(have@, name@, str_texts(want@)) == Ok::<bool, Fault>(b),
            Err(e) => shape_verdict(have@, name@, str_texts(want@)) == Err::<bool, Fault>(e@),
        },
{
    let mut i: usize = 0;
    while i < have.len()
        invariant
            i <= have@.len(),
            named_at(have@, name@, 0) == named_at(have@, name@, i as int),
        decreases have@.len() - i,
    {
        if same_text(have[i].0.as_str(), name) {
            let cols = &have[i].1;
            if same_names(cols, want) {
                return Ok(true);
            }
            let mut m = quoted_in(
                "a table named `",
                name,
                "` already exists but is NOT rretl's bookkeeping table (columns [",
            );
            push_strings_debug(&mut m, cols);
            m.append("], expected [");
            push_strs_debug(&mut m, want);
            m.append("]) — rename or drop it; rretl will not write into a shape it does not own");
            return Err(Error::Unsupported(m));
        }
        i += 1;
    }
    Ok(false)
}

/// The number of the next run: one more than the highest so far.
pub fn next_run_id(max: Option<i64>) -> (r: i64)
    requires
        max is Some ==> max->Some_0 < i64::MAX,
    ensures
        r == (match max {
            Some(m) => m + 1,
            None => 1,
        }),
{
    match max {
        Some(m) => m + 1,
        None => 1,
    }
}

/// An integer of a bookkeeping row.
pub fn as_int(v: &Value) -> (r: Result<i64>)
    ensures
        match r {
            Ok(i) => v.model() == ValueModel::Int(i as int),
            Err(e) => !(v.model() is Int) && e@ == Fault::Corrupt("lineage: expected int, got "@ + value_debug(v.model())),
        },
{
    match v {
        Value::Int(i) => Ok(*i),
        other => {
            let mut m = String::from_str("lineage: expected int, got ");
            push_value_debug(&mut m, other);
            Err(Error::Corrupt(m))
        },
    }
}

/// The text of a bookkeeping cell; anything but text in debug notation.
pub fn as_text(v: &Value) -> (r: String)
    ensures
        r@ == (match v.model() {
            ValueModel::Text(t) => t,
            other => value_debug(other),
        }),
{
    match v {
        Value::Text(t) => t.clone(),
        other => {
            let mut m = String::new();
            push_value_debug(&mut m, other);
            proof {
                assert(m@ =~= value_debug(other.model()));
            }
            m
        },
    }
}

/// One row of the lineage table.
#[derive(Debug)]
pub struct LineageRow {
    pub run_id: i64,
    pub lens: String,
    pub forward_hash: String,
    pub rex_hash: String,
    pub inverse_hash: String,
    pub table: String,
    pub column: String,
    pub source_hash: String,
    pub output_hash: String,
    /// The chain over the run's residual rows in key order; empty when it
    /// wrote none.
    pub residual_hash: String,
    pub rows: i64,
    pub outcome: &'static str,
    pub error: String,
}

impl LineageRow {
    /// The parameters that write the row at the time `now`, verified in full.
    pub fn values(&self, now: i64) -> (r: Vec<Value>)
        ensures
            models(r@) == seq![
                ValueModel::Int(self.run_id as int),
                ValueModel::Text(self.lens@),
                ValueModel::Text(self.forward_hash@),
                ValueModel::Text(self.rex_hash@),
                ValueModel::Text(self.inverse_hash@),
                ValueModel::Text(self.table@),
                ValueModel::Text(self.column@),
                ValueModel::Text(self.source_hash@),
                ValueModel::Text(self.output_hash@),
                ValueModel::Text(self.residual_hash@),
                ValueModel::Int(self.rows as int),
                ValueModel::Int(2),
                ValueModel::Text(self.outcome@),
                ValueModel::Text(self.error@),
                ValueModel::Int(now as int),
            ],
    {
        let mut v: Vec<Value> = Vec::with_capacity(15);
        v.push(Value::Int(self.run_id));
        v.push(Value::Text(self.lens.clone()));
        v.push(Value::Text(self.forward_hash.clone()));
        v.push(Value::Text(self.rex_hash.clone()));
        v.push(Value::Text(self.inverse_hash.clone()));
        v.push(Value::Text(self.table.clone()));
        v.push(Value::Text(self.column.clone()));
        v.push(Value::Text(self.source_hash.clone()));
        v.push(Value::Text(self.output_hash.clone()));
        v.push(Value::Text(self.residual_hash.clone()));
        v.push(Value::Int(self.rows));
        v.push(Value::Int(2));
        v.push(Value::Text(self.outcome.to_owned()));
        v.push(Value::Text(self.error.clone()));
        v.push(Value::Int(now));
        proof {
            assert(models(v@) =~= seq![
                ValueModel::Int(self.run_id as int),
                ValueModel::Text(self.lens@),
                ValueModel::Text(self.forward_hash@),
                ValueModel::Text(self.rex_hash@),
                ValueModel::Text(self.inverse_hash@),
                ValueModel::Text(self.table@),
                ValueModel::Text(self.column@),
                ValueModel::Text(self.source_hash@),
                ValueModel::Text(self.output_hash@),
                ValueModel::Text(self.residual_hash@),
                ValueModel::Int(self.rows as int),
                ValueModel::Int(2),
                ValueModel::Text(self.outcome@),
                ValueModel::Text(self.error@),
                ValueModel::Int(now as int),
            ]);
        }
        v
    }

    /// The lineage row of a run that failed: first-class lineage without
    /// hashes or rows.
    pub fn failed(run_id: i64, pair: &str, table: &str, column: &str, e: &Error) -> (r: LineageRow)
        ensures
            r.run_id == run_id,
            r.lens@ == pair@,
            r.table@ == table@,
            r.column@ == column@,
            r.rows == 0,
            r.outcome@ == "failed"@,
            r.error@ == crate::error::fault_text(e@),
            r.forward_hash@.len() == 0 && r.rex_hash@.len() == 0 && r.inverse_hash@.len() == 0,
            r.source_hash@.len() == 0 && r.output_hash@.len() == 0 && r.residual_hash@.len() == 0,
    {
        LineageRow {
            run_id,
            lens: pair.to_owned(),
            forward_hash: String::new(),
            rex_hash: String::new(),
            inverse_hash: String::new(),
            table: table.to_owned(),
            column: column.to_owned(),
            source_hash: String::new(),
            output_hash: String::new(),
            residual_hash: String::new(),
            rows: 0,
            outcome: "failed",
            error: e.message(),
        }
    }
}

/// A pair that declares that it cannot recover the source is not applied in
/// place.
pub fn lossy_gate(pair: &str, lossy: bool) -> (r: Result<()>)
    ensures
        match r {
            Ok(()) => !lossy,
            Err(e) => lossy && e@ == Fault::Unsupported(
                "`"@ + pair@
                    + "` is lossy: applying it in place would delete a source it declares it cannot recover — keep the source, or reclassify the pair"@,
            ),
        },
{
    if lossy {
        return Err(
            Error::Unsupported(
                quoted_in(
                    "`",
                    pair,
                    "` is lossy: applying it in place would delete a source it declares it cannot recover — keep the source, or reclassify the pair",
                ),
            ),
        );
    }
    Ok(())
}

// ----------------------------------------------------------------- target

/// The facts of a target column.
#[derive(Debug)]
pub struct Target {
    pub pk_col: String,
    pub col_type: ColumnType,
}

/// The key column and the type of a target column, or why it cannot be one.
pub open spec fn target_of(schema: Schema, table: Seq<char>, column: Seq<char>) -> std::result::Result<(Seq<char>, ColumnType), Fault> {
    if bookkeeping().contains(table) {
        Err(Fault::Unsupported("`"@ + table + "` is rRETL bookkeeping; transforming it is refused"@))
    } else {
        match live_table_at(schema.tables@, table, 0) {
            None => Err(Fault::Unsupported("no table named `"@ + table + "`"@)),
            Some(i) => {
                let t = schema.tables@[i];
                if t.primary_key@.len() != 1 {
                    Err(
                        Fault::Unsupported(
                            "`"@ + table + "` has a "@ + dec(t.primary_key@.len())
                                + "-column primary key; rretl needs a single row identity — a one-column PK or an implicit rowid"@,
                        ),
                    )
                } else {
                    let pk = t.columns@[t.primary_key@[0] as int].name@;
                    match column_at(t.columns@, column, 0) {
                        None => Err(Fault::Unsupported("no column `"@ + column + "` in `"@ + table + "`"@)),
                        Some(c) => if t.columns@[c].name@ == pk {
                            Err(
                                Fault::Unsupported(
                                    "transforming the PRIMARY KEY in place would change row identity; refused"@,
                                ),
                            )
                        } else {
                            Ok((pk, t.columns@[c].ty))
                        },
                    }
                }
            },
        }
    }
}

/// Resolve a target column against the live schema.
pub fn resolve_target(schema: &Schema, table: &str, column: &str) -> (r: Result<Target>)
    requires
        forall|i: int| 0 <= i < schema.tables@.len() ==> (#[trigger] schema.tables@[i]).key_wf(),
    ensures
        match r {
            Ok(t) => target_of(*schema, table@, column@) == Ok::<(Seq<char>, ColumnType), Fault>((t.pk_col@, t.col_type)),
            Err(e) => target_of(*schema, table@, column@) == Err::<(Seq<char>, ColumnType), Fault>(e@),
        },
{
    if is_bookkeeping(table) {
        return Err(
            Error::Unsupported(
                quoted_in("`", table, "` is rRETL bookkeeping; transforming it is refused"),
            ),
        );
    }
    let t = match find_live_table(schema, table) {
        Some(t) => t,
        None => {
            return Err(Error::Unsupported(quoted_in("no table named `", table, "`")));
        },
    };
    if t.primary_key.len() != 1 {
        let mut m = quoted_in("`", table, "` has a ");
        push_dec(&mut m, t.primary_key.len() as u128);
        m.append(
            "-column primary key; rretl needs a single row identity — a one-column PK or an implicit rowid",
        );
        return Err(Error::Unsupported(m));
    }
    assert(t.key_wf());
    let at: usize = t.primary_key[0] as usize;
    assert(t.primary_key@[0] < t.columns@.len());
    let pk = &t.columns[at].name;
    match find_column(t, column) {
        None => {
            let mut m = quoted_in("no column `", column, "` in `");
            m.append(table);
            m.append("`");
            Err(Error::Unsupported(m))
        },
        Some(c) => {
            if same_text(c.name.as_str(), pk.as_str()) {
                return Err(
                    Error::Unsupported(
                        String::from_str(
                            "transforming the PRIMARY KEY in place would change row identity; refused",
                        ),
                    ),
                );
            }
            Ok(Target { pk_col: pk.clone(), col_type: c.ty })
        },
    }
}

/// A name finds the first table that bears it, and finds one wherever one does.
pub proof fn law_book_found(have: Seq<(String, Vec<String>)>, name: Seq<char>, from: int)
    requires
        0 <= from <= have.len(),
    ensures
        match named_at(have, name, from) {
            Some(i) => from <= i < have.len() && have[i].0@ == name && forall|j: int| from <= j < i ==> (#[trigger] have[j]).0@ != name,
            None => forall|j: int| from <= j < have.len() ==> (#[trigger] have[j]).0@ != name,
        },
    decreases have.len() - from,
{
    if from < have.len() {
        law_book_found(have, name, from + 1);
    }
}

/// A table is taken for one of the books exactly where it has the book's
/// columns, in order. One of the name with other columns is never written to.
pub proof fn law_foreign_table_is_refused(have: Seq<(String, Vec<String>)>, name: Seq<char>, want: Seq<Seq<char>>)
    ensures
        match shape_verdict(have, name, want) {
            Ok(true) => exists|i: int| 0 <= i < have.len() && (#[trigger] have[i]).0@ == name && texts(have[i].1@) == want,
            Ok(false) => forall|i: int| 0 <= i < have.len() ==> (#[trigger] have[i]).0@ != name,
            Err(_) => exists|i: int| 0 <= i < have.len() && (#[trigger] have[i]).0@ == name && texts(have[i].1@) != want,
        },
{
    law_book_found(have, name, 0);
    match named_at(have, name, 0) {
        Some(i) => {
            assert(have[i].0@ == name);
        },
        None => {},
    }
}

/// What may be transformed in place: a column that is there, of a live table
/// that is none of the books and has a key of one column, and not that key.
/// The target names that key and the column's own type.
pub proof fn law_target_is_the_column(schema: Schema, table: Seq<char>, column: Seq<char>, i: int, c: int)
    requires
        0 <= i < schema.tables@.len(),
        schema.tables@[i].name@ == table,
        !schema.tables@[i].dead,
        forall|j: int| 0 <= j < i ==> (#[trigger] schema.tables@[j]).name@ != table || schema.tables@[j].dead,
        0 <= c < schema.tables@[i].columns@.len(),
        schema.tables@[i].columns@[c].name@ == column,
        forall|d: int| 0 <= d < c ==> (#[trigger] schema.tables@[i].columns@[d]).name@ != column,
    ensures
        ({
            let t = schema.tables@[i];
            let key = t.columns@[t.primary_key@[0] as int].name@;
            if !bookkeeping().contains(table) && t.primary_key@.len() == 1 && key != column {
                target_of(schema, table, column) == Ok::<(Seq<char>, ColumnType), Fault>((key, t.columns@[c].ty))
            } else {
                target_of(schema, table, column) is Err
            }
        }),
{
    crate::plan::law_live_table_found(schema.tables@, table, 0);
    crate::plan::law_column_found(schema.tables@[i].columns@, column, 0);
    let found = live_table_at(schema.tables@, table, 0);
    assert(found is Some) by {
        assert(schema.tables@[i].name@ == table && !schema.tables@[i].dead);
    }
    let f = found->Some_0;
    assert(f == i) by {
        if f < i {
            assert(schema.tables@[f].name@ != table || schema.tables@[f].dead);
        } else if f > i {
            assert(schema.tables@[i].name@ != table || schema.tables@[i].dead);
        }
    }
    let g = column_at(schema.tables@[i].columns@, column, 0);
    assert(g is Some) by {
        assert(schema.tables@[i].columns@[c].name@ == column);
    }
    assert(g == Some(c)) by {
        if g->Some_0 < c {
            assert(schema.tables@[i].columns@[g->Some_0].name@ != column);
        } else if g->Some_0 > c {
            assert(schema.tables@[i].columns@[c].name@ != column);
        }
    }
}

/// Without such a table, or without such a column in it, there is no target.
pub proof fn law_no_target_without_column(schema: Schema, table: Seq<char>, column: Seq<char>)
    ensures
        target_of(schema, table, column) is Ok ==> exists|i: int|
            0 <= i < schema.tables@.len() && (#[trigger] schema.tables@[i]).name@ == table && !schema.tables@[i].dead && exists|c: int|
                0 <= c < schema.tables@[i].columns@.len() && (#[trigger] schema.tables@[i].columns@[c]).name@ == column,
{
    crate::plan::law_live_table_found(schema.tables@, table, 0);
    if target_of(schema, table, column) is Ok {
        let i = live_table_at(schema.tables@, table, 0)->Some_0;
        crate::plan::law_column_found(schema.tables@[i].columns@, column, 0);
        let c = column_at(schema.tables@[i].columns@, column, 0)->Some_0;
        assert(schema.tables@[i].name@ == table);
        assert(schema.tables@[i].columns@[c].name@ == column);
    }
}

} // verus!
