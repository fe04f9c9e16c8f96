//! The bookkeeping tables. They are made from these definitions, inside the
//! transaction that first needs them; a table that merely has the name of one
//! is refused.

use vstd::prelude::*;
use crate::error::{Fault, Result};
use crate::plan::{Schema, TableDef};
use crate::rretl::books::{bookkeeping, named_at, shape_gate, shape_verdict, str_texts};
use crate::text::texts;
use crate::value::ColumnType;

verus! {

/// A bookkeeping table.
#[derive(Debug, Clone, Copy, PartialEq, Eq, Structural)]
pub enum BookTable {
    Lineage,
    Residual,
    Versions,
    Archives,
    Members,
    MapState,
    MapCursor,
    MapRun,
    MapDirty,
}

/// The definition of a bookkeeping table.
#[derive(Debug)]
pub struct BookDef {
    pub name: &'static str,
    pub columns: Vec<(&'static str, ColumnType)>,
    pub key: Vec<&'static str>,
}

/// The name of a bookkeeping table.
pub open spec fn book_name(t: BookTable) -> Seq<char> {
    match t {
        BookTable::Lineage => "rretl_lineage"@,
        BookTable::Residual => "rretl_residual"@,
        BookTable::Versions => "rretl_versions"@,
        BookTable::Archives => "rretl_archives"@,
        BookTable::Members => "rretl_archive_members"@,
        BookTable::MapState => "rretl_map_state"@,
        BookTable::MapCursor => "rretl_map_cursor"@,
        BookTable::MapRun => "rretl_map_run"@,
        BookTable::MapDirty => "rretl_map_dirty"@,
    }
}

/// The columns of a bookkeeping table and their types.
pub open spec fn book_columns(t: BookTable) -> Seq<(Seq<char>, ColumnType)> {
    match t {
        BookTable::Lineage => seq![
            ("run_id"@, ColumnType::Int64),
            ("step_no"@, ColumnType::Int64),
            ("lens"@, ColumnType::Text),
            ("forward_hash"@, ColumnType::Text),
            ("rex_hash"@, ColumnType::Text),
            ("inverse_hash"@, ColumnType::Text),
            ("tbl"@, ColumnType::Text),
            ("col"@, ColumnType::Text),
            ("source_hash"@, ColumnType::Text),
            ("output_hash"@, ColumnType::Text),
            ("residual_hash"@, ColumnType::Text),
            ("rows"@, ColumnType::Int64),
            ("verified"@, ColumnType::Int64),
            ("outcome"@, ColumnType::Text),
            ("error"@, ColumnType::Text),
            ("ts_micros"@, ColumnType::Int64),
        ],
        BookTable::Residual => seq![
            ("run_id"@, ColumnType::Int64),
            ("pk_enc"@, ColumnType::Blob),
            ("residual"@, ColumnType::Any),
        ],
        BookTable::Versions => seq![
            ("obj"@, ColumnType::Text),
            ("ver"@, ColumnType::Int64),
            ("payload"@, ColumnType::Blob),
            ("content_hash"@, ColumnType::Text),
            ("ts_micros"@, ColumnType::Int64),
        ],
        BookTable::Archives => seq![
            ("archive_id"@, ColumnType::Int64),
            ("name"@, ColumnType::Text),
            ("residual"@, ColumnType::Blob),
            ("content_hash"@, ColumnType::Text),
            ("ts_micros"@, ColumnType::Int64),
        ],
        BookTable::Members => seq![
            ("archive_id"@, ColumnType::Int64),
            ("member_no"@, ColumnType::Int64),
            ("name"@, ColumnType::Blob),
            ("data"@, ColumnType::Blob),
            ("method"@, ColumnType::Int64),
        ],
        BookTable::MapState => seq![
            ("map"@, ColumnType::Text),
            ("tbl"@, ColumnType::Text),
            ("pk_enc"@, ColumnType::Blob),
            ("k"@, ColumnType::Any),
            ("a_hash"@, ColumnType::Text),
            ("b_hash"@, ColumnType::Text),
            ("ts_micros"@, ColumnType::Int64),
        ],
        BookTable::MapCursor => seq![
            ("map"@, ColumnType::Text),
            ("tbl"@, ColumnType::Text),
            ("phase"@, ColumnType::Int64),
            ("k"@, ColumnType::Any),
            ("pk_enc"@, ColumnType::Blob),
        ],
        BookTable::MapRun => seq![
            ("map"@, ColumnType::Text),
            ("runner"@, ColumnType::Text),
            ("round"@, ColumnType::Int64),
            ("lease_owner"@, ColumnType::Text),
            ("lease_until"@, ColumnType::Int64),
            ("note"@, ColumnType::Text),
        ],
        BookTable::MapDirty => seq![
            ("seq"@, ColumnType::Int64),
            ("map"@, ColumnType::Text),
            ("tbl"@, ColumnType::Text),
            ("side"@, ColumnType::Text),
            ("k"@, ColumnType::Any),
        ],
    }
}

/// The key of a bookkeeping table.
pub open spec fn book_key(t: BookTable) -> Seq<Seq<char>> {
    match t {
        BookTable::Lineage => seq!["run_id"@, "step_no"@],
        BookTable::Residual => seq!["run_id"@, "pk_enc"@],
        BookTable::Versions => seq!["obj"@, "ver"@],
        BookTable::Archives => seq!["archive_id"@],
        BookTable::Members => seq!["archive_id"@, "member_no"@],
        BookTable::MapState => seq!["map"@, "tbl"@, "pk_enc"@],
        BookTable::MapCursor => seq!["map"@, "tbl"@],
        BookTable::MapRun => seq!["map"@],
        BookTable::MapDirty => seq!["seq"@],
    }
}

/// The column names of a bookkeeping table.
pub open spec fn book_shape(t: BookTable) -> Seq<Seq<char>> {
    book_columns(t).map_values(|c: (Seq<char>, ColumnType)| c.0)
}

pub open spec fn column_views(v: Seq<(&'static str, ColumnType)>) -> Seq<(Seq<char>, ColumnType)> {
    v.map_values(|c: (&'static str, ColumnType)| (c.0@, c.1))
}

/// The definition is that of the table.
pub open spec fn defines(d: BookDef, t: BookTable) -> bool {
    &&& d.name@ == book_name(t)
    &&& column_views(d.columns@) == book_columns(t)
    &&& str_texts(d.key@) == book_key(t)
}

/// The definition of a bookkeeping table.
pub fn definition(t: BookTable) -> (d: BookDef)
    ensures
        defines(d, t),
{
    let d = match t {
        BookTable::Lineage => BookDef {
            name: "rretl_lineage",
            columns: vec![
                ("run_id", ColumnType::Int64),
                ("step_no", ColumnType::Int64),
                ("lens", ColumnType::Text),
                ("forward_hash", ColumnType::Text),
                ("rex_hash", ColumnType::Text),
                ("inverse_hash", ColumnType::Text),
                ("tbl", ColumnType::Text),
                ("col", ColumnType::Text),
                ("source_hash", ColumnType::Text),
                ("output_hash", ColumnType::Text),
                ("residual_hash", ColumnType::Text),
                ("rows", ColumnType::Int64),
                ("verified", ColumnType::Int64),
                ("outcome", ColumnType::Text),
                ("error", ColumnType::Text),
                ("ts_micros", ColumnType::Int64),
            ],
            key: vec!["run_id", "step_no"],
        },
        BookTable::Residual => BookDef {
            name: "rretl_residual",
            columns: vec![
                ("run_id", ColumnType::Int64),
                ("pk_enc", ColumnType::Blob),
                ("residual", ColumnType::Any),
            ],
            key: vec!["run_id", "pk_enc"],
        },
        BookTable::Versions => BookDef {
            name: "rretl_versions",
            columns: vec![
                ("obj", ColumnType::Text),
                ("ver", ColumnType::Int64),
                ("payload", ColumnType::Blob),
                ("content_hash", ColumnType::Text),
                ("ts_micros", ColumnType::Int64),
            ],
            key: vec!["obj", "ver"],
        },
        BookTable::Archives => BookDef {
            name: "rretl_archives",
            columns: vec![
                ("archive_id", ColumnType::Int64),
                ("name", ColumnType::Text),
                ("residual", ColumnType::Blob),
                ("content_hash", ColumnType::Text),
                ("ts_micros", ColumnType::Int64),
            ],
            key: vec!["archive_id"],
        },
        BookTable::Members => BookDef {
            name: "rretl_archive_members",
            columns: vec![
                ("archive_id", ColumnType::Int64),
                ("member_no", ColumnType::Int64),
                ("name", ColumnType::Blob),
                ("data", ColumnType::Blob),
                ("method", ColumnType::Int64),
            ],
            key: vec!["archive_id", "member_no"],
        },
        BookTable::MapState => BookDef {
            name: "rretl_map_state",
            columns: vec![
                ("map", ColumnType::Text),
                ("tbl", ColumnType::Text),
                ("pk_enc", ColumnType::Blob),
                ("k", ColumnType::Any),
                ("a_hash", ColumnType::Text),
                ("b_hash", ColumnType::Text),
                ("ts_micros", ColumnType::Int64),
            ],
            key: vec!["map", "tbl", "pk_enc"],
        },
        BookTable::MapCursor => BookDef {
            name: "rretl_map_cursor",
            columns: vec![
                ("map", ColumnType::Text),
                ("tbl", ColumnType::Text),
                ("phase", ColumnType::Int64),
                ("k", ColumnType::Any),
                ("pk_enc", ColumnType::Blob),
            ],
            key: vec!["map", "tbl"],
        },
        BookTable::MapRun => BookDef {
            name: "rretl_map_run",
            columns: vec![
                ("map", ColumnType::Text),
                ("runner", ColumnType::Text),
                ("round", ColumnType::Int64),
                ("lease_owner", ColumnType::Text),
                ("lease_until", ColumnType::Int64),
                ("note", ColumnType::Text),
            ],
            key: vec!["map"],
        },
        BookTable::MapDirty => BookDef {
            name: "rretl_map_dirty",
            columns: vec![
                ("seq", ColumnType::Int64),
                ("map", ColumnType::Text),
                ("tbl", ColumnType::Text),
                ("side", ColumnType::Text),
                ("k", ColumnType::Any),
            ],
            key: vec!["seq"],
        },
    };
    proof {
        assert(column_views(d.columns@) =~= book_columns(t));
        assert(str_texts(d.key@) =~= book_key(t));
    }
    d
}

/// Whether a bookkeeping table is there, or another in its place.
pub open spec fn book_verdict(have: Seq<(String, Vec<String>)>, t: BookTable) -> std::result::Result<bool, Fault> {
    shape_verdict(have, book_name(t), book_shape(t))
}

/// The tables from `i` on that have to be made, or why that is refused.
pub open spec fn books_to_make(have: Seq<(String, Vec<String>)>, tables: Seq<BookTable>, i: int) -> std::result::Result<Seq<BookTable>, Fault>
    decreases tables.len() - i,
{
    if i >= tables.len() {
        Ok(Seq::empty())
    } else {
        match book_verdict(have, tables[i]) {
            Err(f) => Err(f),
            Ok(there) => match books_to_make(have, tables, i + 1) {
                Err(f) => Err(f),
                Ok(rest) => Ok(if there { rest } else { seq![tables[i]] + rest }),
            },
        }
    }
}

/// The definitions are those of the tables, in order.
pub open spec fn define_all(ds: Seq<BookDef>, ts: Seq<BookTable>) -> bool {
    ds.len() == ts.len() && forall|i: int| 0 <= i < ds.len() ==> defines(#[trigger] ds[i], ts[i])
}

pub open spec fn ensured(have: Seq<(String, Vec<String>)>, tables: Seq<BookTable>, r: Result<Vec<BookDef>>) -> bool {
    match r {
        Ok(ds) => books_to_make(have, tables, 0) is Ok && define_all(ds@, books_to_make(have, tables, 0)->Ok_0),
        Err(e) => books_to_make(have, tables, 0) == Err::<Seq<BookTable>, Fault>(e@),
    }
}

fn shape_of(d: &BookDef) -> (r: Vec<&'static str>)
    ensures
        str_texts(r@) == column_views(d.columns@).map_values(|c: (Seq<char>, ColumnType)| c.0),
{
    let mut out: Vec<&'static str> = Vec::with_capacity(d.columns.len());
    let mut i: usize = 0;
    while i < d.columns.len()
        invariant
            i <= d.columns@.len(),
            out@.len() == i,
            forall|j: int| 0 <= j < i ==> #[trigger] out@[j] == d.columns@[j].0,
        decreases d.columns@.len() - i,
    {
        out.push(d.columns[i].0);
        i += 1;
    }
    proof {
        assert(str_texts(out@) =~= column_views(d.columns@).map_values(|c: (Seq<char>, ColumnType)| c.0));
    }
    out
}

fn ensure_books(have: &Vec<(String, Vec<String>)>, tables: &[BookTable]) -> (r: Result<Vec<BookDef>>)
    ensures
        ensured(have@, tables@, r),
{
    let mut out: Vec<BookDef> = Vec::new();
    let ghost mut made: Seq<BookTable> = Seq::empty();
    let ghost whole = books_to_make(have@, tables@, 0);
    let mut i: usize = 0;
    proof {
        assert forall|rest: Seq<BookTable>| #[trigger] (made + rest) == rest by {
            assert(made + rest =~= rest);
        }
    }
    while i < tables.len()
        invariant
            i <= tables@.len(),
            whole == books_to_make(have@, tables@, 0),
            define_all(out@, made),
            whole == (match books_to_make(have@, tables@, i as int) {
                Err(f) => Err::<Seq<BookTable>, Fault>(f),
                Ok(rest) => Ok(made + rest),
            }),
        decreases tables@.len() - i,
    {
        let t = tables[i];
        let d = definition(t);
        let shape = shape_of(&d);
        match shape_gate(have, d.name, shape.as_slice()) {
            Err(e) => {
                return Err(e);
            },
            Ok(there) => {
                if !there {
                    out.push(d);
                    proof {
                        let before = made;
                        made = made.push(t);
                        if let Ok(rest) = books_to_make(have@, tables@, i + 1) {
                            assert(before + (seq![t] + rest) =~= made + rest);
                        }
                    }
                }
            },
        }
        i += 1;
    }
    proof {
        assert(made + Seq::<BookTable>::empty() =~= made);
    }
    Ok(out)
}

/// What has to be made for lineage and residuals.
pub fn ensure_tables_from(have: &Vec<(String, Vec<String>)>) -> (r: Result<Vec<BookDef>>)
    ensures
        ensured(have@, seq![BookTable::Lineage, BookTable::Residual], r),
{
    let want = [BookTable::Lineage, BookTable::Residual];
    proof {
        assert(want@ =~= seq![BookTable::Lineage, BookTable::Residual]);
    }
    ensure_books(have, want.as_slice())
}

/// What has to be made for versions.
pub fn ensure_version_table(have: &Vec<(String, Vec<String>)>) -> (r: Result<Vec<BookDef>>)
    ensures
        ensured(have@, seq![BookTable::Versions], r),
{
    let want = [BookTable::Versions];
    proof {
        assert(want@ =~= seq![BookTable::Versions]);
    }
    ensure_books(have, want.as_slice())
}

/// What has to be made for archives.
pub fn ensure_archive_tables(have: &Vec<(String, Vec<String>)>) -> (r: Result<Vec<BookDef>>)
    ensures
        ensured(have@, seq![BookTable::Archives, BookTable::Members], r),
{
    let want = [BookTable::Archives, BookTable::Members];
    proof {
        assert(want@ =~= seq![BookTable::Archives, BookTable::Members]);
    }
    ensure_books(have, want.as_slice())
}

/// What has to be made for the state of a map.
pub fn ensure_state_table(have: &Vec<(String, Vec<String>)>) -> (r: Result<Vec<BookDef>>)
    ensures
        ensured(have@, seq![BookTable::MapState], r),
{
    let want = [BookTable::MapState];
    proof {
        assert(want@ =~= seq![BookTable::MapState]);
    }
    ensure_books(have, want.as_slice())
}

/// What has to be made for the runs of a map.
pub fn ensure_run_tables(have: &Vec<(String, Vec<String>)>) -> (r: Result<Vec<BookDef>>)
    ensures
        ensured(have@, seq![BookTable::MapCursor, BookTable::MapRun], r),
{
    let want = [BookTable::MapCursor, BookTable::MapRun];
    proof {
        assert(want@ =~= seq![BookTable::MapCursor, BookTable::MapRun]);
    }
    ensure_books(have, want.as_slice())
}

/// What has to be made for the journal of a map.
pub fn ensure_dirty_table(have: &Vec<(String, Vec<String>)>) -> (r: Result<Vec<BookDef>>)
    ensures
        ensured(have@, seq![BookTable::MapDirty], r),
{
    let want = [BookTable::MapDirty];
    proof {
        assert(want@ =~= seq![BookTable::MapDirty]);
    }
    ensure_books(have, want.as_slice())
}

/// The live tables among the first `n`, by name and column names.
pub open spec fn live_shapes(tables: Seq<TableDef>, n: nat) -> Seq<(Seq<char>, Seq<Seq<char>>)>
    decreases n,
{
    if n == 0 {
        Seq::empty()
    } else {
        let before = live_shapes(tables, (n - 1) as nat);
        let t = tables[n - 1];
        if t.dead {
            before
        } else {
            before.push((t.name@, Seq::new(t.columns@.len(), |i: int| t.columns@[i].name@)))
        }
    }
}

pub open spec fn shape_views(v: Seq<(String, Vec<String>)>) -> Seq<(Seq<char>, Seq<Seq<char>>)> {
    v.map_values(|e: (String, Vec<String>)| (e.0@, texts(e.1@)))
}

/// The live tables of a schema, by name and column names.
pub fn committed_tables(schema: &Schema) -> (r: Vec<(String, Vec<String>)>)
    ensures
        shape_views(r@) == live_shapes(schema.tables@, schema.tables@.len()),
{
    let mut out: Vec<(String, Vec<String>)> = Vec::new();
    let mut i: usize = 0;
    proof {
        assert(shape_views(out@) =~= live_shapes(schema.tables@, 0));
    }
    while i < schema.tables.len()
        invariant
            i <= schema.tables@.len(),
            shape_views(out@) == live_shapes(schema.tables@, i as nat),
        decreases schema.tables@.len() - i,
    {
        let t = &schema.tables[i];
        if !t.dead {
            let mut cols: Vec<String> = Vec::new();
            let mut j: usize = 0;
            while j < t.columns.len()
                invariant
                    j <= t.columns@.len(),
                    cols@.len() == j,
                    forall|k: int| 0 <= k < j ==> (#[trigger] cols@[k])@ == t.columns@[k].name@,
                decreases t.columns@.len() - j,
            {
                cols.push(t.columns[j].name.clone());
                j += 1;
            }
            let ghost prev = out@;
            out.push((t.name.clone(), cols));
            proof {
                assert(texts(cols@) =~= Seq::new(t.columns@.len(), |k: int| t.columns@[k].name@));
                assert(shape_views(out@) =~= shape_views(prev).push((t.name@, texts(cols@))));
            }
        }
        i += 1;
    }
    out
}

// ---------------------------------------------------------------- laws

/// Every bookkeeping table is refused as the target of a transform or a map.
pub proof fn law_books_are_reserved(t: BookTable)
    ensures
        bookkeeping().contains(book_name(t)),
{
    let i: int = match t {
        BookTable::Lineage => 0,
        BookTable::Residual => 1,
        BookTable::Versions => 2,
        BookTable::Archives => 3,
        BookTable::Members => 4,
        BookTable::MapState => 5,
        BookTable::MapCursor => 6,
        BookTable::MapRun => 7,
        BookTable::MapDirty => 8,
    };
    assert(bookkeeping()[i] == book_name(t));
}

/// The key of a bookkeeping table is made of its columns.
pub proof fn law_book_keys_are_columns(t: BookTable, i: int)
    requires
        0 <= i < book_key(t).len(),
    ensures
        book_shape(t).contains(book_key(t)[i]),
{
    let at: int = match t {
        BookTable::Residual | BookTable::Lineage | BookTable::Versions | BookTable::Members | BookTable::MapState | BookTable::MapCursor => i,
        BookTable::Archives => 0,
        BookTable::MapRun => 0,
        BookTable::MapDirty => 0,
    };
    assert(book_shape(t)[at] == book_key(t)[i]);
}

/// A bookkeeping table that was made from its definition is recognised by the
/// next run and left alone.
pub proof fn law_created_book_is_recognised(have: Seq<(String, Vec<String>)>, t: BookTable, i: int)
    requires
        0 <= i < have.len(),
        named_at(have, book_name(t), 0) == Some(i),
        texts(have[i].1@) == book_shape(t),
    ensures
        book_verdict(have, t) == Ok::<bool, Fault>(true),
{
}

/// The books that are made are those that are missing, and all of them; a table
/// that only bears a book's name stops it.
pub proof fn law_missing_books_are_made(have: Seq<(String, Vec<String>)>, tables: Seq<BookTable>, from: int)
    requires
        0 <= from <= tables.len(),
    ensures
        match books_to_make(have, tables, from) {
            Ok(made) => {
                &&& forall|i: int|
                    from <= i < tables.len() ==> (made.contains(#[trigger] tables[i]) <==> forall|h: int|
                        0 <= h < have.len() ==> (#[trigger] have[h]).0@ != book_name(tables[i]))
                &&& forall|k: int| 0 <= k < made.len() ==> exists|i: int| from <= i < tables.len() && #[trigger] tables[i] == #[trigger] made[k]
            },
            Err(_) => exists|i: int, h: int|
                from <= i < tables.len() && 0 <= h < have.len() && (#[trigger] have[h]).0@ == book_name(#[trigger] tables[i]) && texts(have[h].1@)
                    != book_shape(tables[i]),
        },
    decreases tables.len() - from,
{
    if from < tables.len() {
        let t = tables[from];
        crate::rretl::books::law_foreign_table_is_refused(have, book_name(t), book_shape(t));
        law_missing_books_are_made(have, tables, from + 1);
        match book_verdict(have, t) {
            Err(_) => {
                let h = choose|h: int| 0 <= h < have.len() && (#[trigger] have[h]).0@ == book_name(t) && texts(have[h].1@) != book_shape(t);
                assert(have[h].0@ == book_name(tables[from]));
            },
            Ok(there) => match books_to_make(have, tables, from + 1) {
                Err(_) => {
                    let (i, h) = choose|i: int, h: int|
                        from + 1 <= i < tables.len() && 0 <= h < have.len() && (#[trigger] have[h]).0@ == book_name(#[trigger] tables[i]) && texts(
                            have[h].1@,
                        ) != book_shape(tables[i]);
                    assert(have[h].0@ == book_name(tables[i]));
                },
                Ok(rest) => {
                    let made = if there { rest } else { seq![t] + rest };
                    let missing = forall|h: int| 0 <= h < have.len() ==> (#[trigger] have[h]).0@ != book_name(t);
                    assert(missing == !there) by {
                        if there {
                            let h = choose|h: int| 0 <= h < have.len() && (#[trigger] have[h]).0@ == book_name(t) && texts(have[h].1@) == book_shape(
                                t,
                            );
                            assert(have[h].0@ == book_name(t));
                        }
                    }
                    assert forall|k: int| 0 <= k < made.len() implies exists|i: int|
                        from <= i < tables.len() && #[trigger] tables[i] == #[trigger] made[k] by {
                        if !there && k == 0 {
                            assert(tables[from] == made[0]);
                        } else {
                            let q = if there { k } else { k - 1 };
                            assert(made[k] == rest[q]);
                            let i = choose|i: int| from + 1 <= i < tables.len() && #[trigger] tables[i] == rest[q];
                            assert(tables[i] == made[k]);
                        }
                    }
                    assert forall|i: int| from <= i < tables.len() implies (made.contains(#[trigger] tables[i]) <==> forall|h: int|
                        0 <= h < have.len() ==> (#[trigger] have[h]).0@ != book_name(tables[i])) by {
                        if tables[i] == t {
                            if !there {
                                assert(made[0] == t);
                            } else if rest.contains(t) {
                                let k = rest.index_of(t);
                                let j = choose|j: int| from + 1 <= j < tables.len() && #[trigger] tables[j] == rest[k];
                                assert(rest.contains(tables[j]));
                            }
                        } else {
                            assert(from + 1 <= i);
                            if made.contains(tables[i]) {
                                let k = made.index_of(tables[i]);
                                if !there {
                                    assert(rest[k - 1] == made[k]);
                                }
                                assert(rest.contains(tables[i]));
                            }
                            if rest.contains(tables[i]) {
                                let k = rest.index_of(tables[i]);
                                assert(made[if there { k } else { k + 1 }] == tables[i]);
                            }
                        }
                    }
                },
            },
        }
    }
}

/// The books that are asked about are those of live tables, each with its own
/// columns in order; a dropped table is none.
pub proof fn law_live_tables_are_seen(tables: Seq<TableDef>, n: nat)
    requires
        n <= tables.len(),
    ensures
        forall|i: int|
            0 <= i < n && !(#[trigger] tables[i]).dead ==> exists|k: int|
                0 <= k < live_shapes(tables, n).len() && (#[trigger] live_shapes(tables, n)[k]).0 == tables[i].name@ && live_shapes(tables, n)[k].1.len()
                    == tables[i].columns@.len() && forall|c: int|
                    0 <= c < tables[i].columns@.len() ==> live_shapes(tables, n)[k].1[c] == (#[trigger] tables[i].columns@[c]).name@,
        forall|k: int|
            0 <= k < live_shapes(tables, n).len() ==> exists|i: int|
                0 <= i < n && !(#[trigger] tables[i]).dead && tables[i].name@ == (#[trigger] live_shapes(tables, n)[k]).0,
        live_shapes(tables, n).len() <= n,
    decreases n,
{
    if n > 0 {
        law_live_tables_are_seen(tables, (n - 1) as nat);
        let (before, all) = (live_shapes(tables, (n - 1) as nat), live_shapes(tables, n));
        assert forall|i: int| 0 <= i < n && !(#[trigger] tables[i]).dead implies exists|k: int|
            0 <= k < all.len() && (#[trigger] all[k]).0 == tables[i].name@ && all[k].1.len() == tables[i].columns@.len() && forall|c: int|
                0 <= c < tables[i].columns@.len() ==> all[k].1[c] == (#[trigger] tables[i].columns@[c]).name@ by {
            if i < n - 1 {
                let k = choose|k: int|
                    0 <= k < before.len() && (#[trigger] before[k]).0 == tables[i].name@ && before[k].1.len() == tables[i].columns@.len()
                        && forall|c: int| 0 <= c < tables[i].columns@.len() ==> before[k].1[c] == (#[trigger] tables[i].columns@[c]).name@;
                assert(all[k] == before[k]);
            } else {
                assert(all[before.len() as int].0 == tables[i].name@);
            }
        }
        assert forall|k: int| 0 <= k < all.len() implies exists|i: int|
            0 <= i < n && !(#[trigger] tables[i]).dead && tables[i].name@ == (#[trigger] all[k]).0 by {
            if k < before.len() {
                assert(all[k] == before[k]);
                let i = choose|i: int| 0 <= i < n - 1 && !(#[trigger] tables[i]).dead && tables[i].name@ == before[k].0;
                assert(!tables[i].dead);
            } else {
                assert(!tables[n - 1].dead);
            }
        }
    }
}

} // verus!
