//! Schema changes inside a transaction: what each statement comes to against
//! the transaction's own view of the schema.

use vstd::prelude::*;
use vstd::string::StringExecFns;
use crate::error::{Error, Fault, Result};
use crate::plan::{column_at, live_table_at, table_id, IndexDef, Schema, TableDef};
use crate::text::quoted_in;
use crate::utf8::same_text;
use crate::value::Value;
use crate::shard::ExecResult;

verus! {

/// A schema change, as far as it names a table.
#[derive(Debug)]
pub enum DdlStmt {
    CreateTable,
    CreateVirtualTable { name: String, if_not_exists: bool },
    DropTable { name: String, if_exists: bool },
    AlterRenameTable { table: String },
    AlterRenameColumn { table: String },
    AlterAddColumn { table: String },
    AlterDropColumn { table: String },
    CreateIndex { table: String },
    /// Views, policies, triggers and row-level security.
    Outside,
    Analyze,
    Reindex,
}

/// What a schema change comes to.
#[derive(Debug, Clone, Copy, PartialEq, Eq, Structural)]
pub enum DdlAction {
    /// Nothing.
    Skip,
    /// Make the table that it describes.
    Create,
    /// Drop the table, and its triggers with it.
    Drop(u32),
    /// Change the table.
    Alter(u32),
    /// Make an index on the table, unless it has one of that shape.
    Index(u32),
}

pub open spec fn altered(schema: Schema, table: Seq<char>) -> std::result::Result<DdlAction, Fault> {
    match live_table_at(schema.tables@, table, 0) {
        Some(id) => Ok(DdlAction::Alter(id as u32)),
        None => Err(Fault::Bind("ALTER TABLE: no such table `"@ + table + "`"@)),
    }
}

/// The fault of a description that nothing can be made from, if it is one.
pub open spec fn described_fault(described: std::result::Result<(), Error>) -> Option<Fault> {
    match described {
        Ok(_) => None,
        Err(e) => Some(e@),
    }
}

/// What making a table comes to, by its description.
pub open spec fn created(described: Option<Fault>) -> std::result::Result<DdlAction, Fault> {
    match described {
        None => Ok(DdlAction::Create),
        Some(f) => Err(f),
    }
}

/// What a schema change comes to against a schema; `described` is what is
/// wrong with the table or the column that it describes. A bad column is told
/// before a missing table, an existing virtual table before a bad one.
pub open spec fn ddl_meaning(ddl: DdlStmt, schema: Schema, described: Option<Fault>) -> std::result::Result<DdlAction, Fault> {
    match ddl {
        DdlStmt::CreateTable => created(described),
        DdlStmt::CreateVirtualTable { name, if_not_exists } => if live_table_at(schema.tables@, name@, 0) is None {
            created(described)
        } else if if_not_exists {
            Ok(DdlAction::Skip)
        } else {
            Err(Fault::Bind("CREATE VIRTUAL TABLE: `"@ + name@ + "` already exists"@))
        },
        DdlStmt::DropTable { name, if_exists } => match live_table_at(schema.tables@, name@, 0) {
            Some(id) => Ok(DdlAction::Drop(id as u32)),
            None => if if_exists {
                Ok(DdlAction::Skip)
            } else {
                Err(Fault::Bind("DROP TABLE: no such table `"@ + name@ + "`"@))
            },
        },
        DdlStmt::AlterRenameTable { table } => altered(schema, table@),
        DdlStmt::AlterRenameColumn { table } => altered(schema, table@),
        DdlStmt::AlterAddColumn { table } => match described {
            Some(f) => Err(f),
            None => altered(schema, table@),
        },
        DdlStmt::AlterDropColumn { table } => altered(schema, table@),
        DdlStmt::CreateIndex { table } => match live_table_at(schema.tables@, table@, 0) {
            Some(id) => Ok(DdlAction::Index(id as u32)),
            None => Err(Fault::Bind("CREATE INDEX: no such table `"@ + table@ + "`"@)),
        },
        DdlStmt::Outside => Err(
            Fault::Unsupported(
                "CREATE/DROP VIEW, POLICY or TRIGGER and ALTER … ROW LEVEL SECURITY are not supported inside a transaction; run them in autocommit (outside BEGIN/COMMIT)"@,
            ),
        ),
        DdlStmt::Analyze => Ok(DdlAction::Skip),
        DdlStmt::Reindex => Ok(DdlAction::Skip),
    }
}

fn alter_target(schema: &Schema, table: &str) -> (r: Result<DdlAction>)
    requires
        schema.tables@.len() <= u32::MAX,
    ensures
        match r {
            Ok(a) => altered(*schema, table@) == Ok::<DdlAction, Fault>(a),
            Err(e) => altered(*schema, table@) == Err::<DdlAction, Fault>(e@),
        },
{
    match table_id(schema, table) {
        Some(id) => Ok(DdlAction::Alter(id)),
        None => Err(Error::Bind(quoted_in("ALTER TABLE: no such table `", table, "`"))),
    }
}

fn make(described: Result<()>) -> (r: Result<DdlAction>)
    ensures
        match r {
            Ok(a) => created(described_fault(described)) == Ok::<DdlAction, Fault>(a),
            Err(e) => created(described_fault(described)) == Err::<DdlAction, Fault>(e@),
        },
{
    match described {
        Ok(()) => Ok(DdlAction::Create),
        Err(e) => Err(e),
    }
}

/// What a schema change comes to against the transaction's schema; `described`
/// tells whether the table or the column that it describes can be made.
pub fn apply_ddl(ddl: &DdlStmt, schema: &Schema, described: Result<()>) -> (r: Result<DdlAction>)
    requires
        schema.tables@.len() <= u32::MAX,
    ensures
        match r {
            Ok(a) => ddl_meaning(*ddl, *schema, described_fault(described)) == Ok::<DdlAction, Fault>(a),
            Err(e) => ddl_meaning(*ddl, *schema, described_fault(described)) == Err::<DdlAction, Fault>(e@),
        },
{
    match ddl {
        DdlStmt::CreateTable => make(described),
        DdlStmt::CreateVirtualTable { name, if_not_exists } => {
            if table_id(schema, name.as_str()).is_none() {
                return make(described);
            }
            if *if_not_exists {
                return Ok(DdlAction::Skip);
            }
            Err(Error::Bind(quoted_in("CREATE VIRTUAL TABLE: `", name.as_str(), "` already exists")))
        },
        DdlStmt::DropTable { name, if_exists } => match table_id(schema, name.as_str()) {
            Some(id) => Ok(DdlAction::Drop(id)),
            None => {
                if *if_exists {
                    return Ok(DdlAction::Skip);
                }
                Err(Error::Bind(quoted_in("DROP TABLE: no such table `", name.as_str(), "`")))
            },
        },
        DdlStmt::AlterRenameTable { table } => alter_target(schema, table.as_str()),
        DdlStmt::AlterRenameColumn { table } => alter_target(schema, table.as_str()),
        DdlStmt::AlterAddColumn { table } => match described {
            Err(e) => Err(e),
            Ok(()) => alter_target(schema, table.as_str()),
        },
        DdlStmt::AlterDropColumn { table } => alter_target(schema, table.as_str()),
        DdlStmt::CreateIndex { table } => match table_id(schema, table.as_str()) {
            Some(id) => Ok(DdlAction::Index(id)),
            None => Err(Error::Bind(quoted_in("CREATE INDEX: no such table `", table.as_str(), "`"))),
        },
        DdlStmt::Outside => Err(
            Error::Unsupported(
                String::from_str(
                    "CREATE/DROP VIEW, POLICY or TRIGGER and ALTER … ROW LEVEL SECURITY are not supported inside a transaction; run them in autocommit (outside BEGIN/COMMIT)",
                ),
            ),
        ),
        DdlStmt::Analyze => Ok(DdlAction::Skip),
        DdlStmt::Reindex => Ok(DdlAction::Skip),
    }
}

/// The table has an index on these columns in this order, of this uniqueness.
pub open spec fn has_index(indexes: Seq<IndexDef>, cols: Seq<u16>, unique: bool) -> bool {
    exists|i: int| 0 <= i < indexes.len() && (#[trigger] indexes[i]).columns@ == cols && indexes[i].unique == unique
}

fn same_columns(a: &Vec<u16>, b: &Vec<u16>) -> (r: bool)
    ensures
        r == (a@ == b@),
{
    if a.len() != b.len() {
        return false;
    }
    let mut i: usize = 0;
    while i < a.len()
        invariant
            i <= a@.len(),
            a@.len() == b@.len(),
            forall|j: int| 0 <= j < i ==> #[trigger] a@[j] == b@[j],
        decreases a@.len() - i,
    {
        if a[i] != b[i] {
            return false;
        }
        i += 1;
    }
    proof {
        assert(a@ =~= b@);
    }
    true
}

/// Whether an index of that shape is already there, so that making it does
/// nothing.
pub fn index_exists(t: &TableDef, cols: &Vec<u16>, unique: bool) -> (r: bool)
    ensures
        r == has_index(t.indexes@, cols@, unique),
{
    let mut i: usize = 0;
    while i < t.indexes.len()
        invariant
            i <= t.indexes@.len(),
            forall|j: int| 0 <= j < i ==> !((#[trigger] t.indexes@[j]).columns@ == cols@ && t.indexes@[j].unique == unique),
        decreases t.indexes@.len() - i,
    {
        if t.indexes[i].unique == unique && same_columns(&t.indexes[i].columns, cols) {
            assert(t.indexes@[i as int].columns@ == cols@);
            return true;
        }
        i += 1;
    }
    false
}

/// The findings on a new policy as a result: a column of warnings, or no row
/// written where there are none.
pub fn warning_rows(findings: Vec<String>) -> (r: ExecResult)
    ensures
        if findings@.len() == 0 {
            r == ExecResult::Affected(0)
        } else {
            &&& r is Rows
            &&& r->Rows_columns@.len() == 1
            &&& r->Rows_columns@[0]@ == "warning"@
            &&& r->Rows_rows@.len() == findings@.len()
            &&& forall|i: int| 0 <= i < findings@.len() ==> (#[trigger] r->Rows_rows@[i])@.len() == 1 && r->Rows_rows@[i]@[0].model()
                == crate::value::ValueModel::Text(findings@[i]@)
        },
{
    if findings.len() == 0 {
        return ExecResult::Affected(0);
    }
    let mut columns: Vec<String> = Vec::new();
    columns.push(String::from_str("warning"));
    let mut rows: Vec<Vec<Value>> = Vec::new();
    let mut i: usize = 0;
    while i < findings.len()
        invariant
            i <= findings@.len(),
            rows@.len() == i,
            forall|j: int| 0 <= j < i ==> (#[trigger] rows@[j])@.len() == 1 && rows@[j]@[0].model() == crate::value::ValueModel::Text(
                findings@[j]@,
            ),
        decreases findings@.len() - i,
    {
        let mut row: Vec<Value> = Vec::new();
        row.push(Value::Text(findings[i].clone()));
        rows.push(row);
        i += 1;
    }
    ExecResult::Rows { columns, rows }
}

/// A table and a column of it by name, for a value that is streamed.
pub fn blob_column(schema: &Schema, table: &str, col: &str) -> (r: Result<(u32, usize)>)
    requires
        schema.tables@.len() <= u32::MAX,
    ensures
        match live_table_at(schema.tables@, table@, 0) {
            None => r is Err && r->Err_0@ == Fault::Unsupported("unknown table `"@ + table@ + "`"@),
            Some(id) => match column_at(schema.tables@[id].columns@, col@, 0) {
                None => r is Err && r->Err_0@ == Fault::Unsupported("unknown column `"@ + col@ + "` in `"@ + table@ + "`"@),
                Some(c) => r is Ok && r->Ok_0.0 == id && r->Ok_0.1 == c,
            },
        },
{
    let id: u32 = match table_id(schema, table) {
        Some(id) => id,
        None => {
            return Err(Error::Unsupported(quoted_in("unknown table `", table, "`")));
        },
    };
    let t = &schema.tables[id as usize];
    let mut i: usize = 0;
    while i < t.columns.len()
        invariant
            i <= t.columns@.len(),
            live_table_at(schema.tables@, table@, 0) == Some(id as int),
            *t == schema.tables@[id as int],
            column_at(t.columns@, col@, 0) == column_at(t.columns@, col@, i as int),
        decreases t.columns@.len() - i,
    {
        if same_text(t.columns[i].name.as_str(), col) {
            return Ok((id, i));
        }
        i += 1;
    }
    let mut m = quoted_in("unknown column `", col, "` in `");
    m.append(table);
    m.append("`");
    Err(Error::Unsupported(m))
}

/// The place of the first table of that name from `i` on.
pub open spec fn named_at(tables: Seq<TableDef>, name: Seq<char>, i: int) -> Option<int>
    decreases tables.len() - i,
{
    if i < 0 || i >= tables.len() {
        None
    } else if tables[i].name@ == name {
        Some(i)
    } else {
        named_at(tables, name, i + 1)
    }
}

fn find_named(schema: &Schema, name: &str) -> (r: Option<u32>)
    requires
        schema.tables@.len() <= u32::MAX,
    ensures
        match r {
            Some(id) => named_at(schema.tables@, name@, 0) == Some(id as int),
            None => named_at(schema.tables@, name@, 0) is None,
        },
{
    let mut i: usize = 0;
    while i < schema.tables.len()
        invariant
            i <= schema.tables@.len(),
            schema.tables@.len() <= u32::MAX,
            named_at(schema.tables@, name@, 0) == named_at(schema.tables@, name@, i as int),
        decreases schema.tables@.len() - i,
    {
        if same_text(schema.tables[i].name.as_str(), name) {
            return Some(i as u32);
        }
        i += 1;
    }
    None
}

/// The table that a streamed row goes to.
pub fn streaming_table(schema: &Schema, table: &str) -> (r: Result<u32>)
    requires
        schema.tables@.len() <= u32::MAX,
    ensures
        match r {
            Ok(id) => named_at(schema.tables@, table@, 0) == Some(id as int),
            Err(e) => named_at(schema.tables@, table@, 0) is None && e@ == Fault::Config("no such table: "@ + table@),
        },
{
    match find_named(schema, table) {
        Some(id) => Ok(id),
        None => {
            let mut m = String::from_str("no such table: ");
            m.append(table);
            Err(Error::Config(m))
        },
    }
}

/// The tables that a configuration wants policies on, by id. A name that the
/// schema lacks is an error, so that the demand cannot lapse unnoticed.
pub fn require_policy_ids(schema: &Schema, names: &Vec<String>) -> (r: Result<Vec<u32>>)
    requires
        schema.tables@.len() <= u32::MAX,
    ensures
        match r {
            Ok(ids) => ids@.len() == names@.len() && forall|i: int|
                0 <= i < names@.len() ==> named_at(schema.tables@, (#[trigger] names@[i])@, 0) == Some(ids@[i] as int),
            Err(e) => exists|i: int| #![trigger names@[i]]
                0 <= i < names@.len() && named_at(schema.tables@, names@[i]@, 0) is None && e@ == Fault::Config(
                    "require_policy names table `"@ + names@[i]@ + "`, which is not in the schema"@,
                ) && forall|j: int| 0 <= j < i ==> named_at(schema.tables@, (#[trigger] names@[j])@, 0) is Some,
        },
{
    let mut ids: Vec<u32> = Vec::with_capacity(names.len());
    let mut i: usize = 0;
    while i < names.len()
        invariant
            i <= names@.len(),
            schema.tables@.len() <= u32::MAX,
            ids@.len() == i,
            forall|j: int| 0 <= j < i ==> named_at(schema.tables@, (#[trigger] names@[j])@, 0) == Some(ids@[j] as int),
        decreases names@.len() - i,
    {
        match find_named(schema, names[i].as_str()) {
            Some(id) => {
                ids.push(id);
            },
            None => {
                assert(named_at(schema.tables@, names@[i as int]@, 0) is None);
                return Err(
                    Error::Config(
                        quoted_in("require_policy names table `", names[i].as_str(), "`, which is not in the schema"),
                    ),
                );
            },
        }
        i += 1;
    }
    Ok(ids)
}

/// A CHECK that does not compile is an error of the schema.
pub fn check_refused(table: &str, column: &str, reason: &str) -> (e: Error)
    ensures
        e@ == Fault::Schema("CHECK on `"@ + table@ + "."@ + column@ + "` failed to compile: "@ + reason@),
{
    let mut m = quoted_in("CHECK on `", table, ".");
    m.append(column);
    m.append("` failed to compile: ");
    m.append(reason);
    Error::Schema(m)
}

/// IF EXISTS and IF NOT EXISTS make a repeated statement do nothing.
pub proof fn law_guarded_ddl_repeats(schema: Schema, name: String, described: Option<Fault>)
    ensures
        live_table_at(schema.tables@, name@, 0) is None ==> ddl_meaning(
            (DdlStmt::DropTable { name, if_exists: true }),
            schema,
            described,
        ) == Ok::<DdlAction, Fault>(DdlAction::Skip),
        live_table_at(schema.tables@, name@, 0) is Some ==> ddl_meaning(
            (DdlStmt::CreateVirtualTable { name, if_not_exists: true }),
            schema,
            described,
        ) == Ok::<DdlAction, Fault>(DdlAction::Skip),
{
}

/// A schema change acts on the live table that bears the name, and on no other;
/// without such a table it is refused, or skipped where it says so.
pub proof fn law_ddl_acts_on_the_named_table(ddl: DdlStmt, schema: Schema, described: Option<Fault>, name: Seq<char>)
    requires
        schema.tables@.len() <= u32::MAX,
        match ddl {
            DdlStmt::DropTable { name: n, if_exists: _ } => n@ == name,
            DdlStmt::AlterRenameTable { table } => table@ == name,
            DdlStmt::AlterRenameColumn { table } => table@ == name,
            DdlStmt::AlterAddColumn { table } => table@ == name,
            DdlStmt::AlterDropColumn { table } => table@ == name,
            DdlStmt::CreateIndex { table } => table@ == name,
            _ => false,
        },
    ensures
        match ddl_meaning(ddl, schema, described) {
            Ok(DdlAction::Drop(id)) => ddl is DropTable && is_live(schema, id, name),
            Ok(DdlAction::Alter(id)) => !(ddl is DropTable) && !(ddl is CreateIndex) && is_live(schema, id, name),
            Ok(DdlAction::Index(id)) => ddl is CreateIndex && is_live(schema, id, name),
            Ok(DdlAction::Skip) => ddl is DropTable && ddl->DropTable_if_exists && forall|id: u32| !#[trigger] is_live(schema, id, name),
            Ok(DdlAction::Create) => false,
            Err(_) => (ddl is AlterAddColumn && described is Some) || (forall|id: u32| !#[trigger] is_live(schema, id, name)),
        },
        ddl is AlterAddColumn && described is Some ==> ddl_meaning(ddl, schema, described) == Err::<DdlAction, Fault>(described->Some_0),
        ddl is DropTable && !ddl->DropTable_if_exists && (forall|id: u32| !#[trigger] is_live(schema, id, name)) ==> ddl_meaning(
            ddl,
            schema,
            described,
        ) is Err,
{
    crate::plan::law_live_table_found(schema.tables@, name, 0);
    match live_table_at(schema.tables@, name, 0) {
        Some(i) => {
            assert(is_live(schema, i as u32, name));
        },
        None => {
            assert forall|id: u32| !#[trigger] is_live(schema, id, name) by {
                if id < schema.tables@.len() {
                    assert(schema.tables@[id as int].name@ != name || schema.tables@[id as int].dead);
                }
            }
        },
    }
}

/// The table with the id is live and bears the name.
pub open spec fn is_live(schema: Schema, id: u32, name: Seq<char>) -> bool {
    id < schema.tables@.len() && schema.tables@[id as int].name@ == name && !schema.tables@[id as int].dead
}

/// Nothing is made over a live table, nor from a description that is refused;
/// what is not there and well described is made.
pub proof fn law_create_needs_room(schema: Schema, name: String, if_not_exists: bool, described: Option<Fault>)
    requires
        schema.tables@.len() <= u32::MAX,
    ensures
        ({
            let made = ddl_meaning(DdlStmt::CreateVirtualTable { name, if_not_exists }, schema, described);
            &&& made == Ok::<DdlAction, Fault>(DdlAction::Create) <==> described is None && forall|id: u32| !#[trigger] is_live(
                schema,
                id,
                name@,
            )
            &&& made == Ok::<DdlAction, Fault>(DdlAction::Skip) <==> if_not_exists && exists|id: u32| #[trigger] is_live(schema, id, name@)
        }),
        ddl_meaning(DdlStmt::CreateTable, schema, described) == Ok::<DdlAction, Fault>(DdlAction::Create) <==> described is None,
        ddl_meaning(DdlStmt::Outside, schema, described) is Err,
{
    crate::plan::law_live_table_found(schema.tables@, name@, 0);
    match live_table_at(schema.tables@, name@, 0) {
        Some(i) => {
            assert(is_live(schema, i as u32, name@));
        },
        None => {
            assert forall|id: u32| !#[trigger] is_live(schema, id, name@) by {
                if id < schema.tables@.len() {
                    assert(schema.tables@[id as int].name@ != name@ || schema.tables@[id as int].dead);
                }
            }
        },
    }
}

/// A configured name finds the first table that bears it, and finds one
/// wherever one does.
pub proof fn law_configured_table_found(tables: Seq<TableDef>, name: Seq<char>, from: int)
    requires
        0 <= from <= tables.len(),
    ensures
        match named_at(tables, name, from) {
            Some(i) => from <= i < tables.len() && tables[i].name@ == name && forall|j: int| from <= j < i ==> (#[trigger] tables[j]).name@ != name,
            None => forall|j: int| from <= j < tables.len() ==> (#[trigger] tables[j]).name@ != name,
        },
    decreases tables.len() - from,
{
    if from < tables.len() {
        law_configured_table_found(tables, name, from + 1);
    }
}

} // verus!
