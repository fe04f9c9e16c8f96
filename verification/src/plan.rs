//! What the library reads of a compiled plan and of a schema.

use vstd::prelude::*;
use crate::error::PlanHash;
use crate::utf8::same_text;
use crate::value::{models, ColumnType, Value, ValueModel};

verus! {

/// One component of a key: a bound parameter, a constant of the plan, or a
/// column of an outer row.
#[derive(Debug, Clone, Copy, PartialEq, Eq, Structural)]
pub enum KeyPart {
    Param(u16),
    Const(u16),
    OuterCol(u16),
}

/// How a table is accessed.
#[derive(Debug)]
pub enum AccessPath {
    PkPoint(Vec<KeyPart>),
    PkRange,
    IndexPoint { index_no: u32, parts: Vec<KeyPart> },
    IndexRange,
    FullScan,
    FtsScan,
}

/// Functions an expression may call, as far as they matter here.
#[derive(Debug, Clone, Copy, PartialEq, Eq, Structural)]
pub enum ScalarFn {
    Splice,
    Other,
}

/// One instruction of an expression. `PushCol` is the only one that reads the
/// row.
#[derive(Debug, Clone, Copy, PartialEq, Eq, Structural)]
pub enum Instr {
    PushCol(u16),
    PushConst(u16),
    PushParam(u16),
    /// A function of that many arguments.
    Call(ScalarFn, u8),
    /// An operator of that many operands.
    Op(u8),
    /// Go on at that instruction.
    Jump(u16),
    /// Take a value and, by what it is, go on at that instruction.
    JumpIf(u16),
}

/// A compiled expression.
#[derive(Debug)]
pub struct ExprProgram {
    pub instrs: Vec<Instr>,
}

/// One output column of a SELECT.
#[derive(Debug)]
pub enum Projection {
    Column(u16),
    Expr(ExprProgram),
}

/// A joined table.
#[derive(Debug)]
pub struct Join {
    pub table: u32,
    pub access: AccessPath,
}

/// One SELECT.
#[derive(Debug)]
pub struct SelectPlan {
    pub table: u32,
    pub access: AccessPath,
    pub joins: Vec<Join>,
    pub filter: Option<ExprProgram>,
    pub projection: Vec<Projection>,
    pub aggregate: bool,
    pub windows: bool,
    pub distinct: bool,
    pub order_by: bool,
    pub joined_filter: bool,
    pub post_filter: bool,
    pub limit: Option<u64>,
    pub offset: Option<u64>,
}

/// One arm of a compound SELECT.
#[derive(Debug)]
pub enum CompoundArm {
    Select(SelectPlan),
    Derived(DerivedPlan),
}

/// UNION and its relatives.
#[derive(Debug)]
pub struct CompoundPlan {
    pub arms: Vec<CompoundArm>,
}

/// The body of a lifted subquery.
#[derive(Debug)]
pub enum SubBody {
    Select(SelectPlan),
    Compound(CompoundPlan),
}

/// A materialised derived table and the SELECT over it.
#[derive(Debug)]
pub struct DerivedPlan {
    pub body: SubBody,
    pub body_subplans: Vec<SubPlan>,
    pub outer: SelectPlan,
}

/// A lifted subquery; correlated when it takes arguments from outer rows.
#[derive(Debug)]
pub struct SubPlan {
    pub correlated: bool,
    pub body: SubBody,
    pub subplans: Vec<SubPlan>,
}

/// Where an inserted column's value comes from.
#[derive(Debug, Clone, Copy, PartialEq, Eq, Structural)]
pub enum InsertSource {
    Param(u16),
    Const(u16),
    Default,
    Expr,
}

/// A statement.
#[derive(Debug)]
pub enum PlanStmt {
    Select(SelectPlan),
    Compound(CompoundPlan),
    RecursiveCte { name: String, limit: Option<u64>, offset: Option<u64> },
    Derived(DerivedPlan),
    Insert { table: u32, rows: Vec<Vec<InsertSource>>, from_select: Option<SelectPlan> },
    Update { table: u32, access: AccessPath, filter: Option<ExprProgram>, set: Vec<(u16, ExprProgram)> },
    Delete { table: u32, access: AccessPath, filter: Option<ExprProgram> },
    Begin,
    Commit,
    Rollback,
    Savepoint(String),
    Release(String),
    RollbackTo(String),
}

/// The keys a statement touches.
#[derive(Debug)]
pub enum KeyAccess {
    Point(Vec<KeyPart>),
    Range { lo: Option<Vec<KeyPart>>, hi: Option<Vec<KeyPart>> },
    Full,
}

/// What a statement touches.
#[derive(Debug)]
pub struct Footprint {
    pub read_only: bool,
    pub tables_read: Vec<u32>,
    pub tables_written: Vec<u32>,
    pub key_access: KeyAccess,
}

/// The policy state of one table that a plan was compiled against.
#[derive(Debug, Clone, Copy)]
pub struct PolicyStamp {
    pub table: u32,
    pub epoch: u64,
    pub hash: PlanHash,
}

/// A compiled statement.
#[derive(Debug)]
pub struct CompiledPlan {
    pub stmt: PlanStmt,
    pub subplans: Vec<SubPlan>,
    pub consts: Vec<Value>,
    pub n_params: u16,
    /// Keys of the session variables bound behind the caller's parameters.
    pub context_keys: Vec<String>,
    pub param_types: Vec<Option<ColumnType>>,
    pub policies: Vec<PolicyStamp>,
    pub footprint: Footprint,
    /// The statement calls a function registered on one connection only.
    pub host_call: bool,
}

impl CompiledPlan {
    /// The context slots are the last of the parameters, and every parameter
    /// has its type entry.
    pub open spec fn params_laid_out(&self) -> bool {
        &&& self.context_keys@.len() <= self.n_params
        &&& self.param_types@.len() == self.n_params
    }
}

/// The default of a column.
#[derive(Debug)]
pub enum DefaultExpr {
    Const(Value),
    Now,
}

/// A column.
#[derive(Debug)]
pub struct ColumnDef {
    pub name: String,
    pub ty: ColumnType,
    pub default: Option<DefaultExpr>,
}

/// A secondary index.
#[derive(Debug)]
pub struct IndexDef {
    pub columns: Vec<u16>,
    pub unique: bool,
}

/// What kind of table it is.
#[derive(Debug, Clone, Copy, PartialEq, Eq, Structural)]
pub enum TableKind {
    Standard,
    /// It is backed by something else than rows, such as a text index.
    Virtual,
}

/// A table. A dropped table stays in its place, marked dead.
#[derive(Debug)]
pub struct TableDef {
    pub name: String,
    pub columns: Vec<ColumnDef>,
    pub primary_key: Vec<u16>,
    pub indexes: Vec<IndexDef>,
    pub dead: bool,
    /// The key is the hidden row number, shown as a column.
    pub implicit_rowid: bool,
    pub kind: TableKind,
}

impl TableDef {
    /// Every column number of the key names a column.
    pub open spec fn key_wf(&self) -> bool {
        forall|i: int| 0 <= i < self.primary_key@.len() ==> #[trigger] self.primary_key@[i] < self.columns@.len()
    }

    /// Every column number of the key or an index names a column, and no index
    /// is empty.
    pub open spec fn wf(&self) -> bool {
        &&& self.key_wf()
        &&& forall|i: int| 0 <= i < self.indexes@.len() ==> (#[trigger] self.indexes@[i]).columns@.len() > 0
        &&& forall|i: int, j: int|
            0 <= i < self.indexes@.len() && 0 <= j < self.indexes@[i].columns@.len()
                ==> #[trigger] self.indexes@[i].columns@[j] < self.columns@.len()
    }
}

/// A schema; a table's id is its place.
#[derive(Debug)]
pub struct Schema {
    pub tables: Vec<TableDef>,
}

impl Schema {
    /// The table with the id, if there is one.
    pub fn table(&self, id: u32) -> (r: Option<&TableDef>)
        ensures
            match r {
                Some(t) => id < self.tables@.len() && *t == self.tables@[id as int],
                None => id >= self.tables@.len(),
            },
    {
        if (id as usize) < self.tables.len() {
            Some(&self.tables[id as usize])
        } else {
            None
        }
    }
}

/// The place of the first live table of that name from `i` on.
pub open spec fn live_table_at(tables: Seq<TableDef>, name: Seq<char>, i: int) -> Option<int>
    decreases tables.len() - i,
{
    if i < 0 || i >= tables.len() {
        None
    } else if tables[i].name@ == name && !tables[i].dead {
        Some(i)
    } else {
        live_table_at(tables, name, i + 1)
    }
}

/// The place of the first column of that name from `i` on.
pub open spec fn column_at(columns: Seq<ColumnDef>, name: Seq<char>, i: int) -> Option<int>
    decreases columns.len() - i,
{
    if i < 0 || i >= columns.len() {
        None
    } else if columns[i].name@ == name {
        Some(i)
    } else {
        column_at(columns, name, i + 1)
    }
}

/// Find a live table by name.
pub fn find_live_table<'a>(schema: &'a Schema, name: &str) -> (r: Option<&'a TableDef>)
    ensures
        match r {
            Some(t) => live_table_at(schema.tables@, name@, 0) is Some && *t == schema.tables@[live_table_at(schema.tables@, name@, 0)->Some_0]
                && 0 <= live_table_at(schema.tables@, name@, 0)->Some_0 < schema.tables@.len(),
            None => live_table_at(schema.tables@, name@, 0) is None,
        },
{
    let mut i: usize = 0;
    while i < schema.tables.len()
        invariant
            i <= schema.tables@.len(),
            live_table_at(schema.tables@, name@, 0) == live_table_at(schema.tables@, name@, i as int),
        decreases schema.tables@.len() - i,
    {
        let t = &schema.tables[i];
        if same_text(t.name.as_str(), name) && !t.dead {
            return Some(t);
        }
        i += 1;
    }
    None
}

/// Find a column by name.
pub fn find_column<'a>(t: &'a TableDef, name: &str) -> (r: Option<&'a ColumnDef>)
    ensures
        match r {
            Some(c) => column_at(t.columns@, name@, 0) is Some && *c == t.columns@[column_at(t.columns@, name@, 0)->Some_0],
            None => column_at(t.columns@, name@, 0) is None,
        },
{
    let mut i: usize = 0;
    while i < t.columns.len()
        invariant
            i <= t.columns@.len(),
            column_at(t.columns@, name@, 0) == column_at(t.columns@, name@, i as int),
        decreases t.columns@.len() - i,
    {
        let c = &t.columns[i];
        if same_text(c.name.as_str(), name) {
            return Some(c);
        }
        i += 1;
    }
    None
}

/// The id of a live table.
pub fn table_id(schema: &Schema, name: &str) -> (r: Option<u32>)
    requires
        schema.tables@.len() <= u32::MAX,
    ensures
        match r {
            Some(id) => live_table_at(schema.tables@, name@, 0) == Some(id as int) && id < schema.tables@.len(),
            None => live_table_at(schema.tables@, name@, 0) is None,
        },
{
    let mut i: usize = 0;
    while i < schema.tables.len()
        invariant
            i <= schema.tables@.len(),
            schema.tables@.len() <= u32::MAX,
            live_table_at(schema.tables@, name@, 0) == live_table_at(schema.tables@, name@, i as int),
        decreases schema.tables@.len() - i,
    {
        let t = &schema.tables[i];
        if same_text(t.name.as_str(), name) && !t.dead {
            return Some(i as u32);
        }
        i += 1;
    }
    None
}

/// The value that a key part stands for, if its slot exists.
pub open spec fn part_value(part: KeyPart, consts: Seq<Value>, params: Seq<Value>) -> Option<ValueModel> {
    match part {
        KeyPart::Param(i) => if i < params.len() { Some(params[i as int].model()) } else { None },
        KeyPart::Const(i) => if i < consts.len() { Some(consts[i as int].model()) } else { None },
        KeyPart::OuterCol(_) => None,
    }
}

/// The values of all key parts, if every slot exists.
pub open spec fn part_values(parts: Seq<KeyPart>, consts: Seq<Value>, params: Seq<Value>) -> Option<Seq<ValueModel>>
    decreases parts.len(),
{
    if parts.len() == 0 {
        Some(Seq::empty())
    } else {
        match (part_values(parts.drop_last(), consts, params), part_value(parts.last(), consts, params)) {
            (Some(vs), Some(v)) => Some(vs.push(v)),
            _ => None,
        }
    }
}

/// The value that a key part stands for.
pub fn resolve_part(part: &KeyPart, consts: &[Value], params: &[Value]) -> (r: Option<Value>)
    ensures
        match r {
            Some(v) => part_value(*part, consts@, params@) == Some(v.model()),
            None => part_value(*part, consts@, params@) is None,
        },
{
    match part {
        KeyPart::Param(i) => if (*i as usize) < params.len() { Some(params[*i as usize].copied()) } else { None },
        KeyPart::Const(i) => if (*i as usize) < consts.len() { Some(consts[*i as usize].copied()) } else { None },
        KeyPart::OuterCol(_) => None,
    }
}

proof fn lemma_part_values_prefix(parts: Seq<KeyPart>, n: int, consts: Seq<Value>, params: Seq<Value>)
    requires
        0 <= n <= parts.len(),
        part_values(parts, consts, params) is Some,
    ensures
        part_values(parts.take(n), consts, params) is Some,
    decreases parts.len(),
{
    if n < parts.len() {
        lemma_part_values_prefix(parts.drop_last(), n, consts, params);
        assert(parts.drop_last().take(n) =~= parts.take(n));
    } else {
        assert(parts.take(n) =~= parts);
    }
}

/// The values of all key parts.
pub fn resolve_pk(parts: &[KeyPart], consts: &[Value], params: &[Value]) -> (r: Option<Vec<Value>>)
    ensures
        match r {
            Some(vs) => part_values(parts@, consts@, params@) == Some(models(vs@)),
            None => part_values(parts@, consts@, params@) is None,
        },
{
    let mut out: Vec<Value> = Vec::with_capacity(parts.len());
    let mut i: usize = 0;
    proof {
        assert(parts@.take(0) =~= Seq::<KeyPart>::empty());
        assert(models(out@) =~= Seq::<ValueModel>::empty());
    }
    while i < parts.len()
        invariant
            i <= parts@.len(),
            out@.len() == i,
            part_values(parts@.take(i as int), consts@, params@) == Some(models(out@)),
        decreases parts@.len() - i,
    {
        proof {
            assert(parts@.take(i + 1).drop_last() =~= parts@.take(i as int));
        }
        match resolve_part(&parts[i], consts, params) {
            None => {
                proof {
                    if part_values(parts@, consts@, params@) is Some {
                        lemma_part_values_prefix(parts@, i + 1, consts@, params@);
                    }
                }
                return None;
            },
            Some(v) => {
                let ghost prev = out@;
                out.push(v);
                proof {
                    assert(models(out@) =~= models(prev).push(v.model()));
                }
            },
        }
        i += 1;
    }
    proof {
        assert(parts@.take(i as int) =~= parts@);
    }
    Some(out)
}

// ---------------------------------------------------------------- laws

/// A resolved key has, part for part, the parameter or the constant in the
/// slot that the part names; it resolves exactly where all those slots exist.
pub proof fn law_key_has_its_slots(parts: Seq<KeyPart>, consts: Seq<Value>, params: Seq<Value>, key: Seq<ValueModel>)
    ensures
        part_values(parts, consts, params) == Some(key) <==> key.len() == parts.len() && forall|j: int|
            0 <= j < parts.len() ==> match #[trigger] parts[j] {
                KeyPart::Param(i) => i < params.len() && key[j] == params[i as int].model(),
                KeyPart::Const(i) => i < consts.len() && key[j] == consts[i as int].model(),
                KeyPart::OuterCol(_) => false,
            },
    decreases parts.len(),
{
    if parts.len() > 0 {
        let (before, last) = (parts.drop_last(), parts.last());
        if key.len() > 0 {
            law_key_has_its_slots(before, consts, params, key.drop_last());
            assert(key.drop_last().push(key.last()) =~= key);
            assert forall|j: int| 0 <= j < before.len() implies #[trigger] before[j] == parts[j] by {}
            assert forall|j: int| 0 <= j < key.len() - 1 implies #[trigger] key.drop_last()[j] == key[j] by {}
            assert(parts[parts.len() - 1] == last);
            if part_values(parts, consts, params) == Some(key) {
                let vs = part_values(before, consts, params)->Some_0;
                assert(vs.push(part_value(last, consts, params)->Some_0) == key);
                assert(key.drop_last() =~= vs);
                assert forall|j: int| 0 <= j < parts.len() implies match #[trigger] parts[j] {
                    KeyPart::Param(i) => i < params.len() && key[j] == params[i as int].model(),
                    KeyPart::Const(i) => i < consts.len() && key[j] == consts[i as int].model(),
                    KeyPart::OuterCol(_) => false,
                } by {
                    if j < before.len() {
                        assert(before[j] == parts[j]);
                    }
                }
            }
        } else {
            if part_values(parts, consts, params) == Some(key) {
                assert(key.len() > 0);
            }
        }
    } else {
        assert(key.len() == 0 ==> key =~= Seq::empty());
    }
}

/// A name finds a live table with exactly that name, the first one, and finds
/// one wherever there is one.
pub proof fn law_live_table_found(tables: Seq<TableDef>, name: Seq<char>, from: int)
    requires
        0 <= from <= tables.len(),
    ensures
        match live_table_at(tables, name, from) {
            Some(i) => from <= i < tables.len() && tables[i].name@ == name && !tables[i].dead && forall|j: int|
                from <= j < i ==> (#[trigger] tables[j]).name@ != name || tables[j].dead,
            None => forall|j: int| from <= j < tables.len() ==> (#[trigger] tables[j]).name@ != name || tables[j].dead,
        },
    decreases tables.len() - from,
{
    if from < tables.len() {
        law_live_table_found(tables, name, from + 1);
    }
}

/// A name finds a column with exactly that name, the first one, and finds one
/// wherever there is one.
pub proof fn law_column_found(columns: Seq<ColumnDef>, name: Seq<char>, from: int)
    requires
        0 <= from <= columns.len(),
    ensures
        match column_at(columns, name, from) {
            Some(i) => from <= i < columns.len() && columns[i].name@ == name && forall|j: int|
                from <= j < i ==> (#[trigger] columns[j]).name@ != name,
            None => forall|j: int| from <= j < columns.len() ==> (#[trigger] columns[j]).name@ != name,
        },
    decreases columns.len() - from,
{
    if from < columns.len() {
        law_column_found(columns, name, from + 1);
    }
}

} // verus!
