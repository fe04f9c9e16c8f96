//! One logical table over several files: a point operation goes to the shard
//! that its key hashes to, everything else to all shards.

use vstd::prelude::*;
use vstd::string::StringExecFns;
use crate::error::{Error, Fault, Result};
use crate::fnv::{fold_range, folded, FNV_OFFSET, FNV_PRIME};
use crate::plan::{AccessPath, CompiledPlan, InsertSource, KeyPart, PlanStmt, Schema};
use crate::ring_exec::concatenated;
use crate::text::{debug_str, dec, lemma_dec_injective, push_dec, str_debug};
use crate::value::{models, Value, ValueModel};

verus! {

/// The result of executing one statement.
#[derive(Debug, PartialEq, Eq)]
pub enum ExecResult {
    /// Output columns and rows.
    Rows { columns: Vec<String>, rows: Vec<Vec<Value>> },
    /// The number of rows written.
    Affected(u64),
    /// A rendered plan; nothing was executed.
    Explain(String),
}

/// Where a statement goes.
pub enum Route {
    /// To the shard that these key values hash to.
    Key(Vec<Value>),
    /// To every shard.
    All,
}

/// The view of a [`Route`].
pub enum RouteModel {
    Key(Seq<ValueModel>),
    All,
}

pub open spec fn route_model(r: Route) -> RouteModel {
    match r {
        Route::Key(vs) => RouteModel::Key(models(vs@)),
        Route::All => RouteModel::All,
    }
}

/// The file of shard number `i`.
pub fn shard_path(base: &str, i: usize) -> (r: String)
    ensures
        r@ == base@ + ".shard"@ + dec(i as nat),
{
    let mut s = String::from_str(base);
    s.append(".shard");
    push_dec(&mut s, i as u128);
    s
}

/// The number of shards is at least one.
pub fn shard_count(k: usize) -> (r: Result<usize>)
    ensures
        match r {
            Ok(n) => k > 0 && n == k,
            Err(e) => k == 0 && e@ == Fault::Config("ShardSet needs at least 1 shard"@),
        },
{
    if k == 0 {
        return Err(Error::Config(String::from_str("ShardSet needs at least 1 shard")));
    }
    Ok(k)
}

/// One inserted key column.
pub open spec fn insert_key_part(src: InsertSource, consts: Seq<Value>, params: Seq<Value>) -> std::result::Result<ValueModel, Fault> {
    match src {
        InsertSource::Param(i) => if i < params.len() { Ok(params[i as int].model()) } else { Err(Fault::Internal("shard: pk param"@)) },
        InsertSource::Const(i) => if i < consts.len() { Ok(consts[i as int].model()) } else { Err(Fault::Internal("shard: pk const"@)) },
        InsertSource::Default => Err(
            Fault::Unsupported("cannot shard-route an INSERT whose primary key uses DEFAULT"@),
        ),
        InsertSource::Expr => Err(
            Fault::Unsupported("cannot shard-route an INSERT whose primary key is an expression"@),
        ),
    }
}

/// The key of an inserted row from key column `i` on.
pub open spec fn insert_key(row: Seq<InsertSource>, pk: Seq<u16>, consts: Seq<Value>, params: Seq<Value>, i: int) -> std::result::Result<Seq<ValueModel>, Fault>
    decreases pk.len() - i,
{
    if i >= pk.len() {
        Ok(Seq::empty())
    } else {
        match insert_key_part(row[pk[i] as int], consts, params) {
            Err(f) => Err(f),
            Ok(v) => match insert_key(row, pk, consts, params, i + 1) {
                Err(f) => Err(f),
                Ok(rest) => Ok(seq![v] + rest),
            },
        }
    }
}

/// One part of a looked-up key.
pub open spec fn point_part(part: KeyPart, consts: Seq<Value>, params: Seq<Value>) -> std::result::Result<ValueModel, Fault> {
    match part {
        KeyPart::Param(i) => if i < params.len() { Ok(params[i as int].model()) } else { Err(Fault::Internal("shard: key param"@)) },
        KeyPart::Const(i) => if i < consts.len() { Ok(consts[i as int].model()) } else { Err(Fault::Internal("shard: key const"@)) },
        KeyPart::OuterCol(_) => Err(Fault::Internal("shard: outer-column key part outside a join"@)),
    }
}

/// A looked-up key from part `i` on.
pub open spec fn point_key(parts: Seq<KeyPart>, consts: Seq<Value>, params: Seq<Value>, i: int) -> std::result::Result<Seq<ValueModel>, Fault>
    decreases parts.len() - i,
{
    if i >= parts.len() {
        Ok(Seq::empty())
    } else {
        match point_part(parts[i], consts, params) {
            Err(f) => Err(f),
            Ok(v) => match point_key(parts, consts, params, i + 1) {
                Err(f) => Err(f),
                Ok(rest) => Ok(seq![v] + rest),
            },
        }
    }
}

pub open spec fn keyed(r: std::result::Result<Seq<ValueModel>, Fault>) -> std::result::Result<RouteModel, Fault> {
    match r {
        Ok(vs) => Ok(RouteModel::Key(vs)),
        Err(f) => Err(f),
    }
}

/// The access path of a statement that reads or writes through one.
pub open spec fn access_of(stmt: PlanStmt) -> Option<AccessPath> {
    match stmt {
        PlanStmt::Select(sp) => Some(sp.access),
        PlanStmt::Update { table: _, access, filter: _, set: _ } => Some(access),
        PlanStmt::Delete { table: _, access, filter: _ } => Some(access),
        _ => None,
    }
}

/// Where a statement goes.
pub open spec fn routed(plan: CompiledPlan, schema: Schema, params: Seq<Value>) -> std::result::Result<RouteModel, Fault> {
    if plan.subplans@.len() > 0 {
        Ok(RouteModel::All)
    } else {
        match plan.stmt {
            PlanStmt::Insert { table, rows, from_select: _ } => if rows@.len() != 1 {
                Err(Fault::Unsupported("multi-row INSERT across shards is not supported (v1)"@))
            } else if table >= schema.tables@.len() {
                Err(Fault::Internal("shard: table id out of range"@))
            } else {
                keyed(insert_key(rows@[0]@, schema.tables@[table as int].primary_key@, plan.consts@, params, 0))
            },
            PlanStmt::Compound(_) => Ok(RouteModel::All),
            PlanStmt::RecursiveCte { name: _, limit: _, offset: _ } => Ok(RouteModel::All),
            PlanStmt::Derived(_) => Ok(RouteModel::All),
            _ => match access_of(plan.stmt) {
                Some(AccessPath::PkPoint(parts)) => keyed(point_key(parts@, plan.consts@, params, 0)),
                Some(_) => Ok(RouteModel::All),
                None => Err(
                    Fault::Unsupported("explicit transactions are not supported on a ShardSet (v1)"@),
                ),
            },
        }
    }
}

/// An inserted row has a source for every key column of its table.
pub open spec fn insert_covers_key(plan: CompiledPlan, schema: Schema) -> bool {
    match plan.stmt {
        PlanStmt::Insert { table, rows, from_select: _ } => rows@.len() == 1 && table < schema.tables@.len() ==> forall|i: int|
            0 <= i < schema.tables@[table as int].primary_key@.len() ==> #[trigger] schema.tables@[table as int].primary_key@[i] < rows@[0]@.len(),
        _ => true,
    }
}

fn insert_part(src: &InsertSource, consts: &[Value], params: &[Value]) -> (r: Result<Value>)
    ensures
        match r {
            Ok(v) => insert_key_part(*src, consts@, params@) == Ok::<ValueModel, Fault>(v.model()),
            Err(e) => insert_key_part(*src, consts@, params@) == Err::<ValueModel, Fault>(e@),
        },
{
    match src {
        InsertSource::Param(i) => if (*i as usize) < params.len() {
            Ok(params[*i as usize].copied())
        } else {
            Err(Error::Internal(String::from_str("shard: pk param")))
        },
        InsertSource::Const(i) => if (*i as usize) < consts.len() {
            Ok(consts[*i as usize].copied())
        } else {
            Err(Error::Internal(String::from_str("shard: pk const")))
        },
        InsertSource::Default => Err(
            Error::Unsupported(
                String::from_str("cannot shard-route an INSERT whose primary key uses DEFAULT"),
            ),
        ),
        InsertSource::Expr => Err(
            Error::Unsupported(
                String::from_str("cannot shard-route an INSERT whose primary key is an expression"),
            ),
        ),
    }
}

fn resolve_part(part: &KeyPart, consts: &[Value], params: &[Value]) -> (r: Result<Value>)
    ensures
        match r {
            Ok(v) => point_part(*part, consts@, params@) == Ok::<ValueModel, Fault>(v.model()),
            Err(e) => point_part(*part, consts@, params@) == Err::<ValueModel, Fault>(e@),
        },
{
    match part {
        KeyPart::Param(i) => if (*i as usize) < params.len() {
            Ok(params[*i as usize].copied())
        } else {
            Err(Error::Internal(String::from_str("shard: key param")))
        },
        KeyPart::Const(i) => if (*i as usize) < consts.len() {
            Ok(consts[*i as usize].copied())
        } else {
            Err(Error::Internal(String::from_str("shard: key const")))
        },
        KeyPart::OuterCol(_) => Err(
            Error::Internal(String::from_str("shard: outer-column key part outside a join")),
        ),
    }
}

fn route_insert(row: &Vec<InsertSource>, pk: &Vec<u16>, consts: &[Value], params: &[Value]) -> (r: Result<Route>)
    requires
        forall|i: int| 0 <= i < pk@.len() ==> #[trigger] pk@[i] < row@.len(),
    ensures
        match r {
            Ok(t) => keyed(insert_key(row@, pk@, consts@, params@, 0)) == Ok::<RouteModel, Fault>(route_model(t)),
            Err(e) => keyed(insert_key(row@, pk@, consts@, params@, 0)) == Err::<RouteModel, Fault>(e@),
        },
{
    let mut out: Vec<Value> = Vec::with_capacity(pk.len());
    let mut i: usize = 0;
    let ghost whole = insert_key(row@, pk@, consts@, params@, 0);
    proof {
        assert(models(out@) =~= Seq::<ValueModel>::empty());
        assert forall|rest: Seq<ValueModel>| #[trigger] (models(out@) + rest) == rest by {
            assert(models(out@) + rest =~= rest);
        }
    }
    while i < pk.len()
        invariant
            i <= pk@.len(),
            forall|j: int| 0 <= j < pk@.len() ==> #[trigger] pk@[j] < row@.len(),
            whole == insert_key(row@, pk@, consts@, params@, 0),
            whole == (match insert_key(row@, pk@, consts@, params@, i as int) {
                Err(f) => Err::<Seq<ValueModel>, Fault>(f),
                Ok(rest) => Ok(models(out@) + rest),
            }),
        decreases pk@.len() - i,
    {
        assert(pk@[i as int] < row@.len());
        match insert_part(&row[pk[i] as usize], consts, params) {
            Err(e) => {
                return Err(e);
            },
            Ok(v) => {
                let ghost prev = out@;
                out.push(v);
                proof {
                    assert(models(out@) =~= models(prev).push(v.model()));
                    match insert_key(row@, pk@, consts@, params@, i + 1) {
                        Ok(rest) => {
                            assert(models(prev) + (seq![v.model()] + rest) =~= models(out@) + rest);
                        },
                        Err(_) => {},
                    }
                }
            },
        }
        i += 1;
    }
    proof {
        assert(models(out@) + Seq::<ValueModel>::empty() =~= models(out@));
    }
    Ok(Route::Key(out))
}

fn route_point(parts: &Vec<KeyPart>, consts: &[Value], params: &[Value]) -> (r: Result<Route>)
    ensures
        match r {
            Ok(t) => keyed(point_key(parts@, consts@, params@, 0)) == Ok::<RouteModel, Fault>(route_model(t)),
            Err(e) => keyed(point_key(parts@, consts@, params@, 0)) == Err::<RouteModel, Fault>(e@),
        },
{
    let mut out: Vec<Value> = Vec::with_capacity(parts.len());
    let mut i: usize = 0;
    let ghost whole = point_key(parts@, consts@, params@, 0);
    proof {
        assert(models(out@) =~= Seq::<ValueModel>::empty());
        assert forall|rest: Seq<ValueModel>| #[trigger] (models(out@) + rest) == rest by {
            assert(models(out@) + rest =~= rest);
        }
    }
    while i < parts.len()
        invariant
            i <= parts@.len(),
            whole == point_key(parts@, consts@, params@, 0),
            whole == (match point_key(parts@, consts@, params@, i as int) {
                Err(f) => Err::<Seq<ValueModel>, Fault>(f),
                Ok(rest) => Ok(models(out@) + rest),
            }),
        decreases parts@.len() - i,
    {
        match resolve_part(&parts[i], consts, params) {
            Err(e) => {
                return Err(e);
            },
            Ok(v) => {
                let ghost prev = out@;
                out.push(v);
                proof {
                    assert(models(out@) =~= models(prev).push(v.model()));
                    match point_key(parts@, consts@, params@, i + 1) {
                        Ok(rest) => {
                            assert(models(prev) + (seq![v.model()] + rest) =~= models(out@) + rest);
                        },
                        Err(_) => {},
                    }
                }
            },
        }
        i += 1;
    }
    proof {
        assert(models(out@) + Seq::<ValueModel>::empty() =~= models(out@));
    }
    Ok(Route::Key(out))
}

fn route_access(access: &AccessPath, consts: &[Value], params: &[Value]) -> (r: Result<Route>)
    ensures
        ({
            let want = match *access {
                AccessPath::PkPoint(parts) => keyed(point_key(parts@, consts@, params@, 0)),
                _ => Ok(RouteModel::All),
            };
            match r {
                Ok(t) => want == Ok::<RouteModel, Fault>(route_model(t)),
                Err(e) => want == Err::<RouteModel, Fault>(e@),
            }
        }),
{
    match access {
        AccessPath::PkPoint(parts) => route_point(parts, consts, params),
        _ => Ok(Route::All),
    }
}

/// Where a statement goes. A slot that a subquery fills is unknown here, so
/// such a statement goes to every shard.
pub fn route(plan: &CompiledPlan, schema: &Schema, params: &[Value]) -> (r: Result<Route>)
    requires
        insert_covers_key(*plan, *schema),
    ensures
        match r {
            Ok(t) => routed(*plan, *schema, params@) == Ok::<RouteModel, Fault>(route_model(t)),
            Err(e) => routed(*plan, *schema, params@) == Err::<RouteModel, Fault>(e@),
        },
{
    if plan.subplans.len() > 0 {
        return Ok(Route::All);
    }
    let consts = plan.consts.as_slice();
    match &plan.stmt {
        PlanStmt::Insert { table, rows, from_select: _ } => {
            if rows.len() != 1 {
                return Err(
                    Error::Unsupported(
                        String::from_str("multi-row INSERT across shards is not supported (v1)"),
                    ),
                );
            }
            let t = match schema.table(*table) {
                Some(t) => t,
                None => {
                    return Err(Error::Internal(String::from_str("shard: table id out of range")));
                },
            };
            route_insert(&rows[0], &t.primary_key, consts, params)
        },
        PlanStmt::Select(sp) => route_access(&sp.access, consts, params),
        PlanStmt::Update { table: _, access, filter: _, set: _ } => route_access(access, consts, params),
        PlanStmt::Delete { table: _, access, filter: _ } => route_access(access, consts, params),
        PlanStmt::Compound(_) => Ok(Route::All),
        PlanStmt::RecursiveCte { name: _, limit: _, offset: _ } => Ok(Route::All),
        PlanStmt::Derived(_) => Ok(Route::All),
        _ => Err(
            Error::Unsupported(
                String::from_str("explicit transactions are not supported on a ShardSet (v1)"),
            ),
        ),
    }
}

/// The shard of a key, by the hash of its encoded values.
pub open spec fn shard_of_key(encoded: Seq<Vec<u8>>, k: nat) -> nat {
    folded(FNV_PRIME, FNV_OFFSET, concatenated(encoded)) as nat % k
}

proof fn lemma_fnv_concat(h: u64, a: Seq<u8>, b: Seq<u8>)
    ensures
        folded(FNV_PRIME, h, a + b) == folded(FNV_PRIME, folded(FNV_PRIME, h, a), b),
    decreases a.len(),
{
    if a.len() == 0 {
        assert(a + b =~= b);
    } else {
        assert((a + b).drop_first() =~= a.drop_first() + b);
        lemma_fnv_concat((h ^ a[0] as u64).wrapping_mul(FNV_PRIME), a.drop_first(), b);
    }
}

/// The shard of a key among `k` shards, given its encoded values.
pub fn shard_of(encoded: &Vec<Vec<u8>>, k: usize) -> (r: usize)
    requires
        k > 0,
    ensures
        r == shard_of_key(encoded@, k as nat),
        r < k,
{
    let mut h: u64 = FNV_OFFSET;
    let mut i: usize = 0;
    proof {
        assert(encoded@.take(0) =~= Seq::<Vec<u8>>::empty());
    }
    while i < encoded.len()
        invariant
            i <= encoded@.len(),
            h == folded(FNV_PRIME, FNV_OFFSET, concatenated(encoded@.take(i as int))),
        decreases encoded@.len() - i,
    {
        let v = encoded[i].as_slice();
        h = fold_range(FNV_PRIME, h, v, 0, v.len());
        proof {
            assert(v@.subrange(0, v@.len() as int) =~= encoded@[i as int]@);
            assert(encoded@.take(i + 1).drop_last() =~= encoded@.take(i as int));
            lemma_fnv_concat(FNV_OFFSET, concatenated(encoded@.take(i as int)), encoded@[i as int]@);
        }
        i += 1;
    }
    proof {
        assert(encoded@.take(i as int) =~= encoded@);
    }
    (h % (k as u64)) as usize
}

// ---------------------------------------------------------------- fan-out

/// What the results of a statement on every shard are made into.
#[derive(Debug, Clone, Copy, PartialEq, Eq, Structural)]
pub enum FanOut {
    /// The rows of all shards in a row.
    Rows,
    /// The sum of the counts.
    Count,
}

/// How a statement that goes to every shard is answered.
pub open spec fn fan_out_kind(stmt: PlanStmt) -> std::result::Result<FanOut, Fault> {
    match stmt {
        PlanStmt::Select(sp) => if sp.order_by || sp.limit is Some || sp.offset is Some {
            Err(
                Fault::Unsupported(
                    "cross-shard SELECT with ORDER BY/LIMIT/OFFSET is not supported (v1); query by primary key or merge client-side"@,
                ),
            )
        } else {
            Ok(FanOut::Rows)
        },
        PlanStmt::Update { table: _, access: _, filter: _, set: _ } => Ok(FanOut::Count),
        PlanStmt::Delete { table: _, access: _, filter: _ } => Ok(FanOut::Count),
        _ => Err(Fault::Internal("shard: unexpected fan-out statement"@)),
    }
}

/// How a statement that goes to every shard is answered; asked before any
/// shard runs it.
pub fn fan_out(stmt: &PlanStmt) -> (r: Result<FanOut>)
    ensures
        match r {
            Ok(k) => fan_out_kind(*stmt) == Ok::<FanOut, Fault>(k),
            Err(e) => fan_out_kind(*stmt) == Err::<FanOut, Fault>(e@),
        },
{
    match stmt {
        PlanStmt::Select(sp) => {
            if sp.order_by || sp.limit.is_some() || sp.offset.is_some() {
                return Err(
                    Error::Unsupported(
                        String::from_str(
                            "cross-shard SELECT with ORDER BY/LIMIT/OFFSET is not supported (v1); query by primary key or merge client-side",
                        ),
                    ),
                );
            }
            Ok(FanOut::Rows)
        },
        PlanStmt::Update { table: _, access: _, filter: _, set: _ } => Ok(FanOut::Count),
        PlanStmt::Delete { table: _, access: _, filter: _ } => Ok(FanOut::Count),
        _ => Err(Error::Internal(String::from_str("shard: unexpected fan-out statement"))),
    }
}

/// Rows gathered from shards so far.
pub struct Gathered {
    pub columns: Vec<String>,
    pub rows: Vec<Vec<Value>>,
}

impl Gathered {
    /// Nothing gathered yet.
    pub fn new() -> (g: Gathered)
        ensures
            g.columns@.len() == 0,
            g.rows@.len() == 0,
    {
        Gathered { columns: Vec::new(), rows: Vec::new() }
    }

    /// Add one shard's result behind the others; the columns are those of the
    /// last shard.
    pub fn add_shard(&mut self, r: ExecResult) -> (res: Result<()>)
        ensures
            match r {
                ExecResult::Rows { columns, rows } => res is Ok && final(self).columns == columns && final(self).rows@ == old(self).rows@
                    + rows@,
                ExecResult::Affected(n) => res is Err && *final(self) == *old(self) && res->Err_0@ == Fault::Internal(
                    "shard fan-out expected rows, got Affected("@ + dec(n as nat) + ")"@,
                ),
                ExecResult::Explain(t) => res is Err && *final(self) == *old(self) && res->Err_0@ == Fault::Internal(
                    "shard fan-out expected rows, got Explain("@ + str_debug(t@) + ")"@,
                ),
            },
    {
        match r {
            ExecResult::Rows { columns, rows } => {
                let mut more = rows;
                self.columns = columns;
                self.rows.append(&mut more);
                Ok(())
            },
            ExecResult::Affected(n) => {
                let mut m = String::from_str("shard fan-out expected rows, got Affected(");
                push_dec(&mut m, n as u128);
                m.append(")");
                Err(Error::Internal(m))
            },
            ExecResult::Explain(t) => {
                let mut m = String::from_str("shard fan-out expected rows, got Explain(");
                let d = debug_str(t.as_str());
                m.append(d.as_str());
                m.append(")");
                Err(Error::Internal(m))
            },
        }
    }
}

/// Add one shard's count; a result without a count adds nothing.
pub fn add_count(total: u64, r: &ExecResult) -> (n: u64)
    requires
        (match *r {
            ExecResult::Affected(k) => total + k <= u64::MAX,
            _ => true,
        }),
    ensures
        n == (match *r {
            ExecResult::Affected(k) => total + k,
            _ => total as int,
        }),
{
    match r {
        ExecResult::Affected(k) => total + *k,
        _ => total,
    }
}

// ---------------------------------------------------------------- laws

/// Different shards are different files.
pub proof fn law_shard_files_distinct(base: Seq<char>, i: nat, j: nat)
    requires
        base + ".shard"@ + dec(i) == base + ".shard"@ + dec(j),
    ensures
        i == j,
{
    let n = (base + ".shard"@).len() as int;
    assert((base + ".shard"@ + dec(i)).skip(n) =~= dec(i));
    assert((base + ".shard"@ + dec(j)).skip(n) =~= dec(j));
    lemma_dec_injective(i, j);
}

proof fn lemma_insert_key(row: Seq<InsertSource>, pk: Seq<u16>, consts: Seq<Value>, params: Seq<Value>, i: int)
    requires
        0 <= i <= pk.len(),
    ensures
        insert_key(row, pk, consts, params, i) matches Ok(vs) ==> vs.len() == pk.len() - i && forall|j: int|
            i <= j < pk.len() ==> insert_key_part(row[#[trigger] pk[j] as int], consts, params) == Ok::<ValueModel, Fault>(vs[j - i]),
        (forall|j: int| i <= j < pk.len() ==> insert_key_part(row[#[trigger] pk[j] as int], consts, params) is Ok) ==> insert_key(
            row,
            pk,
            consts,
            params,
            i,
        ) is Ok,
    decreases pk.len() - i,
{
    if i < pk.len() {
        lemma_insert_key(row, pk, consts, params, i + 1);
        if let (Ok(v), Ok(rest)) = (insert_key_part(row[pk[i] as int], consts, params), insert_key(row, pk, consts, params, i + 1)) {
            let vs = seq![v] + rest;
            assert forall|j: int| i <= j < pk.len() implies insert_key_part(row[#[trigger] pk[j] as int], consts, params) == Ok::<
                ValueModel,
                Fault,
            >(vs[j - i]) by {
                if j > i {
                    assert(vs[j - i] == rest[j - i - 1]);
                }
            }
        }
    }
}

proof fn lemma_point_key(parts: Seq<KeyPart>, consts: Seq<Value>, params: Seq<Value>, i: int)
    requires
        0 <= i <= parts.len(),
    ensures
        point_key(parts, consts, params, i) matches Ok(vs) ==> vs.len() == parts.len() - i && forall|j: int|
            i <= j < parts.len() ==> point_part(#[trigger] parts[j], consts, params) == Ok::<ValueModel, Fault>(vs[j - i]),
        (forall|j: int| i <= j < parts.len() ==> point_part(#[trigger] parts[j], consts, params) is Ok) ==> point_key(
            parts,
            consts,
            params,
            i,
        ) is Ok,
    decreases parts.len() - i,
{
    if i < parts.len() {
        lemma_point_key(parts, consts, params, i + 1);
        if let (Ok(v), Ok(rest)) = (point_part(parts[i], consts, params), point_key(parts, consts, params, i + 1)) {
            let vs = seq![v] + rest;
            assert forall|j: int| i <= j < parts.len() implies point_part(#[trigger] parts[j], consts, params) == Ok::<ValueModel, Fault>(
                vs[j - i],
            ) by {
                if j > i {
                    assert(vs[j - i] == rest[j - i - 1]);
                }
            }
        }
    }
}

/// A one-row INSERT goes to the shard of the key of the row that it stores: in
/// the order of the key columns, a parameter slot gives that parameter and a
/// constant slot that constant. It is routed exactly where every key column
/// has such a slot.
pub proof fn law_insert_routes_by_stored_key(plan: CompiledPlan, schema: Schema, params: Seq<Value>, key: Seq<ValueModel>)
    requires
        plan.subplans@.len() == 0,
        plan.stmt is Insert,
        plan.stmt->Insert_rows@.len() == 1,
        plan.stmt->Insert_table < schema.tables@.len(),
    ensures
        routed(plan, schema, params) == Ok::<RouteModel, Fault>(RouteModel::Key(key)) <==> {
            let row = plan.stmt->Insert_rows@[0]@;
            let pk = schema.tables@[plan.stmt->Insert_table as int].primary_key@;
            &&& key.len() == pk.len()
            &&& forall|j: int|
                0 <= j < pk.len() ==> match row[#[trigger] pk[j] as int] {
                    InsertSource::Param(i) => i < params.len() && key[j] == params[i as int].model(),
                    InsertSource::Const(i) => i < plan.consts@.len() && key[j] == plan.consts@[i as int].model(),
                    _ => false,
                }
        },
        routed(plan, schema, params) matches Ok(r) ==> r is Key,
{
    let row = plan.stmt->Insert_rows@[0]@;
    let pk = schema.tables@[plan.stmt->Insert_table as int].primary_key@;
    lemma_insert_key(row, pk, plan.consts@, params, 0);
    let got = insert_key(row, pk, plan.consts@, params, 0);
    let holds = key.len() == pk.len() && forall|j: int|
        0 <= j < pk.len() ==> match row[#[trigger] pk[j] as int] {
            InsertSource::Param(i) => i < params.len() && key[j] == params[i as int].model(),
            InsertSource::Const(i) => i < plan.consts@.len() && key[j] == plan.consts@[i as int].model(),
            _ => false,
        };
    if got == Ok::<Seq<ValueModel>, Fault>(key) {
        assert forall|j: int| 0 <= j < pk.len() implies match row[#[trigger] pk[j] as int] {
            InsertSource::Param(i) => i < params.len() && key[j] == params[i as int].model(),
            InsertSource::Const(i) => i < plan.consts@.len() && key[j] == plan.consts@[i as int].model(),
            _ => false,
        } by {
            assert(insert_key_part(row[pk[j] as int], plan.consts@, params) == Ok::<ValueModel, Fault>(key[j - 0]));
        }
    }
    if holds {
        assert forall|j: int| 0 <= j < pk.len() implies insert_key_part(row[#[trigger] pk[j] as int], plan.consts@, params) is Ok by {}
        let vs = got->Ok_0;
        assert forall|j: int| 0 <= j < pk.len() implies #[trigger] vs[j] == key[j] by {
            assert(insert_key_part(row[pk[j] as int], plan.consts@, params) == Ok::<ValueModel, Fault>(vs[j - 0]));
        }
        assert(vs =~= key);
    }
}

/// A point statement goes to the shard of the key that it asks for: part for
/// part, a parameter slot gives that parameter and a constant slot that
/// constant.
pub proof fn law_point_routes_by_asked_key(plan: CompiledPlan, schema: Schema, params: Seq<Value>, parts: Vec<KeyPart>, key: Seq<ValueModel>)
    requires
        plan.subplans@.len() == 0,
        match plan.stmt {
            PlanStmt::Select(sp) => sp.access == AccessPath::PkPoint(parts),
            PlanStmt::Update { table: _, access, filter: _, set: _ } => access == AccessPath::PkPoint(parts),
            PlanStmt::Delete { table: _, access, filter: _ } => access == AccessPath::PkPoint(parts),
            _ => false,
        },
    ensures
        routed(plan, schema, params) == Ok::<RouteModel, Fault>(RouteModel::Key(key)) <==> {
            &&& key.len() == parts@.len()
            &&& forall|j: int|
                0 <= j < parts@.len() ==> match #[trigger] parts@[j] {
                    KeyPart::Param(i) => i < params.len() && key[j] == params[i as int].model(),
                    KeyPart::Const(i) => i < plan.consts@.len() && key[j] == plan.consts@[i as int].model(),
                    KeyPart::OuterCol(_) => false,
                }
        },
        routed(plan, schema, params) matches Ok(r) ==> r is Key,
{
    lemma_point_key(parts@, plan.consts@, params, 0);
    let got = point_key(parts@, plan.consts@, params, 0);
    let holds = key.len() == parts@.len() && forall|j: int|
        0 <= j < parts@.len() ==> match #[trigger] parts@[j] {
            KeyPart::Param(i) => i < params.len() && key[j] == params[i as int].model(),
            KeyPart::Const(i) => i < plan.consts@.len() && key[j] == plan.consts@[i as int].model(),
            KeyPart::OuterCol(_) => false,
        };
    if got == Ok::<Seq<ValueModel>, Fault>(key) {
        assert forall|j: int| 0 <= j < parts@.len() implies match #[trigger] parts@[j] {
            KeyPart::Param(i) => i < params.len() && key[j] == params[i as int].model(),
            KeyPart::Const(i) => i < plan.consts@.len() && key[j] == plan.consts@[i as int].model(),
            KeyPart::OuterCol(_) => false,
        } by {
            assert(point_part(parts@[j], plan.consts@, params) == Ok::<ValueModel, Fault>(key[j - 0]));
        }
    }
    if holds {
        assert forall|j: int| 0 <= j < parts@.len() implies point_part(#[trigger] parts@[j], plan.consts@, params) is Ok by {}
        let vs = got->Ok_0;
        assert forall|j: int| 0 <= j < parts@.len() implies #[trigger] vs[j] == key[j] by {
            assert(point_part(parts@[j], plan.consts@, params) == Ok::<ValueModel, Fault>(vs[j - 0]));
        }
        assert(vs =~= key);
    }
}

/// A row is read from the shard that it was written to: an INSERT whose key
/// columns are bound to the values `key`, and a point lookup whose key parts
/// are bound to the same values, route alike.
pub proof fn law_point_finds_insert(
    ins: CompiledPlan,
    look: CompiledPlan,
    schema: Schema,
    ins_params: Seq<Value>,
    look_params: Seq<Value>,
    parts: Vec<KeyPart>,
    key: Seq<ValueModel>,
)
    requires
        ins.subplans@.len() == 0,
        look.subplans@.len() == 0,
        ins.stmt is Insert,
        ins.stmt->Insert_rows@.len() == 1,
        ins.stmt->Insert_table < schema.tables@.len(),
        ({
            let row = ins.stmt->Insert_rows@[0]@;
            let pk = schema.tables@[ins.stmt->Insert_table as int].primary_key@;
            &&& key.len() == pk.len()
            &&& forall|j: int|
                0 <= j < pk.len() ==> match row[#[trigger] pk[j] as int] {
                    InsertSource::Param(i) => i < ins_params.len() && key[j] == ins_params[i as int].model(),
                    InsertSource::Const(i) => i < ins.consts@.len() && key[j] == ins.consts@[i as int].model(),
                    _ => false,
                }
        }),
        match look.stmt {
            PlanStmt::Select(sp) => sp.access == AccessPath::PkPoint(parts),
            PlanStmt::Update { table: _, access, filter: _, set: _ } => access == AccessPath::PkPoint(parts),
            PlanStmt::Delete { table: _, access, filter: _ } => access == AccessPath::PkPoint(parts),
            _ => false,
        },
        key.len() == parts@.len(),
        forall|j: int|
            0 <= j < parts@.len() ==> match #[trigger] parts@[j] {
                KeyPart::Param(i) => i < look_params.len() && key[j] == look_params[i as int].model(),
                KeyPart::Const(i) => i < look.consts@.len() && key[j] == look.consts@[i as int].model(),
                KeyPart::OuterCol(_) => false,
            },
    ensures
        routed(ins, schema, ins_params) == Ok::<RouteModel, Fault>(RouteModel::Key(key)),
        routed(look, schema, look_params) == routed(ins, schema, ins_params),
{
    law_insert_routes_by_stored_key(ins, schema, ins_params, key);
    law_point_routes_by_asked_key(look, schema, look_params, parts, key);
}

/// Only a statement that names the whole key of one row goes to one shard.
/// Everything else that is answered reaches every shard, so that no row is
/// missed; what a subquery fills in is not known beforehand.
pub proof fn law_unkeyed_reaches_every_shard(plan: CompiledPlan, schema: Schema, params: Seq<Value>)
    ensures
        plan.subplans@.len() > 0 ==> routed(plan, schema, params) == Ok::<RouteModel, Fault>(RouteModel::All),
        routed(plan, schema, params) matches Ok(RouteModel::Key(_)) ==> plan.subplans@.len() == 0 && match plan.stmt {
            PlanStmt::Insert { table: _, rows, from_select: _ } => rows@.len() == 1,
            PlanStmt::Select(sp) => sp.access is PkPoint,
            PlanStmt::Update { table: _, access, filter: _, set: _ } => access is PkPoint,
            PlanStmt::Delete { table: _, access, filter: _ } => access is PkPoint,
            _ => false,
        },
        match plan.stmt {
            PlanStmt::Select(sp) => !(sp.access is PkPoint),
            PlanStmt::Update { table: _, access, filter: _, set: _ } => !(access is PkPoint),
            PlanStmt::Delete { table: _, access, filter: _ } => !(access is PkPoint),
            PlanStmt::Compound(_) => true,
            PlanStmt::RecursiveCte { name: _, limit: _, offset: _ } => true,
            PlanStmt::Derived(_) => true,
            _ => false,
        } ==> routed(plan, schema, params) == Ok::<RouteModel, Fault>(RouteModel::All),
        plan.subplans@.len() == 0 && (plan.stmt is Begin || plan.stmt is Commit || plan.stmt is Rollback) ==> routed(plan, schema, params) is Err,
{
}

/// Rows of all shards put one behind the other are a right answer only where
/// no order and no window over the whole was asked for, and counts add up only
/// for statements that count.
pub proof fn law_fan_out_is_mergeable(stmt: PlanStmt)
    ensures
        fan_out_kind(stmt) == Ok::<FanOut, Fault>(FanOut::Rows) <==> (stmt matches PlanStmt::Select(sp) && !sp.order_by && sp.limit is None
            && sp.offset is None),
        fan_out_kind(stmt) == Ok::<FanOut, Fault>(FanOut::Count) <==> stmt is Update || stmt is Delete,
{
}

/// Keys spread by content alone: the same encoded key is on the same shard,
/// however its bytes are divided among its columns.
pub proof fn law_shard_by_content(a: Seq<Vec<u8>>, b: Seq<Vec<u8>>, k: nat)
    requires
        k > 0,
        concatenated(a) == concatenated(b),
    ensures
        shard_of_key(a, k) == shard_of_key(b, k),
        shard_of_key(a, k) < k,
{
}

} // verus!
