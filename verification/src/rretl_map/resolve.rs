//! Resolving a mapping against the live schema.

use vstd::prelude::*;
use vstd::string::StringExecFns;
use crate::error::{Error, Fault, Result};
use crate::plan::{column_at, find_column, find_live_table, live_table_at, ColumnDef, Schema, TableDef};
use crate::rretl::named_at;
use crate::rretl_map::spec::{refusal, ColumnModel, MapSpec, MapTable, SpecModel, TableModel};
use crate::text::quoted_in;
use crate::utf8::{same_folded, same_text, same_text_folded};
use crate::value::ColumnType;

verus! {

/// A mapped table as the schema has it.
#[derive(Debug)]
pub struct ResolvedTable {
    pub src: String,
    pub dst: String,
    /// The source's row identity: a one-column key, or the hidden row number.
    pub src_key: String,
    pub src_key_ty: ColumnType,
    /// The identity is the hidden row number, which only the source assigns.
    pub rowid_identity: bool,
    pub dst_key: String,
    /// The target does not exist yet.
    pub create_dst: bool,
}

/// The view of a [`ResolvedTable`].
pub struct ResolvedModel {
    pub src: Seq<char>,
    pub dst: Seq<char>,
    pub src_key: Seq<char>,
    pub src_key_ty: ColumnType,
    pub rowid_identity: bool,
    pub dst_key: Seq<char>,
    pub create_dst: bool,
}

impl View for ResolvedTable {
    type V = ResolvedModel;

    open spec fn view(&self) -> ResolvedModel {
        ResolvedModel {
            src: self.src@,
            dst: self.dst@,
            src_key: self.src_key@,
            src_key_ty: self.src_key_ty,
            rowid_identity: self.rowid_identity,
            dst_key: self.dst_key@,
            create_dst: self.create_dst,
        }
    }
}

/// What is wrong with the mapped columns from `i` on, on the source side.
pub open spec fn source_columns_fault(map: Seq<char>, t: TableModel, src: TableDef, key: Seq<char>, i: int) -> Option<Fault>
    decreases t.columns.len() - i,
{
    if i >= t.columns.len() {
        None
    } else if column_at(src.columns@, t.columns[i].source, 0) is None {
        Some(refusal("map `"@ + map + "`: no column `"@ + t.columns[i].source + "` in `"@ + t.source + "`"@))
    } else if t.columns[i].source == key {
        Some(
            refusal(
                "map `"@ + map + "`: `"@ + t.columns[i].source + "` is the row identity of `"@ + t.source
                    + "` — it maps as the KEY, not as a value column"@,
            ),
        )
    } else {
        source_columns_fault(map, t, src, key, i + 1)
    }
}

/// A mapped column is written to the column `key`.
pub open spec fn writes_to(cs: Seq<ColumnModel>, key: Seq<char>) -> bool {
    exists|i: int| 0 <= i < cs.len() && (#[trigger] cs[i]).target == key
}

/// What is missing of the mapped columns from `i` on, on an existing target.
pub open spec fn target_columns_fault(map: Seq<char>, t: TableModel, dst: TableDef, i: int) -> Option<Fault>
    decreases t.columns.len() - i,
{
    if i >= t.columns.len() {
        None
    } else if column_at(dst.columns@, t.columns[i].target, 0) is None {
        Some(refusal("map `"@ + map + "`: existing target `"@ + t.target + "` has no column `"@ + t.columns[i].target + "`"@))
    } else {
        target_columns_fault(map, t, dst, i + 1)
    }
}

/// The one key column of a table, by name.
pub open spec fn key_name(t: TableDef) -> Seq<char> {
    t.columns@[t.primary_key@[0] as int].name@
}

/// What is wrong with the target of a mapped table, whose key column is `key`.
pub open spec fn target_fault(map: Seq<char>, t: TableModel, schema: Schema, key: Seq<char>) -> Option<Fault> {
    if writes_to(t.columns, key) {
        Some(refusal("map `"@ + map + "`: target column `"@ + key + "` collides with the target key"@))
    } else {
        match live_table_at(schema.tables@, t.target, 0) {
            None => None,
            Some(i) => {
                let d = schema.tables@[i];
                if !(d.primary_key@.len() == 1 && key_name(d) == key) {
                    Some(
                        refusal(
                            "map `"@ + map + "`: existing target `"@ + t.target + "` must have `"@ + key
                                + "` as its single-column PRIMARY KEY"@,
                        ),
                    )
                } else {
                    target_columns_fault(map, t, d, 0)
                }
            },
        }
    }
}

/// The name of the target's key column.
pub open spec fn target_key_name(t: TableModel, key: Seq<char>, rowid: bool) -> Seq<char> {
    match t.target_key {
        Some(k) => k,
        None => if rowid { "id"@ } else { key },
    }
}

/// A mapped table as the schema has it, or why it cannot be mapped.
pub open spec fn resolution(map: Seq<char>, t: TableModel, schema: Schema) -> std::result::Result<ResolvedModel, Fault> {
    match live_table_at(schema.tables@, t.source, 0) {
        None => Err(refusal("map `"@ + map + "`: no source table `"@ + t.source + "`"@)),
        Some(i) => {
            let src = schema.tables@[i];
            if src.primary_key@.len() != 1 {
                Err(
                    refusal(
                        "map `"@ + map + "`: `"@ + t.source
                            + "` has no single row identity (one-column PK or implicit rowid) — composite PKs are refused"@,
                    ),
                )
            } else {
                let c = src.columns@[src.primary_key@[0] as int];
                let rowid = src.implicit_rowid && same_folded(c.name@, "rowid"@);
                let dst_key = target_key_name(t, c.name@, rowid);
                match source_columns_fault(map, t, src, c.name@, 0) {
                    Some(f) => Err(f),
                    None => match target_fault(map, t, schema, dst_key) {
                        Some(f) => Err(f),
                        None => Ok(
                            ResolvedModel {
                                src: t.source,
                                dst: t.target,
                                src_key: c.name@,
                                src_key_ty: c.ty,
                                rowid_identity: rowid,
                                dst_key,
                                create_dst: live_table_at(schema.tables@, t.target, 0) is None,
                            },
                        ),
                    },
                }
            }
        },
    }
}

fn map_message(map: &str, a: &str, x: &str, b: &str, y: &str, c: &str) -> (m: String)
    ensures
        m@ == "map `"@ + map@ + a@ + x@ + b@ + y@ + c@,
{
    let mut m = quoted_in("map `", map, a);
    m.append(x);
    m.append(b);
    m.append(y);
    m.append(c);
    m
}

fn check_source_columns(map: &str, t: &MapTable, src: &TableDef, key: &str) -> (r: Result<()>)
    ensures
        match r {
            Ok(()) => source_columns_fault(map@, t@, *src, key@, 0) is None,
            Err(e) => source_columns_fault(map@, t@, *src, key@, 0) == Some(e@),
        },
{
    let mut i: usize = 0;
    while i < t.columns.len()
        invariant
            i <= t.columns@.len(),
            t@.columns.len() == t.columns@.len(),
            source_columns_fault(map@, t@, *src, key@, 0) == source_columns_fault(map@, t@, *src, key@, i as int),
        decreases t.columns@.len() - i,
    {
        let c = &t.columns[i];
        proof {
            assert(t@.columns[i as int] == c@);
        }
        if find_column(src, c.source.as_str()).is_none() {
            return Err(
                Error::Unsupported(
                    map_message(map, "`: no column `", c.source.as_str(), "` in `", t.source.as_str(), "`"),
                ),
            );
        }
        if same_text(c.source.as_str(), key) {
            return Err(
                Error::Unsupported(
                    map_message(
                        map,
                        "`: `",
                        c.source.as_str(),
                        "` is the row identity of `",
                        t.source.as_str(),
                        "` — it maps as the KEY, not as a value column",
                    ),
                ),
            );
        }
        i += 1;
    }
    Ok(())
}

fn writes_column(t: &MapTable, key: &str) -> (r: bool)
    ensures
        r == writes_to(t@.columns, key@),
{
    let mut i: usize = 0;
    while i < t.columns.len()
        invariant
            i <= t.columns@.len(),
            t@.columns.len() == t.columns@.len(),
            forall|j: int| 0 <= j < i ==> (#[trigger] t@.columns[j]).target != key@,
        decreases t.columns@.len() - i,
    {
        proof {
            assert(t@.columns[i as int] == t.columns@[i as int]@);
        }
        if same_text(t.columns[i].target.as_str(), key) {
            proof {
                assert(t@.columns[i as int].target == key@);
            }
            return true;
        }
        i += 1;
    }
    false
}

fn check_target(map: &str, t: &MapTable, schema: &Schema, key: &str) -> (r: Result<bool>)
    requires
        forall|i: int| 0 <= i < schema.tables@.len() ==> (#[trigger] schema.tables@[i]).key_wf(),
    ensures
        match r {
            Ok(missing) => target_fault(map@, t@, *schema, key@) is None && missing == (live_table_at(schema.tables@, t@.target, 0) is None),
            Err(e) => target_fault(map@, t@, *schema, key@) == Some(e@),
        },
{
    if writes_column(t, key) {
        let mut m = quoted_in("map `", map, "`: target column `");
        m.append(key);
        m.append("` collides with the target key");
        return Err(Error::Unsupported(m));
    }
    let d = match find_live_table(schema, t.target.as_str()) {
        None => {
            return Ok(true);
        },
        Some(d) => d,
    };
    assert(d.key_wf());
    let mut pk_ok = false;
    if d.primary_key.len() == 1 {
        assert(d.primary_key@[0] < d.columns@.len());
        pk_ok = same_text(d.columns[d.primary_key[0] as usize].name.as_str(), key);
    }
    if !pk_ok {
        return Err(
            Error::Unsupported(
                map_message(
                    map,
                    "`: existing target `",
                    t.target.as_str(),
                    "` must have `",
                    key,
                    "` as its single-column PRIMARY KEY",
                ),
            ),
        );
    }
    let mut i: usize = 0;
    while i < t.columns.len()
        invariant
            i <= t.columns@.len(),
            t@.columns.len() == t.columns@.len(),
            target_columns_fault(map@, t@, *d, 0) == target_columns_fault(map@, t@, *d, i as int),
            target_fault(map@, t@, *schema, key@) == target_columns_fault(map@, t@, *d, 0),
            live_table_at(schema.tables@, t@.target, 0) is Some,
        decreases t.columns@.len() - i,
    {
        let c = &t.columns[i];
        proof {
            assert(t@.columns[i as int] == c@);
        }
        if find_column(d, c.target.as_str()).is_none() {
            return Err(
                Error::Unsupported(
                    map_message(
                        map,
                        "`: existing target `",
                        t.target.as_str(),
                        "` has no column `",
                        c.target.as_str(),
                        "`",
                    ),
                ),
            );
        }
        i += 1;
    }
    Ok(false)
}

/// Resolve one mapped table of the map `map`.
fn resolve_table(map: &str, t: &MapTable, schema: &Schema) -> (r: Result<ResolvedTable>)
    requires
        forall|i: int| 0 <= i < schema.tables@.len() ==> (#[trigger] schema.tables@[i]).key_wf(),
    ensures
        match r {
            Ok(rt) => resolution(map@, t@, *schema) == Ok::<ResolvedModel, Fault>(rt@),
            Err(e) => resolution(map@, t@, *schema) == Err::<ResolvedModel, Fault>(e@),
        },
{
    let src = match find_live_table(schema, t.source.as_str()) {
        Some(s) => s,
        None => {
            let mut m = quoted_in("map `", map, "`: no source table `");
            m.append(t.source.as_str());
            m.append("`");
            return Err(Error::Unsupported(m));
        },
    };
    if src.primary_key.len() != 1 {
        let mut m = quoted_in("map `", map, "`: `");
        m.append(t.source.as_str());
        m.append(
            "` has no single row identity (one-column PK or implicit rowid) — composite PKs are refused",
        );
        return Err(Error::Unsupported(m));
    }
    assert(src.key_wf());
    assert(src.primary_key@[0] < src.columns@.len());
    let c = &src.columns[src.primary_key[0] as usize];
    let rowid_identity = src.implicit_rowid && same_text_folded(c.name.as_str(), "rowid");
    if let Err(e) = check_source_columns(map, t, src, c.name.as_str()) {
        return Err(e);
    }
    let dst_key: String = match &t.target_key {
        Some(k) => k.clone(),
        None => if rowid_identity {
            String::from_str("id")
        } else {
            c.name.clone()
        },
    };
    let create_dst = match check_target(map, t, schema, dst_key.as_str()) {
        Ok(b) => b,
        Err(e) => {
            return Err(e);
        },
    };
    Ok(
        ResolvedTable {
            src: t.source.clone(),
            dst: t.target.clone(),
            src_key: c.name.clone(),
            src_key_ty: c.ty,
            rowid_identity,
            dst_key,
            create_dst,
        },
    )
}

/// The mapped tables before `n` as the schema has them, or why the first
/// unfit one cannot be mapped.
pub open spec fn resolutions(m: SpecModel, schema: Schema, n: int) -> std::result::Result<Seq<ResolvedModel>, Fault>
    decreases n,
{
    if n <= 0 {
        Ok(Seq::empty())
    } else {
        match resolutions(m, schema, n - 1) {
            Err(f) => Err(f),
            Ok(before) => match resolution(m.name, m.tables[n - 1], schema) {
                Err(f) => Err(f),
                Ok(rt) => Ok(before.push(rt)),
            },
        }
    }
}

/// A map as the schema has it, or the first reason why it cannot be used: a
/// table that does not fit, or the pairs of a table that fits and do not load.
pub open spec fn map_resolution(m: SpecModel, schema: Schema, broken: Option<(int, Fault)>) -> std::result::Result<Seq<ResolvedModel>, Fault> {
    match broken {
        Some((i, f)) if 0 <= i < m.tables.len() => match resolutions(m, schema, i + 1) {
            Err(g) => Err(g),
            Ok(_) => Err(f),
        },
        _ => resolutions(m, schema, m.tables.len() as int),
    }
}

pub open spec fn broken_model(b: Option<(usize, Error)>) -> Option<(int, Fault)> {
    match b {
        Some((i, e)) => Some((i as int, e@)),
        None => None,
    }
}

pub open spec fn resolved_models(rs: Seq<ResolvedTable>) -> Seq<ResolvedModel> {
    rs.map_values(|t: ResolvedTable| t@)
}

/// A table that does not fit keeps every longer run of tables from resolving,
/// with the same fault.
proof fn lemma_resolutions_stop(m: SpecModel, schema: Schema, i: int, n: int)
    requires
        0 <= i <= n,
        resolutions(m, schema, i) is Err,
    ensures
        resolutions(m, schema, n) == resolutions(m, schema, i),
    decreases n - i,
{
    if i < n {
        lemma_resolutions_stop(m, schema, i, n - 1);
    }
}

/// Resolve every table of a map. `broken` is the first table with a pair that
/// does not load, with the reason; a table that does not fit comes before the
/// pairs of the same table.
pub fn resolve_map(spec: &MapSpec, schema: &Schema, broken: Option<(usize, Error)>) -> (r: Result<Vec<ResolvedTable>>)
    requires
        forall|i: int| 0 <= i < schema.tables@.len() ==> (#[trigger] schema.tables@[i]).key_wf(),
    ensures
        match r {
            Ok(rs) => map_resolution(spec@, *schema, broken_model(broken)) == Ok::<Seq<ResolvedModel>, Fault>(resolved_models(rs@)),
            Err(e) => map_resolution(spec@, *schema, broken_model(broken)) == Err::<Seq<ResolvedModel>, Fault>(e@),
        },
{
    let mut out: Vec<ResolvedTable> = Vec::new();
    let mut i: usize = 0;
    let n: usize = match &broken {
        Some((at, _)) => if *at < spec.tables.len() {
            *at + 1
        } else {
            spec.tables.len()
        },
        None => spec.tables.len(),
    };
    proof {
        assert(resolved_models(out@) =~= Seq::empty());
    }
    while i < n
        invariant
            i <= n <= spec.tables@.len(),
            spec@.tables.len() == spec.tables@.len(),
            forall|j: int| 0 <= j < schema.tables@.len() ==> (#[trigger] schema.tables@[j]).key_wf(),
            resolutions(spec@, *schema, i as int) == Ok::<Seq<ResolvedModel>, Fault>(resolved_models(out@)),
            resolutions(spec@, *schema, n as int) is Err ==> map_resolution(spec@, *schema, broken_model(broken)) == resolutions(spec@, *schema, n as int),
        decreases n - i,
    {
        proof {
            assert(spec@.tables[i as int] == spec.tables@[i as int]@);
        }
        match resolve_table(spec.name.as_str(), &spec.tables[i], schema) {
            Err(e) => {
                proof {
                    lemma_resolutions_stop(spec@, *schema, i + 1, n as int);
                }
                return Err(e);
            },
            Ok(rt) => {
                proof {
                    assert(resolved_models(out@.push(rt)) =~= resolved_models(out@).push(rt@));
                }
                out.push(rt);
            },
        }
        i += 1;
    }
    match broken {
        Some((at, e)) if at < spec.tables.len() => Err(e),
        _ => Ok(out),
    }
}

/// A target table to make.
#[derive(Debug)]
pub struct MirrorDef {
    pub name: String,
    /// The key column comes first.
    pub columns: Vec<(String, ColumnType)>,
    pub key: String,
}

/// The columns that a target is made with: its key with the type of the
/// source's, and one of any type for each mapped column.
pub open spec fn mirror_columns(rt: ResolvedModel, t: TableModel) -> Seq<(Seq<char>, ColumnType)> {
    seq![(rt.dst_key, rt.src_key_ty)] + t.columns.map_values(|c: ColumnModel| (c.target, ColumnType::Any))
}

pub open spec fn column_models(cs: Seq<(String, ColumnType)>) -> Seq<(Seq<char>, ColumnType)> {
    cs.map_values(|c: (String, ColumnType)| (c.0@, c.1))
}

/// The definition of the target of a mapped table, where it is to be made:
/// the schema does not have it, and neither has the transaction's list.
pub fn mirror_table(rt: &ResolvedTable, t: &MapTable, have: &Vec<(String, Vec<String>)>) -> (r: Option<MirrorDef>)
    ensures
        r is Some <==> rt.create_dst && named_at(have@, rt.dst@, 0) is None,
        r is Some ==> r->Some_0.name@ == rt.dst@ && r->Some_0.key@ == rt.dst_key@ && column_models(r->Some_0.columns@)
            == mirror_columns(rt@, t@),
{
    if !rt.create_dst {
        return None;
    }
    let mut i: usize = 0;
    while i < have.len()
        invariant
            i <= have@.len(),
            named_at(have@, rt.dst@, 0) == named_at(have@, rt.dst@, i as int),
        decreases have@.len() - i,
    {
        if same_text(have[i].0.as_str(), rt.dst.as_str()) {
            return None;
        }
        i += 1;
    }
    let mut columns: Vec<(String, ColumnType)> = Vec::new();
    columns.push((rt.dst_key.clone(), rt.src_key_ty));
    proof {
        assert(column_models(columns@) =~= mirror_columns(rt@, t@).take(1));
    }
    let mut j: usize = 0;
    while j < t.columns.len()
        invariant
            j <= t.columns@.len(),
            t@.columns.len() == t.columns@.len(),
            column_models(columns@) == mirror_columns(rt@, t@).take(j + 1),
        decreases t.columns@.len() - j,
    {
        let ghost before = columns@;
        columns.push((t.columns[j].target.clone(), ColumnType::Any));
        proof {
            assert(t@.columns[j as int] == t.columns@[j as int]@);
            let all = mirror_columns(rt@, t@);
            assert(all[j + 1] == (t@.columns[j as int].target, ColumnType::Any));
            assert(column_models(columns@) =~= column_models(before).push(all[j + 1]));
            assert(all.take(j + 2) =~= all.take(j + 1).push(all[j + 1]));
        }
        j += 1;
    }
    proof {
        assert(mirror_columns(rt@, t@).take(j + 1) =~= mirror_columns(rt@, t@));
    }
    Some(MirrorDef { name: rt.dst.clone(), columns, key: rt.dst_key.clone() })
}

/// A target that was made is one that the map accepts: once the schema has it,
/// under the same name, with the same columns and the same key, nothing is
/// wrong with the target.
pub proof fn law_made_target_is_accepted(map: Seq<char>, t: TableModel, schema: Schema, after: Schema, i: int)
    requires
        resolution(map, t, schema) is Ok,
        live_table_at(after.tables@, t.target, 0) == Some(i),
        0 <= i < after.tables@.len(),
        ({
            let rt = resolution(map, t, schema)->Ok_0;
            let d = after.tables@[i];
            &&& d.columns@.len() == mirror_columns(rt, t).len()
            &&& forall|j: int| 0 <= j < d.columns@.len() ==> (#[trigger] d.columns@[j]).name@ == mirror_columns(rt, t)[j].0
            &&& d.primary_key@ == seq![0u16]
        }),
    ensures
        target_fault(map, t, after, resolution(map, t, schema)->Ok_0.dst_key) is None,
{
    let rt = resolution(map, t, schema)->Ok_0;
    let d = after.tables@[i];
    assert(d.columns@[0].name@ == mirror_columns(rt, t)[0].0);
    lemma_made_columns(map, t, rt, d, 0);
}

proof fn lemma_made_columns(map: Seq<char>, t: TableModel, rt: ResolvedModel, d: TableDef, k: int)
    requires
        0 <= k <= t.columns.len(),
        d.columns@.len() == mirror_columns(rt, t).len(),
        forall|j: int| 0 <= j < d.columns@.len() ==> (#[trigger] d.columns@[j]).name@ == mirror_columns(rt, t)[j].0,
    ensures
        target_columns_fault(map, t, d, k) is None,
    decreases t.columns.len() - k,
{
    if k < t.columns.len() {
        assert(d.columns@[k + 1].name@ == mirror_columns(rt, t)[k + 1].0);
        lemma_column_found(d.columns@, t.columns[k].target, 0, k + 1);
        lemma_made_columns(map, t, rt, d, k + 1);
    }
}

proof fn lemma_column_found(cs: Seq<ColumnDef>, name: Seq<char>, from: int, at: int)
    requires
        0 <= from <= at < cs.len(),
        cs[at].name@ == name,
    ensures
        column_at(cs, name, from) is Some,
    decreases at - from,
{
    if from < at {
        lemma_column_found(cs, name, from + 1, at);
    }
}

proof fn lemma_source_columns(map: Seq<char>, t: TableModel, src: TableDef, key: Seq<char>, from: int)
    requires
        0 <= from <= t.columns.len(),
    ensures
        source_columns_fault(map, t, src, key, from) is None <==> forall|j: int|
            from <= j < t.columns.len() ==> (#[trigger] t.columns[j]).source != key && exists|c: int|
                0 <= c < src.columns@.len() && (#[trigger] src.columns@[c]).name@ == t.columns[j].source,
    decreases t.columns.len() - from,
{
    if from < t.columns.len() {
        lemma_source_columns(map, t, src, key, from + 1);
        crate::plan::law_column_found(src.columns@, t.columns[from].source, 0);
        match column_at(src.columns@, t.columns[from].source, 0) {
            Some(c) => {
                assert(src.columns@[c].name@ == t.columns[from].source);
            },
            None => {},
        }
    }
}

proof fn lemma_target_columns(map: Seq<char>, t: TableModel, dst: TableDef, from: int)
    requires
        0 <= from <= t.columns.len(),
    ensures
        target_columns_fault(map, t, dst, from) is None <==> forall|j: int|
            from <= j < t.columns.len() ==> exists|c: int|
                0 <= c < dst.columns@.len() && (#[trigger] dst.columns@[c]).name@ == (#[trigger] t.columns[j]).target,
    decreases t.columns.len() - from,
{
    if from < t.columns.len() {
        lemma_target_columns(map, t, dst, from + 1);
        crate::plan::law_column_found(dst.columns@, t.columns[from].target, 0);
        match column_at(dst.columns@, t.columns[from].target, 0) {
            Some(c) => {
                assert(dst.columns@[c].name@ == t.columns[from].target);
            },
            None => {
                assert(t.columns[from].target == t.columns[from].target);
            },
        }
    }
}

/// A table of a map resolves to what it names: the source's own key and the
/// key's type, the target under its own name, and a key there that is the one
/// the map gives, else the source's, where the hidden row number is shown as
/// `id`. It resolves exactly where the source has one key column and every
/// mapped column, none of them the key, no mapped column is the target's key,
/// and a target that is there has that key and every mapped column.
pub proof fn law_resolved_as_named(map: Seq<char>, t: TableModel, schema: Schema, i: int)
    requires
        live_table_at(schema.tables@, t.source, 0) == Some(i),
        0 <= i < schema.tables@.len(),
    ensures
        ({
            let src = schema.tables@[i];
            let key = src.columns@[src.primary_key@[0] as int];
            let rowid = src.implicit_rowid && same_folded(key.name@, "rowid"@);
            let dst_key = if t.target_key is Some { t.target_key->Some_0 } else if rowid { "id"@ } else { key.name@ };
            let there = live_table_at(schema.tables@, t.target, 0);
            &&& resolution(map, t, schema) is Ok <==> {
                &&& src.primary_key@.len() == 1
                &&& forall|j: int|
                    0 <= j < t.columns.len() ==> (#[trigger] t.columns[j]).source != key.name@ && t.columns[j].target != dst_key && exists|c: int|
                        0 <= c < src.columns@.len() && (#[trigger] src.columns@[c]).name@ == t.columns[j].source
                &&& there matches Some(d) ==> {
                    let dst = schema.tables@[d];
                    &&& dst.primary_key@.len() == 1
                    &&& dst.columns@[dst.primary_key@[0] as int].name@ == dst_key
                    &&& forall|j: int|
                        0 <= j < t.columns.len() ==> exists|c: int|
                            0 <= c < dst.columns@.len() && (#[trigger] dst.columns@[c]).name@ == (#[trigger] t.columns[j]).target
                }
            }
            &&& resolution(map, t, schema) matches Ok(rt) ==> rt.src == t.source && rt.dst == t.target && rt.src_key == key.name@
                && rt.src_key_ty == key.ty && rt.rowid_identity == rowid && rt.dst_key == dst_key && rt.create_dst == (there is None)
        }),
{
    let src = schema.tables@[i];
    let key = src.columns@[src.primary_key@[0] as int];
    let rowid = src.implicit_rowid && same_folded(key.name@, "rowid"@);
    let dst_key = target_key_name(t, key.name@, rowid);
    lemma_source_columns(map, t, src, key.name@, 0);
    match live_table_at(schema.tables@, t.target, 0) {
        Some(d) => lemma_target_columns(map, t, schema.tables@[d], 0),
        None => {},
    }
    if writes_to(t.columns, dst_key) {
        let j = choose|j: int| 0 <= j < t.columns.len() && (#[trigger] t.columns[j]).target == dst_key;
        assert(t.columns[j].target == dst_key);
    } else {
        assert forall|j: int| 0 <= j < t.columns.len() implies (#[trigger] t.columns[j]).target != dst_key by {}
    }
}

/// Without a live source table nothing resolves.
pub proof fn law_missing_source_is_refused(map: Seq<char>, t: TableModel, schema: Schema)
    requires
        forall|i: int| 0 <= i < schema.tables@.len() ==> (#[trigger] schema.tables@[i]).name@ != t.source || schema.tables@[i].dead,
    ensures
        resolution(map, t, schema) is Err,
{
    crate::plan::law_live_table_found(schema.tables@, t.source, 0);
}

/// A map resolves table by table, in order, each as it would alone; one table
/// that does not resolve, or a pair that does not load, stops it.
pub proof fn law_map_resolves_table_by_table(m: SpecModel, schema: Schema, n: int)
    requires
        0 <= n <= m.tables.len(),
    ensures
        resolutions(m, schema, n) matches Ok(rs) ==> rs.len() == n && forall|i: int|
            0 <= i < n ==> resolution(m.name, m.tables[i], schema) == Ok::<ResolvedModel, Fault>(#[trigger] rs[i]),
        (forall|i: int| 0 <= i < n ==> resolution(m.name, #[trigger] m.tables[i], schema) is Ok) ==> resolutions(m, schema, n) is Ok,
        forall|i: int, f: Fault| 0 <= i < m.tables.len() ==> (#[trigger] map_resolution(m, schema, Some((i, f)))) is Err,
        map_resolution(m, schema, None) == resolutions(m, schema, m.tables.len() as int),
    decreases n,
{
    if n > 0 {
        law_map_resolves_table_by_table(m, schema, n - 1);
    }
}

/// A target that is made has the key first, of the source key's type, then a
/// column of any type for each mapped one, in order.
pub proof fn law_made_target_columns(rt: ResolvedModel, t: TableModel)
    ensures
        mirror_columns(rt, t).len() == t.columns.len() + 1,
        mirror_columns(rt, t)[0] == (rt.dst_key, rt.src_key_ty),
        forall|i: int| 0 <= i < t.columns.len() ==> #[trigger] mirror_columns(rt, t)[i + 1] == (t.columns[i].target, ColumnType::Any),
{
}

} // verus!
