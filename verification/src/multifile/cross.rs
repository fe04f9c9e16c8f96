//! Statements that read across files.
//!
//! Such a statement is compiled against a merged schema: the live tables of
//! the main file under their own names, and each attached table under the
//! name `db.table`. A map takes a merged table to its file and its own table
//! there.

use vstd::prelude::*;
use vstd::string::StringExecFns;
use crate::error::{Error, Fault, Result};
use crate::multifile::attach::{member_at, AttachList, Attached};
use crate::plan::{find_live_table, live_table_at, table_id, Schema, TableDef};
use crate::text::{chars_of, quoted_in, texts};
use crate::utf8::{same_folded, same_text, same_text_folded};

verus! {

/// What the names of a statement resolve to.
pub enum DbResolution {
    /// The main file alone; the statement without its qualifiers.
    MainOnly(String),
    /// Tables of attached files.
    Cross { sql: String, tables: Vec<(String, String)>, main_free: bool },
    /// One attached file alone.
    AttachedOnly { db: String, sql: String },
}

/// Where a statement goes.
pub enum DbRoute {
    /// The main file, as it is.
    Passthrough,
    /// The main file, rewritten.
    Main(String),
    /// Across files.
    Cross { sql: String, tables: Vec<(String, String)>, main_free: bool },
    /// One attached file.
    AttachedOnly { db: String, sql: String },
}

/// The names that a database answers to: its live tables and its views.
pub open spec fn names_object(schema: Schema, views: Seq<String>, name: Seq<char>) -> bool {
    live_table_at(schema.tables@, name, 0) is Some || texts(views).contains(name)
}

proof fn lemma_live_table_named(tables: Seq<TableDef>, name: Seq<char>, i: int)
    requires
        0 <= i,
    ensures
        live_table_at(tables, name, i) is Some <==> exists|j: int| i <= j < tables.len() && !(#[trigger] tables[j]).dead && tables[j].name@ == name,
    decreases tables.len() - i,
{
    if i < tables.len() && (tables[i].dead || tables[i].name@ != name) {
        lemma_live_table_named(tables, name, i + 1);
    }
}

/// The names of a database, by which a statement's references are resolved.
pub fn build_scope(schema: &Schema, views: &Vec<String>) -> (r: Vec<String>)
    ensures
        forall|name: Seq<char>| #[trigger] texts(r@).contains(name) <==> names_object(*schema, views@, name),
{
    let mut out: Vec<String> = Vec::new();
    let mut i: usize = 0;
    proof {
        assert(texts(out@) =~= Seq::empty());
    }
    while i < schema.tables.len()
        invariant
            i <= schema.tables@.len(),
            forall|name: Seq<char>| #[trigger] texts(out@).contains(name) <==> exists|j: int|
                0 <= j < i && !(#[trigger] schema.tables@[j]).dead && schema.tables@[j].name@ == name,
        decreases schema.tables@.len() - i,
    {
        let t = &schema.tables[i];
        if !t.dead {
            let ghost before = texts(out@);
            out.push(t.name.clone());
            proof {
                assert(texts(out@) =~= before.push(t.name@));
                assert forall|name: Seq<char>| #[trigger] texts(out@).contains(name) <==> exists|j: int|
                    0 <= j < i + 1 && !(#[trigger] schema.tables@[j]).dead && schema.tables@[j].name@ == name by {
                    lemma_push_contains(before, t.name@, name);
                    if t.name@ == name {
                        assert(!schema.tables@[i as int].dead && schema.tables@[i as int].name@ == name);
                    }
                }
            }
        }
        i += 1;
    }
    let ghost tables = texts(out@);
    let mut k: usize = 0;
    while k < views.len()
        invariant
            k <= views@.len(),
            texts(out@) == tables + texts(views@).take(k as int),
        decreases views@.len() - k,
    {
        let ghost before = texts(out@);
        out.push(views[k].clone());
        proof {
            assert(texts(out@) =~= before.push(views@[k as int]@));
            assert(texts(views@).take(k + 1) =~= texts(views@).take(k as int).push(views@[k as int]@));
        }
        k += 1;
    }
    proof {
        assert(texts(views@).take(k as int) =~= texts(views@));
        assert forall|name: Seq<char>| #[trigger] texts(out@).contains(name) <==> names_object(*schema, views@, name) by {
            lemma_live_table_named(schema.tables@, name, 0);
            lemma_join_contains(tables, texts(views@), name);
        }
    }
    out
}

proof fn lemma_push_contains(s: Seq<Seq<char>>, x: Seq<char>, y: Seq<char>)
    ensures
        s.push(x).contains(y) <==> s.contains(y) || x == y,
{
    if s.contains(y) {
        assert(s.push(x)[s.index_of(y)] == y);
    }
    if x == y {
        assert(s.push(x)[s.len() as int] == y);
    }
}

proof fn lemma_join_contains(a: Seq<Seq<char>>, b: Seq<Seq<char>>, y: Seq<char>)
    ensures
        (a + b).contains(y) <==> a.contains(y) || b.contains(y),
{
    if a.contains(y) {
        assert((a + b)[a.index_of(y)] == y);
    }
    if b.contains(y) {
        assert((a + b)[a.len() + b.index_of(y)] == y);
    }
}

/// Names need to be resolved: something is attached, or there is a dot.
pub open spec fn needs_resolution(list: AttachList, sql: Seq<char>) -> bool {
    list.attached().len() > 0 || sql.contains('.')
}

impl AttachList {
    /// Whether the names of a statement need to be resolved at all.
    pub fn needs_resolution(&self, sql: &str) -> (r: bool)
        ensures
            r == needs_resolution(*self, sql@),
    {
        if self.members().len() > 0 {
            return true;
        }
        let cs = chars_of(sql);
        let mut i: usize = 0;
        while i < cs.len()
            invariant
                i <= cs@.len(),
                cs@ == sql@,
                forall|j: int| 0 <= j < i ==> #[trigger] cs@[j] != '.',
            decreases cs@.len() - i,
        {
            if cs[i] == '.' {
                assert(sql@[i as int] == '.');
                return true;
            }
            i += 1;
        }
        false
    }
}

/// Where a resolved statement goes. One that resolution left as it was
/// passes through, unless it came from a rewritten one.
pub fn route_of(sql: &str, rewritten: bool, resolution: DbResolution) -> (r: DbRoute)
    ensures
        match resolution {
            DbResolution::MainOnly(s) => if !rewritten && s@ == sql@ {
                r is Passthrough
            } else {
                r == DbRoute::Main(s)
            },
            DbResolution::Cross { sql, tables, main_free } => r == (DbRoute::Cross { sql, tables, main_free }),
            DbResolution::AttachedOnly { db, sql } => r == (DbRoute::AttachedOnly { db, sql }),
        },
{
    match resolution {
        DbResolution::MainOnly(s) => {
            if !rewritten && same_text(s.as_str(), sql) {
                DbRoute::Passthrough
            } else {
                DbRoute::Main(s)
            }
        },
        DbResolution::Cross { sql, tables, main_free } => DbRoute::Cross { sql, tables, main_free },
        DbResolution::AttachedOnly { db, sql } => DbRoute::AttachedOnly { db, sql },
    }
}

// ---------------------------------------------------------------- the merged schema

/// What a compile reads of an attached file.
pub struct MemberFacts {
    pub schema: Schema,
    pub schema_gen: u64,
    pub has_policies: bool,
}

/// An attached table of the merged schema.
pub struct Mangled {
    pub name: String,
    /// The file: 0 is the main one.
    pub slot: usize,
    /// The table there.
    pub local: u32,
}

/// The files and tables that a statement reads besides the main ones.
pub struct CrossSlots {
    /// The attached files; slot `k` is the name at `k - 1`.
    pub member_names: Vec<String>,
    /// The schema generation of every slot.
    pub gens: Vec<u64>,
    pub mangled: Vec<Mangled>,
}

/// The view of [`CrossSlots`].
pub struct SlotsModel {
    pub member_names: Seq<Seq<char>>,
    pub gens: Seq<u64>,
    pub mangled: Seq<(Seq<char>, int, int)>,
}

impl View for CrossSlots {
    type V = SlotsModel;

    open spec fn view(&self) -> SlotsModel {
        SlotsModel {
            member_names: self.member_names@.map_values(|s: String| s@),
            gens: self.gens@,
            mangled: self.mangled@.map_values(|m: Mangled| (m.name@, m.slot as int, m.local as int)),
        }
    }
}

/// The place of the live table of that name, up to case, from `i` on.
pub open spec fn folded_table_at(tables: Seq<TableDef>, name: Seq<char>, i: int) -> Option<int>
    decreases tables.len() - i,
{
    if i < 0 || i >= tables.len() {
        None
    } else if !tables[i].dead && same_folded(tables[i].name@, name) {
        Some(i)
    } else {
        folded_table_at(tables, name, i + 1)
    }
}

fn find_folded_table(schema: &Schema, name: &str) -> (r: Option<usize>)
    ensures
        match r {
            Some(i) => i < schema.tables@.len() && folded_table_at(schema.tables@, name@, 0) == Some(i as int),
            None => folded_table_at(schema.tables@, name@, 0) is None,
        },
{
    let mut i: usize = 0;
    while i < schema.tables.len()
        invariant
            i <= schema.tables@.len(),
            folded_table_at(schema.tables@, name@, 0) == folded_table_at(schema.tables@, name@, i as int),
        decreases schema.tables@.len() - i,
    {
        let t = &schema.tables[i];
        if !t.dead && same_text_folded(t.name.as_str(), name) {
            return Some(i);
        }
        i += 1;
    }
    None
}

/// The place of the name, up to case, from `i` on.
pub open spec fn slot_name_at(names: Seq<Seq<char>>, name: Seq<char>, i: int) -> Option<int>
    decreases names.len() - i,
{
    if i < 0 || i >= names.len() {
        None
    } else if same_folded(names[i], name) {
        Some(i)
    } else {
        slot_name_at(names, name, i + 1)
    }
}

/// The name of an attached table in the merged schema.
pub open spec fn mangled_name(db: Seq<char>, table: Seq<char>) -> Seq<char> {
    db + "."@ + table
}

pub open spec fn no_such_table(db: Seq<char>, table: Seq<char>) -> Fault {
    Fault::Bind("no such table: "@ + db + "."@ + table)
}

/// What one more table reference adds.
pub open spec fn add_reference(
    s: SlotsModel,
    list: Seq<Attached>,
    facts: Seq<MemberFacts>,
    main: Schema,
    db: Seq<char>,
    table: Seq<char>,
) -> std::result::Result<SlotsModel, Fault> {
    match member_at(list, db, 0) {
        None => Err(no_such_table(db, table)),
        Some(mi) => {
            let name = list[mi].name@;
            let known = slot_name_at(s.member_names, name, 0);
            if known is None && facts[mi].has_policies {
                Err(
                    Fault::Unsupported(
                        "cross-file SELECT from attached database `"@ + name + "` is not supported: it declares RLS policies (v1)"@,
                    ),
                )
            } else {
                let slot = match known {
                    Some(k) => k + 1,
                    None => s.member_names.len() as int + 1,
                };
                match folded_table_at(facts[mi].schema.tables@, table, 0) {
                    None => Err(no_such_table(db, table)),
                    Some(t) => {
                        let m = mangled_name(name, table);
                        if live_table_at(main.tables@, m, 0) is Some {
                            Err(
                                Fault::Unsupported(
                                    "a main table is literally named `"@ + m
                                        + "`, which collides with the attached reference; rename one"@,
                                ),
                            )
                        } else {
                            Ok(
                                SlotsModel {
                                    member_names: if known is None { s.member_names.push(name) } else { s.member_names },
                                    gens: if known is None { s.gens.push(facts[mi].schema_gen) } else { s.gens },
                                    mangled: s.mangled.push((m, slot, t)),
                                },
                            )
                        }
                    },
                }
            }
        },
    }
}

/// What the first `n` table references give.
pub open spec fn references(
    tables: Seq<(String, String)>,
    n: nat,
    list: Seq<Attached>,
    facts: Seq<MemberFacts>,
    main: Schema,
    main_gen: u64,
) -> std::result::Result<SlotsModel, Fault>
    decreases n,
{
    if n == 0 {
        Ok(SlotsModel { member_names: Seq::empty(), gens: seq![main_gen], mangled: Seq::empty() })
    } else {
        match references(tables, (n - 1) as nat, list, facts, main, main_gen) {
            Err(f) => Err(f),
            Ok(s) => add_reference(s, list, facts, main, tables[n - 1].0@, tables[n - 1].1@),
        }
    }
}

/// The files and tables that a statement reads besides the main ones, or why
/// it cannot. Policies are checked file by file, which a plan over merged
/// tables cannot express, so it is refused where there are any.
pub open spec fn cross_prepared(
    tables: Seq<(String, String)>,
    list: Seq<Attached>,
    facts: Seq<MemberFacts>,
    main: Schema,
    main_gen: u64,
    main_policies: bool,
) -> std::result::Result<SlotsModel, Fault> {
    if main_policies {
        Err(Fault::Unsupported("cross-file SELECT is not supported on a database with RLS policies (v1)"@))
    } else {
        references(tables, tables.len(), list, facts, main, main_gen)
    }
}

fn find_slot(names: &Vec<String>, name: &str) -> (r: Option<usize>)
    ensures
        ({
            let ns = names@.map_values(|s: String| s@);
            match r {
                Some(i) => i < names@.len() && slot_name_at(ns, name@, 0) == Some(i as int),
                None => slot_name_at(ns, name@, 0) is None,
            }
        }),
{
    let ghost ns = names@.map_values(|s: String| s@);
    let mut i: usize = 0;
    while i < names.len()
        invariant
            i <= names@.len(),
            ns == names@.map_values(|s: String| s@),
            slot_name_at(ns, name@, 0) == slot_name_at(ns, name@, i as int),
        decreases names@.len() - i,
    {
        if same_text_folded(names[i].as_str(), name) {
            return Some(i);
        }
        i += 1;
    }
    None
}

fn missing_table(db: &str, table: &str) -> (e: Error)
    ensures
        e@ == no_such_table(db@, table@),
{
    let mut m = quoted_in("no such table: ", db, ".");
    m.append(table);
    Error::Bind(m)
}

fn add_one(
    s: &mut CrossSlots,
    list: &AttachList,
    facts: &Vec<MemberFacts>,
    main: &Schema,
    db: &str,
    table: &str,
) -> (r: Result<()>)
    requires
        facts@.len() == list.attached().len(),
        forall|i: int| 0 <= i < facts@.len() ==> (#[trigger] facts@[i]).schema.tables@.len() <= u32::MAX,
        old(s).member_names@.len() < usize::MAX,
    ensures
        match r {
            Ok(_) => add_reference(old(s)@, list.attached(), facts@, *main, db@, table@) == Ok::<SlotsModel, Fault>(final(s)@),
            Err(e) => add_reference(old(s)@, list.attached(), facts@, *main, db@, table@) == Err::<SlotsModel, Fault>(e@),
        },
        final(s).member_names@.len() <= old(s).member_names@.len() + 1,
{
    let ghost start = s@;
    let mi = match list.find(db) {
        Some(mi) => mi,
        None => {
            return Err(missing_table(db, table));
        },
    };
    let name = list.members()[mi].name.as_str();
    let known = find_slot(&s.member_names, name);
    if known.is_none() && facts[mi].has_policies {
        return Err(
            Error::Unsupported(
                quoted_in(
                    "cross-file SELECT from attached database `",
                    name,
                    "` is not supported: it declares RLS policies (v1)",
                ),
            ),
        );
    }
    let slot: usize = match known {
        Some(k) => k + 1,
        None => s.member_names.len() + 1,
    };
    let t = match find_folded_table(&facts[mi].schema, table) {
        Some(t) => t,
        None => {
            return Err(missing_table(db, table));
        },
    };
    assert(facts@[mi as int].schema.tables@.len() <= u32::MAX);
    let mangled = quoted_in(name, ".", table);
    if find_live_table(main, mangled.as_str()).is_some() {
        return Err(
            Error::Unsupported(
                quoted_in(
                    "a main table is literally named `",
                    mangled.as_str(),
                    "`, which collides with the attached reference; rename one",
                ),
            ),
        );
    }
    if known.is_none() {
        s.member_names.push(list.members()[mi].name.clone());
        s.gens.push(facts[mi].schema_gen);
        proof {
            assert(s@.member_names =~= start.member_names.push(name@));
        }
    }
    s.mangled.push(Mangled { name: mangled, slot, local: t as u32 });
    proof {
        assert(s@.mangled =~= start.mangled.push((mangled@, slot as int, t as int)));
    }
    Ok(())
}

/// The files and tables that a statement reads besides the main ones.
pub fn cross_layout(
    tables: &Vec<(String, String)>,
    list: &AttachList,
    facts: &Vec<MemberFacts>,
    main: &Schema,
    main_gen: u64,
    main_policies: bool,
) -> (r: Result<CrossSlots>)
    requires
        facts@.len() == list.attached().len(),
        forall|i: int| 0 <= i < facts@.len() ==> (#[trigger] facts@[i]).schema.tables@.len() <= u32::MAX,
    ensures
        match r {
            Ok(s) => cross_prepared(tables@, list.attached(), facts@, *main, main_gen, main_policies) == Ok::<SlotsModel, Fault>(s@),
            Err(e) => cross_prepared(tables@, list.attached(), facts@, *main, main_gen, main_policies) == Err::<SlotsModel, Fault>(e@),
        },
{
    if main_policies {
        return Err(
            Error::Unsupported(
                String::from_str("cross-file SELECT is not supported on a database with RLS policies (v1)"),
            ),
        );
    }
    let mut gens: Vec<u64> = Vec::new();
    gens.push(main_gen);
    let mut s = CrossSlots { member_names: Vec::new(), gens, mangled: Vec::new() };
    let mut i: usize = 0;
    proof {
        let first = SlotsModel { member_names: Seq::empty(), gens: seq![main_gen], mangled: Seq::empty() };
        assert(s@.member_names =~= first.member_names);
        assert(s@.gens =~= first.gens);
        assert(s@.mangled =~= first.mangled);
    }
    while i < tables.len()
        invariant
            i <= tables@.len(),
            !main_policies,
            facts@.len() == list.attached().len(),
            forall|j: int| 0 <= j < facts@.len() ==> (#[trigger] facts@[j]).schema.tables@.len() <= u32::MAX,
            s.member_names@.len() <= i,
            references(tables@, i as nat, list.attached(), facts@, *main, main_gen) == Ok::<SlotsModel, Fault>(s@),
        decreases tables@.len() - i,
    {
        match add_one(&mut s, list, facts, main, tables[i].0.as_str(), tables[i].1.as_str()) {
            Ok(_) => {},
            Err(e) => {
                proof {
                    lemma_reference_fault(tables@, (i + 1) as nat, tables@.len(), list.attached(), facts@, *main, main_gen);
                }
                return Err(e);
            },
        }
        i += 1;
    }
    Ok(s)
}

proof fn lemma_reference_fault(
    tables: Seq<(String, String)>,
    m: nat,
    n: nat,
    list: Seq<Attached>,
    facts: Seq<MemberFacts>,
    main: Schema,
    main_gen: u64,
)
    requires
        m <= n,
        references(tables, m, list, facts, main, main_gen) is Err,
    ensures
        references(tables, n, list, facts, main, main_gen) == references(tables, m, list, facts, main, main_gen),
    decreases n,
{
    if m < n {
        lemma_reference_fault(tables, m, (n - 1) as nat, list, facts, main, main_gen);
    }
}

/// The first attached table of that merged name from `i` on.
pub open spec fn mangled_at(mangled: Seq<(Seq<char>, int, int)>, name: Seq<char>, i: int) -> Option<int>
    decreases mangled.len() - i,
{
    if i < 0 || i >= mangled.len() {
        None
    } else if mangled[i].0 == name {
        Some(i)
    } else {
        mangled_at(mangled, name, i + 1)
    }
}

/// The file and the table there of a merged table.
pub open spec fn merged_place(name: Seq<char>, mangled: Seq<(Seq<char>, int, int)>, main: Schema) -> Option<(int, int)> {
    match mangled_at(mangled, name, 0) {
        Some(i) => Some((mangled[i].1, mangled[i].2)),
        None => match live_table_at(main.tables@, name, 0) {
            Some(t) => Some((0, t)),
            None => None,
        },
    }
}

fn find_mangled(mangled: &Vec<Mangled>, name: &str) -> (r: Option<usize>)
    ensures
        ({
            let ms = mangled@.map_values(|m: Mangled| (m.name@, m.slot as int, m.local as int));
            match r {
                Some(i) => i < mangled@.len() && mangled_at(ms, name@, 0) == Some(i as int),
                None => mangled_at(ms, name@, 0) is None,
            }
        }),
{
    let ghost ms = mangled@.map_values(|m: Mangled| (m.name@, m.slot as int, m.local as int));
    let mut i: usize = 0;
    while i < mangled.len()
        invariant
            i <= mangled@.len(),
            ms == mangled@.map_values(|m: Mangled| (m.name@, m.slot as int, m.local as int)),
            mangled_at(ms, name@, 0) == mangled_at(ms, name@, i as int),
        decreases mangled@.len() - i,
    {
        if same_text(mangled[i].name.as_str(), name) {
            return Some(i);
        }
        i += 1;
    }
    None
}

/// Where every table of the merged schema, given by name, is found.
pub fn cross_map(merged: &Vec<String>, slots: &CrossSlots, main: &Schema) -> (r: Result<Vec<(usize, u32)>>)
    requires
        main.tables@.len() <= u32::MAX,
    ensures
        match r {
            Ok(map) => map@.len() == merged@.len() && forall|i: int|
                0 <= i < map@.len() ==> merged_place((#[trigger] merged@[i])@, slots@.mangled, *main) == Some(
                    (map@[i].0 as int, map@[i].1 as int),
                ),
            Err(e) => exists|i: int| #![trigger merged@[i]]
                0 <= i < merged@.len() && merged_place(merged@[i]@, slots@.mangled, *main) is None && e@ == Fault::Internal(
                    "merged table `"@ + merged@[i]@ + "` missing from the main schema"@,
                ) && forall|j: int| 0 <= j < i ==> merged_place((#[trigger] merged@[j])@, slots@.mangled, *main) is Some,
        },
{
    let mut map: Vec<(usize, u32)> = Vec::with_capacity(merged.len());
    let mut i: usize = 0;
    while i < merged.len()
        invariant
            i <= merged@.len(),
            main.tables@.len() <= u32::MAX,
            map@.len() == i,
            forall|j: int| 0 <= j < i ==> merged_place((#[trigger] merged@[j])@, slots@.mangled, *main) == Some(
                (map@[j].0 as int, map@[j].1 as int),
            ),
        decreases merged@.len() - i,
    {
        let name = merged[i].as_str();
        match find_mangled(&slots.mangled, name) {
            Some(k) => {
                map.push((slots.mangled[k].slot, slots.mangled[k].local));
            },
            None => match table_id(main, name) {
                Some(t) => {
                    map.push((0, t));
                },
                None => {
                    assert(merged_place(merged@[i as int]@, slots@.mangled, *main) is None);
                    return Err(
                        Error::Internal(quoted_in("merged table `", name, "` missing from the main schema")),
                    );
                },
            },
        }
        i += 1;
    }
    Ok(map)
}

/// The merged schema could not be made.
pub fn schema_refused(reason: &str) -> (e: Error)
    ensures
        e@ == Fault::Unsupported("cannot build the cross-file schema for this statement: "@ + reason@),
{
    let mut m = String::from_str("cannot build the cross-file schema for this statement: ");
    m.append(reason);
    Error::Unsupported(m)
}

/// A plan across files only reads.
pub fn read_only_gate(read_only: bool) -> (r: Result<()>)
    ensures
        match r {
            Ok(_) => read_only,
            Err(e) => !read_only && e@ == Fault::Unsupported("cross-file statements are read-only in v1"@),
        },
{
    if !read_only {
        return Err(Error::Unsupported(String::from_str("cross-file statements are read-only in v1")));
    }
    Ok(())
}

// ---------------------------------------------------------------- running

/// What a compiled plan across files depends on.
pub struct CrossPlan {
    pub member_names: Vec<String>,
    pub gens: Vec<u64>,
    /// The epoch of the attach list at the compile.
    pub epoch: u64,
}

impl CrossPlan {
    /// There is a generation for the main file and one for every member.
    pub open spec fn wf(&self) -> bool {
        self.gens@.len() == self.member_names@.len() + 1
    }
}

/// The attach list and all the schemas are those that the plan was compiled
/// with.
pub open spec fn cross_current(cp: CrossPlan, list: AttachList, main_gen: u64, gens: Seq<u64>) -> bool {
    &&& list.moves() == cp.epoch
    &&& main_gen == cp.gens@[0]
    &&& forall|k: int| #![trigger cp.member_names@[k]]
        0 <= k < cp.member_names@.len() ==> {
            let at = member_at(list.attached(), cp.member_names@[k]@, 0);
            at is Some && gens[at->Some_0] == cp.gens@[k + 1]
        }
}

/// Whether a plan can run, given the live generations of the main file and of
/// every attached one, and on which members its slots are. A plan that
/// cannot is dropped.
pub fn cross_check(cp: &CrossPlan, list: &AttachList, main_gen: u64, gens: &Vec<u64>) -> (r: Result<Vec<usize>>)
    requires
        cp.wf(),
        gens@.len() == list.attached().len(),
    ensures
        match r {
            Ok(at) => cross_current(*cp, *list, main_gen, gens@) && at@.len() == cp.member_names@.len() && forall|k: int|
                0 <= k < at@.len() ==> member_at(list.attached(), (#[trigger] cp.member_names@[k])@, 0) == Some(at@[k] as int),
            Err(e) => !cross_current(*cp, *list, main_gen, gens@) && e@ == Fault::PlanInvalidated,
        },
{
    if list.epoch() != cp.epoch {
        return Err(Error::PlanInvalidated);
    }
    if main_gen != cp.gens[0] {
        return Err(Error::PlanInvalidated);
    }
    let mut out: Vec<usize> = Vec::with_capacity(cp.member_names.len());
    let mut k: usize = 0;
    while k < cp.member_names.len()
        invariant
            k <= cp.member_names@.len(),
            cp.wf(),
            gens@.len() == list.attached().len(),
            list.moves() == cp.epoch,
            main_gen == cp.gens@[0],
            out@.len() == k,
            forall|j: int| 0 <= j < k ==> member_at(list.attached(), (#[trigger] cp.member_names@[j])@, 0) == Some(out@[j] as int)
                && out@[j] < gens@.len() && gens@[out@[j] as int] == cp.gens@[j + 1],
        decreases cp.member_names@.len() - k,
    {
        match list.find(cp.member_names[k].as_str()) {
            None => {
                assert(member_at(list.attached(), cp.member_names@[k as int]@, 0) is None);
                return Err(Error::PlanInvalidated);
            },
            Some(i) => {
                if gens[i] != cp.gens[k + 1] {
                    assert(member_at(list.attached(), cp.member_names@[k as int]@, 0) == Some(i as int));
                    return Err(Error::PlanInvalidated);
                }
                out.push(i);
            },
        }
        k += 1;
    }
    Ok(out)
}

/// Routes a row operation on a merged table to its file. A table that is not
/// in the map is the main file's own.
pub struct MultiCtx<'t> {
    pub map: &'t Vec<(usize, u32)>,
}

impl<'t> MultiCtx<'t> {
    /// The file and the table there.
    pub fn slot(&self, table: u32) -> (r: (usize, u32))
        ensures
            r == (if table < self.map@.len() { self.map@[table as int] } else { (0usize, table) }),
    {
        if (table as usize) < self.map.len() {
            self.map[table as usize]
        } else {
            (0, table)
        }
    }
}

/// The answer to a write across files, which no plan holds.
pub fn cross_write_bug() -> (e: Error)
    ensures
        e@ == Fault::Internal("cross-file plan routed a write operation"@),
{
    Error::Internal(String::from_str("cross-file plan routed a write operation"))
}

// ---------------------------------------------------------------- laws

/// Every merged table is found where its name says: an attached one in its
/// file under the name it was referenced by, any other one among the live
/// tables of the main file.
pub proof fn law_cross_map_names(
    tables: Seq<(String, String)>,
    n: nat,
    list: Seq<Attached>,
    facts: Seq<MemberFacts>,
    main: Schema,
    main_gen: u64,
    i: int,
)
    requires
        n <= tables.len(),
        references(tables, n, list, facts, main, main_gen) is Ok,
        0 <= i < n,
    ensures
        ({
            let s = references(tables, n, list, facts, main, main_gen)->Ok_0;
            let mi = member_at(list, tables[i].0@, 0)->Some_0;
            let (name, slot, local) = s.mangled[i];
            &&& s.mangled.len() == n
            &&& member_at(list, tables[i].0@, 0) is Some
            &&& name == mangled_name(list[mi].name@, tables[i].1@)
            &&& 1 <= slot <= s.member_names.len()
            &&& same_folded(s.member_names[slot - 1], list[mi].name@)
            &&& folded_table_at(facts[mi].schema.tables@, tables[i].1@, 0) == Some(local)
            &&& live_table_at(main.tables@, name, 0) is None
        }),
    decreases n,
{
    let prev = references(tables, (n - 1) as nat, list, facts, main, main_gen)->Ok_0;
    let s = references(tables, n, list, facts, main, main_gen)->Ok_0;
    lemma_reference_count(tables, (n - 1) as nat, list, facts, main, main_gen);
    let last = member_at(list, tables[n - 1].0@, 0)->Some_0;
    if i < n - 1 {
        law_cross_map_names(tables, (n - 1) as nat, list, facts, main, main_gen, i);
        assert(s.mangled[i] == prev.mangled[i]);
    } else {
        lemma_slot_name(prev.member_names, list[last].name@, 0);
        assert(same_folded(list[last].name@, list[last].name@));
    }
}

proof fn lemma_reference_count(
    tables: Seq<(String, String)>,
    n: nat,
    list: Seq<Attached>,
    facts: Seq<MemberFacts>,
    main: Schema,
    main_gen: u64,
)
    requires
        references(tables, n, list, facts, main, main_gen) is Ok,
    ensures
        references(tables, n, list, facts, main, main_gen)->Ok_0.mangled.len() == n,
    decreases n,
{
    if n > 0 {
        lemma_reference_count(tables, (n - 1) as nat, list, facts, main, main_gen);
    }
}

proof fn lemma_slot_name(names: Seq<Seq<char>>, name: Seq<char>, from: int)
    requires
        0 <= from,
    ensures
        slot_name_at(names, name, from) matches Some(k) ==> from <= k < names.len() && same_folded(names[k], name),
    decreases names.len() - from,
{
    if from < names.len() && !same_folded(names[from], name) {
        lemma_slot_name(names, name, from + 1);
    }
}

/// A plan compiled before an ATTACH or a DETACH never runs after it: the
/// epoch only grows.
pub proof fn law_stale_after_attach(cp: CrossPlan, before: AttachList, after: AttachList, main_gen: u64, gens: Seq<u64>)
    requires
        cp.epoch <= before.moves(),
        after.moves() > before.moves(),
    ensures
        !cross_current(cp, after, main_gen, gens),
{
}

/// A table of another file is found by its name, up to case, among the live
/// ones.
pub proof fn law_member_table_found(tables: Seq<TableDef>, name: Seq<char>, from: int)
    requires
        0 <= from <= tables.len(),
    ensures
        match folded_table_at(tables, name, from) {
            Some(i) => from <= i < tables.len() && !tables[i].dead && same_folded(tables[i].name@, name) && forall|j: int|
                from <= j < i ==> (#[trigger] tables[j]).dead || !same_folded(tables[j].name@, name),
            None => forall|j: int| from <= j < tables.len() ==> (#[trigger] tables[j]).dead || !same_folded(tables[j].name@, name),
        },
    decreases tables.len() - from,
{
    if from < tables.len() {
        law_member_table_found(tables, name, from + 1);
    }
}

proof fn lemma_mangled_found(mangled: Seq<(Seq<char>, int, int)>, name: Seq<char>, from: int)
    requires
        0 <= from <= mangled.len(),
    ensures
        match mangled_at(mangled, name, from) {
            Some(i) => from <= i < mangled.len() && mangled[i].0 == name,
            None => forall|j: int| from <= j < mangled.len() ==> (#[trigger] mangled[j]).0 != name,
        },
    decreases mangled.len() - from,
{
    if from < mangled.len() {
        lemma_mangled_found(mangled, name, from + 1);
    }
}

/// A table of a merged schema is read where it lives: one that stands for a
/// table of another file in that file's slot, under its number there; any other
/// in the main file, under its number in the main schema.
pub proof fn law_merged_table_is_read_where_it_lives(name: Seq<char>, mangled: Seq<(Seq<char>, int, int)>, main: Schema)
    ensures
        match merged_place(name, mangled, main) {
            Some((slot, local)) => (exists|i: int| 0 <= i < mangled.len() && #[trigger] mangled[i] == (name, slot, local)) || (slot == 0 && 0 <= local
                < main.tables@.len() && main.tables@[local].name@ == name && !main.tables@[local].dead && forall|i: int|
                0 <= i < mangled.len() ==> (#[trigger] mangled[i]).0 != name),
            None => (forall|i: int| 0 <= i < mangled.len() ==> (#[trigger] mangled[i]).0 != name) && forall|t: int|
                0 <= t < main.tables@.len() ==> (#[trigger] main.tables@[t]).name@ != name || main.tables@[t].dead,
        },
{
    lemma_mangled_found(mangled, name, 0);
    crate::plan::law_live_table_found(main.tables@, name, 0);
    match mangled_at(mangled, name, 0) {
        Some(i) => {
            assert(mangled[i] == (name, mangled[i].1, mangled[i].2));
        },
        None => {},
    }
}

/// No statement across files goes round a policy: neither over a main file that
/// has any, nor into another file that does.
pub proof fn law_policies_stop_cross_reads(
    tables: Seq<(String, String)>,
    n: nat,
    list: Seq<Attached>,
    facts: Seq<MemberFacts>,
    main: Schema,
    main_gen: u64,
    k: int,
)
    requires
        n <= tables.len(),
        references(tables, n, list, facts, main, main_gen) is Ok,
        facts.len() == list.len(),
        0 <= k < references(tables, n, list, facts, main, main_gen)->Ok_0.member_names.len(),
    ensures
        ({
            let s = references(tables, n, list, facts, main, main_gen)->Ok_0;
            // whoever is read from, and of which schema
            &&& s.gens.len() == s.member_names.len() + 1
            &&& s.gens[0] == main_gen
            &&& exists|m: int|
                0 <= m < list.len() && (#[trigger] list[m]).name@ == s.member_names[k] && !facts[m].has_policies && s.gens[k + 1] == facts[m].schema_gen
        }),
        cross_prepared(tables, list, facts, main, main_gen, true) is Err,
    decreases n,
{
    if n > 0 {
        let before = references(tables, (n - 1) as nat, list, facts, main, main_gen)->Ok_0;
        let now = references(tables, n, list, facts, main, main_gen)->Ok_0;
        lemma_gens(tables, n, list, facts, main, main_gen);
        lemma_gens(tables, (n - 1) as nat, list, facts, main, main_gen);
        if k < before.member_names.len() {
            law_policies_stop_cross_reads(tables, (n - 1) as nat, list, facts, main, main_gen, k);
            let m = choose|m: int|
                0 <= m < list.len() && (#[trigger] list[m]).name@ == before.member_names[k] && !facts[m].has_policies && before.gens[k + 1]
                    == facts[m].schema_gen;
            assert(list[m].name@ == now.member_names[k]);
            assert(now.gens[k + 1] == before.gens[k + 1]);
        } else {
            crate::multifile::attach::law_member_found(list, tables[n - 1].0@, 0);
            let m = member_at(list, tables[n - 1].0@, 0)->Some_0;
            assert(list[m].name@ == now.member_names[k]);
        }
    }
}

proof fn lemma_gens(tables: Seq<(String, String)>, n: nat, list: Seq<Attached>, facts: Seq<MemberFacts>, main: Schema, main_gen: u64)
    requires
        n <= tables.len(),
        references(tables, n, list, facts, main, main_gen) is Ok,
    ensures
        ({
            let s = references(tables, n, list, facts, main, main_gen)->Ok_0;
            s.gens.len() == s.member_names.len() + 1 && s.gens[0] == main_gen
        }),
    decreases n,
{
    if n > 0 {
        lemma_gens(tables, (n - 1) as nat, list, facts, main, main_gen);
    }
}

/// A plan across files runs only on the schemas that it was made for: one that
/// moved on, in the main file or in any other, stops it.
pub proof fn law_moved_schema_stops_plan(cp: CrossPlan, list: AttachList, main_gen: u64, gens: Seq<u64>, k: int)
    requires
        cp.wf(),
        0 <= k < cp.member_names@.len(),
        cross_current(cp, list, main_gen, gens),
    ensures
        main_gen == cp.gens@[0],
        list.moves() == cp.epoch,
        exists|m: int| 0 <= m < list.attached().len() && same_folded((#[trigger] list.attached()[m]).name@, cp.member_names@[k]@) && gens[m] == cp.gens@[k + 1],
{
    crate::multifile::attach::law_member_found(list.attached(), cp.member_names@[k]@, 0);
    let m = member_at(list.attached(), cp.member_names@[k]@, 0)->Some_0;
    assert(same_folded(list.attached()[m].name@, cp.member_names@[k]@));
}

/// A statement needs to be resolved only where another file can be meant.
pub proof fn law_lone_statement_is_not_resolved(list: AttachList, sql: Seq<char>)
    ensures
        !needs_resolution(list, sql) <==> list.attached().len() == 0 && forall|i: int| 0 <= i < sql.len() ==> #[trigger] sql[i] != '.',
{
    assert(sql.contains('.') <==> !(forall|i: int| 0 <= i < sql.len() ==> #[trigger] sql[i] != '.'));
}

} // verus!
