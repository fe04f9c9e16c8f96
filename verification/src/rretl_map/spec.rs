//! The mapping document: a source table set mirrored into a target set.

use vstd::prelude::*;
use toml::Value as TomlValue;
use vstd::string::StringExecFns;
use crate::error::{Error, Fault, Result};
use crate::rretl::{bookkeeping, is_bookkeeping};
use crate::rretl_map::toml_doc::{parse_toml, toml_as_array, toml_as_str, toml_get, toml_parsed, toml_tree, TomlTree};
use crate::text::{chars_of, quoted_in};
use crate::utf8::same_text;

verus! {

/// One mapped column; without a pair it is copied.
#[derive(Debug)]
pub struct MapColumn {
    pub source: String,
    pub target: String,
    pub pair: Option<String>,
}

/// One mapped table.
#[derive(Debug)]
pub struct MapTable {
    pub source: String,
    pub target: String,
    /// The target's key column; by default named like the source's identity.
    pub target_key: Option<String>,
    pub columns: Vec<MapColumn>,
}

/// A mapping.
#[derive(Debug)]
pub struct MapSpec {
    pub name: String,
    pub tables: Vec<MapTable>,
}

/// The view of a [`MapColumn`].
pub struct ColumnModel {
    pub source: Seq<char>,
    pub target: Seq<char>,
    pub pair: Option<Seq<char>>,
}

/// The view of a [`MapTable`].
pub struct TableModel {
    pub source: Seq<char>,
    pub target: Seq<char>,
    pub target_key: Option<Seq<char>>,
    pub columns: Seq<ColumnModel>,
}

/// The view of a [`MapSpec`].
pub struct SpecModel {
    pub name: Seq<char>,
    pub tables: Seq<TableModel>,
}

pub open spec fn opt_string(s: Option<String>) -> Option<Seq<char>> {
    match s {
        Some(t) => Some(t@),
        None => None,
    }
}

impl View for MapColumn {
    type V = ColumnModel;

    open spec fn view(&self) -> ColumnModel {
        ColumnModel { source: self.source@, target: self.target@, pair: opt_string(self.pair) }
    }
}

pub open spec fn column_models(cs: Seq<MapColumn>) -> Seq<ColumnModel> {
    cs.map_values(|c: MapColumn| c@)
}

impl View for MapTable {
    type V = TableModel;

    open spec fn view(&self) -> TableModel {
        TableModel {
            source: self.source@,
            target: self.target@,
            target_key: opt_string(self.target_key),
            columns: column_models(self.columns@),
        }
    }
}

pub open spec fn table_models(ts: Seq<MapTable>) -> Seq<TableModel> {
    ts.map_values(|t: MapTable| t@)
}

impl View for MapSpec {
    type V = SpecModel;

    open spec fn view(&self) -> SpecModel {
        SpecModel { name: self.name@, tables: table_models(self.tables@) }
    }
}

// ------------------------------------------------------------ identifiers

/// An ASCII letter or an underscore.
pub open spec fn ident_start(c: char) -> bool {
    ('a' <= c <= 'z') || ('A' <= c <= 'Z') || c == '_'
}

/// An ASCII letter, digit or underscore.
pub open spec fn ident_char(c: char) -> bool {
    ident_start(c) || ('0' <= c <= '9')
}

/// A name that is safe inside double quotes in SQL text.
pub open spec fn is_ident(s: Seq<char>) -> bool {
    s.len() > 0 && ident_start(s[0]) && forall|i: int| 0 <= i < s.len() ==> ident_char(#[trigger] s[i])
}

fn starts_ident(c: char) -> (r: bool)
    ensures
        r == ident_start(c),
{
    ('a' <= c && c <= 'z') || ('A' <= c && c <= 'Z') || c == '_'
}

/// Whether a name may reach a query string.
pub fn ident_ok(s: &str) -> (r: bool)
    ensures
        r == is_ident(s@),
{
    let cs = chars_of(s);
    if cs.len() == 0 || !starts_ident(cs[0]) {
        return false;
    }
    let mut i: usize = 0;
    while i < cs.len()
        invariant
            i <= cs@.len(),
            cs@ == s@,
            forall|j: int| 0 <= j < i ==> ident_char(#[trigger] s@[j]),
        decreases cs@.len() - i,
    {
        let c: char = cs[i];
        let ok = starts_ident(c) || ('0' <= c && c <= '9');
        if !ok {
            proof {
                assert(!ident_char(s@[i as int]));
            }
            return false;
        }
        i += 1;
    }
    true
}

// -------------------------------------------------------- reading the tree

pub open spec fn refusal(m: Seq<char>) -> Fault {
    Fault::Unsupported(m)
}

/// The entry of a table.
pub open spec fn entry(t: TomlTree, key: Seq<char>) -> Option<TomlTree> {
    match t {
        TomlTree::Table(m) => if m.dom().contains(key) { Some(m[key]) } else { None },
        _ => None,
    }
}

/// A string, named `what` in the refusal.
pub open spec fn text_of(t: TomlTree, what: Seq<char>) -> std::result::Result<Seq<char>, Fault> {
    match t {
        TomlTree::Str(s) => Ok(s),
        _ => Err(refusal("map spec: "@ + what + " must be a string"@)),
    }
}

/// A string entry that must be there.
pub open spec fn required(t: TomlTree, key: Seq<char>, missing: Seq<char>, what: Seq<char>) -> std::result::Result<Seq<char>, Fault> {
    match entry(t, key) {
        None => Err(refusal(missing)),
        Some(v) => text_of(v, what),
    }
}

/// A string entry that may be missing.
pub open spec fn optional(t: TomlTree, key: Seq<char>, what: Seq<char>) -> std::result::Result<Option<Seq<char>>, Fault> {
    match entry(t, key) {
        None => Ok(None),
        Some(v) => match text_of(v, what) {
            Ok(s) => Ok(Some(s)),
            Err(f) => Err(f),
        },
    }
}

/// One column of the document.
pub open spec fn column_of(t: TomlTree) -> std::result::Result<ColumnModel, Fault> {
    match required(t, "source"@, "map spec: column without `source`"@, "column.source"@) {
        Err(f) => Err(f),
        Ok(source) => match required(t, "target"@, "map spec: column without `target`"@, "column.target"@) {
            Err(f) => Err(f),
            Ok(target) => match optional(t, "pair"@, "column.pair"@) {
                Err(f) => Err(f),
                Ok(pair) => Ok(ColumnModel { source, target, pair }),
            },
        },
    }
}

/// The columns of the document from `i` on.
pub open spec fn columns_of(ts: Seq<TomlTree>, i: int) -> std::result::Result<Seq<ColumnModel>, Fault>
    decreases ts.len() - i,
{
    if i >= ts.len() {
        Ok(Seq::empty())
    } else {
        match column_of(ts[i]) {
            Err(f) => Err(f),
            Ok(c) => match columns_of(ts, i + 1) {
                Err(f) => Err(f),
                Ok(rest) => Ok(seq![c] + rest),
            },
        }
    }
}

/// One table of the document.
pub open spec fn table_of(t: TomlTree) -> std::result::Result<TableModel, Fault> {
    match required(t, "source"@, "map spec: table without `source`"@, "table.source"@) {
        Err(f) => Err(f),
        Ok(source) => match required(t, "target"@, "map spec: table without `target`"@, "table.target"@) {
            Err(f) => Err(f),
            Ok(target) => match optional(t, "target_key"@, "table.target_key"@) {
                Err(f) => Err(f),
                Ok(target_key) => match entry(t, "column"@) {
                    Some(TomlTree::Array(cs)) => match columns_of(cs, 0) {
                        Err(f) => Err(f),
                        Ok(columns) => Ok(TableModel { source, target, target_key, columns }),
                    },
                    _ => Err(
                        refusal("map spec: table `"@ + source + "` needs at least one [[map.table.column]]"@),
                    ),
                },
            },
        },
    }
}

/// The tables of the document from `i` on.
pub open spec fn tables_of(ts: Seq<TomlTree>, i: int) -> std::result::Result<Seq<TableModel>, Fault>
    decreases ts.len() - i,
{
    if i >= ts.len() {
        Ok(Seq::empty())
    } else {
        match table_of(ts[i]) {
            Err(f) => Err(f),
            Ok(c) => match tables_of(ts, i + 1) {
                Err(f) => Err(f),
                Ok(rest) => Ok(seq![c] + rest),
            },
        }
    }
}

/// The mapping that a document describes, before it is checked.
pub open spec fn mapping_of(doc: TomlTree) -> std::result::Result<SpecModel, Fault> {
    match entry(doc, "map"@) {
        None => Err(refusal("map spec: missing [map] section"@)),
        Some(map) => match required(map, "name"@, "map spec: missing map.name"@, "map.name"@) {
            Err(f) => Err(f),
            Ok(name) => match entry(map, "table"@) {
                Some(TomlTree::Array(ts)) => match tables_of(ts, 0) {
                    Err(f) => Err(f),
                    Ok(tables) => Ok(SpecModel { name, tables }),
                },
                _ => Err(refusal("map spec: at least one [[map.table]]"@)),
            },
        },
    }
}

fn refused(m: &str) -> (e: Error)
    ensures
        e@ == refusal(m@),
{
    Error::Unsupported(m.to_owned())
}

fn toml_str(v: &TomlValue, what: &str) -> (r: Result<String>)
    ensures
        match r {
            Ok(s) => text_of(toml_tree(*v), what@) == Ok::<Seq<char>, Fault>(s@),
            Err(e) => text_of(toml_tree(*v), what@) == Err::<Seq<char>, Fault>(e@),
        },
{
    match toml_as_str(v) {
        Some(s) => Ok(s.to_owned()),
        None => Err(Error::Unsupported(quoted_in("map spec: ", what, " must be a string"))),
    }
}

fn read_required(v: &TomlValue, key: &str, missing: &str, what: &str) -> (r: Result<String>)
    ensures
        match r {
            Ok(s) => required(toml_tree(*v), key@, missing@, what@) == Ok::<Seq<char>, Fault>(s@),
            Err(e) => required(toml_tree(*v), key@, missing@, what@) == Err::<Seq<char>, Fault>(e@),
        },
{
    match toml_get(v, key) {
        None => Err(refused(missing)),
        Some(e) => toml_str(e, what),
    }
}

fn read_optional(v: &TomlValue, key: &str, what: &str) -> (r: Result<Option<String>>)
    ensures
        match r {
            Ok(s) => optional(toml_tree(*v), key@, what@) == Ok::<Option<Seq<char>>, Fault>(opt_string(s)),
            Err(e) => optional(toml_tree(*v), key@, what@) == Err::<Option<Seq<char>>, Fault>(e@),
        },
{
    match toml_get(v, key) {
        None => Ok(None),
        Some(e) => match toml_str(e, what) {
            Ok(s) => Ok(Some(s)),
            Err(e) => Err(e),
        },
    }
}

fn read_column(v: &TomlValue) -> (r: Result<MapColumn>)
    ensures
        match r {
            Ok(c) => column_of(toml_tree(*v)) == Ok::<ColumnModel, Fault>(c@),
            Err(e) => column_of(toml_tree(*v)) == Err::<ColumnModel, Fault>(e@),
        },
{
    let source = match read_required(v, "source", "map spec: column without `source`", "column.source") {
        Ok(s) => s,
        Err(e) => {
            return Err(e);
        },
    };
    let target = match read_required(v, "target", "map spec: column without `target`", "column.target") {
        Ok(s) => s,
        Err(e) => {
            return Err(e);
        },
    };
    let pair = match read_optional(v, "pair", "column.pair") {
        Ok(s) => s,
        Err(e) => {
            return Err(e);
        },
    };
    Ok(MapColumn { source, target, pair })
}

fn read_columns(vs: &Vec<TomlValue>, ts: Ghost<Seq<TomlTree>>) -> (r: Result<Vec<MapColumn>>)
    requires
        vs@.len() == ts@.len(),
        forall|i: int| 0 <= i < ts@.len() ==> toml_tree(#[trigger] vs@[i]) == ts@[i],
    ensures
        match r {
            Ok(cs) => columns_of(ts@, 0) == Ok::<Seq<ColumnModel>, Fault>(column_models(cs@)),
            Err(e) => columns_of(ts@, 0) == Err::<Seq<ColumnModel>, Fault>(e@),
        },
{
    let mut out: Vec<MapColumn> = Vec::with_capacity(vs.len());
    let mut i: usize = 0;
    let ghost whole = columns_of(ts@, 0);
    proof {
        assert forall|rest: Seq<ColumnModel>| #[trigger] (column_models(out@) + rest) == rest by {
            assert(column_models(out@) + rest =~= rest);
        }
    }
    while i < vs.len()
        invariant
            i <= vs@.len(),
            vs@.len() == ts@.len(),
            forall|i: int| 0 <= i < ts@.len() ==> toml_tree(#[trigger] vs@[i]) == ts@[i],
            whole == columns_of(ts@, 0),
            whole == (match columns_of(ts@, i as int) {
                Err(f) => Err::<Seq<ColumnModel>, Fault>(f),
                Ok(rest) => Ok(column_models(out@) + rest),
            }),
        decreases vs@.len() - i,
    {
        let ghost done = out@;
        match read_column(&vs[i]) {
            Err(e) => {
                return Err(e);
            },
            Ok(c) => {
                proof {
                    match columns_of(ts@, i + 1) {
                        Ok(rest) => {
                            assert(column_models(done) + (seq![c@] + rest) =~= column_models(done.push(c)) + rest);
                        },
                        Err(_) => {},
                    }
                }
                out.push(c);
            },
        }
        i += 1;
    }
    proof {
        assert(column_models(out@) + Seq::<ColumnModel>::empty() =~= column_models(out@));
    }
    Ok(out)
}

fn read_table(v: &TomlValue) -> (r: Result<MapTable>)
    ensures
        match r {
            Ok(t) => table_of(toml_tree(*v)) == Ok::<TableModel, Fault>(t@),
            Err(e) => table_of(toml_tree(*v)) == Err::<TableModel, Fault>(e@),
        },
{
    let source = match read_required(v, "source", "map spec: table without `source`", "table.source") {
        Ok(s) => s,
        Err(e) => {
            return Err(e);
        },
    };
    let target = match read_required(v, "target", "map spec: table without `target`", "table.target") {
        Ok(s) => s,
        Err(e) => {
            return Err(e);
        },
    };
    let target_key = match read_optional(v, "target_key", "table.target_key") {
        Ok(s) => s,
        Err(e) => {
            return Err(e);
        },
    };
    let raw = match toml_get(v, "column") {
        Some(c) => toml_as_array(c),
        None => None,
    };
    match raw {
        None => Err(
            Error::Unsupported(
                quoted_in("map spec: table `", source.as_str(), "` needs at least one [[map.table.column]]"),
            ),
        ),
        Some(vs) => {
            let ghost ts = entry(toml_tree(*v), "column"@)->Some_0->Array_0;
            match read_columns(vs, Ghost(ts)) {
                Err(e) => Err(e),
                Ok(columns) => Ok(MapTable { source, target, target_key, columns }),
            }
        },
    }
}

fn read_tables(vs: &Vec<TomlValue>, ts: Ghost<Seq<TomlTree>>) -> (r: Result<Vec<MapTable>>)
    requires
        vs@.len() == ts@.len(),
        forall|i: int| 0 <= i < ts@.len() ==> toml_tree(#[trigger] vs@[i]) == ts@[i],
    ensures
        match r {
            Ok(cs) => tables_of(ts@, 0) == Ok::<Seq<TableModel>, Fault>(table_models(cs@)),
            Err(e) => tables_of(ts@, 0) == Err::<Seq<TableModel>, Fault>(e@),
        },
{
    let mut out: Vec<MapTable> = Vec::with_capacity(vs.len());
    let mut i: usize = 0;
    let ghost whole = tables_of(ts@, 0);
    proof {
        assert forall|rest: Seq<TableModel>| #[trigger] (table_models(out@) + rest) == rest by {
            assert(table_models(out@) + rest =~= rest);
        }
    }
    while i < vs.len()
        invariant
            i <= vs@.len(),
            vs@.len() == ts@.len(),
            forall|i: int| 0 <= i < ts@.len() ==> toml_tree(#[trigger] vs@[i]) == ts@[i],
            whole == tables_of(ts@, 0),
            whole == (match tables_of(ts@, i as int) {
                Err(f) => Err::<Seq<TableModel>, Fault>(f),
                Ok(rest) => Ok(table_models(out@) + rest),
            }),
        decreases vs@.len() - i,
    {
        let ghost done = out@;
        match read_table(&vs[i]) {
            Err(e) => {
                return Err(e);
            },
            Ok(t) => {
                proof {
                    match tables_of(ts@, i + 1) {
                        Ok(rest) => {
                            assert(table_models(done) + (seq![t@] + rest) =~= table_models(done.push(t)) + rest);
                        },
                        Err(_) => {},
                    }
                }
                out.push(t);
            },
        }
        i += 1;
    }
    proof {
        assert(table_models(out@) + Seq::<TableModel>::empty() =~= table_models(out@));
    }
    Ok(out)
}

fn read_mapping(doc: &TomlValue) -> (r: Result<MapSpec>)
    ensures
        match r {
            Ok(s) => mapping_of(toml_tree(*doc)) == Ok::<SpecModel, Fault>(s@),
            Err(e) => mapping_of(toml_tree(*doc)) == Err::<SpecModel, Fault>(e@),
        },
{
    let map = match toml_get(doc, "map") {
        Some(m) => m,
        None => {
            return Err(refused("map spec: missing [map] section"));
        },
    };
    let name = match read_required(map, "name", "map spec: missing map.name", "map.name") {
        Ok(s) => s,
        Err(e) => {
            return Err(e);
        },
    };
    let raw = match toml_get(map, "table") {
        Some(t) => toml_as_array(t),
        None => None,
    };
    match raw {
        None => Err(refused("map spec: at least one [[map.table]]")),
        Some(vs) => {
            let ghost ts = entry(toml_tree(*map), "table"@)->Some_0->Array_0;
            match read_tables(vs, Ghost(ts)) {
                Err(e) => Err(e),
                Ok(tables) => Ok(MapSpec { name, tables }),
            }
        },
    }
}

// ------------------------------------------------------------- validation

/// What is wrong with a table's name.
pub open spec fn table_name_fault(n: Seq<char>, what: Seq<char>) -> Option<Fault> {
    if !is_ident(n) {
        Some(refusal("map spec: `"@ + n + "` is not a legal "@ + what + " name"@))
    } else if bookkeeping().contains(n) {
        Some(refusal("map spec: `"@ + n + "` is rRETL bookkeeping; mapping it is refused"@))
    } else {
        None
    }
}

/// A column before `i` has the same source.
pub open spec fn source_repeats(cs: Seq<ColumnModel>, i: int) -> bool {
    exists|j: int| 0 <= j < i && (#[trigger] cs[j]).source == cs[i].source
}

/// A column before `i` has the same target.
pub open spec fn target_repeats(cs: Seq<ColumnModel>, i: int) -> bool {
    exists|j: int| 0 <= j < i && (#[trigger] cs[j]).target == cs[i].target
}

/// What is wrong with column `i` of a table.
pub open spec fn column_fault(t: TableModel, i: int) -> Option<Fault> {
    let c = t.columns[i];
    if !is_ident(c.source) {
        Some(refusal("map spec: `"@ + c.source + "` is not a legal "@ + "source column"@ + " name"@))
    } else if !is_ident(c.target) {
        Some(refusal("map spec: `"@ + c.target + "` is not a legal "@ + "target column"@ + " name"@))
    } else if source_repeats(t.columns, i) {
        Some(
            refusal(
                "map spec: source column `"@ + c.source + "` of `"@ + t.source
                    + "` is mapped twice — the reverse direction would have two claims about one value"@,
            ),
        )
    } else if target_repeats(t.columns, i) {
        Some(refusal("map spec: target column `"@ + c.target + "` of `"@ + t.target + "` is written twice"@))
    } else {
        None
    }
}

/// What is wrong with the columns of a table from `i` on.
pub open spec fn columns_fault(t: TableModel, i: int) -> Option<Fault>
    decreases t.columns.len() - i,
{
    if i >= t.columns.len() {
        None
    } else {
        match column_fault(t, i) {
            Some(f) => Some(f),
            None => columns_fault(t, i + 1),
        }
    }
}

/// A table before `i` has the same target.
pub open spec fn table_repeats(ts: Seq<TableModel>, i: int) -> bool {
    exists|j: int| 0 <= j < i && (#[trigger] ts[j]).target == ts[i].target
}

/// What is wrong with table `i` of a mapping.
pub open spec fn table_fault(ts: Seq<TableModel>, i: int) -> Option<Fault> {
    let t = ts[i];
    match (table_name_fault(t.source, "source table"@), table_name_fault(t.target, "target table"@)) {
        (Some(f), _) => Some(f),
        (None, Some(f)) => Some(f),
        (None, None) => if t.source == t.target {
            Some(refusal("map spec: `"@ + t.source + "` maps onto itself — source and target must differ"@))
        } else if table_repeats(ts, i) {
            Some(refusal("map spec: target `"@ + t.target + "` appears twice"@))
        } else if t.target_key is Some && !is_ident(t.target_key->Some_0) {
            Some(refusal("map spec: `"@ + t.target_key->Some_0 + "` is not a legal target_key name"@))
        } else {
            columns_fault(t, 0)
        },
    }
}

/// What is wrong with the tables of a mapping from `i` on.
pub open spec fn tables_fault(ts: Seq<TableModel>, i: int) -> Option<Fault>
    decreases ts.len() - i,
{
    if i >= ts.len() {
        None
    } else {
        match table_fault(ts, i) {
            Some(f) => Some(f),
            None => tables_fault(ts, i + 1),
        }
    }
}

/// What is wrong with a mapping.
pub open spec fn mapping_fault(m: SpecModel) -> Option<Fault> {
    if !is_ident(m.name) {
        Some(refusal("map spec: `"@ + m.name + "` is not a legal map name"@))
    } else {
        tables_fault(m.tables, 0)
    }
}

fn check_table_name(n: &str, what: &str) -> (r: Result<()>)
    ensures
        match r {
            Ok(()) => table_name_fault(n@, what@) is None,
            Err(e) => table_name_fault(n@, what@) == Some(e@),
        },
{
    if !ident_ok(n) {
        let mut m = quoted_in("map spec: `", n, "` is not a legal ");
        m.append(what);
        m.append(" name");
        return Err(Error::Unsupported(m));
    }
    if is_bookkeeping(n) {
        return Err(
            Error::Unsupported(quoted_in("map spec: `", n, "` is rRETL bookkeeping; mapping it is refused")),
        );
    }
    Ok(())
}

fn check_column_name(n: &str, what: &str) -> (r: Result<()>)
    ensures
        match r {
            Ok(()) => is_ident(n@),
            Err(e) => !is_ident(n@) && e@ == refusal("map spec: `"@ + n@ + "` is not a legal "@ + what@ + " name"@),
        },
{
    if !ident_ok(n) {
        let mut m = quoted_in("map spec: `", n, "` is not a legal ");
        m.append(what);
        m.append(" name");
        return Err(Error::Unsupported(m));
    }
    Ok(())
}

fn check_column(t: &MapTable, i: usize) -> (r: Result<()>)
    requires
        i < t.columns@.len(),
    ensures
        match r {
            Ok(()) => column_fault(t@, i as int) is None,
            Err(e) => column_fault(t@, i as int) == Some(e@),
        },
{
    let c = &t.columns[i];
    let ghost cs = column_models(t.columns@);
    proof {
        assert(t@.columns[i as int] == c@);
    }
    if let Err(e) = check_column_name(c.source.as_str(), "source column") {
        return Err(e);
    }
    if let Err(e) = check_column_name(c.target.as_str(), "target column") {
        return Err(e);
    }
    let mut src_twice = false;
    let mut dst_twice = false;
    let mut j: usize = 0;
    while j < i
        invariant
            j <= i < t.columns@.len(),
            cs == column_models(t.columns@),
            c == t.columns@[i as int],
            cs[i as int] == c@,
            src_twice == (exists|k: int| 0 <= k < j && (#[trigger] cs[k]).source == cs[i as int].source),
            dst_twice == (exists|k: int| 0 <= k < j && (#[trigger] cs[k]).target == cs[i as int].target),
        decreases i - j,
    {
        proof {
            assert(cs[j as int] == t.columns@[j as int]@);
        }
        if same_text(t.columns[j].source.as_str(), c.source.as_str()) {
            src_twice = true;
        }
        if same_text(t.columns[j].target.as_str(), c.target.as_str()) {
            dst_twice = true;
        }
        j += 1;
    }
    if src_twice {
        let mut m = quoted_in("map spec: source column `", c.source.as_str(), "` of `");
        m.append(t.source.as_str());
        m.append("` is mapped twice — the reverse direction would have two claims about one value");
        return Err(Error::Unsupported(m));
    }
    if dst_twice {
        let mut m = quoted_in("map spec: target column `", c.target.as_str(), "` of `");
        m.append(t.target.as_str());
        m.append("` is written twice");
        return Err(Error::Unsupported(m));
    }
    Ok(())
}

fn check_table(ts: &Vec<MapTable>, i: usize) -> (r: Result<()>)
    requires
        i < ts@.len(),
    ensures
        match r {
            Ok(()) => table_fault(table_models(ts@), i as int) is None,
            Err(e) => table_fault(table_models(ts@), i as int) == Some(e@),
        },
{
    let t = &ts[i];
    let ghost ms = table_models(ts@);
    proof {
        assert(ms[i as int] == t@);
    }
    if let Err(e) = check_table_name(t.source.as_str(), "source table") {
        return Err(e);
    }
    if let Err(e) = check_table_name(t.target.as_str(), "target table") {
        return Err(e);
    }
    if same_text(t.source.as_str(), t.target.as_str()) {
        return Err(
            Error::Unsupported(
                quoted_in("map spec: `", t.source.as_str(), "` maps onto itself — source and target must differ"),
            ),
        );
    }
    let mut j: usize = 0;
    while j < i
        invariant
            j <= i < ts@.len(),
            ms == table_models(ts@),
            t == ts@[i as int],
            ms[i as int] == t@,
            table_name_fault(t@.source, "source table"@) is None,
            table_name_fault(t@.target, "target table"@) is None,
            t@.source != t@.target,
            forall|k: int| 0 <= k < j ==> (#[trigger] ms[k]).target != ms[i as int].target,
        decreases i - j,
    {
        proof {
            assert(ms[j as int] == ts@[j as int]@);
        }
        if same_text(ts[j].target.as_str(), t.target.as_str()) {
            return Err(
                Error::Unsupported(quoted_in("map spec: target `", t.target.as_str(), "` appears twice")),
            );
        }
        j += 1;
    }
    if let Some(k) = &t.target_key {
        if !ident_ok(k.as_str()) {
            return Err(
                Error::Unsupported(quoted_in("map spec: `", k.as_str(), "` is not a legal target_key name")),
            );
        }
    }
    let mut c: usize = 0;
    while c < t.columns.len()
        invariant
            c <= t.columns@.len(),
            t@.columns.len() == t.columns@.len(),
            columns_fault(t@, 0) == columns_fault(t@, c as int),
            table_fault(ms, i as int) == columns_fault(t@, 0),
            ms == table_models(ts@),
        decreases t.columns@.len() - c,
    {
        if let Err(e) = check_column(t, c) {
            return Err(e);
        }
        c += 1;
    }
    Ok(())
}

impl MapSpec {
    /// Check a mapping: every name that reaches SQL text is an identifier, no
    /// bookkeeping table is mapped, and no target table or column is claimed
    /// twice.
    pub fn validate(&self) -> (r: Result<()>)
        ensures
            match r {
                Ok(()) => mapping_fault(self@) is None,
                Err(e) => mapping_fault(self@) == Some(e@),
            },
    {
        if !ident_ok(self.name.as_str()) {
            return Err(
                Error::Unsupported(quoted_in("map spec: `", self.name.as_str(), "` is not a legal map name")),
            );
        }
        let mut i: usize = 0;
        while i < self.tables.len()
            invariant
                i <= self.tables@.len(),
                is_ident(self.name@),
                tables_fault(table_models(self.tables@), 0) == tables_fault(table_models(self.tables@), i as int),
            decreases self.tables@.len() - i,
        {
            if let Err(e) = check_table(&self.tables, i) {
                return Err(e);
            }
            i += 1;
        }
        Ok(())
    }

    /// The mapping of a parsed document, checked.
    pub fn from_value(doc: &TomlValue) -> (r: Result<MapSpec>)
        ensures
            match r {
                Ok(s) => mapping_checked(toml_tree(*doc)) == Ok::<SpecModel, Fault>(s@),
                Err(e) => mapping_checked(toml_tree(*doc)) == Err::<SpecModel, Fault>(e@),
            },
    {
        let spec = match read_mapping(doc) {
            Ok(s) => s,
            Err(e) => {
                return Err(e);
            },
        };
        match spec.validate() {
            Ok(()) => Ok(spec),
            Err(e) => Err(e),
        }
    }

    /// Parse and check a mapping document. Every refusal is named.
    pub fn from_toml_str(text: &str) -> (r: Result<MapSpec>)
        ensures
            match toml_parsed(text@) {
                Err(m) => r is Err && r->Err_0@ == refusal("map spec parse error: "@ + m),
                Ok(doc) => match r {
                    Ok(s) => mapping_checked(doc) == Ok::<SpecModel, Fault>(s@),
                    Err(e) => mapping_checked(doc) == Err::<SpecModel, Fault>(e@),
                },
            },
    {
        match parse_toml(text) {
            Err(m) => Err(Error::Unsupported(String::from_str("map spec parse error: ").concat(m.as_str()))),
            Ok(doc) => MapSpec::from_value(&doc),
        }
    }
}

/// The mapping that a document describes, checked.
pub open spec fn mapping_checked(doc: TomlTree) -> std::result::Result<SpecModel, Fault> {
    match mapping_of(doc) {
        Err(f) => Err(f),
        Ok(m) => match mapping_fault(m) {
            Some(f) => Err(f),
            None => Ok(m),
        },
    }
}

// ---------------------------------------------------------------- laws

proof fn lemma_tables_fault_none(ts: Seq<TableModel>, k: int, i: int)
    requires
        0 <= k <= i < ts.len(),
        tables_fault(ts, k) is None,
    ensures
        table_fault(ts, i) is None,
    decreases i - k,
{
    if k < i {
        lemma_tables_fault_none(ts, k + 1, i);
    }
}

proof fn lemma_columns_fault_none(t: TableModel, k: int, i: int)
    requires
        0 <= k <= i < t.columns.len(),
        columns_fault(t, k) is None,
    ensures
        column_fault(t, i) is None,
    decreases i - k,
{
    if k < i {
        lemma_columns_fault_none(t, k + 1, i);
    }
}

/// Every name of a mapping that passes the check is an identifier, so it is
/// safe inside double quotes in SQL text.
pub proof fn law_checked_names_are_identifiers(m: SpecModel, i: int, j: int)
    requires
        mapping_fault(m) is None,
        0 <= i < m.tables.len(),
    ensures
        is_ident(m.name),
        is_ident(m.tables[i].source),
        is_ident(m.tables[i].target),
        m.tables[i].target_key is Some ==> is_ident(m.tables[i].target_key->Some_0),
        0 <= j < m.tables[i].columns.len() ==> is_ident(m.tables[i].columns[j].source) && is_ident(m.tables[i].columns[j].target),
{
    lemma_tables_fault_none(m.tables, 0, i);
    if 0 <= j < m.tables[i].columns.len() {
        lemma_columns_fault_none(m.tables[i], 0, j);
    }
}

/// In a mapping that passes the check no two tables write the same target, and
/// no two columns of a table read the same source or write the same target.
pub proof fn law_checked_claims_are_single(m: SpecModel, a: int, b: int, i: int, j: int)
    requires
        mapping_fault(m) is None,
        0 <= a < b < m.tables.len(),
        0 <= i < j < m.tables[a].columns.len(),
    ensures
        m.tables[a].target != m.tables[b].target,
        m.tables[a].source != m.tables[a].target,
        m.tables[a].columns[i].source != m.tables[a].columns[j].source,
        m.tables[a].columns[i].target != m.tables[a].columns[j].target,
{
    lemma_tables_fault_none(m.tables, 0, a);
    lemma_tables_fault_none(m.tables, 0, b);
    lemma_columns_fault_none(m.tables[a], 0, j);
    assert(!table_repeats(m.tables, b));
    assert(!source_repeats(m.tables[a].columns, j));
    assert(!target_repeats(m.tables[a].columns, j));
}

/// A mapping written as a document: a section of its name and its tables, each
/// with its names and its columns.
pub open spec fn column_document(c: ColumnModel) -> TomlTree {
    let m = Map::<Seq<char>, TomlTree>::empty().insert("source"@, TomlTree::Str(c.source)).insert("target"@, TomlTree::Str(c.target));
    TomlTree::Table(if c.pair is Some { m.insert("pair"@, TomlTree::Str(c.pair->Some_0)) } else { m })
}

pub open spec fn table_document(t: TableModel) -> TomlTree {
    let m = Map::<Seq<char>, TomlTree>::empty().insert("source"@, TomlTree::Str(t.source)).insert("target"@, TomlTree::Str(t.target)).insert(
        "column"@,
        TomlTree::Array(t.columns.map_values(|c: ColumnModel| column_document(c))),
    );
    TomlTree::Table(if t.target_key is Some { m.insert("target_key"@, TomlTree::Str(t.target_key->Some_0)) } else { m })
}

pub open spec fn mapping_document(m: SpecModel) -> TomlTree {
    let section = Map::<Seq<char>, TomlTree>::empty().insert("name"@, TomlTree::Str(m.name)).insert(
        "table"@,
        TomlTree::Array(m.tables.map_values(|t: TableModel| table_document(t))),
    );
    TomlTree::Table(Map::<Seq<char>, TomlTree>::empty().insert("map"@, TomlTree::Table(section)))
}

proof fn lemma_keys_differ()
    ensures
        "source"@ != "target"@,
        "source"@ != "pair"@,
        "target"@ != "pair"@,
        "source"@ != "column"@,
        "target"@ != "column"@,
        "source"@ != "target_key"@,
        "target"@ != "target_key"@,
        "column"@ != "target_key"@,
        "name"@ != "table"@,
{
    reveal_strlit("source");
    reveal_strlit("target");
    reveal_strlit("pair");
    reveal_strlit("column");
    reveal_strlit("target_key");
    reveal_strlit("name");
    reveal_strlit("table");
    assert("source"@[0] == 's' && "target"@[0] == 't' && "column"@[0] == 'c');
    assert("pair"@.len() == 4 && "source"@.len() == 6 && "target"@.len() == 6 && "column"@.len() == 6 && "target_key"@.len() == 10);
    assert("name"@.len() == 4 && "table"@.len() == 5);
}

proof fn lemma_columns_read(cs: Seq<ColumnModel>, from: int)
    requires
        0 <= from <= cs.len(),
    ensures
        columns_of(cs.map_values(|c: ColumnModel| column_document(c)), from) == Ok::<Seq<ColumnModel>, Fault>(cs.skip(from)),
    decreases cs.len() - from,
{
    let ds = cs.map_values(|c: ColumnModel| column_document(c));
    if from < cs.len() {
        lemma_keys_differ();
        lemma_columns_read(cs, from + 1);
        assert(ds[from] == column_document(cs[from]));
        assert(column_of(ds[from]) == Ok::<ColumnModel, Fault>(cs[from]));
        assert(seq![cs[from]] + cs.skip(from + 1) =~= cs.skip(from));
    } else {
        assert(cs.skip(from) =~= Seq::empty());
    }
}

proof fn lemma_tables_read(ts: Seq<TableModel>, from: int)
    requires
        0 <= from <= ts.len(),
    ensures
        tables_of(ts.map_values(|t: TableModel| table_document(t)), from) == Ok::<Seq<TableModel>, Fault>(ts.skip(from)),
    decreases ts.len() - from,
{
    let ds = ts.map_values(|t: TableModel| table_document(t));
    if from < ts.len() {
        lemma_keys_differ();
        lemma_tables_read(ts, from + 1);
        lemma_columns_read(ts[from].columns, 0);
        assert(ts[from].columns.skip(0) =~= ts[from].columns);
        assert(ds[from] == table_document(ts[from]));
        assert(table_of(ds[from]) == Ok::<TableModel, Fault>(ts[from]));
        assert(seq![ts[from]] + ts.skip(from + 1) =~= ts.skip(from));
    } else {
        assert(ts.skip(from) =~= Seq::empty());
    }
}

/// A mapping is read as it is written: every name in its place, every table and
/// column in its order, what is left out left out.
pub proof fn law_mapping_is_read_as_written(m: SpecModel)
    ensures
        mapping_of(mapping_document(m)) == Ok::<SpecModel, Fault>(m),
{
    lemma_keys_differ();
    lemma_tables_read(m.tables, 0);
    assert(m.tables.skip(0) =~= m.tables);
}

proof fn lemma_columns_good(t: TableModel, from: int)
    requires
        0 <= from <= t.columns.len(),
        forall|i: int| from <= i < t.columns.len() ==> is_ident((#[trigger] t.columns[i]).source) && is_ident(t.columns[i].target),
        forall|i: int, j: int|
            0 <= i < j < t.columns.len() ==> (#[trigger] t.columns[i]).source != (#[trigger] t.columns[j]).source && t.columns[i].target
                != t.columns[j].target,
    ensures
        columns_fault(t, from) is None,
    decreases t.columns.len() - from,
{
    if from < t.columns.len() {
        lemma_columns_good(t, from + 1);
        assert(is_ident(t.columns[from].source));
    }
}

/// A table that a mapping may name.
pub open spec fn table_good(t: TableModel) -> bool {
    &&& is_ident(t.source) && is_ident(t.target)
    &&& !bookkeeping().contains(t.source) && !bookkeeping().contains(t.target)
    &&& t.source != t.target
    &&& t.target_key is Some ==> is_ident(t.target_key->Some_0)
    &&& forall|i: int| 0 <= i < t.columns.len() ==> is_ident((#[trigger] t.columns[i]).source) && is_ident(t.columns[i].target)
    &&& forall|i: int, j: int|
        0 <= i < j < t.columns.len() ==> (#[trigger] t.columns[i]).source != (#[trigger] t.columns[j]).source && t.columns[i].target
            != t.columns[j].target
}

proof fn lemma_tables_good(ts: Seq<TableModel>, from: int)
    requires
        0 <= from <= ts.len(),
        forall|i: int| from <= i < ts.len() ==> table_good(#[trigger] ts[i]),
        forall|i: int, j: int| 0 <= i < j < ts.len() ==> (#[trigger] ts[i]).target != (#[trigger] ts[j]).target,
    ensures
        tables_fault(ts, from) is None,
    decreases ts.len() - from,
{
    if from < ts.len() {
        lemma_tables_good(ts, from + 1);
        assert(table_good(ts[from]));
        lemma_columns_good(ts[from], 0);
    }
}

/// A mapping in which every name is a name, none is one of the books, and
/// nothing is claimed twice is accepted.
pub proof fn law_good_mapping_is_accepted(m: SpecModel)
    requires
        is_ident(m.name),
        forall|i: int| 0 <= i < m.tables.len() ==> table_good(#[trigger] m.tables[i]),
        forall|i: int, j: int| 0 <= i < j < m.tables.len() ==> (#[trigger] m.tables[i]).target != (#[trigger] m.tables[j]).target,
    ensures
        mapping_fault(m) is None,
        mapping_checked(mapping_document(m)) == Ok::<SpecModel, Fault>(m),
{
    lemma_tables_good(m.tables, 0);
    law_mapping_is_read_as_written(m);
}

/// No accepted mapping names one of the books, on either side.
pub proof fn law_books_are_not_mapped(m: SpecModel, i: int)
    requires
        mapping_fault(m) is None,
        0 <= i < m.tables.len(),
    ensures
        !bookkeeping().contains(m.tables[i].source),
        !bookkeeping().contains(m.tables[i].target),
{
    lemma_tables_fault_none(m.tables, 0, i);
}

/// A name begins with a letter or an underscore and goes on with these and
/// digits, all of them ASCII.
pub proof fn law_identifiers(s: Seq<char>)
    ensures
        is_ident(s) <==> s.len() > 0 && !('0' <= s[0] <= '9') && forall|i: int|
            0 <= i < s.len() ==> {
                let c = #[trigger] s[i];
                ('a' <= c <= 'z') || ('A' <= c <= 'Z') || ('0' <= c <= '9') || c == '_'
            },
{
    if s.len() > 0 && forall|i: int|
        0 <= i < s.len() ==> {
            let c = #[trigger] s[i];
            ('a' <= c <= 'z') || ('A' <= c <= 'Z') || ('0' <= c <= '9') || c == '_'
        } {
        assert(s[0] == s[0]);
    }
    if is_ident(s) {
        assert(ident_char(s[0]));
        assert forall|i: int| 0 <= i < s.len() implies {
            let c = #[trigger] s[i];
            ('a' <= c <= 'z') || ('A' <= c <= 'Z') || ('0' <= c <= '9') || c == '_'
        } by {
            assert(ident_char(s[i]));
        }
    }
}

} // verus!
