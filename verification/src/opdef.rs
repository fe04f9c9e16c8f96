//! Custom operators `:sym:`, each a stored macro over the source text of its
//! operands.

use vstd::prelude::*;
use vstd::string::StringExecFns;
use vstd::utf8::encode_utf8;
use crate::bytes::put_bytes;
use crate::error::{Error, Fault, Result};
use crate::model::{AccessKind, AccessModel, TableModel, TableRole, WorkloadModel};
use crate::spellfn::hash_at;
use crate::text::{chars_of, dec, hex, is_white_space, push_dec, push_hex, quoted_in, white_space};
use crate::utf8::{lemma_text_round_trip, lossy_text, lossy_utf8, same_text};
use crate::value::{value_type_text, Value, ValueModel};

verus! {

/// The namespace of the operator records.
pub const NS_OP: &'static str = "op";

/// On which sides an operator takes an operand: bit 2 the left, bit 1 the
/// right.
#[derive(Debug, Clone, Copy, PartialEq, Eq, Structural)]
pub enum OpFixity {
    /// `a :op: b`
    Infix,
    /// `a :op:`
    Postfix,
    /// `:op: a`
    Prefix,
    /// `:op:`
    Niladic,
}

impl OpFixity {
    pub open spec fn takes_left(self) -> bool {
        self == OpFixity::Infix || self == OpFixity::Postfix
    }

    pub open spec fn takes_right(self) -> bool {
        self == OpFixity::Infix || self == OpFixity::Prefix
    }

    /// The two bits as a number.
    pub open spec fn code(self) -> u8 {
        (if self.takes_left() { 2u8 } else { 0u8 } + if self.takes_right() { 1u8 } else { 0u8 }) as u8
    }

    /// How many operands it takes.
    pub open spec fn operands(self) -> nat {
        (if self.takes_left() { 1nat } else { 0nat }) + (if self.takes_right() { 1nat } else { 0nat })
    }

    pub open spec fn label(self) -> Seq<char> {
        match self {
            OpFixity::Infix => "infix"@,
            OpFixity::Postfix => "postfix"@,
            OpFixity::Prefix => "prefix"@,
            OpFixity::Niladic => "niladic"@,
        }
    }

    /// The two bits as a number.
    pub fn bits(self) -> (b: u8)
        ensures
            b == self.code(),
            b <= 3,
    {
        match self {
            OpFixity::Infix => 3,
            OpFixity::Postfix => 2,
            OpFixity::Prefix => 1,
            OpFixity::Niladic => 0,
        }
    }

    /// The fixity of two bits.
    pub fn from_bits(b: u8) -> (r: Option<OpFixity>)
        ensures
            match r {
                Some(f) => f.code() == b,
                None => b > 3,
            },
    {
        match b {
            3 => Some(OpFixity::Infix),
            2 => Some(OpFixity::Postfix),
            1 => Some(OpFixity::Prefix),
            0 => Some(OpFixity::Niladic),
            _ => None,
        }
    }

    /// How many operands it takes.
    pub fn operand_count(self) -> (n: u16)
        ensures
            n == self.operands(),
    {
        let b: u8 = self.bits();
        proof {
            assert(0u8 & 1 == 0 && 1u8 & 1 == 1 && 2u8 & 1 == 0 && 3u8 & 1 == 1) by (bit_vector);
            assert((0u8 >> 1) & 1 == 0 && (1u8 >> 1) & 1 == 0 && (2u8 >> 1) & 1 == 1 && (3u8 >> 1) & 1 == 1) by (bit_vector);
        }
        (b & 1) as u16 + ((b >> 1) & 1) as u16
    }

    /// Its name.
    pub fn name(self) -> (s: &'static str)
        ensures
            s@ == self.label(),
    {
        match self {
            OpFixity::Infix => "infix",
            OpFixity::Postfix => "postfix",
            OpFixity::Prefix => "prefix",
            OpFixity::Niladic => "niladic",
        }
    }
}

/// One operator as it is listed.
#[derive(Debug, Clone)]
pub struct OpInfo {
    pub symbol: String,
    pub fixity: OpFixity,
    pub spell_hash_hex: String,
    pub doc: String,
}

/// An operator record with its symbol.
#[derive(Debug)]
pub struct OpRecord {
    pub symbol: String,
    pub fixity: OpFixity,
    pub hash: [u8; 32],
    pub doc: String,
}

/// The view of an [`OpRecord`].
pub struct OpModel {
    pub symbol: Seq<char>,
    pub fixity: OpFixity,
    pub hash: Seq<u8>,
    pub doc: Seq<char>,
}

impl View for OpRecord {
    type V = OpModel;

    open spec fn view(&self) -> OpModel {
        OpModel { symbol: self.symbol@, fixity: self.fixity, hash: self.hash@, doc: self.doc@ }
    }
}

pub open spec fn op_models(v: Seq<OpRecord>) -> Seq<OpModel> {
    v.map_values(|o: OpRecord| o@)
}

// ---------------------------------------------------------------- records

/// The fixity with the given bits.
pub open spec fn fixity_of(b: u8) -> Option<OpFixity> {
    if b == 3 {
        Some(OpFixity::Infix)
    } else if b == 2 {
        Some(OpFixity::Postfix)
    } else if b == 1 {
        Some(OpFixity::Prefix)
    } else if b == 0 {
        Some(OpFixity::Niladic)
    } else {
        None
    }
}

/// An operator record: a version byte, the fixity, the hash of the macro, and
/// the doc text to the end.
pub open spec fn op_record(fixity: OpFixity, hash: Seq<u8>, doc: Seq<char>) -> Seq<u8> {
    seq![1u8, fixity.code()] + hash + encode_utf8(doc)
}

/// What an operator record says, if it is one.
pub open spec fn op_record_parsed(b: Seq<u8>) -> Option<(OpFixity, Seq<u8>, Seq<char>)> {
    if b.len() < 34 || b[0] != 1 {
        None
    } else {
        match fixity_of(b[1]) {
            Some(f) => Some((f, b.subrange(2, 34), lossy_text(b.skip(34)))),
            None => None,
        }
    }
}

/// Make an operator record.
pub fn encode_op_record(fixity: OpFixity, hash: &[u8; 32], doc: &str) -> (r: Vec<u8>)
    ensures
        r@ == op_record(fixity, hash@, doc@),
{
    let mut v: Vec<u8> = Vec::new();
    v.push(1);
    v.push(fixity.bits());
    put_bytes(&mut v, hash.as_slice());
    put_bytes(&mut v, doc.as_bytes());
    proof {
        assert(v@ =~= op_record(fixity, hash@, doc@));
    }
    v
}

/// Read an operator record. Doc bytes that are not UTF-8 are replaced.
pub fn decode_op_record(bytes: &[u8]) -> (r: Option<(OpFixity, [u8; 32], String)>)
    ensures
        match r {
            Some((f, h, doc)) => op_record_parsed(bytes@) == Some((f, h@, doc@)),
            None => op_record_parsed(bytes@) is None,
        },
        bytes@.len() >= 34 && vstd::utf8::valid_utf8(bytes@.skip(34)) ==> (r matches Some((f, h, doc)) ==> doc@ == vstd::utf8::decode_utf8(
            bytes@.skip(34),
        )),
{
    if bytes.len() < 34 || bytes[0] != 1 {
        return None;
    }
    match OpFixity::from_bits(bytes[1]) {
        None => None,
        Some(f) => {
            let hash = hash_at(bytes, 2);
            let doc = lossy_utf8(vstd::slice::slice_subrange(bytes, 34, bytes.len()));
            proof {
                assert(bytes@.subrange(34, bytes@.len() as int) =~= bytes@.skip(34));
            }
            Some((f, hash, doc))
        },
    }
}

/// The operators among the entries of a scan. A record that cannot be read
/// means that its symbol is not defined.
pub open spec fn scanned_ops(entries: Seq<(Vec<u8>, Vec<u8>)>, prefix: int) -> Seq<OpModel>
    decreases entries.len(),
{
    if entries.len() == 0 {
        Seq::empty()
    } else {
        let done = scanned_ops(entries.drop_last(), prefix);
        match op_record_parsed(entries.last().1@) {
            Some((fixity, hash, doc)) => done.push(
                OpModel { symbol: lossy_text(entries.last().0@.skip(prefix)), fixity, hash, doc },
            ),
            None => done,
        }
    }
}

/// The operators among the entries of a scan of the operator records, whose
/// keys all begin with the namespace and a zero byte.
pub fn scan_op_records(entries: &Vec<(Vec<u8>, Vec<u8>)>) -> (r: Vec<OpRecord>)
    requires
        forall|i: int| 0 <= i < entries@.len() ==> (#[trigger] entries@[i]).0@.len() >= 3,
    ensures
        op_models(r@) == scanned_ops(entries@, 3),
{
    let mut out: Vec<OpRecord> = Vec::new();
    let mut i: usize = 0;
    proof {
        assert(entries@.take(0) =~= Seq::<(Vec<u8>, Vec<u8>)>::empty());
        assert(op_models(out@) =~= scanned_ops(entries@.take(0), 3));
    }
    while i < entries.len()
        invariant
            i <= entries@.len(),
            forall|j: int| 0 <= j < entries@.len() ==> (#[trigger] entries@[j]).0@.len() >= 3,
            op_models(out@) == scanned_ops(entries@.take(i as int), 3),
        decreases entries@.len() - i,
    {
        proof {
            assert(entries@.take(i + 1).drop_last() =~= entries@.take(i as int));
            assert(entries@.take(i + 1).last() == entries@[i as int]);
        }
        if let Some((fixity, hash, doc)) = decode_op_record(entries[i].1.as_slice()) {
            assert(entries@[i as int].0@.len() >= 3);
            let key = entries[i].0.as_slice();
            let symbol = lossy_utf8(vstd::slice::slice_subrange(key, 3, key.len()));
            let ghost prev = out@;
            out.push(OpRecord { symbol, fixity, hash, doc });
            proof {
                assert(key@.subrange(3, key@.len() as int) =~= key@.skip(3));
                assert(op_models(out@) =~= op_models(prev).push(out@.last()@));
            }
        }
        i += 1;
    }
    proof {
        assert(entries@.take(i as int) =~= entries@);
    }
    out
}

/// An operator as it is listed.
pub fn operator_info(o: &OpRecord) -> (r: OpInfo)
    ensures
        r.symbol@ == o@.symbol,
        r.fixity == o@.fixity,
        r.spell_hash_hex@ == hex(o@.hash),
        r.doc@ == o@.doc,
{
    let mut h = String::new();
    push_hex(&mut h, o.hash.as_slice());
    proof {
        assert(h@ =~= hex(o.hash@));
    }
    OpInfo { symbol: o.symbol.clone(), fixity: o.fixity, spell_hash_hex: h, doc: o.doc.clone() }
}

// ---------------------------------------------------------------- definition

/// A symbol is 1 to 16 bytes long.
pub open spec fn symbol_sized(symbol: Seq<char>) -> bool {
    1 <= encode_utf8(symbol).len() <= 16
}

/// A symbol holds neither a colon nor white space.
pub open spec fn symbol_plain(symbol: Seq<char>) -> bool {
    forall|i: int| 0 <= i < symbol.len() ==> #[trigger] symbol[i] != ':' && !white_space(symbol[i])
}

/// Check an operator symbol.
pub fn validate_symbol(symbol: &str) -> (r: Result<()>)
    ensures
        match r {
            Ok(_) => symbol_sized(symbol@) && symbol_plain(symbol@),
            Err(e) => if !symbol_sized(symbol@) {
                e@ == Fault::Unsupported("an operator symbol is 1..=16 bytes between colons"@)
            } else {
                !symbol_plain(symbol@) && e@ == Fault::Unsupported("an operator symbol cannot contain `:` or whitespace"@)
            },
        },
{
    let n: usize = symbol.as_bytes().len();
    if n == 0 || n > 16 {
        return Err(Error::Unsupported(String::from_str("an operator symbol is 1..=16 bytes between colons")));
    }
    let cs = chars_of(symbol);
    let mut i: usize = 0;
    while i < cs.len()
        invariant
            i <= cs@.len(),
            cs@ == symbol@,
            symbol_sized(symbol@),
            forall|j: int| 0 <= j < i ==> #[trigger] symbol@[j] != ':' && !white_space(symbol@[j]),
        decreases cs@.len() - i,
    {
        if cs[i] == ':' || is_white_space(cs[i]) {
            assert(!symbol_plain(symbol@)) by {
                assert(symbol@[i as int] == ':' || white_space(symbol@[i as int]));
            }
            return Err(Error::Unsupported(String::from_str("an operator symbol cannot contain `:` or whitespace")));
        }
        i += 1;
    }
    Ok(())
}

/// Why a compiled macro cannot be the operator's.
pub open spec fn macro_fault(fixity: OpFixity, calls_sql: bool, argc: nat) -> Option<Fault> {
    if calls_sql {
        Some(Fault::Unsupported("an operator macro cannot run SQL — it RETURNS SQL text"@))
    } else if argc != fixity.operands() {
        Some(
            Fault::Unsupported(
                "a "@ + fixity.label() + " operator takes "@ + dec(fixity.operands()) + " operand(s), but the macro takes "@ + dec(argc)
                    + " argument(s)"@,
            ),
        )
    } else {
        None
    }
}

/// A macro runs no SQL and takes as many arguments as the operator has
/// operands.
pub fn macro_gate(fixity: OpFixity, calls_sql: bool, argc: u16) -> (r: Result<()>)
    ensures
        match r {
            Ok(_) => macro_fault(fixity, calls_sql, argc as nat) is None,
            Err(e) => macro_fault(fixity, calls_sql, argc as nat) == Some(e@),
        },
{
    if calls_sql {
        return Err(Error::Unsupported(String::from_str("an operator macro cannot run SQL — it RETURNS SQL text")));
    }
    if argc != fixity.operand_count() {
        let mut m = quoted_in("a ", fixity.name(), " operator takes ");
        push_dec(&mut m, fixity.operand_count() as u128);
        m.append(" operand(s), but the macro takes ");
        push_dec(&mut m, argc as u128);
        m.append(" argument(s)");
        return Err(Error::Unsupported(m));
    }
    Ok(())
}

// ---------------------------------------------------------------- expansion

/// The macro of a symbol has no blob.
pub fn missing_macro(symbol: &str) -> (e: Error)
    ensures
        e@ == Fault::Corrupt(":"@ + symbol@ + ": names a spell blob that is missing"@),
{
    Error::Corrupt(quoted_in(":", symbol, ": names a spell blob that is missing"))
}

/// The place of the first symbol from `i` on.
pub open spec fn op_at(symbols: Seq<String>, symbol: Seq<char>, i: int) -> Option<int>
    decreases symbols.len() - i,
{
    if i >= symbols.len() {
        None
    } else if symbols[i]@ == symbol {
        Some(i)
    } else {
        op_at(symbols, symbol, i + 1)
    }
}

/// Which macro of a catalog expands a symbol.
pub fn find_operator(symbols: &Vec<String>, symbol: &str) -> (r: Result<usize>)
    ensures
        match r {
            Ok(i) => op_at(symbols@, symbol@, 0) == Some(i as int),
            Err(e) => op_at(symbols@, symbol@, 0) is None && e@ == Fault::Unsupported(
                ":"@ + symbol@ + ": is not in this catalog"@,
            ),
        },
{
    let mut i: usize = 0;
    while i < symbols.len()
        invariant
            i <= symbols@.len(),
            op_at(symbols@, symbol@, 0) == op_at(symbols@, symbol@, i as int),
        decreases symbols@.len() - i,
    {
        if same_text(symbols[i].as_str(), symbol) {
            return Ok(i);
        }
        i += 1;
    }
    Err(Error::Unsupported(quoted_in(":", symbol, ": is not in this catalog")))
}

/// The SQL text that a macro returned.
pub fn expansion_text(symbol: &str, v: Value) -> (r: Result<String>)
    ensures
        match v.model() {
            ValueModel::Text(t) => r is Ok && r->Ok_0@ == t,
            other => r is Err && r->Err_0@ == Fault::TypeMismatch(
                ":"@ + symbol@ + ": macro returned "@ + value_type_text(other) + " — an operator macro must return SQL text"@,
            ),
        },
{
    let kind = v.kind_name();
    match v {
        Value::Text(s) => Ok(s),
        _ => {
            let mut m = quoted_in(":", symbol, ": macro returned ");
            m.append(kind);
            m.append(" — an operator macro must return SQL text");
            Err(Error::TypeMismatch(m))
        },
    }
}

// ---------------------------------------------------------------- model operators

/// An operator that a model's table asks for; every one is infix.
#[derive(Debug)]
pub struct ModelOperator {
    pub symbol: String,
    pub source: String,
    pub doc: String,
}

/// The view of a [`ModelOperator`].
pub struct ModelOperatorView {
    pub symbol: Seq<char>,
    pub source: Seq<char>,
    pub doc: Seq<char>,
}

impl View for ModelOperator {
    type V = ModelOperatorView;

    open spec fn view(&self) -> ModelOperatorView {
        ModelOperatorView { symbol: self.symbol@, source: self.source@, doc: self.doc@ }
    }
}

pub open spec fn model_op_views(v: Seq<ModelOperator>) -> Seq<ModelOperatorView> {
    v.map_values(|o: ModelOperator| o@)
}

/// The first access of that kind from `i` on.
pub open spec fn access_at(access: Seq<AccessModel>, kind: AccessKind, i: int) -> Option<int>
    decreases access.len() - i,
{
    if i < 0 || i >= access.len() {
        None
    } else if access[i].kind == kind {
        Some(i)
    } else {
        access_at(access, kind, i + 1)
    }
}

/// `:->:` over an edge table: there is an edge from the left to the right.
pub open spec fn edge_operator(table: Seq<char>, src: Seq<char>, dst: Seq<char>) -> ModelOperatorView {
    ModelOperatorView {
        symbol: "->"@,
        source: "def op_edge(l, r):\n    return \"EXISTS (SELECT 1 FROM "@ + table + " WHERE "@ + table + "."@ + src
            + " = (\" + l + \") AND "@ + table + "."@ + dst + " = (\" + r + \"))\"\n"@,
        doc: "edge step over `"@ + table + "` ("@ + src + " → "@ + dst + "); a :->: b = an edge exists"@,
    }
}

/// `:~:` over an embedding table: the distance of two vectors.
pub open spec fn near_operator() -> ModelOperatorView {
    ModelOperatorView {
        symbol: "~"@,
        source: "def op_near(l, r):\n    return \"vec_l2((\" + l + \"), (\" + r + \"))\"\n"@,
        doc: "vector distance: a :~: b = vec_l2(a, b); ORDER BY emb :~: $q LIMIT k is exact kNN"@,
    }
}

/// What a table of a model asks for: an operator, nothing, or an error.
pub open spec fn table_operator(t: TableModel) -> std::result::Result<Option<ModelOperatorView>, Fault> {
    match t.role {
        Some(TableRole::Edge) => match access_at(t.access@, AccessKind::Traverse, 0) {
            None => Ok(None),
            Some(i) => {
                let cols = t.access@[i].columns@;
                if cols.len() != 2 {
                    Err(
                        Fault::Unsupported(
                            "edge table `"@ + t.name@
                                + "`: a traverse declaration needs [source, destination] columns for `:->:` to know both ends"@,
                        ),
                    )
                } else {
                    Ok(Some(edge_operator(t.name@, cols[0]@, cols[1]@)))
                }
            },
        },
        Some(TableRole::Embedding) => if access_at(t.access@, AccessKind::Knn, 0) is None {
            Ok(None)
        } else {
            Ok(Some(near_operator()))
        },
        _ => Ok(None),
    }
}

/// The operators of the first `n` tables up to the first error, and that
/// error.
pub open spec fn operators_upto(tables: Seq<TableModel>, n: nat) -> (Seq<ModelOperatorView>, Option<Fault>)
    decreases n,
{
    if n == 0 {
        (Seq::empty(), None)
    } else {
        let (ops, fault) = operators_upto(tables, (n - 1) as nat);
        if fault is Some {
            (ops, fault)
        } else {
            match table_operator(tables[n - 1]) {
                Err(f) => (ops, Some(f)),
                Ok(None) => (ops, None),
                Ok(Some(o)) => (ops.push(o), None),
            }
        }
    }
}

/// What a stored model installs: the operators in order, and the error that
/// ends the installation, if one does. Operators before an error are
/// installed.
pub open spec fn model_install(model: Option<WorkloadModel>) -> (Seq<ModelOperatorView>, Option<Fault>) {
    match model {
        None => (
            Seq::empty(),
            Some(
                Fault::Unsupported(
                    "no model stored — `mpedb model set` first; roles are what tell the operators which tables they mean"@,
                ),
            ),
        ),
        Some(m) => {
            let (ops, fault) = operators_upto(m.tables@, m.tables@.len());
            if fault is None && ops.len() == 0 {
                (
                    ops,
                    Some(
                        Fault::Unsupported(
                            "the model declares no edge/embedding roles with traverse/knn access — nothing to install"@,
                        ),
                    ),
                )
            } else {
                (ops, fault)
            }
        },
    }
}

fn find_access(access: &Vec<AccessModel>, kind: AccessKind) -> (r: Option<usize>)
    ensures
        match r {
            Some(i) => access_at(access@, kind, 0) == Some(i as int) && i < access@.len(),
            None => access_at(access@, kind, 0) is None,
        },
{
    let mut i: usize = 0;
    while i < access.len()
        invariant
            i <= access@.len(),
            access_at(access@, kind, 0) == access_at(access@, kind, i as int),
        decreases access@.len() - i,
    {
        if access[i].kind == kind {
            return Some(i);
        }
        i += 1;
    }
    None
}

fn make_edge_operator(table: &str, src: &str, dst: &str) -> (r: ModelOperator)
    ensures
        r@ == edge_operator(table@, src@, dst@),
{
    let mut s = String::from_str("def op_edge(l, r):\n    return \"EXISTS (SELECT 1 FROM ");
    s.append(table);
    s.append(" WHERE ");
    s.append(table);
    s.append(".");
    s.append(src);
    s.append(" = (\" + l + \") AND ");
    s.append(table);
    s.append(".");
    s.append(dst);
    s.append(" = (\" + r + \"))\"\n");
    let mut d = quoted_in("edge step over `", table, "` (");
    d.append(src);
    d.append(" → ");
    d.append(dst);
    d.append("); a :->: b = an edge exists");
    ModelOperator { symbol: String::from_str("->"), source: s, doc: d }
}

fn operator_of(t: &TableModel) -> (r: Result<Option<ModelOperator>>)
    ensures
        match r {
            Ok(None) => table_operator(*t) == Ok::<Option<ModelOperatorView>, Fault>(None),
            Ok(Some(o)) => table_operator(*t) == Ok::<Option<ModelOperatorView>, Fault>(Some(o@)),
            Err(e) => table_operator(*t) == Err::<Option<ModelOperatorView>, Fault>(e@),
        },
{
    match t.role {
        Some(TableRole::Edge) => match find_access(&t.access, AccessKind::Traverse) {
            None => Ok(None),
            Some(i) => {
                let cols = &t.access[i].columns;
                if cols.len() != 2 {
                    return Err(
                        Error::Unsupported(
                            quoted_in(
                                "edge table `",
                                t.name.as_str(),
                                "`: a traverse declaration needs [source, destination] columns for `:->:` to know both ends",
                            ),
                        ),
                    );
                }
                Ok(Some(make_edge_operator(t.name.as_str(), cols[0].as_str(), cols[1].as_str())))
            },
        },
        Some(TableRole::Embedding) => match find_access(&t.access, AccessKind::Knn) {
            None => Ok(None),
            Some(_) => Ok(
                Some(
                    ModelOperator {
                        symbol: String::from_str("~"),
                        source: String::from_str("def op_near(l, r):\n    return \"vec_l2((\" + l + \"), (\" + r + \"))\"\n"),
                        doc: String::from_str(
                            "vector distance: a :~: b = vec_l2(a, b); ORDER BY emb :~: $q LIMIT k is exact kNN",
                        ),
                    },
                ),
            ),
        },
        _ => Ok(None),
    }
}

/// What a stored model installs. The caller creates the operators in order
/// and then answers with the error, if there is one.
pub fn install_model_operators(model: Option<&WorkloadModel>) -> (r: (Vec<ModelOperator>, Option<Error>))
    ensures
        ({
            let want = model_install(
                match model {
                    Some(m) => Some(*m),
                    None => None,
                },
            );
            &&& model_op_views(r.0@) == want.0
            &&& match r.1 {
                Some(e) => want.1 == Some(e@),
                None => want.1 is None,
            }
        }),
{
    let mut out: Vec<ModelOperator> = Vec::new();
    proof {
        assert(model_op_views(out@) =~= Seq::<ModelOperatorView>::empty());
    }
    let m = match model {
        None => {
            return (
                out,
                Some(
                    Error::Unsupported(
                        String::from_str(
                            "no model stored — `mpedb model set` first; roles are what tell the operators which tables they mean",
                        ),
                    ),
                ),
            );
        },
        Some(m) => m,
    };
    let mut i: usize = 0;
    while i < m.tables.len()
        invariant
            i <= m.tables@.len(),
            model == Some(m),
            operators_upto(m.tables@, i as nat) == (model_op_views(out@), None::<Fault>),
        decreases m.tables@.len() - i,
    {
        match operator_of(&m.tables[i]) {
            Err(e) => {
                proof {
                    assert(operators_upto(m.tables@, (i + 1) as nat) == (model_op_views(out@), Some(e@)));
                    lemma_fault_stays(m.tables@, (i + 1) as nat, m.tables@.len());
                }
                return (out, Some(e));
            },
            Ok(None) => {},
            Ok(Some(o)) => {
                let ghost prev = out@;
                out.push(o);
                proof {
                    assert(model_op_views(out@) =~= model_op_views(prev).push(o@));
                }
            },
        }
        i += 1;
    }
    if out.len() == 0 {
        return (
            out,
            Some(
                Error::Unsupported(
                    String::from_str(
                        "the model declares no edge/embedding roles with traverse/knn access — nothing to install",
                    ),
                ),
            ),
        );
    }
    (out, None)
}

proof fn lemma_fault_stays(tables: Seq<TableModel>, m: nat, n: nat)
    requires
        m <= n,
        operators_upto(tables, m).1 is Some,
    ensures
        operators_upto(tables, n) == operators_upto(tables, m),
    decreases n,
{
    if m < n {
        lemma_fault_stays(tables, m, (n - 1) as nat);
    }
}

// ---------------------------------------------------------------- laws

/// The bits of a fixity name it.
pub proof fn law_fixity_bits_round_trip(f: OpFixity)
    ensures
        fixity_of(f.code()) == Some(f),
{
}

/// An operator record is read back as it was made; the doc text survives
/// because text is UTF-8.
pub proof fn law_op_record_round_trip(f: OpFixity, hash: Seq<u8>, doc: Seq<char>)
    requires
        hash.len() == 32,
    ensures
        op_record_parsed(op_record(f, hash, doc)) == Some((f, hash, lossy_text(encode_utf8(doc)))),
        vstd::utf8::valid_utf8(op_record(f, hash, doc).skip(34)),
        vstd::utf8::decode_utf8(op_record(f, hash, doc).skip(34)) == doc,
{
    let b = op_record(f, hash, doc);
    assert(b.subrange(2, 34) =~= hash);
    assert(b.skip(34) =~= encode_utf8(doc));
    lemma_text_round_trip(doc);
}

/// An accepted macro takes an argument for every operand and nothing else.
pub proof fn law_accepted_macro_fits(fixity: OpFixity, calls_sql: bool, argc: nat)
    requires
        macro_fault(fixity, calls_sql, argc) is None,
    ensures
        !calls_sql,
        argc == fixity.operands(),
{
}

/// Every operator that a model installs has a symbol that can be defined.
pub proof fn law_model_symbols_are_valid(tables: Seq<TableModel>, n: nat, i: int)
    requires
        n <= tables.len(),
        0 <= i < operators_upto(tables, n).0.len(),
    ensures
        symbol_sized(operators_upto(tables, n).0[i].symbol),
        symbol_plain(operators_upto(tables, n).0[i].symbol),
    decreases n,
{
    if n > 0 {
        let before = operators_upto(tables, (n - 1) as nat);
        if i < before.0.len() {
            law_model_symbols_are_valid(tables, (n - 1) as nat, i);
        } else {
            let s = operators_upto(tables, n).0[i].symbol;
            assert(s == "->"@ || s == "~"@);
            reveal_strlit("->");
            reveal_strlit("~");
            reveal_with_fuel(vstd::utf8::encode_utf8, 3);
            assert(encode_utf8("->"@).len() == 2);
            assert(encode_utf8("~"@).len() == 1);
        }
    }
}

/// An infix operator takes two operands, a prefix or a postfix one takes one,
/// and a niladic one none; the bits tell on which sides.
pub proof fn law_operands_are_what_the_sides_take(f: OpFixity)
    ensures
        f.operands() == (if f == OpFixity::Infix { 2int } else if f == OpFixity::Niladic { 0int } else { 1int }),
        f.takes_left() <==> f == OpFixity::Infix || f == OpFixity::Postfix,
        f.takes_right() <==> f == OpFixity::Infix || f == OpFixity::Prefix,
        f.code() / 2 == (if f.takes_left() { 1int } else { 0int }),
        f.code() % 2 == (if f.takes_right() { 1int } else { 0int }),
{
}

/// A macro is taken exactly where it makes text of as many operands as the
/// operator has.
pub proof fn law_macro_is_taken_iff_it_fits(fixity: OpFixity, calls_sql: bool, argc: nat)
    ensures
        macro_fault(fixity, calls_sql, argc) is None <==> !calls_sql && argc == fixity.operands(),
{
}

/// A symbol finds the first operator that bears it, and finds one wherever one
/// does.
pub proof fn law_operator_found(symbols: Seq<String>, symbol: Seq<char>, from: int)
    requires
        0 <= from <= symbols.len(),
    ensures
        match op_at(symbols, symbol, from) {
            Some(i) => from <= i < symbols.len() && symbols[i]@ == symbol && forall|j: int| from <= j < i ==> (#[trigger] symbols[j])@ != symbol,
            None => forall|j: int| from <= j < symbols.len() ==> (#[trigger] symbols[j])@ != symbol,
        },
    decreases symbols.len() - from,
{
    if from < symbols.len() {
        law_operator_found(symbols, symbol, from + 1);
    }
}

/// A stored operator is listed under its symbol with what its record holds; a
/// record that cannot be read is passed over, and the others are not.
pub proof fn law_stored_operator_is_listed(before: Seq<(Vec<u8>, Vec<u8>)>, entry: (Vec<u8>, Vec<u8>), f: OpFixity, hash: Seq<u8>, doc: Seq<char>)
    requires
        hash.len() == 32,
        entry.1@ == op_record(f, hash, doc),
    ensures
        scanned_ops(before.push(entry), 3) == scanned_ops(before, 3).push(
            OpModel { symbol: lossy_text(entry.0@.skip(3)), fixity: f, hash, doc: lossy_text(encode_utf8(doc)) },
        ),
{
    law_op_record_round_trip(f, hash, doc);
    assert(before.push(entry).drop_last() =~= before);
}

/// Where everything stands in an operator's record.
pub proof fn law_op_record_places(f: OpFixity, hash: Seq<u8>, doc: Seq<char>)
    requires
        hash.len() == 32,
    ensures
        op_record(f, hash, doc)[0] == 1,
        op_record(f, hash, doc)[1] == f.code(),
        op_record(f, hash, doc).subrange(2, 34) == hash,
        op_record(f, hash, doc).skip(34) == encode_utf8(doc),
{
    assert(op_record(f, hash, doc).subrange(2, 34) =~= hash);
    assert(op_record(f, hash, doc).skip(34) =~= encode_utf8(doc));
}

/// A step along an edge table goes from the declared source to the declared
/// destination: the left operand is compared with the source column, the right
/// one with the destination column, in one row of that table.
pub proof fn law_edge_step_goes_from_source_to_destination(table: Seq<char>, src: Seq<char>, dst: Seq<char>)
    ensures
        ({
            let left = table + "."@ + src + " = (\" + l + \")"@;
            let right = table + "."@ + dst + " = (\" + r + \")"@;
            edge_operator(table, src, dst).source == "def op_edge(l, r):\n    return \"EXISTS (SELECT 1 FROM "@ + table + " WHERE "@ + left
                + " AND "@ + right + ")\"\n"@
        }),
        edge_operator(table, src, dst).symbol == "->"@,
{
    reveal_strlit(" = (\" + l + \")");
    reveal_strlit(" AND ");
    reveal_strlit(" = (\" + l + \") AND ");
    reveal_strlit(" = (\" + r + \")");
    reveal_strlit(")\"\n");
    reveal_strlit(" = (\" + r + \"))\"\n");
    assert(" = (\" + l + \") AND "@ =~= " = (\" + l + \")"@ + " AND "@);
    assert(" = (\" + r + \"))\"\n"@ =~= " = (\" + r + \")"@ + ")\"\n"@);
    let left = table + "."@ + src + " = (\" + l + \")"@;
    let right = table + "."@ + dst + " = (\" + r + \")"@;
    assert(edge_operator(table, src, dst).source =~= "def op_edge(l, r):\n    return \"EXISTS (SELECT 1 FROM "@ + table + " WHERE "@ + left
        + " AND "@ + right + ")\"\n"@);
}

proof fn lemma_access_found(access: Seq<AccessModel>, kind: AccessKind, from: int)
    requires
        0 <= from <= access.len(),
    ensures
        match access_at(access, kind, from) {
            Some(i) => from <= i < access.len() && access[i].kind == kind && forall|j: int| from <= j < i ==> (#[trigger] access[j]).kind != kind,
            None => forall|j: int| from <= j < access.len() ==> (#[trigger] access[j]).kind != kind,
        },
    decreases access.len() - from,
{
    if from < access.len() {
        lemma_access_found(access, kind, from + 1);
    }
}

/// A table gives an operator exactly where its role and its accesses say so: an
/// edge table that is traversed the step between the two columns of its first
/// traversal, an embedding table that is searched the distance.
pub proof fn law_roles_give_operators(t: TableModel)
    ensures
        match table_operator(t) {
            Ok(Some(o)) => (t.role == Some(TableRole::Edge) && exists|i: int|
                0 <= i < t.access@.len() && (#[trigger] t.access@[i]).kind == AccessKind::Traverse && t.access@[i].columns@.len() == 2 && o
                    == edge_operator(t.name@, t.access@[i].columns@[0]@, t.access@[i].columns@[1]@) && forall|j: int|
                    0 <= j < i ==> (#[trigger] t.access@[j]).kind != AccessKind::Traverse) || (t.role == Some(TableRole::Embedding) && o
                == near_operator() && exists|i: int| 0 <= i < t.access@.len() && (#[trigger] t.access@[i]).kind == AccessKind::Knn),
            Ok(None) => (t.role == Some(TableRole::Edge) ==> forall|i: int|
                0 <= i < t.access@.len() ==> (#[trigger] t.access@[i]).kind != AccessKind::Traverse) && (t.role == Some(TableRole::Embedding)
                ==> forall|i: int| 0 <= i < t.access@.len() ==> (#[trigger] t.access@[i]).kind != AccessKind::Knn),
            Err(_) => t.role == Some(TableRole::Edge) && exists|i: int|
                0 <= i < t.access@.len() && (#[trigger] t.access@[i]).kind == AccessKind::Traverse && t.access@[i].columns@.len() != 2,
        },
{
    lemma_access_found(t.access@, AccessKind::Traverse, 0);
    lemma_access_found(t.access@, AccessKind::Knn, 0);
    match access_at(t.access@, AccessKind::Traverse, 0) {
        Some(i) => {
            assert(t.access@[i].kind == AccessKind::Traverse);
        },
        None => {},
    }
    match access_at(t.access@, AccessKind::Knn, 0) {
        Some(i) => {
            assert(t.access@[i].kind == AccessKind::Knn);
        },
        None => {},
    }
}

/// The operators of a model are those that its tables give, in the tables'
/// order, up to the first table that is wrong.
pub proof fn law_model_operators_are_its_tables(tables: Seq<TableModel>, n: nat)
    requires
        n <= tables.len(),
    ensures
        operators_upto(tables, n).1 is None <==> forall|i: int| 0 <= i < n ==> table_operator(#[trigger] tables[i]) is Ok,
        operators_upto(tables, n).1 is None ==> forall|i: int|
            0 <= i < n && (table_operator(#[trigger] tables[i]) matches Ok(Some(_))) ==> operators_upto(tables, n).0.contains(
                table_operator(tables[i])->Ok_0->Some_0,
            ),
        forall|k: int|
            0 <= k < operators_upto(tables, n).0.len() ==> exists|i: int|
                0 <= i < n && table_operator(#[trigger] tables[i]) == Ok::<Option<ModelOperatorView>, Fault>(
                    Some(#[trigger] operators_upto(tables, n).0[k]),
                ),
    decreases n,
{
    if n > 0 {
        law_model_operators_are_its_tables(tables, (n - 1) as nat);
        let (before, bf) = operators_upto(tables, (n - 1) as nat);
        let (all, f) = operators_upto(tables, n);
        assert(table_operator(tables[n - 1]) == table_operator(tables[n - 1]));
        if f is None {
            assert forall|i: int| 0 <= i < n && (table_operator(#[trigger] tables[i]) matches Ok(Some(_))) implies all.contains(
                table_operator(tables[i])->Ok_0->Some_0,
            ) by {
                let o = table_operator(tables[i])->Ok_0->Some_0;
                if i < n - 1 {
                    let k = before.index_of(o);
                    assert(before[k] == o);
                    assert(all[k] == o);
                } else {
                    assert(all[before.len() as int] == o);
                }
            }
        }
        assert forall|k: int| 0 <= k < all.len() implies exists|i: int|
            0 <= i < n && table_operator(#[trigger] tables[i]) == Ok::<Option<ModelOperatorView>, Fault>(Some(#[trigger] all[k])) by {
            if k < before.len() {
                assert(all[k] == before[k]);
                let i = choose|i: int|
                    0 <= i < n - 1 && table_operator(#[trigger] tables[i]) == Ok::<Option<ModelOperatorView>, Fault>(Some(before[k]));
                assert(table_operator(tables[i]) == Ok::<Option<ModelOperatorView>, Fault>(Some(all[k])));
            } else {
                assert(table_operator(tables[n - 1]) == Ok::<Option<ModelOperatorView>, Fault>(Some(all[k])));
            }
        }
    }
}

/// Installing for a model does something or tells why not.
pub proof fn law_install_is_never_silent(model: Option<WorkloadModel>)
    ensures
        model_install(model).1 is None ==> model_install(model).0.len() > 0 && model is Some,
        model is None ==> model_install(model).0.len() == 0,
        model matches Some(m) ==> model_install(model).0 == operators_upto(m.tables@, m.tables@.len()).0,
{
}

} // verus!
