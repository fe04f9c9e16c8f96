//! Row-level security state in the shared system keyspace.
//!
//! - `pol/<table id>/<name>` holds a policy,
//! - `rlsen/<table id>` holds one byte of flags: enabled, forced,
//! - `polep/<table id>` holds the epoch of the table's policies, which every
//!   edit moves.
//!
//! Table ids are four bytes, most significant first.

use vstd::prelude::*;
use vstd::string::StringExecFns;
use vstd::utf8::{decode_utf8, encode_utf8, valid_utf8};
use crate::bytes::{
    begins, begins_with, bytes_at_most, copy_bytes, get_le, le_bytes, le_value, lemma_le_bytes_len, lemma_le_value_of_bytes,
    lemma_lex_total, lemma_lex_transitive, lemma_pow256_values, lex_le, put_bytes, put_le, same_bytes,
};
use crate::error::{Error, Fault, PlanHash, Result};
use crate::plan::{live_table_at, table_id, PolicyStamp, Schema};
use crate::sort::{ranks, sorted_order, sorting, Ranked};
use crate::text::quoted_in;
use crate::utf8::{checked_utf8, lemma_text_round_trip};

verus! {

// ---------------------------------------------------------------- keys

/// The four bytes of a table id, most significant first.
pub open spec fn be4(id: u32) -> Seq<u8> {
    seq![(id / 0x100_0000) as u8, (id / 0x1_0000 % 256) as u8, (id / 0x100 % 256) as u8, (id % 256) as u8]
}

/// The table id in four bytes.
pub open spec fn be4_value(s: Seq<u8>) -> nat {
    (s[0] * 0x100_0000 + s[1] * 0x1_0000 + s[2] * 0x100 + s[3]) as nat
}

/// `pol/`
pub open spec fn pol_prefix() -> Seq<u8> {
    seq![112u8, 111, 108, 47]
}

/// `rlsen/`
pub open spec fn rlsen_prefix() -> Seq<u8> {
    seq![114u8, 108, 115, 101, 110, 47]
}

/// `polep/`
pub open spec fn polep_prefix() -> Seq<u8> {
    seq![112u8, 111, 108, 101, 112, 47]
}

/// The key of a policy.
pub open spec fn policy_key(id: u32, name: Seq<char>) -> Seq<u8> {
    pol_prefix() + be4(id) + seq![47u8] + encode_utf8(name)
}

fn pol_bytes() -> (r: [u8; 4])
    ensures
        r@ == pol_prefix(),
{
    let r: [u8; 4] = [112u8, 111, 108, 47];
    proof {
        assert(r@ =~= pol_prefix());
    }
    r
}

fn rlsen_bytes() -> (r: [u8; 6])
    ensures
        r@ == rlsen_prefix(),
{
    let r: [u8; 6] = [114u8, 108, 115, 101, 110, 47];
    proof {
        assert(r@ =~= rlsen_prefix());
    }
    r
}

fn polep_bytes() -> (r: [u8; 6])
    ensures
        r@ == polep_prefix(),
{
    let r: [u8; 6] = [112u8, 111, 108, 101, 112, 47];
    proof {
        assert(r@ =~= polep_prefix());
    }
    r
}

/// A prefix followed by a table id.
pub fn with_table_id(prefix: &[u8], table_id: u32) -> (k: Vec<u8>)
    ensures
        k@ == prefix@ + be4(table_id),
{
    let mut k: Vec<u8> = Vec::new();
    put_bytes(&mut k, prefix);
    k.push((table_id / 0x100_0000) as u8);
    k.push((table_id / 0x1_0000 % 256) as u8);
    k.push((table_id / 0x100 % 256) as u8);
    k.push((table_id % 256) as u8);
    proof {
        assert(k@ =~= prefix@ + be4(table_id));
    }
    k
}

/// The key of a policy.
pub fn pol_subkey(table_id: u32, name: &str) -> (k: Vec<u8>)
    ensures
        k@ == policy_key(table_id, name@),
{
    let p = pol_bytes();
    let mut k = with_table_id(p.as_slice(), table_id);
    k.push(47);
    put_bytes(&mut k, name.as_bytes());
    proof {
        assert(k@ =~= policy_key(table_id, name@));
    }
    k
}

/// The key of a table's flags.
pub fn rlsen_subkey(table_id: u32) -> (k: Vec<u8>)
    ensures
        k@ == rlsen_prefix() + be4(table_id),
{
    let p = rlsen_bytes();
    with_table_id(p.as_slice(), table_id)
}

/// The key of a table's epoch.
pub fn polep_subkey(table_id: u32) -> (k: Vec<u8>)
    ensures
        k@ == polep_prefix() + be4(table_id),
{
    let p = polep_bytes();
    with_table_id(p.as_slice(), table_id)
}

/// The table and the name in the rest of a policy key.
pub open spec fn pol_key_parsed(rest: Seq<u8>) -> Option<(nat, Seq<char>)> {
    if rest.len() < 5 || rest[4] != 47 || !valid_utf8(rest.skip(5)) {
        None
    } else {
        Some((be4_value(rest), decode_utf8(rest.skip(5))))
    }
}

fn be4_of(b: &[u8]) -> (r: u32)
    requires
        b@.len() >= 4,
    ensures
        r == be4_value(b@),
{
    assert(b.len() >= 4);
    b[0] as u32 * 0x100_0000 + b[1] as u32 * 0x1_0000 + b[2] as u32 * 0x100 + b[3] as u32
}

/// Read the rest of a policy key behind its prefix.
pub fn parse_pol_key(rest: &[u8]) -> (r: Option<(u32, String)>)
    ensures
        match r {
            Some((id, name)) => pol_key_parsed(rest@) == Some((id as nat, name@)),
            None => pol_key_parsed(rest@) is None,
        },
{
    if rest.len() < 5 || rest[4] != 47 {
        return None;
    }
    let tail = vstd::slice::slice_subrange(rest, 5, rest.len());
    proof {
        assert(rest@.subrange(5, rest@.len() as int) =~= rest@.skip(5));
    }
    match checked_utf8(tail) {
        None => None,
        Some(name) => Some((be4_of(rest), name.to_owned())),
    }
}

/// The table id in the rest of a key of exactly four bytes.
pub open spec fn id_parsed(rest: Seq<u8>) -> Option<nat> {
    if rest.len() == 4 {
        Some(be4_value(rest))
    } else {
        None
    }
}

/// Read a table id.
pub fn table_id_of(rest: &[u8]) -> (r: Option<u32>)
    ensures
        match r {
            Some(id) => id_parsed(rest@) == Some(id as nat),
            None => id_parsed(rest@) is None,
        },
{
    if rest.len() == 4 {
        Some(be4_of(rest))
    } else {
        None
    }
}

/// The epoch in a record; a record of another length counts as zero.
pub open spec fn epoch_in(value: Seq<u8>) -> nat {
    if value.len() == 8 {
        le_value(value)
    } else {
        0
    }
}

/// Read an epoch.
pub fn epoch_of(value: &[u8]) -> (r: u64)
    ensures
        r == epoch_in(value@),
{
    if value.len() == 8 {
        proof {
            assert(value@.subrange(0, 8) =~= value@);
        }
        get_le(value, 0, 8)
    } else {
        0
    }
}

/// The epoch of a table's record, which may be missing.
pub open spec fn live_epoch(record: Option<Seq<u8>>) -> nat {
    match record {
        Some(v) => epoch_in(v),
        None => 0,
    }
}

pub open spec fn opt_bytes(v: Option<Vec<u8>>) -> Option<Seq<u8>> {
    match v {
        Some(b) => Some(b@),
        None => None,
    }
}

/// The epoch record after one more edit; the epoch wraps around.
pub fn bump_epoch(record: Option<&Vec<u8>>) -> (r: Vec<u8>)
    ensures
        ({
            let cur = match record {
                Some(v) => epoch_in(v@),
                None => 0,
            };
            r@ == le_bytes((cur + 1) % 0x1_0000_0000_0000_0000, 8)
        }),
{
    let cur: u64 = match record {
        Some(v) => epoch_of(v.as_slice()),
        None => 0,
    };
    let mut out: Vec<u8> = Vec::with_capacity(8);
    let next: u64 = cur.wrapping_add(1);
    put_le(&mut out, next, 8);
    proof {
        assert(out@ =~= le_bytes(next as nat, 8));
    }
    out
}

// ---------------------------------------------------------------- edits

/// Why a policy cannot have a name.
pub open spec fn policy_name_ok(name: Seq<char>) -> bool {
    encode_utf8(name).len() > 0 && !encode_utf8(name).contains(47u8)
}

/// A policy name is not empty and holds no slash.
pub fn policy_name_gate(name: &str) -> (r: Result<()>)
    ensures
        match r {
            Ok(_) => policy_name_ok(name@),
            Err(e) => !policy_name_ok(name@) && e@ == Fault::Bind("policy name must be non-empty and contain no '/'"@),
        },
{
    let b = name.as_bytes();
    let mut bad = b.len() == 0;
    let mut i: usize = 0;
    while i < b.len() && !bad
        invariant
            i <= b@.len(),
            b@ == encode_utf8(name@),
            bad ==> !policy_name_ok(name@),
            !bad ==> b@.len() > 0 && forall|j: int| 0 <= j < i ==> #[trigger] b@[j] != 47,
        decreases b@.len() - i,
    {
        if b[i] == 47 {
            proof {
                assert(b@[i as int] == 47u8);
                assert(encode_utf8(name@).contains(47u8));
            }
            bad = true;
        }
        i += 1;
    }
    if bad {
        return Err(Error::Bind(String::from_str("policy name must be non-empty and contain no '/'")));
    }
    Ok(())
}

/// The id of a table, by name.
pub fn require_table_id(schema: &Schema, name: &str) -> (r: Result<u32>)
    requires
        schema.tables@.len() <= u32::MAX,
    ensures
        match r {
            Ok(id) => live_table_at(schema.tables@, name@, 0) == Some(id as int),
            Err(e) => live_table_at(schema.tables@, name@, 0) is None && e@ == Fault::Bind("unknown table `"@ + name@ + "`"@),
        },
{
    match table_id(schema, name) {
        Some(id) => Ok(id),
        None => Err(Error::Bind(quoted_in("unknown table `", name, "`"))),
    }
}

/// An edit of a table's row-level security.
pub enum PolicyEdit {
    /// Create or replace a policy, given its encoded content.
    Create { name: String, value: Vec<u8> },
    /// Drop a policy.
    Drop { name: String, existed: bool },
    /// Turn filtering on.
    Enable { force: bool },
    /// Turn filtering off; the policies stay.
    Disable,
}

/// One write to the system keyspace; without a value it deletes.
#[derive(Debug)]
pub struct SysWrite {
    pub key: Vec<u8>,
    pub value: Option<Vec<u8>>,
}

pub open spec fn write_model(w: SysWrite) -> (Seq<u8>, Option<Seq<u8>>) {
    (w.key@, opt_bytes(w.value))
}

pub open spec fn write_models(v: Seq<SysWrite>) -> Seq<(Seq<u8>, Option<Seq<u8>>)> {
    v.map_values(|w: SysWrite| write_model(w))
}

/// The flag byte: bit 1 is enabled, bit 2 is forced.
pub open spec fn flag_byte(force: bool) -> u8 {
    if force {
        3
    } else {
        1
    }
}

/// The write of an edit itself.
pub open spec fn edit_write(id: u32, edit: PolicyEdit) -> (Seq<u8>, Option<Seq<u8>>) {
    match edit {
        PolicyEdit::Create { name, value } => (policy_key(id, name@), Some(value@)),
        PolicyEdit::Drop { name, existed: _ } => (policy_key(id, name@), None),
        PolicyEdit::Enable { force } => (rlsen_prefix() + be4(id), Some(seq![flag_byte(force)])),
        PolicyEdit::Disable => (rlsen_prefix() + be4(id), None),
    }
}

/// The edit moves the epoch: all do but the drop of what was not there.
pub open spec fn edit_counts(edit: PolicyEdit) -> bool {
    match edit {
        PolicyEdit::Drop { name: _, existed } => existed,
        _ => true,
    }
}

/// The writes of an edit, made in one commit: the edit, then the next epoch.
pub fn edit_writes(table_id: u32, edit: PolicyEdit, epoch_record: Option<&Vec<u8>>) -> (r: Vec<SysWrite>)
    ensures
        ({
            let cur = match epoch_record {
                Some(v) => epoch_in(v@),
                None => 0,
            };
            let first = edit_write(table_id, edit);
            let epoch = (polep_prefix() + be4(table_id), Some(le_bytes((cur + 1) % 0x1_0000_0000_0000_0000, 8)));
            write_models(r@) == if edit_counts(edit) { seq![first, epoch] } else { seq![first] }
        }),
{
    let mut out: Vec<SysWrite> = Vec::new();
    let counts: bool = match &edit {
        PolicyEdit::Drop { name: _, existed } => *existed,
        _ => true,
    };
    let ghost model = edit_write(table_id, edit);
    let first = match edit {
        PolicyEdit::Create { name, value } => SysWrite { key: pol_subkey(table_id, name.as_str()), value: Some(value) },
        PolicyEdit::Drop { name, existed: _ } => SysWrite { key: pol_subkey(table_id, name.as_str()), value: None },
        PolicyEdit::Enable { force } => {
            let mut flags: Vec<u8> = Vec::new();
            flags.push(if force { 3 } else { 1 });
            proof {
                assert(flags@ =~= seq![flag_byte(force)]);
            }
            SysWrite { key: rlsen_subkey(table_id), value: Some(flags) }
        },
        PolicyEdit::Disable => SysWrite { key: rlsen_subkey(table_id), value: None },
    };
    proof {
        assert(write_model(first) == model);
    }
    out.push(first);
    if counts {
        out.push(SysWrite { key: polep_subkey(table_id), value: Some(bump_epoch(epoch_record)) });
    }
    proof {
        let cur = match epoch_record {
            Some(v) => epoch_in(v@),
            None => 0,
        };
        let epoch = (polep_prefix() + be4(table_id), Some(le_bytes((cur + 1) % 0x1_0000_0000_0000_0000, 8)));
        if counts {
            assert(write_models(out@) =~= seq![model, epoch]);
        } else {
            assert(write_models(out@) =~= seq![model]);
        }
    }
    out
}

// ---------------------------------------------------------------- reading the state

/// One policy as it is stored.
#[derive(Debug)]
pub struct PolicyEntry {
    pub name: String,
    pub value: Vec<u8>,
}

impl View for PolicyEntry {
    type V = (Seq<char>, Seq<u8>);

    open spec fn view(&self) -> (Seq<char>, Seq<u8>) {
        (self.name@, self.value@)
    }
}

impl Ranked for PolicyEntry {
    type Rank = Seq<u8>;

    open spec fn rank(self) -> Seq<u8> {
        encode_utf8(self.name@)
    }

    open spec fn le(a: Seq<u8>, b: Seq<u8>) -> bool {
        lex_le(a, b)
    }

    proof fn total(a: Seq<u8>, b: Seq<u8>) {
        lemma_lex_total(a, b);
    }

    proof fn transitive(a: Seq<u8>, b: Seq<u8>, c: Seq<u8>) {
        lemma_lex_transitive(a, b, c);
    }

    fn at_most(&self, other: &PolicyEntry) -> (r: bool) {
        bytes_at_most(self.name.as_str().as_bytes(), other.name.as_str().as_bytes())
    }
}

/// The row-level security of one table.
#[derive(Debug)]
pub struct TableRls {
    pub rls_enabled: bool,
    pub force: bool,
    pub epoch: u64,
    pub policies: Vec<PolicyEntry>,
}

/// The view of a [`TableRls`].
pub struct RlsModel {
    pub rls_enabled: bool,
    pub force: bool,
    pub epoch: nat,
    pub policies: Seq<(Seq<char>, Seq<u8>)>,
}

impl View for TableRls {
    type V = RlsModel;

    open spec fn view(&self) -> RlsModel {
        RlsModel {
            rls_enabled: self.rls_enabled,
            force: self.force,
            epoch: self.epoch as nat,
            policies: self.policies@.map_values(|p: PolicyEntry| p@),
        }
    }
}

/// The state of a table of which nothing is stored.
pub open spec fn no_rls() -> RlsModel {
    RlsModel { rls_enabled: false, force: false, epoch: 0, policies: Seq::empty() }
}

/// The state of a table after one more entry of a scan.
pub open spec fn after_entry(m: RlsModel, entry: (Seq<u8>, Seq<u8>), id: nat) -> RlsModel {
    let (key, value) = entry;
    if begins(key, pol_prefix()) {
        match pol_key_parsed(key.skip(4)) {
            Some((t, name)) => if t == id {
                RlsModel { policies: m.policies.push((name, value)), ..m }
            } else {
                m
            },
            None => m,
        }
    } else if begins(key, rlsen_prefix()) {
        if id_parsed(key.skip(6)) == Some(id) {
            let flags = if value.len() > 0 { value[0] } else { 0 };
            RlsModel { rls_enabled: flags % 2 == 1, force: flags / 2 % 2 == 1, ..m }
        } else {
            m
        }
    } else if begins(key, polep_prefix()) {
        if id_parsed(key.skip(6)) == Some(id) {
            RlsModel { epoch: epoch_in(value), ..m }
        } else {
            m
        }
    } else {
        m
    }
}

pub open spec fn entry_model(e: (Vec<u8>, Vec<u8>)) -> (Seq<u8>, Seq<u8>) {
    (e.0@, e.1@)
}

/// The state of a table in the first `n` entries of a scan.
pub open spec fn scanned_state(scan: Seq<(Vec<u8>, Vec<u8>)>, n: nat, id: nat) -> RlsModel
    decreases n,
{
    if n == 0 {
        no_rls()
    } else {
        after_entry(scanned_state(scan, (n - 1) as nat, id), entry_model(scan[n - 1]), id)
    }
}

/// The table that an entry belongs to, if it is one of these records.
pub open spec fn entry_table(key: Seq<u8>) -> Option<nat> {
    if begins(key, pol_prefix()) {
        match pol_key_parsed(key.skip(4)) {
            Some((t, _)) => Some(t),
            None => None,
        }
    } else if begins(key, rlsen_prefix()) || begins(key, polep_prefix()) {
        id_parsed(key.skip(6))
    } else {
        None
    }
}

/// The tables mentioned by the first `n` entries, each once, in order of
/// first mention.
pub open spec fn mentioned(scan: Seq<(Vec<u8>, Vec<u8>)>, n: nat) -> Seq<nat>
    decreases n,
{
    if n == 0 {
        Seq::empty()
    } else {
        let before = mentioned(scan, (n - 1) as nat);
        match entry_table(scan[n - 1].0@) {
            Some(t) => if before.contains(t) { before } else { before.push(t) },
            None => before,
        }
    }
}

enum Entry {
    Policy(u32, String),
    Flags(u32),
    Epoch(u32),
    Other,
}

fn classify(key: &Vec<u8>) -> (r: Entry)
    ensures
        match r {
            Entry::Policy(id, name) => begins(key@, pol_prefix()) && pol_key_parsed(key@.skip(4)) == Some((id as nat, name@)),
            Entry::Flags(id) => !begins(key@, pol_prefix()) && begins(key@, rlsen_prefix()) && id_parsed(key@.skip(6)) == Some(id as nat),
            Entry::Epoch(id) => !begins(key@, pol_prefix()) && !begins(key@, rlsen_prefix()) && begins(key@, polep_prefix()) && id_parsed(
                key@.skip(6),
            ) == Some(id as nat),
            Entry::Other => entry_table(key@) is None,
        },
{
    let (a, b, c) = (pol_bytes(), rlsen_bytes(), polep_bytes());
    let k = key.as_slice();
    if begins_with(k, a.as_slice()) {
        let rest = vstd::slice::slice_subrange(k, 4, k.len());
        proof {
            assert(k@.subrange(4, k@.len() as int) =~= k@.skip(4));
        }
        match parse_pol_key(rest) {
            Some((id, name)) => Entry::Policy(id, name),
            None => Entry::Other,
        }
    } else if begins_with(k, b.as_slice()) {
        let rest = vstd::slice::slice_subrange(k, 6, k.len());
        proof {
            assert(k@.subrange(6, k@.len() as int) =~= k@.skip(6));
        }
        match table_id_of(rest) {
            Some(id) => Entry::Flags(id),
            None => Entry::Other,
        }
    } else if begins_with(k, c.as_slice()) {
        let rest = vstd::slice::slice_subrange(k, 6, k.len());
        proof {
            assert(k@.subrange(6, k@.len() as int) =~= k@.skip(6));
        }
        match table_id_of(rest) {
            Some(id) => Entry::Epoch(id),
            None => Entry::Other,
        }
    } else {
        Entry::Other
    }
}

/// The state of one table from a scan of the whole keyspace.
pub fn one_table_from_scan(scan: &Vec<(Vec<u8>, Vec<u8>)>, table_id: u32) -> (r: TableRls)
    ensures
        r@ == scanned_state(scan@, scan@.len(), table_id as nat),
{
    let mut tp = TableRls { rls_enabled: false, force: false, epoch: 0, policies: Vec::new() };
    proof {
        assert(tp@.policies =~= Seq::<(Seq<char>, Seq<u8>)>::empty());
    }
    let mut i: usize = 0;
    while i < scan.len()
        invariant
            i <= scan@.len(),
            tp@ == scanned_state(scan@, i as nat, table_id as nat),
        decreases scan@.len() - i,
    {
        let value = scan[i].1.as_slice();
        let ghost prev = tp@;
        match classify(&scan[i].0) {
            Entry::Policy(id, name) => {
                if id == table_id {
                    tp.policies.push(PolicyEntry { name, value: copy_bytes(value) });
                    proof {
                        assert(tp@.policies =~= prev.policies.push((name@, value@)));
                    }
                }
            },
            Entry::Flags(id) => {
                if id == table_id {
                    let flags: u8 = if value.len() > 0 { value[0] } else { 0 };
                    tp.rls_enabled = flags % 2 == 1;
                    tp.force = flags / 2 % 2 == 1;
                    assert(tp@.policies == prev.policies);
                }
            },
            Entry::Epoch(id) => {
                if id == table_id {
                    tp.epoch = epoch_of(value);
                    assert(tp@.policies == prev.policies);
                }
            },
            Entry::Other => {},
        }
        i += 1;
    }
    tp
}

/// Policies in the order of their names, so that plans do not depend on the
/// order of a scan.
pub open spec fn by_name(ps: Seq<(Seq<char>, Seq<u8>)>) -> Seq<(Seq<char>, Seq<u8>)> {
    let keys = ps.map_values(|p: (Seq<char>, Seq<u8>)| encode_utf8(p.0));
    sorting::<PolicyEntry>(keys).map_values(|i: usize| ps[i as int])
}

fn sort_policies(ps: &Vec<PolicyEntry>) -> (r: Vec<PolicyEntry>)
    ensures
        r@.map_values(|p: PolicyEntry| p@) == by_name(ps@.map_values(|p: PolicyEntry| p@)),
{
    let order = sorted_order(ps.as_slice());
    let ghost models = ps@.map_values(|p: PolicyEntry| p@);
    proof {
        assert(ranks(ps@) =~= models.map_values(|p: (Seq<char>, Seq<u8>)| encode_utf8(p.0)));
    }
    let mut out: Vec<PolicyEntry> = Vec::new();
    let mut i: usize = 0;
    while i < order.len()
        invariant
            i <= order@.len(),
            models == ps@.map_values(|p: PolicyEntry| p@),
            order@ == sorting::<PolicyEntry>(models.map_values(|p: (Seq<char>, Seq<u8>)| encode_utf8(p.0))),
            forall|j: int| 0 <= j < order@.len() ==> #[trigger] order@[j] < ps@.len(),
            out@.len() == i,
            forall|j: int| 0 <= j < i ==> (#[trigger] out@[j])@ == models[order@[j] as int],
        decreases order@.len() - i,
    {
        assert(order@[i as int] < ps@.len());
        let p = &ps[order[i]];
        out.push(PolicyEntry { name: p.name.clone(), value: copy_bytes(p.value.as_slice()) });
        i += 1;
    }
    proof {
        assert(out@.map_values(|p: PolicyEntry| p@) =~= by_name(models));
    }
    out
}

/// A table's state as the planner gets it.
pub open spec fn planner_state(scan: Seq<(Vec<u8>, Vec<u8>)>, id: nat) -> RlsModel {
    let m = scanned_state(scan, scan.len(), id);
    RlsModel { policies: by_name(m.policies), ..m }
}

fn mentioned_tables(scan: &Vec<(Vec<u8>, Vec<u8>)>) -> (r: Vec<u32>)
    ensures
        r@.map_values(|t: u32| t as nat) == mentioned(scan@, scan@.len()),
{
    let mut out: Vec<u32> = Vec::new();
    let mut i: usize = 0;
    proof {
        assert(out@.map_values(|t: u32| t as nat) =~= mentioned(scan@, 0));
    }
    while i < scan.len()
        invariant
            i <= scan@.len(),
            out@.map_values(|t: u32| t as nat) == mentioned(scan@, i as nat),
        decreases scan@.len() - i,
    {
        let t = match classify(&scan[i].0) {
            Entry::Policy(id, _) => Some(id),
            Entry::Flags(id) => Some(id),
            Entry::Epoch(id) => Some(id),
            Entry::Other => None,
        };
        let ghost ms = mentioned(scan@, i as nat);
        if let Some(id) = t {
            let mut known = false;
            let mut j: usize = 0;
            while j < out.len() && !known
                invariant
                    j <= out@.len(),
                    ms == out@.map_values(|t: u32| t as nat),
                    known ==> ms.contains(id as nat),
                    !known ==> forall|k: int| 0 <= k < j ==> #[trigger] out@[k] != id,
                decreases out@.len() - j,
            {
                if out[j] == id {
                    proof {
                        assert(ms[j as int] == id as nat);
                    }
                    known = true;
                }
                j += 1;
            }
            proof {
                if !known && ms.contains(id as nat) {
                    let k = choose|k: int| 0 <= k < ms.len() && ms[k] == id as nat;
                    assert(out@[k] == id);
                }
            }
            if !known {
                let ghost prev = out@;
                out.push(id);
                proof {
                    assert(out@.map_values(|t: u32| t as nat) =~= ms.push(id as nat));
                }
            }
        }
        i += 1;
    }
    out
}

/// The state of every table of which something is stored, from a scan of the
/// whole keyspace.
pub fn load_policy_catalog(scan: &Vec<(Vec<u8>, Vec<u8>)>) -> (r: Vec<(u32, TableRls)>)
    ensures
        r@.map_values(|e: (u32, TableRls)| e.0 as nat) == mentioned(scan@, scan@.len()),
        forall|i: int| 0 <= i < r@.len() ==> (#[trigger] r@[i]).1@ == planner_state(scan@, r@[i].0 as nat),
{
    let ids = mentioned_tables(scan);
    let mut out: Vec<(u32, TableRls)> = Vec::new();
    let mut i: usize = 0;
    while i < ids.len()
        invariant
            i <= ids@.len(),
            out@.len() == i,
            forall|j: int| 0 <= j < i ==> (#[trigger] out@[j]).0 == ids@[j] && out@[j].1@ == planner_state(scan@, ids@[j] as nat),
        decreases ids@.len() - i,
    {
        let tp = one_table_from_scan(scan, ids[i]);
        let policies = sort_policies(&tp.policies);
        let sorted = TableRls { rls_enabled: tp.rls_enabled, force: tp.force, epoch: tp.epoch, policies };
        proof {
            assert(sorted@ == planner_state(scan@, ids@[i as int] as nat));
        }
        out.push((ids[i], sorted));
        i += 1;
    }
    proof {
        assert(out@.map_values(|e: (u32, TableRls)| e.0 as nat) =~= ids@.map_values(|t: u32| t as nat));
    }
    out
}

// ---------------------------------------------------------------- staleness

/// The live policy state of one table: its epoch record, and the hash of its
/// policies, read only when the epoch moved.
pub struct LivePolicy {
    pub epoch_record: Option<Vec<u8>>,
    pub hash: PlanHash,
}

/// A stamp is stale when the epoch moved and the content is another. A no-op
/// edit moves the epoch alone.
pub open spec fn stamp_stale(stamp: PolicyStamp, live: LivePolicy) -> bool {
    live_epoch(opt_bytes(live.epoch_record)) != stamp.epoch && live.hash.0@ != stamp.hash.0@
}

/// Whether the epoch of a table is that of a stamp, so that its policies need
/// not be hashed.
pub fn stamp_current(stamp: &PolicyStamp, epoch_record: Option<&Vec<u8>>) -> (r: bool)
    ensures
        r == (match epoch_record {
            Some(v) => epoch_in(v@),
            None => 0,
        } == stamp.epoch),
{
    let epoch: u64 = match epoch_record {
        Some(v) => epoch_of(v.as_slice()),
        None => 0,
    };
    epoch == stamp.epoch
}

/// Whether a stamp is stale.
pub fn is_stale(stamp: &PolicyStamp, live: &LivePolicy) -> (r: bool)
    ensures
        r == stamp_stale(*stamp, *live),
{
    if stamp_current(stamp, live.epoch_record.as_ref()) {
        return false;
    }
    !same_bytes(live.hash.0.as_slice(), stamp.hash.0.as_slice())
}

/// Check every table whose policies a plan was compiled with. A plan with one
/// stale stamp is invalid.
pub fn validate_policies(stamps: &Vec<PolicyStamp>, live: &Vec<LivePolicy>) -> (r: Result<()>)
    requires
        live@.len() == stamps@.len(),
    ensures
        match r {
            Ok(_) => forall|i: int| 0 <= i < stamps@.len() ==> !stamp_stale(#[trigger] stamps@[i], live@[i]),
            Err(e) => e@ == Fault::PlanInvalidated && exists|i: int|
                0 <= i < stamps@.len() && stamp_stale(#[trigger] stamps@[i], live@[i]),
        },
{
    let mut i: usize = 0;
    while i < stamps.len()
        invariant
            i <= stamps@.len(),
            live@.len() == stamps@.len(),
            forall|j: int| 0 <= j < i ==> !stamp_stale(#[trigger] stamps@[j], live@[j]),
        decreases stamps@.len() - i,
    {
        if is_stale(&stamps[i], &live[i]) {
            assert(stamp_stale(stamps@[i as int], live@[i as int]));
            return Err(Error::PlanInvalidated);
        }
        i += 1;
    }
    Ok(())
}

// ---------------------------------------------------------------- laws

proof fn lemma_be4(id: u32)
    ensures
        be4(id).len() == 4,
        be4_value(be4(id)) == id,
{
    let (a, b, c, d) = (id / 0x100_0000, id / 0x1_0000 % 256, id / 0x100 % 256, id % 256);
    assert(a < 256 && id == a * 0x100_0000 + b * 0x1_0000 + c * 0x100 + d) by (nonlinear_arith)
        requires
            a == id / 0x100_0000,
            b == id / 0x1_0000 % 256,
            c == id / 0x100 % 256,
            d == id % 256,
            id <= 0xffff_ffffu32,
    ;
}

proof fn lemma_policy_key(id: u32, name: Seq<char>)
    ensures
        begins(policy_key(id, name), pol_prefix()),
        policy_key(id, name).skip(4) == be4(id) + seq![47u8] + encode_utf8(name),
        pol_key_parsed(policy_key(id, name).skip(4)) == Some((id as nat, name)),
{
    let key = policy_key(id, name);
    lemma_be4(id);
    lemma_text_round_trip(name);
    assert(key.take(4) =~= pol_prefix());
    let rest = be4(id) + seq![47u8] + encode_utf8(name);
    assert(key.skip(4) =~= rest);
    assert(rest.skip(5) =~= encode_utf8(name));
    assert(rest[4] == 47u8);
}

/// The key of a policy gives back its table and name.
pub proof fn law_policy_key_round_trip(id: u32, name: Seq<char>)
    ensures
        begins(policy_key(id, name), pol_prefix()),
        pol_key_parsed(policy_key(id, name).skip(4)) == Some((id as nat, name)),
{
    lemma_policy_key(id, name);
}

/// Two policies never share a key.
pub proof fn law_policy_keys_distinct(id1: u32, name1: Seq<char>, id2: u32, name2: Seq<char>)
    requires
        policy_key(id1, name1) == policy_key(id2, name2),
    ensures
        id1 == id2,
        name1 == name2,
{
    lemma_policy_key(id1, name1);
    lemma_policy_key(id2, name2);
}

/// The key of a policy, of a table's flags and of a table's epoch are never
/// taken for one another.
pub proof fn law_key_families_disjoint(id: u32, name: Seq<char>)
    ensures
        !begins(policy_key(id, name), rlsen_prefix()),
        !begins(policy_key(id, name), polep_prefix()),
        !begins(rlsen_prefix() + be4(id), pol_prefix()),
        !begins(rlsen_prefix() + be4(id), polep_prefix()),
        !begins(polep_prefix() + be4(id), pol_prefix()),
        !begins(polep_prefix() + be4(id), rlsen_prefix()),
{
    let k = policy_key(id, name);
    let (f, e) = (rlsen_prefix() + be4(id), polep_prefix() + be4(id));
    assert(k[0] == 112 && k[3] == 47);
    assert(f[0] == 114);
    assert(e[0] == 112 && e[3] == 101);
    if begins(k, rlsen_prefix()) {
        assert(k.take(6)[0] == rlsen_prefix()[0]);
    }
    if begins(k, polep_prefix()) {
        assert(k.take(6)[3] == polep_prefix()[3]);
    }
    if begins(f, pol_prefix()) {
        assert(f.take(4)[0] == pol_prefix()[0]);
    }
    if begins(f, polep_prefix()) {
        assert(f.take(6)[0] == polep_prefix()[0]);
    }
    if begins(e, pol_prefix()) {
        assert(e.take(4)[3] == pol_prefix()[3]);
    }
    if begins(e, rlsen_prefix()) {
        assert(e.take(6)[0] == rlsen_prefix()[0]);
    }
}

/// An entry of another table, or of no table, leaves a table's state alone.
pub proof fn law_other_tables_untouched(m: RlsModel, entry: (Seq<u8>, Seq<u8>), id: nat)
    requires
        entry_table(entry.0) != Some(id),
    ensures
        after_entry(m, entry, id) == m,
{
}

/// A policy that was stored is among the policies of its table.
pub proof fn law_stored_policy_is_seen(scan: Seq<(Vec<u8>, Vec<u8>)>, n: nat, i: int, id: u32, name: Seq<char>)
    requires
        0 <= i < n <= scan.len(),
        scan[i].0@ == policy_key(id, name),
    ensures
        scanned_state(scan, n, id as nat).policies.contains((name, scan[i].1@)),
    decreases n,
{
    let before = scanned_state(scan, (n - 1) as nat, id as nat);
    let after = scanned_state(scan, n, id as nat);
    if i == n - 1 {
        lemma_policy_key(id, name);
        assert(after.policies == before.policies.push((name, scan[i].1@)));
        assert(after.policies.last() == (name, scan[i].1@));
    } else {
        law_stored_policy_is_seen(scan, (n - 1) as nat, i, id, name);
        let k = choose|k: int| 0 <= k < before.policies.len() && before.policies[k] == (name, scan[i].1@);
        assert(after.policies[k] == before.policies[k]);
    }
}

/// A table whose flags were stored by turning filtering on is filtered.
pub proof fn law_enabled_is_seen(scan: Seq<(Vec<u8>, Vec<u8>)>, n: nat, i: int, id: u32, force: bool)
    requires
        0 <= i < n <= scan.len(),
        scan[i].0@ == rlsen_prefix() + be4(id),
        scan[i].1@ == seq![flag_byte(force)],
        forall|j: int| 0 <= j < scan.len() && j != i ==> (#[trigger] scan[j]).0@ != scan[i].0@,
    ensures
        scanned_state(scan, n, id as nat).rls_enabled,
        scanned_state(scan, n, id as nat).force == force,
    decreases n,
{
    let key = scan[n - 1].0@;
    if i == n - 1 {
        law_key_families_disjoint(id, Seq::empty());
        lemma_be4(id);
        assert(key.take(6) =~= rlsen_prefix());
        assert(key.skip(6) =~= be4(id));
    } else {
        law_enabled_is_seen(scan, (n - 1) as nat, i, id, force);
        if begins(key, rlsen_prefix()) && id_parsed(key.skip(6)) == Some(id as nat) {
            lemma_be4_bytes(key.skip(6));
            lemma_be4(id);
            assert(key =~= key.take(6) + key.skip(6));
            assert(key == scan[i].0@);
        }
    }
}

proof fn lemma_be4_bytes(s: Seq<u8>)
    requires
        s.len() == 4,
    ensures
        be4_value(s) <= u32::MAX,
        be4(be4_value(s) as u32) == s,
{
    let v = be4_value(s);
    let (a, b, c, d) = (s[0] as int, s[1] as int, s[2] as int, s[3] as int);
    assert(v <= 0xffff_ffff && v / 0x100_0000 == a && v / 0x1_0000 % 256 == b && v / 0x100 % 256 == c && v % 256 == d)
        by (nonlinear_arith)
        requires
            v == a * 0x100_0000 + b * 0x1_0000 + c * 0x100 + d,
            0 <= a <= 255,
            0 <= b <= 255,
            0 <= c <= 255,
            0 <= d <= 255,
    ;
    assert(be4(v as u32) =~= s);
}

/// Every edit that counts moves the epoch: a plan compiled before it is no
/// longer taken for current without comparing the policies themselves, and is
/// stale exactly when they differ.
pub proof fn law_edit_moves_epoch(cur: u64, stamp: PolicyStamp, live: LivePolicy)
    requires
        stamp.epoch == cur,
        opt_bytes(live.epoch_record) == Some(le_bytes((cur as nat + 1) % 0x1_0000_0000_0000_0000, 8)),
    ensures
        live_epoch(opt_bytes(live.epoch_record)) != cur,
        stamp_stale(stamp, live) == (live.hash.0@ != stamp.hash.0@),
{
    let next = (cur as nat + 1) % 0x1_0000_0000_0000_0000;
    lemma_pow256_values();
    lemma_le_bytes_len(next, 8);
    lemma_le_value_of_bytes(next, 8);
}

/// No policy is seen that is not stored: every one that a table has stands in
/// the scan under the key of that table and that name, with that content.
pub proof fn law_seen_policy_is_stored(scan: Seq<(Vec<u8>, Vec<u8>)>, n: nat, id: u32, k: int) -> (i: int)
    requires
        n <= scan.len(),
        0 <= k < scanned_state(scan, n, id as nat).policies.len(),
    ensures
        0 <= i < n,
        scan[i].0@ == policy_key(id, scanned_state(scan, n, id as nat).policies[k].0),
        scan[i].1@ == scanned_state(scan, n, id as nat).policies[k].1,
    decreases n,
{
    if n == 0 {
        0
    } else {
        let before = scanned_state(scan, (n - 1) as nat, id as nat);
        let after = scanned_state(scan, n, id as nat);
        if k < before.policies.len() {
            assert(after.policies[k] == before.policies[k]);
            law_seen_policy_is_stored(scan, (n - 1) as nat, id, k)
        } else {
            let key = scan[n - 1].0@;
            let rest = key.skip(4);
            let name = after.policies[k].0;
            lemma_be4_bytes(rest.take(4));
            assert(be4_value(rest.take(4)) == be4_value(rest));
            vstd::utf8::decode_utf8_encode_utf8(rest.skip(5));
            assert(rest =~= rest.take(4) + seq![47u8] + rest.skip(5));
            assert(key =~= key.take(4) + rest);
            assert(policy_key(id, name) =~= pol_prefix() + (be4(id) + seq![47u8] + encode_utf8(name)));
            n - 1
        }
    }
}

/// A table is filtered only where that was stored for it: without flags under
/// its key it is neither filtered nor forced.
pub proof fn law_not_filtered_without_flags(scan: Seq<(Vec<u8>, Vec<u8>)>, n: nat, id: u32)
    requires
        n <= scan.len(),
        forall|i: int| 0 <= i < n ==> (#[trigger] scan[i]).0@ != rlsen_prefix() + be4(id),
    ensures
        !scanned_state(scan, n, id as nat).rls_enabled,
        !scanned_state(scan, n, id as nat).force,
    decreases n,
{
    if n > 0 {
        law_not_filtered_without_flags(scan, (n - 1) as nat, id);
        let key = scan[n - 1].0@;
        if begins(key, rlsen_prefix()) && id_parsed(key.skip(6)) == Some(id as nat) {
            lemma_be4_bytes(key.skip(6));
            assert(key =~= key.take(6) + key.skip(6));
            assert(scan[n - 1].0@ == rlsen_prefix() + be4(id));
        }
    }
}

/// The epoch that was stored for a table is the one that is seen.
pub proof fn law_epoch_is_seen(scan: Seq<(Vec<u8>, Vec<u8>)>, n: nat, i: int, id: u32, epoch: u64)
    requires
        0 <= i < n <= scan.len(),
        scan[i].0@ == polep_prefix() + be4(id),
        scan[i].1@ == le_bytes(epoch as nat, 8),
        forall|j: int| 0 <= j < scan.len() && j != i ==> (#[trigger] scan[j]).0@ != scan[i].0@,
    ensures
        scanned_state(scan, n, id as nat).epoch == epoch,
    decreases n,
{
    let key = scan[n - 1].0@;
    if i == n - 1 {
        law_key_families_disjoint(id, Seq::empty());
        lemma_be4(id);
        lemma_le_bytes_len(epoch as nat, 8);
        lemma_pow256_values();
        lemma_le_value_of_bytes(epoch as nat, 8);
        assert(key.take(6) =~= polep_prefix());
        assert(key.skip(6) =~= be4(id));
    } else {
        law_epoch_is_seen(scan, (n - 1) as nat, i, id, epoch);
        if begins(key, polep_prefix()) && id_parsed(key.skip(6)) == Some(id as nat) {
            lemma_be4_bytes(key.skip(6));
            assert(key =~= key.take(6) + key.skip(6));
            assert(key == scan[i].0@);
        }
    }
}

/// What was changed is what is seen. Once the write of an edit is in the
/// store, a policy that was created is among the table's policies with that
/// content, one that was dropped is not there under its name, a table that was
/// turned on is filtered, and forced as asked for, and one that was turned off
/// is not.
pub proof fn law_edit_is_seen(scan: Seq<(Vec<u8>, Vec<u8>)>, id: u32, edit: PolicyEdit)
    requires
        forall|i: int, j: int| 0 <= i < j < scan.len() ==> (#[trigger] scan[i]).0@ != (#[trigger] scan[j]).0@,
        match edit_write(id, edit).1 {
            Some(v) => exists|i: int| 0 <= i < scan.len() && (#[trigger] scan[i]).0@ == edit_write(id, edit).0 && scan[i].1@ == v,
            None => forall|i: int| 0 <= i < scan.len() ==> (#[trigger] scan[i]).0@ != edit_write(id, edit).0,
        },
    ensures
        ({
            let seen = scanned_state(scan, scan.len(), id as nat);
            match edit {
                PolicyEdit::Create { name, value } => seen.policies.contains((name@, value@)),
                PolicyEdit::Drop { name, existed: _ } => forall|k: int| 0 <= k < seen.policies.len() ==> (#[trigger] seen.policies[k]).0 != name@,
                PolicyEdit::Enable { force } => seen.rls_enabled && seen.force == force,
                PolicyEdit::Disable => !seen.rls_enabled,
            }
        }),
{
    let seen = scanned_state(scan, scan.len(), id as nat);
    match edit {
        PolicyEdit::Create { name, value } => {
            let i = choose|i: int| 0 <= i < scan.len() && (#[trigger] scan[i]).0@ == edit_write(id, edit).0 && scan[i].1@ == value@;
            law_stored_policy_is_seen(scan, scan.len(), i, id, name@);
        },
        PolicyEdit::Drop { name, existed: _ } => {
            assert forall|k: int| 0 <= k < seen.policies.len() implies (#[trigger] seen.policies[k]).0 != name@ by {
                let i = law_seen_policy_is_stored(scan, scan.len(), id, k);
                assert(scan[i].0@ != edit_write(id, edit).0);
            }
        },
        PolicyEdit::Enable { force } => {
            let i = choose|i: int|
                0 <= i < scan.len() && (#[trigger] scan[i]).0@ == edit_write(id, edit).0 && scan[i].1@ == seq![flag_byte(force)];
            assert forall|j: int| 0 <= j < scan.len() && j != i implies (#[trigger] scan[j]).0@ != scan[i].0@ by {
                if j < i {
                    assert(scan[j].0@ != scan[i].0@);
                } else {
                    assert(scan[i].0@ != scan[j].0@);
                }
            }
            law_enabled_is_seen(scan, scan.len(), i, id, force);
        },
        PolicyEdit::Disable => {
            assert forall|i: int| 0 <= i < scan.len() implies (#[trigger] scan[i]).0@ != rlsen_prefix() + be4(id) by {
                assert(scan[i].0@ != edit_write(id, edit).0);
            }
            law_not_filtered_without_flags(scan, scan.len(), id);
        },
    }
}

/// Edits of different things do not touch each other, and an edit touches
/// neither the epoch nor the plans.
pub proof fn law_edits_keep_apart(id: u32, edit: PolicyEdit, other: u32, name: Seq<char>)
    requires
        id != other,
    ensures
        edit_write(id, edit).0 != policy_key(other, name),
        edit_write(id, edit).0 != rlsen_prefix() + be4(other),
        edit_write(id, edit).0 != polep_prefix() + be4(id),
        edit_write(id, edit).0 != polep_prefix() + be4(other),
{
    let key = edit_write(id, edit).0;
    lemma_be4(id);
    lemma_be4(other);
    law_key_families_disjoint(id, Seq::empty());
    law_key_families_disjoint(other, name);
    assert((rlsen_prefix() + be4(other)).take(6) =~= rlsen_prefix());
    assert((rlsen_prefix() + be4(id)).take(6) =~= rlsen_prefix());
    assert((polep_prefix() + be4(other)).take(6) =~= polep_prefix());
    assert((polep_prefix() + be4(id)).take(6) =~= polep_prefix());
    assert((rlsen_prefix() + be4(other)).skip(6) =~= be4(other));
    assert((rlsen_prefix() + be4(id)).skip(6) =~= be4(id));
    assert(be4_value(be4(id)) != be4_value(be4(other)));
    match edit {
        PolicyEdit::Create { name: n, value: _ } => {
            law_key_families_disjoint(id, n@);
            if key == policy_key(other, name) {
                law_policy_keys_distinct(id, n@, other, name);
            }
        },
        PolicyEdit::Drop { name: n, existed: _ } => {
            law_key_families_disjoint(id, n@);
            if key == policy_key(other, name) {
                law_policy_keys_distinct(id, n@, other, name);
            }
        },
        _ => {
            if key == policy_key(other, name) {
                assert(begins(key, rlsen_prefix()));
            }
        },
    }
}

/// Every edit that changes something moves the epoch; dropping what is not
/// there changes nothing.
pub proof fn law_only_a_void_drop_keeps_the_epoch(edit: PolicyEdit)
    ensures
        !edit_counts(edit) <==> (edit matches PolicyEdit::Drop { name: _, existed } && !existed),
{
}

/// A plan outlives an edit only where it cannot have been meant: the epoch
/// stands, or the policies are what they were.
pub proof fn law_plan_is_stale_only_if_policies_changed(stamp: PolicyStamp, live: LivePolicy)
    ensures
        stamp_stale(stamp, live) <==> (match live.epoch_record {
            Some(v) => if v@.len() == 8 { le_value(v@) } else { 0 },
            None => 0,
        }) != stamp.epoch && live.hash.0@ != stamp.hash.0@,
{
}

/// The planner gets all policies of a table, each once, in the order of their
/// names.
pub proof fn law_policies_come_by_name(ps: Seq<(Seq<char>, Seq<u8>)>)
    requires
        ps.len() <= usize::MAX,
    ensures
        by_name(ps).len() == ps.len(),
        forall|i: int| 0 <= i < ps.len() ==> by_name(ps).contains(#[trigger] ps[i]),
        forall|k: int| 0 <= k < ps.len() ==> ps.contains(#[trigger] by_name(ps)[k]),
        forall|i: int, j: int|
            0 <= i < j < ps.len() ==> lex_le(encode_utf8((#[trigger] by_name(ps)[i]).0), encode_utf8((#[trigger] by_name(ps)[j]).0)),
{
    let keys = ps.map_values(|p: (Seq<char>, Seq<u8>)| encode_utf8(p.0));
    crate::sort::lemma_sorting_exists::<PolicyEntry>(keys);
    let order = sorting::<PolicyEntry>(keys);
    assert forall|i: int| 0 <= i < ps.len() implies by_name(ps).contains(#[trigger] ps[i]) by {
        assert(crate::sort::lists(order, i));
        let a = choose|a: int| 0 <= a < order.len() && #[trigger] order[a] == i;
        assert(by_name(ps)[a] == ps[i]);
    }
    assert forall|k: int| 0 <= k < ps.len() implies ps.contains(#[trigger] by_name(ps)[k]) by {
        assert(by_name(ps)[k] == ps[order[k] as int]);
    }
    assert forall|i: int, j: int| 0 <= i < j < ps.len() implies lex_le(
        encode_utf8((#[trigger] by_name(ps)[i]).0),
        encode_utf8((#[trigger] by_name(ps)[j]).0),
    ) by {
        assert(crate::sort::before::<PolicyEntry>(keys, order[i] as int, order[j] as int));
        lemma_lex_total(keys[order[i] as int], keys[order[j] as int]);
    }
}

/// The tables of the catalog are those of which something is stored, each once.
pub proof fn law_catalog_lists_stored_tables(scan: Seq<(Vec<u8>, Vec<u8>)>, n: nat)
    requires
        n <= scan.len(),
    ensures
        forall|i: int| 0 <= i < n && entry_table((#[trigger] scan[i]).0@) is Some ==> mentioned(scan, n).contains(entry_table(scan[i].0@)->Some_0),
        forall|k: int|
            0 <= k < mentioned(scan, n).len() ==> exists|i: int| 0 <= i < n && entry_table((#[trigger] scan[i]).0@) == Some(#[trigger] mentioned(scan, n)[k]),
        forall|a: int, b: int| 0 <= a < b < mentioned(scan, n).len() ==> #[trigger] mentioned(scan, n)[a] != #[trigger] mentioned(scan, n)[b],
    decreases n,
{
    if n > 0 {
        law_catalog_lists_stored_tables(scan, (n - 1) as nat);
        let (before, all) = (mentioned(scan, (n - 1) as nat), mentioned(scan, n));
        assert forall|i: int| 0 <= i < n && entry_table((#[trigger] scan[i]).0@) is Some implies all.contains(
            entry_table(scan[i].0@)->Some_0,
        ) by {
            let t = entry_table(scan[i].0@)->Some_0;
            if before.contains(t) {
                let k = before.index_of(t);
                assert(all[k] == t);
            } else {
                assert(i == n - 1);
                assert(all[before.len() as int] == t);
            }
        }
        assert forall|k: int| 0 <= k < all.len() implies exists|i: int|
            0 <= i < n && entry_table((#[trigger] scan[i]).0@) == Some(#[trigger] all[k]) by {
            if k < before.len() {
                assert(all[k] == before[k]);
                let i = choose|i: int| 0 <= i < n - 1 && entry_table((#[trigger] scan[i]).0@) == Some(before[k]);
                assert(entry_table(scan[i].0@) == Some(all[k]));
            } else {
                assert(entry_table(scan[n - 1].0@) == Some(all[k]));
            }
        }
        assert forall|a: int, b: int| 0 <= a < b < all.len() implies #[trigger] all[a] != #[trigger] all[b] by {
            assert(all[a] == before[a]);
            if b < before.len() {
                assert(all[b] == before[b]);
            } else {
                assert(before.contains(all[a]));
            }
        }
    }
}

} // verus!
