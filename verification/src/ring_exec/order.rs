//! Which intents a leader takes, and in which order it runs them.
//!
//! A batch runs in key-locality order: by written table, then keyed accesses
//! by key bytes, then accesses without a key, then by slot. Intents with the
//! same table and key keep their slot order.

use vstd::prelude::*;
use vstd::string::StringExecFns;
use crate::bytes::{bytes_at_most, copy_bytes, get_le, le_bytes, le_value, lemma_lex_antisymmetric, lemma_lex_total, lemma_lex_transitive, lex_le, put_bytes, put_le};
use crate::error::{Error, Fault, Result};
use crate::plan::{part_values, resolve_pk, CompiledPlan, KeyAccess, PlanStmt};
use crate::sort::{is_sorting, ranks, sorted_order, Ranked};
use crate::value::{models, Value, ValueModel};

verus! {

/// Keyed accesses come first within their table.
pub const RANK_KEYED: u8 = 0;
/// Accesses without a known key come last within their table.
pub const RANK_NO_KEY: u8 = 1;

/// Written table, rank, key bytes, slot.
pub type SortKey = (u32, u8, Vec<u8>, u32);

/// The view of a [`SortKey`].
pub type SortKeyView = (u32, u8, Seq<u8>, u32);

/// The lexicographic order of sort keys.
pub open spec fn sort_key_le(a: SortKeyView, b: SortKeyView) -> bool {
    if a.0 != b.0 {
        a.0 < b.0
    } else if a.1 != b.1 {
        a.1 < b.1
    } else if a.2 != b.2 {
        lex_le(a.2, b.2)
    } else {
        a.3 <= b.3
    }
}

impl Ranked for (u32, u8, Vec<u8>, u32) {
    type Rank = SortKeyView;

    open spec fn rank(self) -> SortKeyView {
        (self.0, self.1, self.2@, self.3)
    }

    open spec fn le(a: SortKeyView, b: SortKeyView) -> bool {
        sort_key_le(a, b)
    }

    proof fn total(a: SortKeyView, b: SortKeyView) {
        lemma_lex_total(a.2, b.2);
    }

    proof fn transitive(a: SortKeyView, b: SortKeyView, c: SortKeyView) {
        if lex_le(a.2, b.2) && lex_le(b.2, c.2) {
            lemma_lex_transitive(a.2, b.2, c.2);
            if lex_le(c.2, b.2) {
                lemma_lex_antisymmetric(b.2, c.2);
            }
            if lex_le(b.2, a.2) {
                lemma_lex_antisymmetric(a.2, b.2);
            }
            if a.2 == c.2 {
                lemma_lex_antisymmetric(a.2, b.2);
            }
        }
    }

    fn at_most(&self, other: &(u32, u8, Vec<u8>, u32)) -> (r: bool) {
        if self.0 != other.0 {
            return self.0 < other.0;
        }
        if self.1 != other.1 {
            return self.1 < other.1;
        }
        let below = bytes_at_most(self.2.as_slice(), other.2.as_slice());
        let above = bytes_at_most(other.2.as_slice(), self.2.as_slice());
        proof {
            lemma_lex_total(self.2@, other.2@);
            if below && above {
                lemma_lex_antisymmetric(self.2@, other.2@);
            }
        }
        if below && above {
            self.3 <= other.3
        } else {
            below
        }
    }
}

/// What is known of the place of a statement's first key before it runs.
pub enum KeyValues {
    /// The key has these values.
    Keyed(Vec<Value>),
    /// The scan starts at the table's first key.
    First,
    /// No key is known.
    Unknown,
}

/// The place of a statement's first key.
pub open spec fn first_key(access: KeyAccess, consts: Seq<Value>, params: Seq<Value>) -> Option<Seq<ValueModel>> {
    match access {
        KeyAccess::Point(parts) => part_values(parts@, consts, params),
        KeyAccess::Range { lo: Some(lo), hi: _ } => part_values(lo@, consts, params),
        KeyAccess::Range { lo: None, hi: _ } => Some(Seq::empty()),
        KeyAccess::Full => None,
    }
}

/// The access is a range without a lower bound.
pub open spec fn starts_first(access: KeyAccess) -> bool {
    access matches KeyAccess::Range { lo: None, hi: _ }
}

/// Resolve the first key of a statement from its parameters alone.
pub fn key_values(plan: &CompiledPlan, params: &[Value]) -> (r: KeyValues)
    ensures
        match r {
            KeyValues::Keyed(vs) => !starts_first(plan.footprint.key_access) && first_key(
                plan.footprint.key_access,
                plan.consts@,
                params@,
            ) == Some(models(vs@)),
            KeyValues::First => starts_first(plan.footprint.key_access),
            KeyValues::Unknown => !starts_first(plan.footprint.key_access) && first_key(
                plan.footprint.key_access,
                plan.consts@,
                params@,
            ) is None,
        },
{
    let consts = plan.consts.as_slice();
    match &plan.footprint.key_access {
        KeyAccess::Point(parts) => match resolve_pk(parts.as_slice(), consts, params) {
            Some(vs) => KeyValues::Keyed(vs),
            None => KeyValues::Unknown,
        },
        KeyAccess::Range { lo: Some(lo), hi: _ } => match resolve_pk(lo.as_slice(), consts, params) {
            Some(vs) => KeyValues::Keyed(vs),
            None => KeyValues::Unknown,
        },
        KeyAccess::Range { lo: None, hi: _ } => KeyValues::First,
        KeyAccess::Full => KeyValues::Unknown,
    }
}

/// What ordering reads of a loaded intent: the table it writes, if any, and
/// the encoded bytes of its first key, if one is known. A scan from a table's
/// first key has the empty key.
pub struct Placement {
    pub table: Option<u32>,
    pub key: Option<Vec<u8>>,
}

/// An intent of a batch; `None` where its plan or parameters did not load.
pub struct PreparedIntent {
    pub idx: u32,
    pub prepared: Option<Placement>,
}

/// The sort key of an intent: what did not load, and what writes no table,
/// comes behind every table.
pub open spec fn locality(p: PreparedIntent) -> SortKeyView {
    match p.prepared {
        None => (u32::MAX, RANK_NO_KEY, Seq::empty(), p.idx),
        Some(place) => {
            let table = match place.table {
                Some(t) => t,
                None => u32::MAX,
            };
            match place.key {
                Some(k) => (table, RANK_KEYED, k@, p.idx),
                None => (table, RANK_NO_KEY, Seq::empty(), p.idx),
            }
        },
    }
}

/// The sort key of an intent.
pub fn locality_key(p: &PreparedIntent) -> (k: SortKey)
    ensures
        k.rank() == locality(*p),
{
    let idx: u32 = p.idx;
    match &p.prepared {
        None => {
            let e: Vec<u8> = Vec::new();
            proof {
                assert(e@ =~= Seq::<u8>::empty());
            }
            (0xFFFF_FFFF, RANK_NO_KEY, e, idx)
        },
        Some(place) => {
            let table: u32 = match place.table {
                Some(t) => t,
                None => 0xFFFF_FFFF,
            };
            match &place.key {
                Some(k) => (table, RANK_KEYED, copy_bytes(k.as_slice()), idx),
                None => {
                    let e: Vec<u8> = Vec::new();
                    proof {
                        assert(e@ =~= Seq::<u8>::empty());
                    }
                    (table, RANK_NO_KEY, e, idx)
                },
            }
        },
    }
}

/// The sort keys of a batch.
pub open spec fn localities(batch: Seq<PreparedIntent>) -> Seq<SortKeyView> {
    batch.map_values(|p: PreparedIntent| locality(p))
}

/// The order in which a leader runs a batch: sorted, or by slot scan when
/// sorting is switched off.
pub fn drain_order(batch: &Vec<PreparedIntent>, sorted: bool) -> (order: Vec<usize>)
    ensures
        sorted ==> is_sorting::<SortKey>(localities(batch@), order@),
        !sorted ==> order@ == Seq::new(batch@.len(), |i: int| i as usize),
{
    let mut keys: Vec<SortKey> = Vec::with_capacity(batch.len());
    let mut slots: Vec<usize> = Vec::with_capacity(batch.len());
    let mut i: usize = 0;
    while i < batch.len()
        invariant
            i <= batch@.len(),
            keys@.len() == i,
            slots@.len() == i,
            forall|j: int| 0 <= j < i ==> (#[trigger] keys@[j]).rank() == locality(batch@[j]),
            forall|j: int| 0 <= j < i ==> #[trigger] slots@[j] == j,
        decreases batch@.len() - i,
    {
        keys.push(locality_key(&batch[i]));
        slots.push(i);
        i += 1;
    }
    if !sorted {
        proof {
            assert(slots@ =~= Seq::new(batch@.len(), |i: int| i as usize));
        }
        return slots;
    }
    proof {
        assert(ranks(keys@) =~= localities(batch@));
    }
    sorted_order(keys.as_slice())
}

/// The statement controls a transaction or a savepoint.
pub open spec fn is_control(stmt: PlanStmt) -> bool {
    match stmt {
        PlanStmt::Begin => true,
        PlanStmt::Commit => true,
        PlanStmt::Rollback => true,
        PlanStmt::Savepoint(_) => true,
        PlanStmt::Release(_) => true,
        PlanStmt::RollbackTo(_) => true,
        _ => false,
    }
}

/// Whether a loaded plan may run from the ring: only writing statements may,
/// and none that calls a function of one connection.
pub fn admit_intent(plan: &CompiledPlan) -> (r: Result<()>)
    ensures
        match r {
            Ok(()) => !plan.footprint.read_only && !is_control(plan.stmt) && !plan.host_call,
            Err(e) => if plan.footprint.read_only || is_control(plan.stmt) {
                e@ == Fault::Unsupported("only DML plans may enter the intent ring"@)
            } else {
                plan.host_call && e@ == Fault::Unsupported(
                    "a statement calling a host-registered UDF is connection-local and cannot be executed by another connection's group-commit leader"@,
                )
            },
        },
{
    let control = match &plan.stmt {
        PlanStmt::Begin => true,
        PlanStmt::Commit => true,
        PlanStmt::Rollback => true,
        PlanStmt::Savepoint(_) => true,
        PlanStmt::Release(_) => true,
        PlanStmt::RollbackTo(_) => true,
        _ => false,
    };
    if plan.footprint.read_only || control {
        return Err(
            Error::Unsupported(String::from_str("only DML plans may enter the intent ring")),
        );
    }
    if plan.host_call {
        return Err(
            Error::Unsupported(
                String::from_str(
                    "a statement calling a host-registered UDF is connection-local and cannot be executed by another connection's group-commit leader",
                ),
            ),
        );
    }
    Ok(())
}

/// All byte strings in a row.
pub open spec fn concatenated(parts: Seq<Vec<u8>>) -> Seq<u8>
    decreases parts.len(),
{
    if parts.len() == 0 { Seq::empty() } else { concatenated(parts.drop_last()) + parts.last()@ }
}

/// Parameters for a ring slot: their number in 16 bits, then each encoded
/// value.
pub fn encode_params(encoded: &Vec<Vec<u8>>) -> (buf: Vec<u8>)
    ensures
        buf@ == le_bytes(encoded@.len(), 2) + concatenated(encoded@),
{
    let mut buf: Vec<u8> = Vec::with_capacity(16);
    put_le(&mut buf, encoded.len() as u64, 2);
    let mut i: usize = 0;
    proof {
        assert(encoded@.take(0) =~= Seq::<Vec<u8>>::empty());
        assert(buf@ =~= le_bytes(encoded@.len(), 2) + concatenated(encoded@.take(0)));
    }
    while i < encoded.len()
        invariant
            i <= encoded@.len(),
            buf@ == le_bytes(encoded@.len(), 2) + concatenated(encoded@.take(i as int)),
        decreases encoded@.len() - i,
    {
        put_bytes(&mut buf, encoded[i].as_slice());
        proof {
            assert(encoded@.take(i + 1).drop_last() =~= encoded@.take(i as int));
            assert(buf@ =~= le_bytes(encoded@.len(), 2) + concatenated(encoded@.take(i + 1)));
        }
        i += 1;
    }
    proof {
        assert(encoded@.take(i as int) =~= encoded@);
    }
    buf
}

/// The number of parameters that a slot's buffer states; the values follow.
pub fn param_count(buf: &[u8]) -> (r: Result<u16>)
    ensures
        match r {
            Ok(n) => buf@.len() >= 2 && n == le_value(buf@.subrange(0, 2)),
            Err(e) => buf@.len() < 2 && e@ == Fault::Corrupt("truncated intent params"@),
        },
{
    if buf.len() < 2 {
        return Err(Error::Corrupt(String::from_str("truncated intent params")));
    }
    let n: u64 = get_le(buf, 0, 2);
    proof {
        crate::bytes::lemma_pow256_values();
        crate::bytes::lemma_le_bytes_of_value(buf@.subrange(0, 2));
    }
    Ok(n as u16)
}

/// Values read one behind the other from the third byte on: the places where
/// each begins, and the values.
pub open spec fn read_chain<F: Fn(&[u8], usize) -> Result<(Value, usize)>>(read: F, buf: &[u8], at: Seq<usize>, vals: Seq<Value>) -> bool {
    &&& at.len() == vals.len() + 1
    &&& at[0] == 2
    &&& forall|i: int| 0 <= i < vals.len() ==> call_ensures(read, (buf, at[i]), Ok((#[trigger] vals[i], at[i + 1])))
}

/// The parameters in a slot's buffer, given how one value is read: as many
/// as the buffer states, one behind the other.
pub fn decode_params<F: Fn(&[u8], usize) -> Result<(Value, usize)>>(buf: &[u8], read: F) -> (r: Result<Vec<Value>>)
    requires
        forall|b: &[u8], at: usize| call_requires(read, (b, at)),
    ensures
        match r {
            Ok(out) => buf@.len() >= 2 && out@.len() == le_value(buf@.subrange(0, 2)) && exists|at: Seq<usize>| #[trigger]
                read_chain(read, buf, at, out@),
            Err(e) => if buf@.len() < 2 {
                e@ == Fault::Corrupt("truncated intent params"@)
            } else {
                exists|at: Seq<usize>, vals: Seq<Value>| #[trigger]
                    read_chain(read, buf, at, vals) && vals.len() < le_value(buf@.subrange(0, 2)) && call_ensures(
                        read,
                        (buf, at.last()),
                        Err(e),
                    )
            },
        },
{
    let n: u16 = match param_count(buf) {
        Ok(n) => n,
        Err(e) => {
            return Err(e);
        },
    };
    let mut out: Vec<Value> = Vec::with_capacity(n as usize);
    let mut pos: usize = 2;
    let mut i: u16 = 0;
    let ghost mut at: Seq<usize> = seq![2usize];
    while i < n
        invariant
            i <= n,
            buf@.len() >= 2,
            n == le_value(buf@.subrange(0, 2)),
            forall|b: &[u8], p: usize| call_requires(read, (b, p)),
            out@.len() == i,
            read_chain(read, buf, at, out@),
            at.last() == pos,
        decreases n - i,
    {
        match read(buf, pos) {
            Err(e) => {
                assert(read_chain(read, buf, at, out@));
                return Err(e);
            },
            Ok((v, next)) => {
                let ghost before = out@;
                let ghost places = at;
                out.push(v);
                proof {
                    at = at.push(next);
                    assert forall|j: int| 0 <= j < out@.len() implies call_ensures(
                        read,
                        (buf, at[j]),
                        Ok((#[trigger] out@[j], at[j + 1])),
                    ) by {
                        if j < before.len() {
                            assert(out@[j] == before[j]);
                            assert(at[j] == places[j] && at[j + 1] == places[j + 1]);
                        }
                    }
                }
                pos = next;
            },
        }
        i += 1;
    }
    Ok(out)
}

// ---------------------------------------------------------------- laws

/// Slots decide only between intents with the same table, rank and key:
/// everywhere else their order stays when the slots change.
pub proof fn law_slots_break_ties_only(a: SortKeyView, b: SortKeyView, i: u32, j: u32)
    ensures
        (a.0, a.1, a.2) != (b.0, b.1, b.2) ==> sort_key_le(a, b) == sort_key_le(
            (a.0, a.1, a.2, i),
            (b.0, b.1, b.2, j),
        ),
        (a.0, a.1, a.2) == (b.0, b.1, b.2) ==> sort_key_le(a, b) == (a.3 <= b.3),
{
}

/// An intent without a known key runs behind every keyed intent of its table,
/// and before the intents of every later table; one that did not load runs
/// last of all.
pub proof fn law_unkeyed_last(keyed: PreparedIntent, unkeyed: PreparedIntent, later: PreparedIntent, broken: PreparedIntent)
    requires
        keyed.prepared is Some && keyed.prepared->Some_0.key is Some,
        unkeyed.prepared is Some && unkeyed.prepared->Some_0.key is None,
        keyed.prepared->Some_0.table == unkeyed.prepared->Some_0.table,
        later.prepared is Some && later.prepared->Some_0.table is Some,
        unkeyed.prepared->Some_0.table is Some,
        unkeyed.prepared->Some_0.table->Some_0 < later.prepared->Some_0.table->Some_0,
        broken.prepared is None,
        later.prepared->Some_0.table->Some_0 < u32::MAX,
    ensures
        !sort_key_le(locality(unkeyed), locality(keyed)),
        !sort_key_le(locality(later), locality(unkeyed)),
        !sort_key_le(locality(broken), locality(later)),
{
}

/// Work on one table is drained together, and on one key together: the table
/// orders first, then the key's bytes, then the place in the ring.
pub proof fn law_drained_by_table_then_key(a: PreparedIntent, b: PreparedIntent, t: u32, u: u32, k: Vec<u8>, l: Vec<u8>)
    requires
        a.prepared is Some && a.prepared->Some_0.table == Some(t) && a.prepared->Some_0.key == Some(k),
        b.prepared is Some && b.prepared->Some_0.table == Some(u) && b.prepared->Some_0.key == Some(l),
    ensures
        t < u ==> sort_key_le(locality(a), locality(b)) && !sort_key_le(locality(b), locality(a)),
        t == u && k@ != l@ ==> sort_key_le(locality(a), locality(b)) == lex_le(k@, l@),
        t == u && k@ == l@ ==> sort_key_le(locality(a), locality(b)) == (a.idx <= b.idx),
{
}

/// Only statements that change rows may enter the ring.
pub proof fn law_control_stays_out(stmt: PlanStmt)
    ensures
        is_control(stmt) <==> !(stmt is Select || stmt is Compound || stmt is RecursiveCte || stmt is Derived || stmt is Insert || stmt is Update
            || stmt is Delete),
{
}

/// The number of parameters that a request tells is the number it holds, and
/// behind it they stand one after the other.
pub proof fn law_params_are_counted(encoded: Seq<Vec<u8>>)
    requires
        encoded.len() <= u16::MAX,
    ensures
        ({
            let buf = le_bytes(encoded.len(), 2) + concatenated(encoded);
            &&& le_value(buf.subrange(0, 2)) == encoded.len()
            &&& buf.skip(2) == concatenated(encoded)
        }),
{
    let buf = le_bytes(encoded.len(), 2) + concatenated(encoded);
    crate::bytes::lemma_le_bytes_len(encoded.len(), 2);
    crate::bytes::lemma_pow256_values();
    crate::bytes::lemma_le_value_of_bytes(encoded.len(), 2);
    assert(buf.subrange(0, 2) =~= le_bytes(encoded.len(), 2));
    assert(buf.skip(2) =~= concatenated(encoded));
}

/// Concatenated parts stand in their order, each whole.
pub proof fn law_parts_stand_in_order(a: Seq<Vec<u8>>, part: Vec<u8>, b: Seq<Vec<u8>>)
    ensures
        concatenated(a.push(part) + b) == concatenated(a) + part@ + concatenated(b),
    decreases b.len(),
{
    if b.len() == 0 {
        assert(a.push(part) + b =~= a.push(part));
        assert(a.push(part).drop_last() =~= a);
        assert(concatenated(a) + part@ + concatenated(b) =~= concatenated(a) + part@);
    } else {
        assert((a.push(part) + b).drop_last() =~= a.push(part) + b.drop_last());
        law_parts_stand_in_order(a, part, b.drop_last());
        assert(concatenated(a) + part@ + concatenated(b) =~= concatenated(a) + part@ + concatenated(b.drop_last()) + b.last()@);
    }
}

} // verus!
