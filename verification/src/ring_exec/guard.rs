//! What a statement touches, told before it runs: columns, byte ranges, keys
//! and shards for the write guard, and key regions for change notification.

use vstd::prelude::*;
use vstd::utf8::encode_utf8;
use crate::bytes::{begins, copy_bytes, lex_le, put_bytes};
use crate::fnv::{fnv1a, fold_range, FNV_OFFSET, FNV_PRIME};
use crate::plan::{CompiledPlan, ExprProgram, Instr, KeyAccess, PlanStmt, PolicyStamp, Projection, SelectPlan};
use crate::ring_exec::splice::{length_change, plan_delta, plan_range, range_touched};
use crate::value::Value;

verus! {

/// The hash of an encoded key: FNV-1a with the lowest bit set, so never zero.
pub open spec fn key_hash_of(key: Seq<u8>) -> u64 {
    fnv1a(key) | 1
}

/// The hash of an encoded key.
pub fn key_hash(key: &[u8]) -> (h: u64)
    ensures
        h == key_hash_of(key@),
        h != 0,
{
    let h: u64 = fold_range(FNV_PRIME, FNV_OFFSET, key, 0, key.len());
    proof {
        assert(key@.subrange(0, key@.len() as int) =~= key@);
        assert((h | 1) != 0) by (bit_vector);
    }
    h | 1
}

// -------------------------------------------------------------- columns

/// The bit of a column in a column mask; columns share bits modulo 64.
pub open spec fn col_bit(c: u16) -> u64 {
    1u64 << ((c % 64) as u64)
}

/// The mask of the columns that instructions read.
pub open spec fn read_mask(instrs: Seq<Instr>) -> u64
    decreases instrs.len(),
{
    if instrs.len() == 0 {
        0
    } else {
        read_mask(instrs.drop_last()) | (match instrs.last() {
            Instr::PushCol(c) => col_bit(c),
            _ => 0,
        })
    }
}

/// The mask of the columns that an optional filter reads.
pub open spec fn filter_mask(filter: Option<ExprProgram>) -> u64 {
    match filter {
        Some(f) => read_mask(f.instrs@),
        None => 0,
    }
}

/// The mask of the columns assigned and read by assignments.
pub open spec fn set_mask(set: Seq<(u16, ExprProgram)>) -> u64
    decreases set.len(),
{
    if set.len() == 0 {
        0
    } else {
        set_mask(set.drop_last()) | col_bit(set.last().0) | read_mask(set.last().1.instrs@)
    }
}

/// The mask of the columns that output columns show or read.
pub open spec fn projection_mask(ps: Seq<Projection>) -> u64
    decreases ps.len(),
{
    if ps.len() == 0 {
        0
    } else {
        projection_mask(ps.drop_last()) | (match ps.last() {
            Projection::Column(c) => col_bit(c),
            Projection::Expr(p) => read_mask(p.instrs@),
        })
    }
}

/// A SELECT whose result depends on its filter and its output columns alone.
pub open spec fn plain_select(sp: SelectPlan) -> bool {
    &&& sp.joins@.len() == 0
    &&& !sp.aggregate
    &&& !sp.windows
    &&& !sp.distinct
    &&& !sp.order_by
    &&& !sp.joined_filter
    &&& !sp.post_filter
    &&& sp.limit is None
    &&& sp.offset is None
}

/// The columns that a statement's outcome depends on; `None` means all.
pub open spec fn cols_touched(plan: CompiledPlan) -> Option<u64> {
    if plan.subplans@.len() > 0 {
        None
    } else {
        match plan.stmt {
            PlanStmt::Update { table: _, access: _, filter, set } => Some(filter_mask(filter) | set_mask(set@)),
            PlanStmt::Select(sp) => if plain_select(sp) {
                Some(filter_mask(sp.filter) | projection_mask(sp.projection@))
            } else {
                None
            },
            _ => None,
        }
    }
}

fn column_bit(c: u16) -> (b: u64)
    ensures
        b == col_bit(c),
{
    1u64 << ((c % 64) as u64)
}

fn cols_read_mask(p: &ExprProgram) -> (m: u64)
    ensures
        m == read_mask(p.instrs@),
{
    let mut m: u64 = 0;
    let mut i: usize = 0;
    proof {
        assert(p.instrs@.take(0) =~= Seq::<Instr>::empty());
    }
    while i < p.instrs.len()
        invariant
            i <= p.instrs@.len(),
            m == read_mask(p.instrs@.take(i as int)),
        decreases p.instrs@.len() - i,
    {
        proof {
            assert(p.instrs@.take(i + 1).drop_last() =~= p.instrs@.take(i as int));
        }
        let b: u64 = match p.instrs[i] {
            Instr::PushCol(c) => column_bit(c),
            _ => 0,
        };
        m = m | b;
        i += 1;
    }
    proof {
        assert(p.instrs@.take(i as int) =~= p.instrs@);
    }
    m
}

fn filter_cols(f: &Option<ExprProgram>) -> (m: u64)
    ensures
        m == filter_mask(*f),
{
    match f {
        Some(p) => cols_read_mask(p),
        None => 0,
    }
}

/// The columns that a statement's outcome depends on, as a mask; `None` means
/// all. Exact for an UPDATE and for a plain SELECT.
pub fn plan_cols(plan: &CompiledPlan) -> (r: Option<u64>)
    ensures
        r == cols_touched(*plan),
{
    if plan.subplans.len() > 0 {
        return None;
    }
    match &plan.stmt {
        PlanStmt::Update { table: _, access: _, filter, set } => {
            let f: u64 = filter_cols(filter);
            let mut m: u64 = 0;
            let mut i: usize = 0;
            proof {
                assert(set@.take(0) =~= Seq::<(u16, ExprProgram)>::empty());
            }
            while i < set.len()
                invariant
                    i <= set@.len(),
                    m == set_mask(set@.take(i as int)),
                decreases set@.len() - i,
            {
                proof {
                    assert(set@.take(i + 1).drop_last() =~= set@.take(i as int));
                }
                m = m | column_bit(set[i].0) | cols_read_mask(&set[i].1);
                i += 1;
            }
            proof {
                assert(set@.take(i as int) =~= set@);
            }
            Some(f | m)
        },
        PlanStmt::Select(sp) => {
            if sp.joins.len() > 0 || sp.aggregate || sp.windows || sp.distinct || sp.order_by || sp.joined_filter
                || sp.post_filter || sp.limit.is_some() || sp.offset.is_some() {
                return None;
            }
            let f: u64 = filter_cols(&sp.filter);
            let ps = &sp.projection;
            let mut m: u64 = 0;
            let mut i: usize = 0;
            proof {
                assert(ps@.take(0) =~= Seq::<Projection>::empty());
            }
            while i < ps.len()
                invariant
                    i <= ps@.len(),
                    m == projection_mask(ps@.take(i as int)),
                decreases ps@.len() - i,
            {
                proof {
                    assert(ps@.take(i + 1).drop_last() =~= ps@.take(i as int));
                }
                let b: u64 = match &ps[i] {
                    Projection::Column(c) => column_bit(*c),
                    Projection::Expr(p) => cols_read_mask(p),
                };
                m = m | b;
                i += 1;
            }
            proof {
                assert(ps@.take(i as int) =~= ps@);
            }
            Some(f | m)
        },
        _ => None,
    }
}

// ------------------------------------------------------- keys and shards

/// The hash of the one key that a statement names, given its encoded bytes
/// where they are known; `None` means anywhere.
pub fn plan_key(plan: &CompiledPlan, point_key: Option<&[u8]>) -> (r: Option<u64>)
    ensures
        r == (match (plan.footprint.key_access, point_key) {
            (KeyAccess::Point(_), Some(k)) => Some(key_hash_of(k@)),
            _ => None,
        }),
{
    match (&plan.footprint.key_access, point_key) {
        (KeyAccess::Point(_), Some(k)) => Some(key_hash(k)),
        _ => None,
    }
}

/// Table `t` has a policy stamp.
pub open spec fn covered(policies: Seq<PolicyStamp>, t: u32) -> bool {
    exists|i: int| 0 <= i < policies.len() && (#[trigger] policies[i]).table == t
}

/// Every one of `tables` has a policy stamp.
pub open spec fn all_covered(policies: Seq<PolicyStamp>, tables: Seq<u32>) -> bool {
    forall|i: int| 0 <= i < tables.len() ==> covered(policies, #[trigger] tables[i])
}

/// What a shard identity is hashed over: each context key, a unit separator,
/// the encoded value, a record separator.
pub open spec fn shard_bytes(keys: Seq<String>, encoded: Seq<Vec<u8>>) -> Seq<u8>
    decreases keys.len(),
{
    if keys.len() == 0 {
        Seq::empty()
    } else {
        shard_bytes(keys.drop_last(), encoded) + encode_utf8(keys.last()@) + seq![0x1fu8] + encoded[keys.len() - 1]@
            + seq![0x1eu8]
    }
}

/// The shard identity of a statement: known only where it reads session
/// context and every table it touches has a policy.
pub open spec fn shard_of_plan(plan: CompiledPlan, encoded: Seq<Vec<u8>>) -> Option<u64> {
    if plan.context_keys@.len() == 0 || !all_covered(plan.policies@, plan.footprint.tables_read@)
        || !all_covered(plan.policies@, plan.footprint.tables_written@) || encoded.len() != plan.context_keys@.len() {
        None
    } else {
        Some(key_hash_of(shard_bytes(plan.context_keys@, encoded)))
    }
}

fn is_covered(policies: &Vec<PolicyStamp>, t: u32) -> (r: bool)
    ensures
        r == covered(policies@, t),
{
    let mut i: usize = 0;
    while i < policies.len()
        invariant
            i <= policies@.len(),
            forall|j: int| 0 <= j < i ==> (#[trigger] policies@[j]).table != t,
        decreases policies@.len() - i,
    {
        if policies[i].table == t {
            proof {
                assert(policies@[i as int].table == t);
            }
            return true;
        }
        i += 1;
    }
    false
}

fn are_covered(policies: &Vec<PolicyStamp>, tables: &Vec<u32>) -> (r: bool)
    ensures
        r == all_covered(policies@, tables@),
{
    let mut i: usize = 0;
    while i < tables.len()
        invariant
            i <= tables@.len(),
            forall|j: int| 0 <= j < i ==> covered(policies@, #[trigger] tables@[j]),
        decreases tables@.len() - i,
    {
        if !is_covered(policies, tables[i]) {
            proof {
                assert(!covered(policies@, tables@[i as int]));
            }
            return false;
        }
        i += 1;
    }
    true
}

/// The shard identity of a statement, given the encoded context values bound
/// behind its parameters.
pub fn plan_shard(plan: &CompiledPlan, encoded: &Vec<Vec<u8>>) -> (r: Option<u64>)
    ensures
        r == shard_of_plan(*plan, encoded@),
{
    if plan.context_keys.len() == 0 || !are_covered(&plan.policies, &plan.footprint.tables_read) || !are_covered(
        &plan.policies,
        &plan.footprint.tables_written,
    ) || encoded.len() != plan.context_keys.len() {
        return None;
    }
    let mut buf: Vec<u8> = Vec::with_capacity(64);
    let mut i: usize = 0;
    let ghost keys = plan.context_keys@;
    proof {
        assert(keys.take(0) =~= Seq::<String>::empty());
    }
    while i < plan.context_keys.len()
        invariant
            i <= keys.len(),
            keys == plan.context_keys@,
            encoded@.len() == keys.len(),
            buf@ == shard_bytes(keys.take(i as int), encoded@),
        decreases keys.len() - i,
    {
        put_bytes(&mut buf, plan.context_keys[i].as_str().as_bytes());
        buf.push(0x1f);
        put_bytes(&mut buf, encoded[i].as_slice());
        buf.push(0x1e);
        proof {
            assert(keys.take(i + 1).drop_last() =~= keys.take(i as int));
            assert(buf@ =~= shard_bytes(keys.take(i + 1), encoded@));
        }
        i += 1;
    }
    proof {
        assert(keys.take(i as int) =~= keys);
    }
    Some(key_hash(buf.as_slice()))
}

// ------------------------------------------------------ the guard as a whole

/// What a statement adds to an open guard.
pub struct Widening {
    /// Tables read, then tables written.
    pub tables: Vec<u32>,
    pub key: Option<u64>,
    /// Column bits, ascending; `None` means all columns.
    pub cols: Option<Vec<u16>>,
    pub range: Option<(u32, u32)>,
    pub shard: Option<u64>,
    /// The statement writes: key, columns, range and shard are also recorded
    /// as written.
    pub writes: bool,
    /// The length change to record beside a written range.
    pub delta: Option<i128>,
}

/// The numbers of the set bits below `n`, ascending.
pub open spec fn bits_below(m: u64, n: nat) -> Seq<u16>
    decreases n,
{
    if n == 0 {
        Seq::empty()
    } else if m & (1u64 << ((n - 1) as u64)) != 0 {
        bits_below(m, (n - 1) as nat).push((n - 1) as u16)
    } else {
        bits_below(m, (n - 1) as nat)
    }
}

fn set_bits(m: u64) -> (v: Vec<u16>)
    ensures
        v@ == bits_below(m, 64),
{
    let mut v: Vec<u16> = Vec::new();
    let mut b: u16 = 0;
    while b < 64
        invariant
            b <= 64,
            v@ == bits_below(m, b as nat),
        decreases 64 - b,
    {
        if m & (1u64 << (b as u64)) != 0 {
            v.push(b);
        }
        b += 1;
    }
    v
}

/// The whole footprint that a statement adds to an open guard. What it reads
/// is part of it.
pub fn widen_guard(plan: &CompiledPlan, params: &[Value], point_key: Option<&[u8]>, encoded: &Vec<Vec<u8>>) -> (w: Widening)
    ensures
        w.tables@ == plan.footprint.tables_read@ + plan.footprint.tables_written@,
        w.key == (match (plan.footprint.key_access, point_key) {
            (KeyAccess::Point(_), Some(k)) => Some(key_hash_of(k@)),
            _ => None,
        }),
        match w.cols {
            Some(v) => cols_touched(*plan) is Some && v@ == bits_below(cols_touched(*plan)->Some_0, 64),
            None => cols_touched(*plan) is None,
        },
        match w.range {
            Some((lo, hi)) => range_touched(*plan, params@) == Some((lo as int, hi as int)),
            None => range_touched(*plan, params@) is None,
        },
        w.shard == shard_of_plan(*plan, encoded@),
        w.writes == (plan.footprint.tables_written@.len() > 0),
        match w.delta {
            Some(d) => w.writes && length_change(*plan, params@) == Some(d as int),
            None => !w.writes || length_change(*plan, params@) is None,
        },
{
    let mut tables: Vec<u32> = Vec::new();
    tables.extend_from_slice(plan.footprint.tables_read.as_slice());
    tables.extend_from_slice(plan.footprint.tables_written.as_slice());
    proof {
        assert(tables@ =~= plan.footprint.tables_read@ + plan.footprint.tables_written@);
    }
    let cols: Option<Vec<u16>> = match plan_cols(plan) {
        Some(m) => Some(set_bits(m)),
        None => None,
    };
    let writes = plan.footprint.tables_written.len() > 0;
    let delta: Option<i128> = if writes { plan_delta(plan, params) } else { None };
    Widening {
        tables,
        key: plan_key(plan, point_key),
        cols,
        range: plan_range(plan, params),
        shard: plan_shard(plan, encoded),
        writes,
        delta,
    }
}

// ------------------------------------------------------------ notification

/// The longest common prefix of two byte strings.
pub open spec fn common_prefix(a: Seq<u8>, b: Seq<u8>) -> Seq<u8>
    decreases a.len(),
{
    if a.len() > 0 && b.len() > 0 && a[0] == b[0] {
        seq![a[0]] + common_prefix(a.drop_first(), b.drop_first())
    } else {
        Seq::empty()
    }
}

/// The region of the written table's keys that a change is confined to: a
/// point's key, or the common prefix of a range's bounds; `None` is anywhere.
pub open spec fn notify_region_of(plan: CompiledPlan, lo: Option<Seq<u8>>, hi: Option<Seq<u8>>) -> Option<Seq<u8>> {
    if plan.footprint.tables_written@.len() != 1 {
        None
    } else {
        match plan.footprint.key_access {
            KeyAccess::Point(_) => lo,
            KeyAccess::Range { lo: Some(_), hi: Some(_) } => match (lo, hi) {
                (Some(l), Some(h)) => if common_prefix(l, h).len() > 0 { Some(common_prefix(l, h)) } else { None },
                _ => None,
            },
            _ => None,
        }
    }
}

pub open spec fn opt_view(k: Option<&[u8]>) -> Option<Seq<u8>> {
    match k {
        Some(b) => Some(b@),
        None => None,
    }
}

/// The region that a change is confined to, given the encoded bytes of a
/// point's key or of a range's bounds as far as they are known.
pub fn hint_notify_keys(plan: &CompiledPlan, lo: Option<&[u8]>, hi: Option<&[u8]>) -> (r: Option<Vec<u8>>)
    ensures
        match r {
            Some(v) => notify_region_of(*plan, opt_view(lo), opt_view(hi)) == Some(v@),
            None => notify_region_of(*plan, opt_view(lo), opt_view(hi)) is None,
        },
{
    if plan.footprint.tables_written.len() != 1 {
        return None;
    }
    match &plan.footprint.key_access {
        KeyAccess::Point(_) => match lo {
            Some(k) => Some(copy_bytes(k)),
            None => None,
        },
        KeyAccess::Range { lo: Some(_), hi: Some(_) } => match (lo, hi) {
            (Some(l), Some(h)) => {
                let mut v: Vec<u8> = Vec::new();
                let mut n: usize = 0;
                proof {
                    assert(l@.skip(0) =~= l@);
                    assert(h@.skip(0) =~= h@);
                    assert(common_prefix(l@, h@) =~= v@ + common_prefix(l@.skip(0), h@.skip(0)));
                }
                while n < l.len() && n < h.len() && l[n] == h[n]
                    invariant
                        n <= l@.len(),
                        n <= h@.len(),
                        v@.len() == n,
                        common_prefix(l@, h@) == v@ + common_prefix(l@.skip(n as int), h@.skip(n as int)),
                    decreases l@.len() - n,
                {
                    let ghost prev = v@;
                    v.push(l[n]);
                    proof {
                        assert(l@.skip(n as int).drop_first() =~= l@.skip(n + 1));
                        assert(h@.skip(n as int).drop_first() =~= h@.skip(n + 1));
                        assert(common_prefix(l@, h@) =~= v@ + common_prefix(l@.skip(n + 1), h@.skip(n + 1)));
                    }
                    n += 1;
                }
                proof {
                    assert(common_prefix(l@, h@) =~= v@);
                }
                if n > 0 {
                    Some(v)
                } else {
                    None
                }
            },
            _ => None,
        },
        _ => None,
    }
}

// ---------------------------------------------------------------- laws

/// Every key from the lower to the upper bound of a range, in byte order,
/// begins with their common prefix: the region told for a range is never
/// narrower than the change.
pub proof fn law_range_region_covers(lo: Seq<u8>, hi: Seq<u8>, key: Seq<u8>)
    requires
        lex_le(lo, key),
        lex_le(key, hi),
    ensures
        begins(key, common_prefix(lo, hi)),
    decreases lo.len(),
{
    let p = common_prefix(lo, hi);
    if lo.len() > 0 && hi.len() > 0 && lo[0] == hi[0] {
        assert(key.len() > 0);
        law_range_region_covers(lo.drop_first(), hi.drop_first(), key.drop_first());
        let q = common_prefix(lo.drop_first(), hi.drop_first());
        assert(key.take(p.len() as int) =~= p) by {
            assert forall|i: int| 0 <= i < p.len() implies key[i] == p[i] by {
                if i > 0 {
                    assert(key.drop_first().take(q.len() as int)[i - 1] == q[i - 1]);
                }
            }
        }
    } else {
        assert(key.take(0) =~= p);
    }
}

/// Column `c` is assigned or read by an UPDATE.
pub open spec fn update_touches(filter: Option<ExprProgram>, set: Seq<(u16, ExprProgram)>, c: u16) -> bool {
    ||| filter is Some && reads_col(filter->Some_0.instrs@, c)
    ||| exists|i: int| 0 <= i < set.len() && ((#[trigger] set[i]).0 == c || reads_col(set[i].1.instrs@, c))
}

/// An instruction pushes column `c`.
pub open spec fn reads_col(instrs: Seq<Instr>, c: u16) -> bool {
    exists|i: int| 0 <= i < instrs.len() && #[trigger] instrs[i] == Instr::PushCol(c)
}

proof fn lemma_or_keeps(m: u64, n: u64, b: u64)
    ensures
        m & b != 0 ==> (m | n) & b != 0,
        n & b != 0 ==> (m | n) & b != 0,
{
    assert(m & b != 0 ==> (m | n) & b != 0) by (bit_vector);
    assert(n & b != 0 ==> (m | n) & b != 0) by (bit_vector);
}

proof fn lemma_col_bit(c: u16)
    ensures
        col_bit(c) & col_bit(c) != 0,
{
    let k = (c % 64) as u64;
    assert(k < 64 ==> (1u64 << k) & (1u64 << k) != 0) by (bit_vector);
}

proof fn lemma_read_mask(instrs: Seq<Instr>, c: u16)
    requires
        reads_col(instrs, c),
    ensures
        read_mask(instrs) & col_bit(c) != 0,
    decreases instrs.len(),
{
    let i = choose|i: int| 0 <= i < instrs.len() && #[trigger] instrs[i] == Instr::PushCol(c);
    let d = instrs.drop_last();
    let last: u64 = match instrs.last() {
        Instr::PushCol(c) => col_bit(c),
        _ => 0,
    };
    lemma_or_keeps(read_mask(d), last, col_bit(c));
    if i < d.len() {
        assert(d[i] == Instr::PushCol(c));
        lemma_read_mask(d, c);
    } else {
        lemma_col_bit(c);
    }
}

proof fn lemma_set_mask(set: Seq<(u16, ExprProgram)>, i: int, c: u16)
    requires
        0 <= i < set.len(),
        set[i].0 == c || reads_col(set[i].1.instrs@, c),
    ensures
        set_mask(set) & col_bit(c) != 0,
    decreases set.len(),
{
    let d = set.drop_last();
    let m = set_mask(d);
    let a = col_bit(set.last().0);
    let r = read_mask(set.last().1.instrs@);
    lemma_or_keeps(m, a, col_bit(c));
    lemma_or_keeps(m | a, r, col_bit(c));
    if i < d.len() {
        assert(d[i] == set[i]);
        lemma_set_mask(d, i, c);
    } else {
        lemma_col_bit(c);
        if reads_col(set[i].1.instrs@, c) {
            lemma_read_mask(set[i].1.instrs@, c);
        }
    }
}

/// The mask of an UPDATE holds the bit of every column that it assigns or
/// reads: two statements whose masks have no bit in common touch no column in
/// common.
pub proof fn law_update_mask_covers(plan: CompiledPlan, c: u16)
    requires
        plan.stmt is Update,
        cols_touched(plan) is Some,
        update_touches(plan.stmt->Update_filter, plan.stmt->Update_set@, c),
    ensures
        cols_touched(plan)->Some_0 & col_bit(c) != 0,
{
    let filter = plan.stmt->Update_filter;
    let set = plan.stmt->Update_set@;
    lemma_or_keeps(filter_mask(filter), set_mask(set), col_bit(c));
    if filter is Some && reads_col(filter->Some_0.instrs@, c) {
        lemma_read_mask(filter->Some_0.instrs@, c);
    } else {
        let i = choose|i: int| 0 <= i < set.len() && ((#[trigger] set[i]).0 == c || reads_col(set[i].1.instrs@, c));
        lemma_set_mask(set, i, c);
    }
}

/// The first 64 columns have a bit each, and no two of them the same.
pub proof fn law_columns_have_their_own_bits(c: u16, d: u16)
    requires
        c < 64,
        d < 64,
    ensures
        col_bit(c) != 0,
        c != d ==> col_bit(c) & col_bit(d) == 0,
{
    let (x, y) = (c as u64, d as u64);
    assert(x < 64 && y < 64 && x != y ==> (1u64 << x) & (1u64 << y) == 0) by (bit_vector);
    assert(x < 64 ==> (1u64 << x) != 0) by (bit_vector);
}

/// Column `c` is given out by a SELECT, or read for what it gives out or for
/// its filter.
pub open spec fn select_touches(sp: SelectPlan, c: u16) -> bool {
    ||| sp.filter is Some && reads_col(sp.filter->Some_0.instrs@, c)
    ||| exists|i: int|
        0 <= i < sp.projection@.len() && match #[trigger] sp.projection@[i] {
            Projection::Column(d) => d == c,
            Projection::Expr(p) => reads_col(p.instrs@, c),
        }
}

proof fn lemma_projection_mask(ps: Seq<Projection>, i: int, c: u16)
    requires
        0 <= i < ps.len(),
        match ps[i] {
            Projection::Column(d) => d == c,
            Projection::Expr(p) => reads_col(p.instrs@, c),
        },
    ensures
        projection_mask(ps) & col_bit(c) != 0,
    decreases ps.len(),
{
    let d = ps.drop_last();
    let last: u64 = match ps.last() {
        Projection::Column(e) => col_bit(e),
        Projection::Expr(p) => read_mask(p.instrs@),
    };
    lemma_or_keeps(projection_mask(d), last, col_bit(c));
    if i < d.len() {
        assert(d[i] == ps[i]);
        lemma_projection_mask(d, i, c);
    } else {
        lemma_col_bit(c);
        match ps[i] {
            Projection::Expr(p) => lemma_read_mask(p.instrs@, c),
            _ => {},
        }
    }
}

/// The mask of a SELECT holds the bit of every column that it reads.
pub proof fn law_select_mask_covers(plan: CompiledPlan, c: u16)
    requires
        plan.stmt is Select,
        cols_touched(plan) is Some,
        select_touches(plan.stmt->Select_0, c),
    ensures
        cols_touched(plan)->Some_0 & col_bit(c) != 0,
{
    let sp = plan.stmt->Select_0;
    lemma_or_keeps(filter_mask(sp.filter), projection_mask(sp.projection@), col_bit(c));
    if sp.filter is Some && reads_col(sp.filter->Some_0.instrs@, c) {
        lemma_read_mask(sp.filter->Some_0.instrs@, c);
    } else {
        let i = choose|i: int|
            0 <= i < sp.projection@.len() && match #[trigger] sp.projection@[i] {
                Projection::Column(d) => d == c,
                Projection::Expr(p) => reads_col(p.instrs@, c),
            };
        lemma_projection_mask(sp.projection@, i, c);
    }
}

proof fn lemma_or_splits(m: u64, n: u64, b: u64)
    ensures
        (m | n) & b != 0 ==> m & b != 0 || n & b != 0,
{
    assert((m | n) & b != 0 ==> m & b != 0 || n & b != 0) by (bit_vector);
}

proof fn lemma_same_bit(c: u16, d: u16)
    requires
        col_bit(d) & col_bit(c) != 0,
    ensures
        d % 64 == c % 64,
{
    let (x, y) = ((d % 64) as u64, (c % 64) as u64);
    assert(x < 64 && y < 64 && x != y ==> (1u64 << x) & (1u64 << y) == 0) by (bit_vector);
}

proof fn lemma_read_mask_only(instrs: Seq<Instr>, c: u16) -> (d: u16)
    requires
        read_mask(instrs) & col_bit(c) != 0,
    ensures
        reads_col(instrs, d),
        d % 64 == c % 64,
    decreases instrs.len(),
{
    let b = col_bit(c);
    if instrs.len() == 0 {
        assert(0u64 & b == 0) by (bit_vector);
        0
    } else {
        let last: u64 = match instrs.last() {
            Instr::PushCol(e) => col_bit(e),
            _ => 0,
        };
        lemma_or_splits(read_mask(instrs.drop_last()), last, b);
        if read_mask(instrs.drop_last()) & b != 0 {
            let d = lemma_read_mask_only(instrs.drop_last(), c);
            let i = choose|i: int| 0 <= i < instrs.len() - 1 && #[trigger] instrs.drop_last()[i] == Instr::PushCol(d);
            assert(instrs[i] == Instr::PushCol(d));
            d
        } else {
            assert(0u64 & b == 0) by (bit_vector);
            let d = instrs.last()->PushCol_0;
            assert(instrs[instrs.len() - 1] == Instr::PushCol(d));
            lemma_same_bit(c, d);
            d
        }
    }
}

proof fn lemma_set_mask_only(set: Seq<(u16, ExprProgram)>, c: u16) -> (d: u16)
    requires
        set_mask(set) & col_bit(c) != 0,
    ensures
        exists|i: int| 0 <= i < set.len() && ((#[trigger] set[i]).0 == d || reads_col(set[i].1.instrs@, d)),
        d % 64 == c % 64,
    decreases set.len(),
{
    let b = col_bit(c);
    if set.len() == 0 {
        assert(0u64 & b == 0) by (bit_vector);
        0
    } else {
        let (m, a, r) = (set_mask(set.drop_last()), col_bit(set.last().0), read_mask(set.last().1.instrs@));
        lemma_or_splits(m | a, r, b);
        lemma_or_splits(m, a, b);
        if m & b != 0 {
            let d = lemma_set_mask_only(set.drop_last(), c);
            let i = choose|i: int|
                0 <= i < set.len() - 1 && ((#[trigger] set.drop_last()[i]).0 == d || reads_col(set.drop_last()[i].1.instrs@, d));
            assert(set[i].0 == d || reads_col(set[i].1.instrs@, d));
            d
        } else if a & b != 0 {
            lemma_same_bit(c, set.last().0);
            assert(set[set.len() - 1].0 == set.last().0);
            set.last().0
        } else {
            let d = lemma_read_mask_only(set.last().1.instrs@, c);
            assert(reads_col(set[set.len() - 1].1.instrs@, d));
            d
        }
    }
}

/// The mask of an UPDATE holds no other bit: each stands for a column that it
/// assigns or reads.
pub proof fn law_update_mask_is_narrow(plan: CompiledPlan, c: u16) -> (d: u16)
    requires
        plan.stmt is Update,
        cols_touched(plan) is Some,
        cols_touched(plan)->Some_0 & col_bit(c) != 0,
    ensures
        d % 64 == c % 64,
        update_touches(plan.stmt->Update_filter, plan.stmt->Update_set@, d),
{
    let filter = plan.stmt->Update_filter;
    let set = plan.stmt->Update_set@;
    let b = col_bit(c);
    lemma_or_splits(filter_mask(filter), set_mask(set), b);
    assert(0u64 & b == 0) by (bit_vector);
    if filter_mask(filter) & b != 0 {
        lemma_read_mask_only(filter->Some_0.instrs@, c)
    } else {
        lemma_set_mask_only(set, c)
    }
}

/// Columns are told only where they are the whole surface: of an UPDATE, or of
/// a SELECT from one table that gives its rows one by one; never where a
/// subquery reads more.
pub proof fn law_columns_told_only_where_whole(plan: CompiledPlan)
    ensures
        cols_touched(plan) is Some ==> plan.subplans@.len() == 0 && match plan.stmt {
            PlanStmt::Update { table: _, access: _, filter: _, set: _ } => true,
            PlanStmt::Select(sp) => sp.joins@.len() == 0 && !sp.aggregate && !sp.windows && !sp.distinct && !sp.order_by && !sp.joined_filter
                && !sp.post_filter && sp.limit is None && sp.offset is None,
            _ => false,
        },
        plan.subplans@.len() == 0 && plan.stmt is Update ==> cols_touched(plan) is Some,
{
}

/// The columns listed of a mask are, in rising order, those whose bit is set.
pub proof fn law_bits_are_listed(m: u64, n: nat)
    requires
        n <= 64,
    ensures
        forall|i: int|
            0 <= i < bits_below(m, n).len() ==> #[trigger] bits_below(m, n)[i] < n && m & (1u64 << (bits_below(m, n)[i] as u64)) != 0,
        forall|i: int, j: int| 0 <= i < j < bits_below(m, n).len() ==> #[trigger] bits_below(m, n)[i] < #[trigger] bits_below(m, n)[j],
        forall|c: u16| c < n && m & (1u64 << (c as u64)) != 0 ==> #[trigger] bits_below(m, n).contains(c),
    decreases n,
{
    if n > 0 {
        law_bits_are_listed(m, (n - 1) as nat);
        let (before, all) = (bits_below(m, (n - 1) as nat), bits_below(m, n));
        assert forall|c: u16| c < n && m & (1u64 << (c as u64)) != 0 implies #[trigger] all.contains(c) by {
            if c < n - 1 {
                assert(before.contains(c));
                let k = before.index_of(c);
                assert(all[k] == c);
            } else {
                assert(all[before.len() as int] == c);
            }
        }
    }
}

/// The region told of a write holds every key that it touches: the key itself,
/// or what all keys of the range begin with. It is told of no write to more
/// than one table.
pub proof fn law_notified_region_covers(plan: CompiledPlan, lo: Seq<u8>, hi: Seq<u8>, key: Seq<u8>)
    requires
        match plan.footprint.key_access {
            KeyAccess::Point(_) => key == lo,
            _ => lex_le(lo, key) && lex_le(key, hi),
        },
    ensures
        notify_region_of(plan, Some(lo), Some(hi)) matches Some(region) ==> begins(key, region) && plan.footprint.tables_written@.len() == 1,
        plan.footprint.key_access is Full ==> notify_region_of(plan, Some(lo), Some(hi)) is None,
        plan.footprint.key_access is Point && plan.footprint.tables_written@.len() == 1 ==> notify_region_of(plan, Some(lo), None) == Some(lo),
{
    match plan.footprint.key_access {
        KeyAccess::Point(_) => {
            assert(key.take(key.len() as int) =~= key);
        },
        _ => law_range_region_covers(lo, hi, key),
    }
}

/// What two keys have in common is what they both begin with, and no more of
/// it is common.
pub proof fn law_common_prefix_is_longest(a: Seq<u8>, b: Seq<u8>)
    ensures
        begins(a, common_prefix(a, b)),
        begins(b, common_prefix(a, b)),
        ({
            let n = common_prefix(a, b).len() as int;
            n == a.len() || n == b.len() || a[n] != b[n]
        }),
    decreases a.len(),
{
    let p = common_prefix(a, b);
    if a.len() > 0 && b.len() > 0 && a[0] == b[0] {
        let (x, y) = (a.drop_first(), b.drop_first());
        law_common_prefix_is_longest(x, y);
        let q = common_prefix(x, y);
        assert forall|i: int| 0 <= i < p.len() implies p[i] == a[i] && p[i] == b[i] by {
            if i > 0 {
                assert(p[i] == q[i - 1]);
                assert(x.take(q.len() as int)[i - 1] == q[i - 1]);
                assert(y.take(q.len() as int)[i - 1] == q[i - 1]);
            }
        }
        assert(a.take(p.len() as int) =~= p);
        assert(b.take(p.len() as int) =~= p);
    } else {
        assert(a.take(0) =~= p);
        assert(b.take(0) =~= p);
    }
}

/// A statement is kept to one shard of the guard only where policies confine it
/// there: every table that it reads or writes is under a policy of its plan,
/// and the context that they read is known.
pub proof fn law_sharded_only_under_policies(plan: CompiledPlan, encoded: Seq<Vec<u8>>, t: u32)
    requires
        shard_of_plan(plan, encoded) is Some,
        plan.footprint.tables_read@.contains(t) || plan.footprint.tables_written@.contains(t),
    ensures
        exists|i: int| 0 <= i < plan.policies@.len() && (#[trigger] plan.policies@[i]).table == t,
        plan.context_keys@.len() > 0,
        encoded.len() == plan.context_keys@.len(),
{
    assert(covered(plan.policies@, t));
}

/// Different contexts are hashed from different bytes: where the values take
/// as many bytes each, no value can change unseen.
pub proof fn law_context_bytes_tell_values_apart(keys: Seq<String>, a: Seq<Vec<u8>>, b: Seq<Vec<u8>>)
    requires
        a.len() >= keys.len(),
        b.len() >= keys.len(),
        forall|i: int| 0 <= i < keys.len() ==> (#[trigger] a[i])@.len() == b[i]@.len(),
        shard_bytes(keys, a) == shard_bytes(keys, b),
    ensures
        forall|i: int| 0 <= i < keys.len() ==> (#[trigger] a[i])@ == b[i]@,
    decreases keys.len(),
{
    if keys.len() > 0 {
        let d = keys.drop_last();
        let n = keys.len() - 1;
        let (x, y) = (shard_bytes(keys, a), shard_bytes(keys, b));
        let (p, q) = (shard_bytes(d, a), shard_bytes(d, b));
        let name = encode_utf8(keys.last()@);
        assert(a[n]@.len() == b[n]@.len());
        assert(x.len() == p.len() + name.len() + 1 + a[n]@.len() + 1);
        assert(y.len() == q.len() + name.len() + 1 + b[n]@.len() + 1);
        assert(x.take(p.len() as int) =~= p);
        assert(y.take(q.len() as int) =~= q);
        let at = p.len() + name.len() + 1;
        assert(x.subrange(at as int, at + a[n]@.len() as int) =~= a[n]@);
        assert(y.subrange(at as int, at + b[n]@.len() as int) =~= b[n]@);
        law_context_bytes_tell_values_apart(d, a, b);
        assert forall|i: int| 0 <= i < keys.len() implies (#[trigger] a[i])@ == b[i]@ by {}
    }
}

} // verus!
