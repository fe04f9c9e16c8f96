//! One sync: what to do with each row, by both sides and the recorded hashes.

use vstd::prelude::*;
use vstd::string::StringExecFns;
use crate::error::{Error, Fault, Result};
use crate::hash::{blake3_digest, framed_all, CanonChain};
use crate::text::{dec, hex, push_dec, quoted_in};
use crate::utf8::same_text;
use crate::bytes::copy_bytes;
use crate::rretl_map::lens::LensClass;
use crate::value::{push_value_debug, value_debug, Value, ValueModel};

verus! {

/// What one sync did.
#[derive(Debug, Default)]
pub struct MapSyncReport {
    pub run_id: i64,
    pub a_to_b: u64,
    pub b_to_a: u64,
    pub created_b: u64,
    pub created_a: u64,
    pub deleted_a: u64,
    pub deleted_b: u64,
    pub unchanged: u64,
}

impl MapSyncReport {
    /// Rows that moved in any direction.
    pub open spec fn moved(&self) -> int {
        self.a_to_b + self.b_to_a + self.created_b + self.created_a + self.deleted_a + self.deleted_b
    }

    /// A report of nothing.
    pub fn new() -> (r: MapSyncReport)
        ensures
            r.run_id == 0,
            r.moved() == 0,
            r.unchanged == 0,
    {
        MapSyncReport {
            run_id: 0,
            a_to_b: 0,
            b_to_a: 0,
            created_b: 0,
            created_a: 0,
            deleted_a: 0,
            deleted_b: 0,
            unchanged: 0,
        }
    }

    /// Rows that moved in any direction, creations and deletions included.
    pub fn changed_total(&self) -> (n: u64)
        requires
            self.moved() <= u64::MAX,
        ensures
            n == self.moved(),
    {
        self.a_to_b + self.b_to_a + self.created_b + self.created_a + self.deleted_a + self.deleted_b
    }

    /// The report in one line.
    pub fn note(&self) -> (r: String)
        ensures
            r@ == "a→b "@ + dec(self.a_to_b as nat) + ", b→a "@ + dec(self.b_to_a as nat) + ", +b "@ + dec(self.created_b as nat)
                + ", +a "@ + dec(self.created_a as nat) + ", -a "@ + dec(self.deleted_a as nat) + ", -b "@ + dec(
                self.deleted_b as nat,
            ) + ", clean "@ + dec(self.unchanged as nat),
    {
        let mut s = String::from_str("a→b ");
        push_dec(&mut s, self.a_to_b as u128);
        s.append(", b→a ");
        push_dec(&mut s, self.b_to_a as u128);
        s.append(", +b ");
        push_dec(&mut s, self.created_b as u128);
        s.append(", +a ");
        push_dec(&mut s, self.created_a as u128);
        s.append(", -a ");
        push_dec(&mut s, self.deleted_a as u128);
        s.append(", -b ");
        push_dec(&mut s, self.deleted_b as u128);
        s.append(", clean ");
        push_dec(&mut s, self.unchanged as u128);
        s
    }
}

/// The hash of a row's values, by their canonical bytes.
pub open spec fn row_hash(vals: Seq<Seq<u8>>) -> Seq<char> {
    hex(blake3_digest(framed_all(vals)))
}

/// The contents of a row's values.
pub open spec fn row_bits(vals: Seq<Vec<u8>>) -> Seq<Seq<u8>> {
    vals.map_values(|v: Vec<u8>| v@)
}

/// The hash of a row's values.
pub fn chain(vals: &Vec<Vec<u8>>) -> (r: String)
    ensures
        r@ == row_hash(row_bits(vals@)),
{
    let mut c = CanonChain::new();
    let mut i: usize = 0;
    while i < vals.len()
        invariant
            i <= vals@.len(),
            c.wf(),
            c.view() == row_bits(vals@).take(i as int),
        decreases vals@.len() - i,
    {
        c.push(vals[i].as_slice());
        proof {
            assert(row_bits(vals@).take(i + 1) =~= row_bits(vals@).take(i as int).push(vals@[i as int]@));
        }
        i += 1;
    }
    proof {
        assert(row_bits(vals@).take(i as int) =~= row_bits(vals@));
    }
    c.hex()
}

// ---------------------------------------------------------- source rows

/// What to do with a row that the source has.
#[derive(Debug, Clone, Copy, PartialEq, Eq, Structural)]
pub enum P1 {
    /// New on the source: make the target row, record both hashes.
    CreateB,
    /// On both sides and never synced: adopt it if both agree.
    Compare,
    /// Deleted on the target: delete it here, forget the record.
    DeleteA,
    Unchanged,
    /// Changed on the source: rewrite the target row, record both hashes.
    AToB,
    /// Changed on the target: carry it back, record both hashes.
    BToA,
    /// Deleted on the target while the source row changed.
    DeletedBChangedA,
    /// Changed on both sides.
    BothChanged,
}

/// What to do with a row that the source has, by the recorded hashes and the
/// current ones.
pub open spec fn p1_of(st: Option<(Seq<char>, Seq<char>)>, a_now: Seq<char>, b_now: Option<Seq<char>>) -> P1 {
    match (st, b_now) {
        (None, None) => P1::CreateB,
        (None, Some(_)) => P1::Compare,
        (Some(st), None) => if a_now != st.0 { P1::DeletedBChangedA } else { P1::DeleteA },
        (Some(st), Some(b)) => if a_now == st.0 && b == st.1 {
            P1::Unchanged
        } else if a_now != st.0 && b == st.1 {
            P1::AToB
        } else if a_now == st.0 && b != st.1 {
            P1::BToA
        } else {
            P1::BothChanged
        },
    }
}

pub open spec fn opt_str(s: Option<&str>) -> Option<Seq<char>> {
    match s {
        Some(t) => Some(t@),
        None => None,
    }
}

pub open spec fn opt_pair(s: Option<(&str, &str)>) -> Option<(Seq<char>, Seq<char>)> {
    match s {
        Some((a, b)) => Some((a@, b@)),
        None => None,
    }
}

/// What to do with a row that the source has.
pub fn classify_p1(st: Option<(&str, &str)>, a_now: &str, b_now: Option<&str>) -> (r: P1)
    ensures
        r == p1_of(opt_pair(st), a_now@, opt_str(b_now)),
{
    match (st, b_now) {
        (None, None) => P1::CreateB,
        (None, Some(_)) => P1::Compare,
        (Some((st_a, _)), None) => if same_text(a_now, st_a) {
            P1::DeleteA
        } else {
            P1::DeletedBChangedA
        },
        (Some((st_a, st_b)), Some(b)) => {
            let a_same = same_text(a_now, st_a);
            let b_same = same_text(b, st_b);
            if a_same && b_same {
                P1::Unchanged
            } else if !a_same && b_same {
                P1::AToB
            } else if a_same {
                P1::BToA
            } else {
                P1::BothChanged
            }
        },
    }
}

/// Why a row is a conflict.
pub open spec fn conflict_reason(p: P1) -> Seq<char> {
    match p {
        P1::Compare => "both sides hold the row and disagree, and no recorded sync can arbitrate"@,
        P1::DeletedBChangedA => "deleted on the target side while the source row changed"@,
        _ => "both sides changed since the last sync"@,
    }
}

/// The fault of a conflict, which rolls the sync back whole.
pub open spec fn conflict_fault(name: Seq<char>, dst: Seq<char>, key: crate::value::ValueModel, why: Seq<char>) -> Fault {
    Fault::Unsupported(
        "map sync `"@ + name + "`: CONFLICT on `"@ + dst + "` row "@ + value_debug(key) + " — "@ + why
            + "; the sync is rolled back whole. Fix one side and re-sync"@,
    )
}

fn conflict(name: &str, dst: &str, key: &Value, why: &str) -> (e: Error)
    ensures
        e@ == conflict_fault(name@, dst@, key.model(), why@),
{
    let mut m = quoted_in("map sync `", name, "`: CONFLICT on `");
    m.append(dst);
    m.append("` row ");
    push_value_debug(&mut m, key);
    m.append(" — ");
    m.append(why);
    m.append("; the sync is rolled back whole. Fix one side and re-sync");
    Error::Unsupported(m)
}

/// The decision on a source row: go ahead, or the conflict. `agree` says, for
/// a row that was never synced, whether both sides hold the same.
pub fn sync_source_row(name: &str, dst: &str, key: &Value, p: P1, agree: bool) -> (r: Result<P1>)
    ensures
        ({
            let refused = p == P1::DeletedBChangedA || p == P1::BothChanged || (p == P1::Compare && !agree);
            match r {
                Ok(q) => !refused && q == p,
                Err(e) => refused && e@ == conflict_fault(name@, dst@, key.model(), conflict_reason(p)),
            }
        }),
{
    match p {
        P1::Compare => if agree {
            Ok(p)
        } else {
            Err(
                conflict(
                    name,
                    dst,
                    key,
                    "both sides hold the row and disagree, and no recorded sync can arbitrate",
                ),
            )
        },
        P1::DeletedBChangedA => Err(
            conflict(name, dst, key, "deleted on the target side while the source row changed"),
        ),
        P1::BothChanged => Err(conflict(name, dst, key, "both sides changed since the last sync")),
        other => Ok(other),
    }
}

// ---------------------------------------------------------- target rows

/// What to do with a row that only the target has.
#[derive(Debug, Clone, Copy, PartialEq, Eq, Structural)]
pub enum P2 {
    /// Deleted on the source: delete it here, forget the record.
    DeleteB,
    /// New on the target: make the source row, record both hashes.
    CreateA,
    /// Deleted on the source while the target row changed.
    DeletedAChangedB,
    /// Only the source assigns the identity.
    NeedsSource,
    /// This column does not invert without a residual.
    NoResidual(usize),
}

/// The first column from `i` on whose pair needs more than its own value to
/// invert. A column without a pair is copied.
pub open spec fn needs_residual(pairs: Seq<Option<LensClass>>, i: int) -> Option<usize>
    decreases pairs.len() - i,
{
    if i < 0 || i >= pairs.len() {
        None
    } else if pairs[i] is Some && pairs[i] != Some(LensClass::Bijective) {
        Some(i as usize)
    } else {
        needs_residual(pairs, i + 1)
    }
}

/// The first column of a table whose pair is not bijective, given the class of
/// each column's pair.
pub fn first_not_bijective(pairs: &Vec<Option<LensClass>>) -> (r: Option<usize>)
    ensures
        r == needs_residual(pairs@, 0),
        r matches Some(i) ==> i < pairs@.len(),
{
    let mut i: usize = 0;
    while i < pairs.len()
        invariant
            i <= pairs@.len(),
            needs_residual(pairs@, 0) == needs_residual(pairs@, i as int),
        decreases pairs@.len() - i,
    {
        if let Some(class) = pairs[i] {
            if class != LensClass::Bijective {
                return Some(i);
            }
        }
        i += 1;
    }
    None
}

/// What to do with a row that only the target has, by the recorded hash of the
/// target, its current hash, and whether rows can be created on the source.
pub open spec fn p2_of(st_b: Option<Seq<char>>, b_now: Seq<char>, rowid: bool, not_bijective: Option<usize>) -> P2 {
    match st_b {
        Some(b) => if b_now != b { P2::DeletedAChangedB } else { P2::DeleteB },
        None => if rowid {
            P2::NeedsSource
        } else {
            match not_bijective {
                Some(i) => P2::NoResidual(i),
                None => P2::CreateA,
            }
        },
    }
}

/// What to do with a row that only the target has.
pub fn classify_p2(st_b: Option<&str>, b_now: &str, rowid: bool, not_bijective: Option<usize>) -> (r: P2)
    ensures
        r == p2_of(opt_str(st_b), b_now@, rowid, not_bijective),
{
    match st_b {
        Some(b) => if same_text(b_now, b) {
            P2::DeleteB
        } else {
            P2::DeletedAChangedB
        },
        None => {
            if rowid {
                return P2::NeedsSource;
            }
            match not_bijective {
                Some(i) => P2::NoResidual(i),
                None => P2::CreateA,
            }
        },
    }
}

/// The fault of a target row that cannot go ahead.
pub open spec fn p2_fault(name: Seq<char>, src: Seq<char>, dst: Seq<char>, cols: Seq<String>, key: crate::value::ValueModel, p: P2) -> Option<Fault> {
    match p {
        P2::DeletedAChangedB => Some(
            conflict_fault(name, dst, key, "deleted on the source side while the target row changed"@),
        ),
        P2::NeedsSource => Some(
            Fault::Unsupported(
                "map sync `"@ + name + "`: row "@ + value_debug(key) + " was created on `"@ + dst
                    + "` but the source identity is `"@ + src
                    + "`'s hidden rowid, which only the source can assign — create the row on the source side"@,
            ),
        ),
        P2::NoResidual(i) => Some(
            Fault::Unsupported(
                "map sync `"@ + name + "`: row "@ + value_debug(key) + " was created on `"@ + dst + "`, but column `"@
                    + cols[i as int]@
                    + "` maps through a non-bijective pair — there is no residual to attach (§4's creation path); create the row on `"@
                    + src + "` instead"@,
            ),
        ),
        _ => None,
    }
}

/// The decision on a target row: go ahead, or why not. `cols` are the target
/// columns.
pub fn sync_target_row(name: &str, src: &str, dst: &str, cols: &Vec<String>, key: &Value, p: P2) -> (r: Result<P2>)
    requires
        p matches P2::NoResidual(i) ==> i < cols@.len(),
    ensures
        match r {
            Ok(q) => p2_fault(name@, src@, dst@, cols@, key.model(), p) is None && q == p,
            Err(e) => p2_fault(name@, src@, dst@, cols@, key.model(), p) == Some(e@),
        },
{
    match p {
        P2::DeletedAChangedB => Err(
            conflict(name, dst, key, "deleted on the source side while the target row changed"),
        ),
        P2::NeedsSource => {
            let mut m = quoted_in("map sync `", name, "`: row ");
            push_value_debug(&mut m, key);
            m.append(" was created on `");
            m.append(dst);
            m.append("` but the source identity is `");
            m.append(src);
            m.append(
                "`'s hidden rowid, which only the source can assign — create the row on the source side",
            );
            Err(Error::Unsupported(m))
        },
        P2::NoResidual(i) => {
            let mut m = quoted_in("map sync `", name, "`: row ");
            push_value_debug(&mut m, key);
            m.append(" was created on `");
            m.append(dst);
            m.append("`, but column `");
            m.append(cols[i].as_str());
            m.append(
                "` maps through a non-bijective pair — there is no residual to attach (§4's creation path); create the row on `",
            );
            m.append(src);
            m.append("` instead");
            Err(Error::Unsupported(m))
        },
        other => Ok(other),
    }
}

/// The record of a key that neither side has is cleared.
pub fn clears_state(in_src: bool, in_dst: bool) -> (r: bool)
    ensures
        r == (!in_src && !in_dst),
{
    !in_src && !in_dst
}

/// The key under which a swept record is stored.
pub fn sweep_state_row(pk_enc: &Value) -> (r: Result<Vec<u8>>)
    ensures
        match r {
            Ok(b) => pk_enc.model() == ValueModel::Blob(b@),
            Err(e) => !(pk_enc.model() is Blob) && e@ == Fault::Corrupt("map state pk_enc is not a blob: "@ + value_debug(pk_enc.model())),
        },
{
    match pk_enc {
        Value::Blob(b) => Ok(copy_bytes(b.as_slice())),
        other => {
            let mut m = String::from_str("map state pk_enc is not a blob: ");
            push_value_debug(&mut m, other);
            Err(Error::Corrupt(m))
        },
    }
}

/// What is wrong with a row that was written and read back, by its hash.
pub open spec fn persisted_fault(side: Seq<char>, key: crate::value::ValueModel, got: Option<Seq<char>>, want: Seq<char>) -> Option<Fault> {
    match got {
        None => Some(Fault::Corrupt("map sync: "@ + side + " row "@ + value_debug(key) + " vanished"@)),
        Some(g) => if g == want {
            None
        } else {
            Some(
                Fault::Corrupt(
                    "map sync: persisted "@ + side + " row "@ + value_debug(key) + " does not hash to what was written"@,
                ),
            )
        },
    }
}

/// A row that was just written must read back as it was written.
pub fn verify_persisted(side: &str, key: &Value, got: Option<&str>, want: &str) -> (r: Result<()>)
    ensures
        match r {
            Ok(()) => persisted_fault(side@, key.model(), opt_str(got), want@) is None,
            Err(e) => persisted_fault(side@, key.model(), opt_str(got), want@) == Some(e@),
        },
{
    match got {
        None => {
            let mut m = quoted_in("map sync: ", side, " row ");
            push_value_debug(&mut m, key);
            m.append(" vanished");
            Err(Error::Corrupt(m))
        },
        Some(g) => {
            if same_text(g, want) {
                return Ok(());
            }
            let mut m = quoted_in("map sync: persisted ", side, " row ");
            push_value_debug(&mut m, key);
            m.append(" does not hash to what was written");
            Err(Error::Corrupt(m))
        },
    }
}

/// How a source row counts: as moved, as unchanged.
pub open spec fn source_counts(p: P1) -> (nat, nat) {
    match p {
        P1::CreateB => (1, 0),
        P1::DeleteA => (1, 0),
        P1::AToB => (1, 0),
        P1::BToA => (1, 0),
        P1::Compare => (0, 1),
        P1::Unchanged => (0, 1),
        _ => (0, 0),
    }
}

/// How a target row counts as moved.
pub open spec fn target_counts(p: P2) -> nat {
    match p {
        P2::DeleteB => 1,
        P2::CreateA => 1,
        _ => 0,
    }
}

impl MapSyncReport {
    /// Count a source row that went ahead.
    pub fn count_source(&mut self, p: P1)
        requires
            old(self).moved() < u64::MAX,
            old(self).unchanged < u64::MAX,
        ensures
            *final(self) == (match p {
                P1::CreateB => MapSyncReport { created_b: (old(self).created_b + 1) as u64, ..*old(self) },
                P1::Compare => MapSyncReport { unchanged: (old(self).unchanged + 1) as u64, ..*old(self) },
                P1::Unchanged => MapSyncReport { unchanged: (old(self).unchanged + 1) as u64, ..*old(self) },
                P1::DeleteA => MapSyncReport { deleted_a: (old(self).deleted_a + 1) as u64, ..*old(self) },
                P1::AToB => MapSyncReport { a_to_b: (old(self).a_to_b + 1) as u64, ..*old(self) },
                P1::BToA => MapSyncReport { b_to_a: (old(self).b_to_a + 1) as u64, ..*old(self) },
                _ => *old(self),
            }),
            final(self).moved() == old(self).moved() + source_counts(p).0,
            final(self).unchanged == old(self).unchanged + source_counts(p).1,
    {
        match p {
            P1::CreateB => {
                self.created_b = self.created_b + 1;
            },
            P1::Compare => {
                self.unchanged = self.unchanged + 1;
            },
            P1::Unchanged => {
                self.unchanged = self.unchanged + 1;
            },
            P1::DeleteA => {
                self.deleted_a = self.deleted_a + 1;
            },
            P1::AToB => {
                self.a_to_b = self.a_to_b + 1;
            },
            P1::BToA => {
                self.b_to_a = self.b_to_a + 1;
            },
            _ => {},
        }
    }

    /// Count a target row that went ahead.
    pub fn count_target(&mut self, p: P2)
        requires
            old(self).moved() < u64::MAX,
        ensures
            *final(self) == (match p {
                P2::DeleteB => MapSyncReport { deleted_b: (old(self).deleted_b + 1) as u64, ..*old(self) },
                P2::CreateA => MapSyncReport { created_a: (old(self).created_a + 1) as u64, ..*old(self) },
                _ => *old(self),
            }),
            final(self).moved() == old(self).moved() + target_counts(p),
            final(self).unchanged == old(self).unchanged,
    {
        match p {
            P2::DeleteB => {
                self.deleted_b = self.deleted_b + 1;
            },
            P2::CreateA => {
                self.created_a = self.created_a + 1;
            },
            _ => {},
        }
    }
}

// ---------------------------------------------------------------- laws

/// Both sides of one row, and the recorded hashes.
pub struct RowSides {
    pub a: Option<Seq<Seq<u8>>>,
    pub b: Option<Seq<Seq<u8>>>,
    pub st: Option<(Seq<char>, Seq<char>)>,
}

/// The functions of a row's pairs: forward, inverse with the live source row,
/// and inverse for a created row, where that exists.
pub struct RowLens {
    pub forward: spec_fn(Seq<Seq<u8>>) -> Seq<Seq<u8>>,
    pub back: spec_fn(Seq<Seq<u8>>, Seq<Seq<u8>>) -> Seq<Seq<u8>>,
    pub create: Option<spec_fn(Seq<Seq<u8>>) -> Seq<Seq<u8>>>,
}

/// Both sides after a row was pushed, with both hashes recorded.
pub open spec fn pushed(a: Seq<Seq<u8>>, b: Seq<Seq<u8>>) -> RowSides {
    RowSides { a: Some(a), b: Some(b), st: Some((row_hash(a), row_hash(b))) }
}

pub open spec fn opt_hash(v: Option<Seq<Seq<u8>>>) -> Option<Seq<char>> {
    match v {
        Some(r) => Some(row_hash(r)),
        None => None,
    }
}

/// What a sync makes of one row; `None` when it is refused, and then nothing
/// at all changes.
pub open spec fn synced(row: RowSides, lens: RowLens) -> Option<RowSides> {
    let gone = RowSides { a: None, b: None, st: None };
    match (row.a, row.b) {
        (Some(a), _) => match p1_of(row.st, row_hash(a), opt_hash(row.b)) {
            P1::CreateB => Some(pushed(a, (lens.forward)(a))),
            P1::Compare => if (lens.forward)(a) == row.b->Some_0 { Some(pushed(a, row.b->Some_0)) } else { None },
            P1::DeleteA => Some(gone),
            P1::Unchanged => Some(row),
            P1::AToB => Some(pushed(a, (lens.forward)(a))),
            P1::BToA => Some(pushed((lens.back)(a, row.b->Some_0), row.b->Some_0)),
            _ => None,
        },
        (None, Some(b)) => {
            let st_b = match row.st {
                Some(st) => Some(st.1),
                None => None,
            };
            match p2_of(st_b, row_hash(b), lens.create is None, None) {
                P2::DeleteB => Some(gone),
                P2::CreateA => Some(pushed((lens.create->Some_0)(b), b)),
                _ => None,
            }
        },
        (None, None) => Some(gone),
    }
}

/// Loop safety: a sync right behind a sync changes nothing, whatever the pairs
/// do.
pub proof fn law_sync_idempotent(row: RowSides, lens: RowLens)
    requires
        synced(row, lens) is Some,
    ensures
        synced(synced(row, lens)->Some_0, lens) == synced(row, lens),
{
}

/// An edit on one side flows to the other, and the edited side stays as it is:
/// a changed source row is forwarded, a changed target row is carried back.
pub proof fn law_one_sided_edit_flows(a: Seq<Seq<u8>>, b: Seq<Seq<u8>>, st: (Seq<char>, Seq<char>), lens: RowLens)
    ensures
        row_hash(a) != st.0 && row_hash(b) == st.1 ==> synced(RowSides { a: Some(a), b: Some(b), st: Some(st) }, lens) == Some(
            pushed(a, (lens.forward)(a)),
        ),
        row_hash(a) == st.0 && row_hash(b) != st.1 ==> synced(RowSides { a: Some(a), b: Some(b), st: Some(st) }, lens) == Some(
            pushed((lens.back)(a, b), b),
        ),
        row_hash(a) == st.0 && row_hash(b) == st.1 ==> synced(RowSides { a: Some(a), b: Some(b), st: Some(st) }, lens) == Some(
            RowSides { a: Some(a), b: Some(b), st: Some(st) },
        ),
{
}

/// A row that moved on both sides since the last sync is refused, and so is a
/// row that was deleted on one side and changed on the other.
pub proof fn law_two_sided_edit_refused(a: Seq<Seq<u8>>, b: Seq<Seq<u8>>, st: (Seq<char>, Seq<char>), lens: RowLens)
    ensures
        row_hash(a) != st.0 && row_hash(b) != st.1 ==> synced(RowSides { a: Some(a), b: Some(b), st: Some(st) }, lens) is None,
        row_hash(a) != st.0 ==> synced(RowSides { a: Some(a), b: None, st: Some(st) }, lens) is None,
        row_hash(b) != st.1 ==> synced(RowSides { a: None, b: Some(b), st: Some(st) }, lens) is None,
{
}

/// A row deleted on one side and untouched on the other is deleted on both,
/// and its record goes; so does the record of a row deleted on both sides, so
/// that making the row again is no conflict.
pub proof fn law_deletion_flows(a: Seq<Seq<u8>>, b: Seq<Seq<u8>>, lens: RowLens)
    ensures
        ({
            let gone = RowSides { a: None, b: None, st: None };
            let st = Some((row_hash(a), row_hash(b)));
            &&& synced(RowSides { a: Some(a), b: None, st }, lens) == Some(gone)
            &&& synced(RowSides { a: None, b: Some(b), st }, lens) == Some(gone)
            &&& synced(RowSides { a: None, b: None, st }, lens) == Some(gone)
            &&& synced(RowSides { a: Some(a), b: None, st: None }, lens) is Some
        }),
{
}

/// A row is known by its hash: two rows share one only where they are the same,
/// value for value, or where the hash function collides.
pub proof fn law_row_hash_tells_rows_apart(a: Seq<Seq<u8>>, b: Seq<Seq<u8>>)
    requires
        row_hash(a) == row_hash(b),
        forall|i: int| 0 <= i < a.len() ==> (#[trigger] a[i]).len() <= u64::MAX,
        forall|i: int| 0 <= i < b.len() ==> (#[trigger] b[i]).len() <= u64::MAX,
    ensures
        a == b || exists|x: Seq<u8>, y: Seq<u8>| x != y && #[trigger] blake3_digest(x) == #[trigger] blake3_digest(y),
{
    let (x, y) = (framed_all(a), framed_all(b));
    crate::text::lemma_parse_hex(blake3_digest(x));
    crate::text::lemma_parse_hex(blake3_digest(y));
    if x == y {
        crate::hash::law_chain_framing_injective(a, b);
    } else {
        assert(blake3_digest(x) == blake3_digest(y));
    }
}

/// A row that was never synced goes over to the side that lacks it; where both
/// sides hold it and agree it is recorded as it is, and where they disagree
/// nothing decides between them. A row is made on the source only where the
/// target's values alone can give it.
pub proof fn law_first_contact(a: Seq<Seq<u8>>, b: Seq<Seq<u8>>, lens: RowLens)
    ensures
        ({
            let recorded = |x: Seq<Seq<u8>>, y: Seq<Seq<u8>>|
                Some(RowSides { a: Some(x), b: Some(y), st: Some((row_hash(x), row_hash(y))) });
            &&& synced(RowSides { a: Some(a), b: None, st: None }, lens) == recorded(a, (lens.forward)(a))
            &&& synced(RowSides { a: Some(a), b: Some(b), st: None }, lens) == (if (lens.forward)(a) == b { recorded(a, b) } else { None })
            &&& lens.create is Some ==> synced(RowSides { a: None, b: Some(b), st: None }, lens) == recorded((lens.create->Some_0)(b), b)
            &&& lens.create is None ==> synced(RowSides { a: None, b: Some(b), st: None }, lens) is None
        }),
{
}

/// What becomes of a row that only the target has, as it is told: it goes ahead
/// only where it is new and the source can have it, or where the source deleted
/// it and the target left it alone.
pub proof fn law_target_row_goes_ahead(
    name: Seq<char>,
    src: Seq<char>,
    dst: Seq<char>,
    cols: Seq<String>,
    key: ValueModel,
    st_b: Option<Seq<char>>,
    b_now: Seq<char>,
    rowid: bool,
    not_bijective: Option<usize>,
)
    ensures
        ({
            let p = p2_of(st_b, b_now, rowid, not_bijective);
            &&& p2_fault(name, src, dst, cols, key, p) is None <==> (st_b is None && !rowid && not_bijective is None) || st_b == Some(b_now)
            &&& st_b == Some(b_now) ==> p == P2::DeleteB
            &&& st_b is None && !rowid && not_bijective is None ==> p == P2::CreateA
            &&& st_b is None && !rowid && not_bijective is Some ==> p == P2::NoResidual(not_bijective->Some_0)
        }),
{
}

/// The column that stands in the way is the first whose pair is not bijective.
pub proof fn law_first_column_in_the_way(pairs: Seq<Option<LensClass>>, from: int)
    requires
        0 <= from <= pairs.len() <= usize::MAX,
    ensures
        match needs_residual(pairs, from) {
            Some(i) => from <= i < pairs.len() && (pairs[i as int] == Some(LensClass::Lossy) || pairs[i as int] == Some(LensClass::Residual))
                && forall|j: int| from <= j < i ==> (#[trigger] pairs[j]) is None || pairs[j] == Some(LensClass::Bijective),
            None => forall|j: int| from <= j < pairs.len() ==> (#[trigger] pairs[j]) is None || pairs[j] == Some(LensClass::Bijective),
        },
    decreases pairs.len() - from,
{
    if from < pairs.len() {
        law_first_column_in_the_way(pairs, from + 1);
    }
}

/// What was written counts only where it reads back as written.
pub proof fn law_written_row_reads_back(side: Seq<char>, key: ValueModel, got: Option<Seq<char>>, want: Seq<char>)
    ensures
        persisted_fault(side, key, got, want) is None <==> got == Some(want),
{
}

/// A row counts as moved exactly where the sync changed a side of it, and as
/// clean exactly where the source has it and nothing changed.
pub proof fn law_counts_tell_what_changed(a: Seq<Seq<u8>>, row: RowSides, lens: RowLens)
    requires
        row.a == Some(a),
        synced(row, lens) is Some,
        row.st is Some || row.b is None || (lens.forward)(a) == row.b->Some_0,
    ensures
        ({
            let (moved, clean) = source_counts(p1_of(row.st, row_hash(a), opt_hash(row.b)));
            let after = synced(row, lens)->Some_0;
            &&& moved + clean == 1
            &&& clean == 1 ==> after.a == row.a && after.b == row.b
            &&& after.a is None || row.b is None ==> moved == 1
        }),
{
}

} // verus!
