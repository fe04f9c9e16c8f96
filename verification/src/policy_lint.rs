//! Advice on a policy about to be created: keys that do not lead with the
//! column that separates the tenants.
//!
//! Uniqueness spans all rows, seen or not. A unique key that does not lead
//! with the discriminator can collide with an invisible row, and the caller
//! learns that the row exists.

use vstd::prelude::*;
use vstd::string::StringExecFns;
use crate::plan::{IndexDef, TableDef};
use crate::text::{join_text, joined_text, quoted_in, texts};

verus! {

/// The names of columns.
pub open spec fn column_names(t: TableDef, cols: Seq<u16>) -> Seq<Seq<char>> {
    Seq::new(cols.len(), |i: int| t.columns@[cols[i] as int].name@)
}

/// The discriminators among the first `n` columns, each once, in column
/// order.
pub open spec fn discriminators(disc: Seq<u16>, n: nat) -> Seq<u16>
    decreases n,
{
    if n == 0 {
        Seq::empty()
    } else {
        let before = discriminators(disc, (n - 1) as nat);
        if disc.contains((n - 1) as u16) {
            before.push((n - 1) as u16)
        } else {
            before
        }
    }
}

/// The discriminators of a table by name.
pub open spec fn discriminator_names(t: TableDef, disc: Seq<u16>) -> Seq<Seq<char>> {
    column_names(t, discriminators(disc, t.columns@.len()))
}

/// The finding on a primary key.
pub open spec fn key_finding(t: TableDef, disc: Seq<u16>) -> Seq<char> {
    let names = discriminator_names(t, disc);
    "PRIMARY KEY ("@ + joined_text(column_names(t, t.primary_key@), ", "@) + ") does not lead with the policy discriminator ("@
        + joined_text(names, " or "@)
        + "): a PK collision with a row this caller cannot see still fails the write, revealing the hidden row exists (§6.4). Consider PRIMARY KEY ("@
        + names[0] + ", …)."@
}

/// The finding on a unique index.
pub open spec fn index_finding(t: TableDef, disc: Seq<u16>, ix: IndexDef) -> Seq<char> {
    "index ("@ + joined_text(column_names(t, ix.columns@), ", "@)
        + ") spans every tenant: a value colliding with a hidden row reveals it exists (§6.4). Lead the index with `"@
        + discriminator_names(t, disc)[0]
        + "` (a composite index whose first column is the discriminator), drop it, or move the keyed data to its own table."@
}

/// The findings on the first `n` indexes.
pub open spec fn index_findings(t: TableDef, disc: Seq<u16>, n: nat) -> Seq<Seq<char>>
    decreases n,
{
    if n == 0 {
        Seq::empty()
    } else {
        let before = index_findings(t, disc, (n - 1) as nat);
        let ix = t.indexes@[n - 1];
        if ix.unique && !disc.contains(ix.columns@[0]) {
            before.push(index_finding(t, disc, ix))
        } else {
            before
        }
    }
}

/// All findings. Without a discriminator there is nothing to lead with.
pub open spec fn findings(t: TableDef, disc: Seq<u16>) -> Seq<Seq<char>> {
    if disc.len() == 0 {
        Seq::empty()
    } else {
        let key = if t.primary_key@.len() > 0 && disc.contains(t.primary_key@[0]) {
            Seq::empty()
        } else {
            seq![key_finding(t, disc)]
        };
        key + index_findings(t, disc, t.indexes@.len())
    }
}

fn names_of(t: &TableDef, cols: &Vec<u16>) -> (r: Vec<String>)
    requires
        forall|i: int| 0 <= i < cols@.len() ==> #[trigger] cols@[i] < t.columns@.len(),
    ensures
        texts(r@) == column_names(*t, cols@),
{
    let mut out: Vec<String> = Vec::new();
    let mut i: usize = 0;
    while i < cols.len()
        invariant
            i <= cols@.len(),
            forall|j: int| 0 <= j < cols@.len() ==> #[trigger] cols@[j] < t.columns@.len(),
            out@.len() == i,
            forall|j: int| 0 <= j < i ==> (#[trigger] out@[j])@ == t.columns@[cols@[j] as int].name@,
        decreases cols@.len() - i,
    {
        assert(cols@[i as int] < t.columns@.len());
        out.push(t.columns[cols[i] as usize].name.clone());
        i += 1;
    }
    proof {
        assert(texts(out@) =~= column_names(*t, cols@));
    }
    out
}

fn holds(disc: &Vec<u16>, c: u16) -> (r: bool)
    ensures
        r == disc@.contains(c),
{
    let mut i: usize = 0;
    while i < disc.len()
        invariant
            i <= disc@.len(),
            forall|j: int| 0 <= j < i ==> #[trigger] disc@[j] != c,
        decreases disc@.len() - i,
    {
        if disc[i] == c {
            assert(disc@[i as int] == c);
            return true;
        }
        i += 1;
    }
    false
}

fn distinct(disc: &Vec<u16>, n: usize) -> (r: Vec<u16>)
    requires
        n <= 0x1_0000,
    ensures
        r@ == discriminators(disc@, n as nat),
        forall|i: int| 0 <= i < r@.len() ==> #[trigger] r@[i] < n,
        forall|c: u16| c < n && disc@.contains(c) ==> r@.contains(c),
{
    let mut out: Vec<u16> = Vec::new();
    let mut c: usize = 0;
    while c < n
        invariant
            c <= n <= 0x1_0000,
            out@ == discriminators(disc@, c as nat),
            forall|i: int| 0 <= i < out@.len() ==> #[trigger] out@[i] < c,
            forall|d: u16| d < c && disc@.contains(d) ==> out@.contains(d),
        decreases n - c,
    {
        let ghost prev = out@;
        if holds(disc, c as u16) {
            out.push(c as u16);
            proof {
                assert(out@.last() == c as u16);
                assert forall|d: u16| d < c + 1 && disc@.contains(d) implies out@.contains(d) by {
                    if d < c {
                        let k = choose|k: int| 0 <= k < prev.len() && prev[k] == d;
                        assert(out@[k] == d);
                    } else {
                        assert(out@[prev.len() as int] == d);
                    }
                }
            }
        }
        c += 1;
    }
    out
}

/// Findings on a table for a policy whose discriminators are the columns
/// `disc`. They inform; they do not veto.
pub fn lint_policy(t: &TableDef, disc: &Vec<u16>) -> (r: Vec<String>)
    requires
        t.wf(),
        t.columns@.len() <= 0x1_0000,
        forall|i: int| 0 <= i < disc@.len() ==> #[trigger] disc@[i] < t.columns@.len(),
    ensures
        texts(r@) == findings(*t, disc@),
{
    let mut out: Vec<String> = Vec::new();
    if disc.len() == 0 {
        proof {
            assert(texts(out@) =~= findings(*t, disc@));
        }
        return out;
    }
    let cols = distinct(disc, t.columns.len());
    let names = names_of(t, &cols);
    proof {
        assert(disc@[0] < t.columns@.len());
        assert(disc@.contains(disc@[0]));
        assert(cols@.contains(disc@[0]));
        assert(texts(names@).len() == cols@.len());
        assert(texts(names@) == discriminator_names(*t, disc@));
        assert(names@.len() > 0);
        assert(texts(names@)[0] == names@[0]@);
    }
    let key_leads = t.primary_key.len() > 0 && holds(disc, t.primary_key[0]);
    if !key_leads {
        let pk = names_of(t, &t.primary_key);
        let listed = join_text(&pk, ", ");
        let either = join_text(&names, " or ");
        let mut m = quoted_in("PRIMARY KEY (", listed.as_str(), ") does not lead with the policy discriminator (");
        m.append(either.as_str());
        m.append(
            "): a PK collision with a row this caller cannot see still fails the write, revealing the hidden row exists (§6.4). Consider PRIMARY KEY (",
        );
        m.append(names[0].as_str());
        m.append(", …).");
        out.push(m);
    }
    let ghost head = texts(out@);
    proof {
        let key = if t.primary_key@.len() > 0 && disc@.contains(t.primary_key@[0]) {
            Seq::empty()
        } else {
            seq![key_finding(*t, disc@)]
        };
        assert(head =~= key);
        assert(texts(out@) =~= head + index_findings(*t, disc@, 0));
    }
    let mut i: usize = 0;
    while i < t.indexes.len()
        invariant
            i <= t.indexes@.len(),
            t.wf(),
            names@.len() > 0,
            texts(names@) == discriminator_names(*t, disc@),
            texts(names@)[0] == names@[0]@,
            texts(out@) == head + index_findings(*t, disc@, i as nat),
        decreases t.indexes@.len() - i,
    {
        let ix = &t.indexes[i];
        assert(t.indexes@[i as int].columns@.len() > 0);
        if ix.unique && !holds(disc, ix.columns[0]) {
            proof {
                assert forall|j: int| 0 <= j < ix.columns@.len() implies #[trigger] ix.columns@[j] < t.columns@.len() by {
                    assert(t.indexes@[i as int].columns@[j] < t.columns@.len());
                }
            }
            let own = names_of(t, &ix.columns);
            let listed = join_text(&own, ", ");
            let mut m = quoted_in(
                "index (",
                listed.as_str(),
                ") spans every tenant: a value colliding with a hidden row reveals it exists (§6.4). Lead the index with `",
            );
            m.append(names[0].as_str());
            m.append(
                "` (a composite index whose first column is the discriminator), drop it, or move the keyed data to its own table.",
            );
            let ghost prev = out@;
            out.push(m);
            proof {
                assert(texts(out@) =~= texts(prev).push(m@));
                assert(texts(out@) =~= head + index_findings(*t, disc@, (i + 1) as nat));
            }
        }
        i += 1;
    }
    out
}

/// A table all of whose unique keys lead with a discriminator gives no
/// finding.
pub proof fn law_leading_keys_are_silent(t: TableDef, disc: Seq<u16>)
    requires
        t.primary_key@.len() > 0,
        disc.contains(t.primary_key@[0]),
        forall|i: int| 0 <= i < t.indexes@.len() && (#[trigger] t.indexes@[i]).unique ==> disc.contains(t.indexes@[i].columns@[0]),
    ensures
        findings(t, disc).len() == 0,
{
    lemma_no_index_findings(t, disc, t.indexes@.len());
}

proof fn lemma_no_index_findings(t: TableDef, disc: Seq<u16>, n: nat)
    requires
        n <= t.indexes@.len(),
        forall|i: int| 0 <= i < t.indexes@.len() && (#[trigger] t.indexes@[i]).unique ==> disc.contains(t.indexes@[i].columns@[0]),
    ensures
        index_findings(t, disc, n).len() == 0,
    decreases n,
{
    if n > 0 {
        lemma_no_index_findings(t, disc, (n - 1) as nat);
    }
}

proof fn lemma_index_findings(t: TableDef, disc: Seq<u16>, n: nat)
    requires
        n <= t.indexes@.len(),
    ensures
        forall|i: int|
            0 <= i < n && (#[trigger] t.indexes@[i]).unique && !disc.contains(t.indexes@[i].columns@[0]) ==> index_findings(t, disc, n).contains(
                index_finding(t, disc, t.indexes@[i]),
            ),
        forall|k: int|
            0 <= k < index_findings(t, disc, n).len() ==> exists|i: int|
                0 <= i < n && (#[trigger] t.indexes@[i]).unique && !disc.contains(t.indexes@[i].columns@[0]) && #[trigger] index_findings(t, disc, n)[k]
                    == index_finding(t, disc, t.indexes@[i]),
    decreases n,
{
    if n > 0 {
        lemma_index_findings(t, disc, (n - 1) as nat);
        let (before, all) = (index_findings(t, disc, (n - 1) as nat), index_findings(t, disc, n));
        assert forall|i: int|
            0 <= i < n && (#[trigger] t.indexes@[i]).unique && !disc.contains(t.indexes@[i].columns@[0]) implies all.contains(
            index_finding(t, disc, t.indexes@[i]),
        ) by {
            let f = index_finding(t, disc, t.indexes@[i]);
            if i < n - 1 {
                let k = before.index_of(f);
                assert(before[k] == f);
                assert(all[k] == f);
            } else {
                assert(all[before.len() as int] == f);
            }
        }
        assert forall|k: int| 0 <= k < all.len() implies exists|i: int|
            0 <= i < n && (#[trigger] t.indexes@[i]).unique && !disc.contains(t.indexes@[i].columns@[0]) && #[trigger] all[k] == index_finding(
                t,
                disc,
                t.indexes@[i],
            ) by {
            if k < before.len() {
                assert(all[k] == before[k]);
                let i = choose|i: int|
                    0 <= i < n - 1 && (#[trigger] t.indexes@[i]).unique && !disc.contains(t.indexes@[i].columns@[0]) && before[k]
                        == index_finding(t, disc, t.indexes@[i]);
                assert(t.indexes@[i].unique);
            } else {
                assert(t.indexes@[n - 1].unique);
            }
        }
    }
}

/// The text is what is said of a unique index that does not begin with a column
/// that the policy goes by.
pub open spec fn index_told(t: TableDef, disc: Seq<u16>, text: Seq<char>) -> bool {
    exists|i: int|
        0 <= i < t.indexes@.len() && (#[trigger] t.indexes@[i]).unique && !disc.contains(t.indexes@[i].columns@[0]) && text == index_finding(
            t,
            disc,
            t.indexes@[i],
        )
}

/// Every key by which a hidden row can be told is told: the primary key first,
/// and each unique index, wherever its first column is not one that the policy
/// goes by. Nothing else is; and a policy that goes by no column has no better
/// key to offer.
pub proof fn law_every_telling_key_is_found(t: TableDef, disc: Seq<u16>)
    ensures
        disc.len() == 0 ==> findings(t, disc).len() == 0,
        disc.len() > 0 && (t.primary_key@.len() == 0 || !disc.contains(t.primary_key@[0])) ==> findings(t, disc).len() > 0 && findings(t, disc)[0]
            == key_finding(t, disc),
        disc.len() > 0 ==> forall|i: int|
            0 <= i < t.indexes@.len() && (#[trigger] t.indexes@[i]).unique && !disc.contains(t.indexes@[i].columns@[0]) ==> findings(t, disc).contains(
                index_finding(t, disc, t.indexes@[i]),
            ),
        forall|k: int|
            0 <= k < findings(t, disc).len() ==> index_told(t, disc, #[trigger] findings(t, disc)[k]) || (k == 0 && findings(t, disc)[k]
                == key_finding(t, disc) && !(t.primary_key@.len() > 0 && disc.contains(t.primary_key@[0]))),
{
    if disc.len() > 0 {
        let n = t.indexes@.len();
        lemma_index_findings(t, disc, n);
        let tail = index_findings(t, disc, n);
        let all = findings(t, disc);
        let led = t.primary_key@.len() > 0 && disc.contains(t.primary_key@[0]);
        let head = if led { Seq::empty() } else { seq![key_finding(t, disc)] };
        assert(all == head + tail);
        assert forall|i: int|
            0 <= i < n && (#[trigger] t.indexes@[i]).unique && !disc.contains(t.indexes@[i].columns@[0]) implies all.contains(
            index_finding(t, disc, t.indexes@[i]),
        ) by {
            let f = index_finding(t, disc, t.indexes@[i]);
            let k = tail.index_of(f);
            assert(tail[k] == f);
            assert(all[head.len() + k] == f);
        }
        assert forall|k: int| 0 <= k < all.len() implies index_told(t, disc, #[trigger] all[k]) || (k == 0 && all[k] == key_finding(t, disc)
            && !led) by {
            if k >= head.len() {
                let q = k - head.len();
                assert(all[k] == tail[q]);
                let i = choose|i: int|
                    0 <= i < n && (#[trigger] t.indexes@[i]).unique && !disc.contains(t.indexes@[i].columns@[0]) && tail[q] == index_finding(
                        t,
                        disc,
                        t.indexes@[i],
                    );
                assert(t.indexes@[i].unique && all[k] == index_finding(t, disc, t.indexes@[i]));
            }
        }
    }
}

/// The columns that a policy goes by are named each once, in the order of the
/// table.
pub proof fn law_discriminators_are_listed(disc: Seq<u16>, n: nat)
    requires
        n <= 0x1_0000,
    ensures
        forall|c: u16| c < n ==> (#[trigger] discriminators(disc, n).contains(c) <==> disc.contains(c)),
        forall|i: int| 0 <= i < discriminators(disc, n).len() ==> #[trigger] discriminators(disc, n)[i] < n,
        forall|i: int, j: int| 0 <= i < j < discriminators(disc, n).len() ==> #[trigger] discriminators(disc, n)[i] < #[trigger] discriminators(disc, n)[j],
    decreases n,
{
    if n > 0 {
        law_discriminators_are_listed(disc, (n - 1) as nat);
        let (before, all) = (discriminators(disc, (n - 1) as nat), discriminators(disc, n));
        assert forall|c: u16| c < n implies (#[trigger] all.contains(c) <==> disc.contains(c)) by {
            if c < n - 1 {
                assert(before.contains(c) <==> disc.contains(c));
                if before.contains(c) {
                    let k = before.index_of(c);
                    assert(all[k] == c);
                }
                if all.contains(c) {
                    let k = all.index_of(c);
                    assert(k < before.len());
                    assert(before[k] == c);
                }
            } else {
                if disc.contains(c) {
                    assert(all[before.len() as int] == c);
                } else if before.contains(c) {
                    let k = before.index_of(c);
                    assert(before[k] < n - 1);
                }
            }
        }
    }
}

} // verus!
