//! One sync of a whole set of tables, and what it reports.

use vstd::prelude::*;
use crate::rretl_map::row_sync::recorded_b;
use crate::rretl_map::sync::{law_sync_idempotent, opt_hash, p1_of, p2_of, row_hash, source_counts, synced, target_counts, RowLens, RowSides};

verus! {

/// A mapped table: the rows that either side or the record has, and the
/// functions of its pairs. Each table of a set is mapped once.
pub struct TableSides {
    pub rows: Seq<RowSides>,
    pub lens: RowLens,
}

/// How many rows a sync moves and how many it leaves alone.
pub struct SyncCounts {
    pub moved: nat,
    pub unchanged: nat,
}

/// What a sync reports of one row.
pub open spec fn row_counts(row: RowSides, lens: RowLens) -> SyncCounts {
    match (row.a, row.b) {
        (Some(a), _) => {
            let (moved, unchanged) = source_counts(p1_of(row.st, row_hash(a), opt_hash(row.b)));
            SyncCounts { moved, unchanged }
        },
        (None, Some(b)) => SyncCounts {
            moved: target_counts(p2_of(recorded_b(row.st), row_hash(b), lens.create is None, None)),
            unchanged: 0,
        },
        (None, None) => SyncCounts { moved: 0, unchanged: 0 },
    }
}

/// What a sync reports of the first `n` rows of a table.
pub open spec fn rows_counts(t: TableSides, n: nat) -> SyncCounts
    decreases n,
{
    if n == 0 {
        SyncCounts { moved: 0, unchanged: 0 }
    } else {
        let before = rows_counts(t, (n - 1) as nat);
        let row = row_counts(t.rows[n - 1], t.lens);
        SyncCounts { moved: before.moved + row.moved, unchanged: before.unchanged + row.unchanged }
    }
}

/// What a sync reports of the first `n` tables of a set.
pub open spec fn set_counts(set: Seq<TableSides>, n: nat) -> SyncCounts
    decreases n,
{
    if n == 0 {
        SyncCounts { moved: 0, unchanged: 0 }
    } else {
        let before = set_counts(set, (n - 1) as nat);
        let table = rows_counts(set[n - 1], set[n - 1].rows.len());
        SyncCounts { moved: before.moved + table.moved, unchanged: before.unchanged + table.unchanged }
    }
}

/// How many of the first `n` rows of a table the source has.
pub open spec fn source_rows(t: TableSides, n: nat) -> nat
    decreases n,
{
    if n == 0 {
        0
    } else {
        source_rows(t, (n - 1) as nat) + (if t.rows[n - 1].a is Some { 1nat } else { 0nat })
    }
}

/// How many rows the sources of the first `n` tables of a set have.
pub open spec fn set_source_rows(set: Seq<TableSides>, n: nat) -> nat
    decreases n,
{
    if n == 0 {
        0
    } else {
        set_source_rows(set, (n - 1) as nat) + source_rows(set[n - 1], set[n - 1].rows.len())
    }
}

/// No row of a set is refused.
pub open spec fn set_accepted(set: Seq<TableSides>) -> bool {
    forall|t: int, i: int| 0 <= t < set.len() && 0 <= i < set[t].rows.len() ==> synced(#[trigger] set[t].rows[i], set[t].lens) is Some
}

/// What a sync makes of a table none of whose rows is refused.
pub open spec fn table_after(t: TableSides) -> TableSides {
    TableSides { rows: t.rows.map_values(|r: RowSides| synced(r, t.lens)->Some_0), lens: t.lens }
}

/// What a sync makes of a set; `None` when a row is refused, and then nothing
/// at all changes.
pub open spec fn set_synced(set: Seq<TableSides>) -> Option<Seq<TableSides>> {
    if set_accepted(set) {
        Some(set.map_values(|t: TableSides| table_after(t)))
    } else {
        None
    }
}

/// A row that was just synced is clean: it counts as unchanged where the
/// source has it, and not at all where it is gone.
proof fn lemma_clean_row(row: RowSides, lens: RowLens)
    requires
        synced(row, lens) is Some,
    ensures
        ({
            let r = synced(row, lens)->Some_0;
            &&& synced(r, lens) == Some(r)
            &&& row_counts(r, lens).moved == 0
            &&& row_counts(r, lens).unchanged == (if r.a is Some { 1nat } else { 0nat })
        }),
{
    law_sync_idempotent(row, lens);
}

proof fn lemma_clean_table(t: TableSides, n: nat)
    requires
        n <= t.rows.len(),
        forall|i: int| 0 <= i < t.rows.len() ==> synced(#[trigger] t.rows[i], t.lens) is Some,
    ensures
        rows_counts(table_after(t), n) == (SyncCounts { moved: 0, unchanged: source_rows(table_after(t), n) }),
    decreases n,
{
    if n > 0 {
        lemma_clean_table(t, (n - 1) as nat);
        lemma_clean_row(t.rows[n - 1], t.lens);
    }
}

proof fn lemma_clean_set(set: Seq<TableSides>, n: nat)
    requires
        n <= set.len(),
        set_accepted(set),
    ensures
        set_counts(set_synced(set)->Some_0, n) == (SyncCounts { moved: 0, unchanged: set_source_rows(set_synced(set)->Some_0, n) }),
    decreases n,
{
    if n > 0 {
        lemma_clean_set(set, (n - 1) as nat);
        let t = set[n - 1];
        assert forall|i: int| 0 <= i < t.rows.len() implies synced(#[trigger] t.rows[i], t.lens) is Some by {
            assert(synced(set[n - 1].rows[i], set[n - 1].lens) is Some);
        }
        lemma_clean_table(t, t.rows.len());
        assert(set_synced(set)->Some_0[n - 1] == table_after(t));
    }
}

/// A change that arrived by sync does not echo: a second sync of a whole set
/// right behind the first is not refused, changes no row of any table, reports
/// that nothing moved, and counts every source row as unchanged.
pub proof fn law_second_sync_reports_no_change(set: Seq<TableSides>)
    requires
        set_synced(set) is Some,
    ensures
        ({
            let after = set_synced(set)->Some_0;
            &&& set_synced(after) == Some(after)
            &&& set_counts(after, after.len()).moved == 0
            &&& set_counts(after, after.len()).unchanged == set_source_rows(after, after.len())
        }),
{
    let after = set_synced(set)->Some_0;
    lemma_clean_set(set, set.len());
    assert forall|t: int, i: int| 0 <= t < after.len() && 0 <= i < after[t].rows.len() implies synced(
        #[trigger] after[t].rows[i],
        after[t].lens,
    ) is Some by {
        assert(synced(set[t].rows[i], set[t].lens) is Some);
        lemma_clean_row(set[t].rows[i], set[t].lens);
    }
    assert forall|t: int| 0 <= t < after.len() implies #[trigger] table_after(after[t]) == after[t] by {
        assert forall|i: int| 0 <= i < after[t].rows.len() implies table_after(after[t]).rows[i] == #[trigger] after[t].rows[i] by {
            assert(synced(set[t].rows[i], set[t].lens) is Some);
            lemma_clean_row(set[t].rows[i], set[t].lens);
        }
        assert(table_after(after[t]).rows =~= after[t].rows);
    }
    assert(set_synced(after)->Some_0 =~= after);
}

} // verus!
