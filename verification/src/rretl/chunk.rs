//! Scanning in bounded chunks: no pass holds more than one chunk, and resuming
//! behind the last key yields the same stream as one scan.

use vstd::prelude::*;
use vstd::string::StringExecFns;
use crate::text::{dec, parse_u64, parsed_u64, push_dec};

verus! {

/// Rows per chunk unless something else is asked for.
pub const RRETL_CHUNK_DEFAULT: usize = 4096;

/// The chunk size: a forced one, else a positive number given as text, else
/// the default.
pub open spec fn chunk_size(forced: Option<usize>, configured: Option<Seq<char>>) -> usize {
    match (forced, configured) {
        (Some(n), _) => n,
        (None, Some(t)) => match parsed_u64(t) {
            Some(n) => if 0 < n <= usize::MAX { n as usize } else { RRETL_CHUNK_DEFAULT },
            None => RRETL_CHUNK_DEFAULT,
        },
        (None, None) => RRETL_CHUNK_DEFAULT,
    }
}

/// The view of an optional text.
pub open spec fn opt_text(t: Option<&str>) -> Option<Seq<char>> {
    match t {
        Some(s) => Some(s@),
        None => None,
    }
}

/// The chunk size, given the forced size of the current thread and the
/// configured text, if any.
pub fn chunk_rows(forced: Option<usize>, configured: Option<&str>) -> (r: usize)
    ensures
        r == chunk_size(forced, opt_text(configured)),
{
    if let Some(n) = forced {
        return n;
    }
    match configured {
        None => RRETL_CHUNK_DEFAULT,
        Some(t) => match parse_u64(t) {
            Some(n) => if n > 0 && n as u128 <= usize::MAX as u128 {
                n as usize
            } else {
                RRETL_CHUNK_DEFAULT
            },
            None => RRETL_CHUNK_DEFAULT,
        },
    }
}

/// [`chunk_rows`] under a name that tests use to pin the guard's scope.
pub fn chunk_rows_for_tests(forced: Option<usize>, configured: Option<&str>) -> (r: usize)
    ensures
        r == chunk_size(forced, opt_text(configured)),
{
    chunk_rows(forced, configured)
}

/// Forces the chunk size of a thread until released; remembers what was forced
/// before.
#[derive(Debug)]
pub struct ChunkGuard {
    previous: Option<usize>,
}

impl ChunkGuard {
    /// What was forced before the guard.
    pub closed spec fn restores(&self) -> Option<usize> {
        self.previous
    }

    /// Force `rows` in the thread's cell.
    pub fn new(cell: &mut Option<usize>, rows: usize) -> (g: ChunkGuard)
        ensures
            *final(cell) == Some(rows),
            g.restores() == *old(cell),
    {
        let previous = *cell;
        *cell = Some(rows);
        ChunkGuard { previous }
    }

    /// Put back what was forced before.
    pub fn release(self, cell: &mut Option<usize>)
        ensures
            *final(cell) == self.restores(),
    {
        *cell = self.previous;
    }
}

/// The number with the low 64 bits of `d`, as a signed one.
pub open spec fn low_signed(d: int) -> int {
    let low = d % 0x1_0000_0000_0000_0000;
    if low <= i64::MAX { low } else { low - 0x1_0000_0000_0000_0000 }
}

/// Microseconds since the epoch as a signed number, which wraps around; 0
/// before the epoch.
pub fn now_micros(elapsed: Option<u128>) -> (r: i64)
    ensures
        r == (match elapsed {
            None => 0int,
            Some(d) => low_signed(d as int),
        }),
{
    match elapsed {
        None => 0,
        Some(d) => {
            let low: u64 = (d % 0x1_0000_0000_0000_0000) as u64;
            if low <= 0x7FFF_FFFF_FFFF_FFFF {
                low as i64
            } else {
                -1 - ((0xFFFF_FFFF_FFFF_FFFF - low) as i64)
            }
        },
    }
}

/// Microseconds since the epoch, held at the largest signed number; 0 before
/// the epoch.
pub fn opt_now_micros(elapsed: Option<u128>) -> (r: i64)
    ensures
        r == (match elapsed {
            None => 0int,
            Some(d) => if d <= i64::MAX { d as int } else { i64::MAX as int },
        }),
{
    match elapsed {
        None => 0,
        Some(d) => if d <= 0x7FFF_FFFF_FFFF_FFFF {
            d as i64
        } else {
            0x7FFF_FFFF_FFFF_FFFF
        },
    }
}

/// The query for the first chunk of a table's key and column.
pub open spec fn first_pairs(table: Seq<char>, pk: Seq<char>, column: Seq<char>, chunk: nat) -> Seq<char> {
    "SELECT \""@ + pk + "\", \""@ + column + "\" FROM \""@ + table + "\" ORDER BY \""@ + pk + "\" LIMIT "@ + dec(chunk)
}

/// The query for a chunk behind a key.
pub open spec fn next_pairs(table: Seq<char>, pk: Seq<char>, column: Seq<char>, chunk: nat) -> Seq<char> {
    "SELECT \""@ + pk + "\", \""@ + column + "\" FROM \""@ + table + "\" WHERE \""@ + pk + "\" > $1 ORDER BY \""@ + pk
        + "\" LIMIT "@ + dec(chunk)
}

/// The queries of a chunked scan over a table's key and column.
pub fn pair_scan_sql(table: &str, pk: &str, column: &str, chunk: usize) -> (r: (String, String))
    ensures
        r.0@ == first_pairs(table@, pk@, column@, chunk as nat),
        r.1@ == next_pairs(table@, pk@, column@, chunk as nat),
{
    let mut a = String::from_str("SELECT \"");
    a.append(pk);
    a.append("\", \"");
    a.append(column);
    a.append("\" FROM \"");
    a.append(table);
    let mut b = a.clone();
    a.append("\" ORDER BY \"");
    a.append(pk);
    a.append("\" LIMIT ");
    push_dec(&mut a, chunk as u128);
    b.append("\" WHERE \"");
    b.append(pk);
    b.append("\" > $1 ORDER BY \"");
    b.append(pk);
    b.append("\" LIMIT ");
    push_dec(&mut b, chunk as u128);
    (a, b)
}

/// The queries of a chunked scan over one run's residuals, in key order.
pub fn residual_scan_sql(chunk: usize) -> (r: (String, String))
    ensures
        r.0@ == "SELECT pk_enc, residual FROM rretl_residual WHERE run_id = $1 ORDER BY pk_enc LIMIT "@ + dec(chunk as nat),
        r.1@ == "SELECT pk_enc, residual FROM rretl_residual WHERE run_id = $1 AND pk_enc > $2 ORDER BY pk_enc LIMIT "@
            + dec(chunk as nat),
{
    let mut a = String::from_str("SELECT pk_enc, residual FROM rretl_residual WHERE run_id = $1 ORDER BY pk_enc LIMIT ");
    push_dec(&mut a, chunk as u128);
    let mut b = String::from_str(
        "SELECT pk_enc, residual FROM rretl_residual WHERE run_id = $1 AND pk_enc > $2 ORDER BY pk_enc LIMIT ",
    );
    push_dec(&mut b, chunk as u128);
    (a, b)
}

/// The statement that writes one transformed value.
pub fn update_sql(table: &str, pk: &str, column: &str) -> (r: String)
    ensures
        r@ == "UPDATE \""@ + table@ + "\" SET \""@ + column@ + "\" = $1 WHERE \""@ + pk@ + "\" = $2"@,
{
    let mut s = String::from_str("UPDATE \"");
    s.append(table);
    s.append("\" SET \"");
    s.append(column);
    s.append("\" = $1 WHERE \"");
    s.append(pk);
    s.append("\" = $2");
    s
}

/// A chunked scan in progress.
pub struct ChunkScan {
    pub chunk: usize,
    /// Rows seen so far.
    pub rows: u64,
}

impl ChunkScan {
    /// Begin a scan.
    pub fn begin(chunk: usize) -> (s: ChunkScan)
        ensures
            s.chunk == chunk,
            s.rows == 0,
    {
        ChunkScan { chunk, rows: 0 }
    }

    /// Count a chunk of `got` rows. The scan goes on exactly when the chunk
    /// was full and not empty.
    pub fn after_chunk(&mut self, got: usize) -> (more: bool)
        requires
            old(self).rows + got <= u64::MAX,
        ensures
            final(self).chunk == old(self).chunk,
            final(self).rows == old(self).rows + got,
            more == (got > 0 && got >= old(self).chunk),
    {
        self.rows = self.rows + got as u64;
        got > 0 && got >= self.chunk
    }
}

/// Keys in strictly ascending order.
pub open spec fn ascending(keys: Seq<int>) -> bool {
    forall|i: int, j: int| 0 <= i < j < keys.len() ==> #[trigger] keys[i] < #[trigger] keys[j]
}

/// What a chunked scan over `keys` sees from place `from` on, `n` at a time.
pub open spec fn chunked(keys: Seq<int>, from: int, n: int) -> Seq<int>
    decreases keys.len() - from,
{
    if n <= 0 || from < 0 || from >= keys.len() {
        Seq::empty()
    } else {
        let to = if from + n <= keys.len() { from + n } else { keys.len() as int };
        let part = keys.subrange(from, to);
        let b = behind(keys, part.last(), to);
        if part.len() < n || !(from < b <= keys.len()) { part } else { part + chunked(keys, b, n) }
    }
}

/// The place of the first key greater than `last`, at or behind `from`.
pub open spec fn behind(keys: Seq<int>, last: int, from: int) -> int
    decreases keys.len() - from,
{
    if from >= keys.len() || keys[from] > last { from } else { behind(keys, last, from + 1) }
}

/// A scan in chunks that resumes behind the last key sees every row once, in
/// order, whatever the chunk size.
pub proof fn law_chunked_scan_is_whole(keys: Seq<int>, from: int, n: int)
    requires
        ascending(keys),
        0 <= from <= keys.len(),
        n > 0,
    ensures
        chunked(keys, from, n) == keys.skip(from),
    decreases keys.len() - from,
{
    if from < keys.len() {
        let to = if from + n <= keys.len() { from + n } else { keys.len() as int };
        let part = keys.subrange(from, to);
        if part.len() == n {
            assert(part.last() == keys[to - 1]);
            if to < keys.len() {
                assert(keys[to - 1] < keys[to]);
            }
            assert(behind(keys, part.last(), to) == to);
            law_chunked_scan_is_whole(keys, to, n);
            assert(part + keys.skip(to) =~= keys.skip(from));
        } else {
            assert(part =~= keys.skip(from));
        }
    } else {
        assert(keys.skip(from) =~= Seq::<int>::empty());
    }
}

/// A size that was asked for is used, written as a number or set directly; what
/// is no number, or zero, leaves the usual size.
pub proof fn law_chunk_size_is_the_one_asked_for(n: usize, configured: Option<Seq<char>>)
    ensures
        chunk_size(Some(n), configured) == n,
        n > 0 && n <= u64::MAX ==> chunk_size(None, Some(dec(n as nat))) == n,
        chunk_size(None, Some(dec(0))) == RRETL_CHUNK_DEFAULT,
        chunk_size(None, Some(Seq::empty())) == RRETL_CHUNK_DEFAULT,
        chunk_size(None, None) == RRETL_CHUNK_DEFAULT,
        RRETL_CHUNK_DEFAULT > 0,
{
    crate::text::lemma_parse_dec(n as nat);
    crate::text::lemma_parse_dec(0);
}

/// The next chunk is read like the first, but behind the last key: both give
/// the key and the column of the table, in the order of the key, as many as
/// asked for.
pub proof fn law_next_chunk_is_behind_the_last_key(table: Seq<char>, pk: Seq<char>, column: Seq<char>, chunk: nat)
    ensures
        ({
            let what = "SELECT \""@ + pk + "\", \""@ + column + "\" FROM \""@ + table + "\""@;
            let order = " ORDER BY \""@ + pk + "\" LIMIT "@ + dec(chunk);
            &&& first_pairs(table, pk, column, chunk) == what + order
            &&& next_pairs(table, pk, column, chunk) == what + (" WHERE \""@ + pk + "\" > $1"@) + order
        }),
{
    reveal_strlit("\" ORDER BY \"");
    reveal_strlit("\"");
    reveal_strlit(" ORDER BY \"");
    reveal_strlit("\" WHERE \"");
    reveal_strlit(" WHERE \"");
    reveal_strlit("\" > $1 ORDER BY \"");
    reveal_strlit("\" > $1");
    let what = "SELECT \""@ + pk + "\", \""@ + column + "\" FROM \""@ + table + "\""@;
    let order = " ORDER BY \""@ + pk + "\" LIMIT "@ + dec(chunk);
    assert("\" ORDER BY \""@ =~= "\""@ + " ORDER BY \""@);
    assert("\" WHERE \""@ =~= "\""@ + " WHERE \""@);
    assert("\" > $1 ORDER BY \""@ =~= "\" > $1"@ + " ORDER BY \""@);
    assert(first_pairs(table, pk, column, chunk) =~= what + order);
    assert(next_pairs(table, pk, column, chunk) =~= what + (" WHERE \""@ + pk + "\" > $1"@) + order);
}

/// A time that does not fit is cut to its low bits, as a machine number is.
pub proof fn law_time_keeps_its_low_bits(d: int)
    requires
        d >= 0,
    ensures
        i64::MIN <= low_signed(d) <= i64::MAX,
        (d - low_signed(d)) % 0x1_0000_0000_0000_0000 == 0,
        d <= i64::MAX ==> low_signed(d) == d,
{
}

} // verus!
