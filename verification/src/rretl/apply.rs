//! The apply pass: transform, chain, keep residuals, and verify in full before
//! the commit that destroys the source.

use vstd::prelude::*;
use vstd::string::StringExecFns;
use crate::error::{fault_text, Error, Fault, Result};
use crate::hash::{blake3_digest, framed_all, law_chain_framing_injective, CanonChain};
use crate::rretl::books::{LineageRow, RretlReport};
use crate::rretl::seen::SeenImages;
use crate::text::{dec_int, hex, push_dec_int, quoted_in};
use crate::utf8::same_text;
use crate::rretl::unwind::{cell_bits, Cell};
use crate::value::{push_value_debug, type_of, type_text, value_debug, ColumnType, Value, ValueModel};

verus! {

/// Past this many distinct images the collision diagnostic stops growing; the
/// verification still finds a real collision.
pub const COLLISION_DIAG_CAP: usize = 0x10_0000;

/// What the image of a row is hashed over: the value, and the residual where
/// there is one.
pub open spec fn image_values(y: Seq<u8>, r: Option<Seq<u8>>) -> Seq<Seq<u8>> {
    match r {
        Some(r) => seq![y, r],
        None => seq![y],
    }
}

/// The key of a row's image.
pub open spec fn image_key(y: Seq<u8>, r: Option<Seq<u8>>) -> Seq<u8> {
    blake3_digest(framed_all(image_values(y, r)))
}

/// The hash of a stream of values.
pub open spec fn stream_hash(values: Seq<Seq<u8>>) -> Seq<char> {
    hex(blake3_digest(framed_all(values)))
}

/// The fault of a row that the pair's forward function refuses.
pub open spec fn forward_fault(pair: Seq<char>, table: Seq<char>, column: Seq<char>, pk: ValueModel, x: ValueModel, e: Fault) -> Fault {
    Fault::Unsupported(
        "`"@ + pair + "` refuses row "@ + value_debug(pk) + " of `"@ + table + "."@ + column + "` (value "@ + value_debug(x) + ": "@
            + fault_text(e) + "); the run is aborted — a partially transformed column is worse than none"@,
    )
}

/// The fault of a row whose residual cannot be extracted.
pub open spec fn rex_fault(pair: Seq<char>, pk: ValueModel, x: ValueModel, e: Fault) -> Fault {
    Fault::Unsupported(
        "`"@ + pair + "`'s rex refuses row "@ + value_debug(pk) + " (value "@ + value_debug(x) + ": "@ + fault_text(e)
            + "); the run is aborted"@,
    )
}

/// A transformed value does not fit the column: NULL fits, and an `any` column
/// takes everything.
pub open spec fn misfits(col_type: ColumnType, y: ValueModel) -> bool {
    type_of(y) is Some && col_type != ColumnType::Any && type_of(y)->Some_0 != col_type
}

pub open spec fn type_fault(
    pair: Seq<char>,
    table: Seq<char>,
    column: Seq<char>,
    col_type: ColumnType,
    x: ValueModel,
    y: ValueModel,
) -> Fault {
    Fault::Unsupported(
        "`"@ + pair + "` maps "@ + value_debug(x) + " to "@ + value_debug(y) + ", which does not fit `"@ + table + "."@ + column
            + "` (declared "@ + type_text(col_type) + "); a type-changing pair needs an `any` column"@,
    )
}

pub open spec fn collision_fault(pair: Seq<char>, table: Seq<char>, column: Seq<char>, pk: ValueModel) -> Fault {
    Fault::Unsupported(
        "`"@ + pair + "` maps two DIFFERENT source values of `"@ + table + "."@ + column
            + "` to the same (value, residual) — at most one could be recovered; the run is aborted (row "@ + value_debug(pk) + ")"@,
    )
}

/// The residual that was extracted, if one was asked for.
pub open spec fn kept_bits(r: Option<std::result::Result<Cell, Error>>) -> Option<Seq<u8>> {
    match r {
        Some(Ok(c)) => Some(c.bits@),
        _ => None,
    }
}

/// Why a row aborts the run: the forward function refuses it, the result does
/// not fit the column, the residual cannot be extracted, or another source
/// value has the same image.
pub open spec fn row_fault(
    pair: Seq<char>,
    table: Seq<char>,
    column: Seq<char>,
    col_type: ColumnType,
    pk: ValueModel,
    x: Cell,
    y: std::result::Result<Cell, Error>,
    r: Option<std::result::Result<Cell, Error>>,
    seen: Map<Seq<u8>, Seq<u8>>,
) -> Option<Fault> {
    match y {
        Err(e) => Some(forward_fault(pair, table, column, pk, x.value.model(), e@)),
        Ok(y) => if misfits(col_type, y.value.model()) {
            Some(type_fault(pair, table, column, col_type, x.value.model(), y.value.model()))
        } else {
            match r {
                Some(Err(e)) => Some(rex_fault(pair, pk, x.value.model(), e@)),
                _ => {
                    let k = image_key(y.bits@, kept_bits(r));
                    if seen.dom().contains(k) && seen[k] != x.bits@ {
                        Some(collision_fault(pair, table, column, pk))
                    } else {
                        None
                    }
                },
            }
        },
    }
}

/// The error for a row that the pair's forward function refuses: the whole run
/// is aborted.
pub fn forward_refused(pair: &str, table: &str, column: &str, pk: &Value, x: &Value, e: &Error) -> (r: Error)
    ensures
        r@ == forward_fault(pair@, table@, column@, pk.model(), x.model(), e@),
{
    let mut m = quoted_in("`", pair, "` refuses row ");
    push_value_debug(&mut m, pk);
    m.append(" of `");
    m.append(table);
    m.append(".");
    m.append(column);
    m.append("` (value ");
    push_value_debug(&mut m, x);
    m.append(": ");
    let t = e.message();
    m.append(t.as_str());
    m.append("); the run is aborted — a partially transformed column is worse than none");
    Error::Unsupported(m)
}

/// The error for a row whose residual cannot be extracted.
pub fn rex_refused(pair: &str, pk: &Value, x: &Value, e: &Error) -> (r: Error)
    ensures
        r@ == rex_fault(pair@, pk.model(), x.model(), e@),
{
    let mut m = quoted_in("`", pair, "`'s rex refuses row ");
    push_value_debug(&mut m, pk);
    m.append(" (value ");
    push_value_debug(&mut m, x);
    m.append(": ");
    let t = e.message();
    m.append(t.as_str());
    m.append("); the run is aborted");
    Error::Unsupported(m)
}

/// A transformed value must fit the column.
pub fn type_gate(pair: &str, table: &str, column: &str, col_type: ColumnType, x: &Value, y: &Value) -> (r: Result<()>)
    ensures
        match r {
            Ok(()) => !misfits(col_type, y.model()),
            Err(e) => misfits(col_type, y.model()) && e@ == type_fault(pair@, table@, column@, col_type, x.model(), y.model()),
        },
{
    if let Some(yt) = y.column_type() {
        if col_type != ColumnType::Any && yt != col_type {
            let mut m = quoted_in("`", pair, "` maps ");
            push_value_debug(&mut m, x);
            m.append(" to ");
            push_value_debug(&mut m, y);
            m.append(", which does not fit `");
            m.append(table);
            m.append(".");
            m.append(column);
            m.append("` (declared ");
            m.append(col_type.name());
            m.append("); a type-changing pair needs an `any` column");
            return Err(Error::Unsupported(m));
        }
    }
    Ok(())
}

/// A run in progress.
pub struct ApplyRun {
    run_id: i64,
    source: CanonChain,
    output: CanonChain,
    back: CanonChain,
    seen: SeenImages,
    capped: bool,
    has_rex: bool,
    rows: u64,
    images: Ghost<Seq<Seq<u8>>>,
}

impl ApplyRun {
    /// The number of the run.
    pub closed spec fn id(&self) -> i64 {
        self.run_id
    }

    /// The source values so far.
    pub closed spec fn sources(&self) -> Seq<Seq<u8>> {
        self.source.view()
    }

    /// The transformed values so far.
    pub closed spec fn outputs(&self) -> Seq<Seq<u8>> {
        self.output.view()
    }

    /// The inverted values read back so far.
    pub closed spec fn inverted(&self) -> Seq<Seq<u8>> {
        self.back.view()
    }

    /// The image keys so far.
    pub closed spec fn images(&self) -> Seq<Seq<u8>> {
        self.images@
    }

    /// The remembered sources by image key.
    pub closed spec fn remembered(&self) -> Map<Seq<u8>, Seq<u8>> {
        self.seen.view()
    }

    /// The diagnostic stopped growing.
    pub closed spec fn is_capped(&self) -> bool {
        self.capped
    }

    /// The rows so far.
    pub closed spec fn row_count(&self) -> nat {
        self.rows as nat
    }

    /// The pair has a residual function.
    pub closed spec fn with_rex(&self) -> bool {
        self.has_rex
    }

    /// The residuals so far: one for every row, or none at all.
    pub open spec fn residual_count(&self) -> nat {
        if self.with_rex() { self.row_count() } else { 0 }
    }

    /// The chains hold what was pushed; what is remembered of an image is the
    /// source that has it; unless capped, every image is remembered.
    pub closed spec fn wf(&self) -> bool {
        &&& self.source.wf()
        &&& self.output.wf()
        &&& self.back.wf()
        &&& self.seen.wf()
        &&& self.images@.len() == self.source.view().len()
        &&& self.output.view().len() == self.source.view().len()
        &&& self.rows == self.source.view().len()
        &&& self.seen.view().dom().len() <= COLLISION_DIAG_CAP
        &&& self.capped ==> self.seen.view().dom().len() == COLLISION_DIAG_CAP
        &&& forall|i: int| 0 <= i < self.images@.len() ==> {
            let k = #[trigger] self.images@[i];
            &&& self.seen.view().dom().contains(k) ==> self.seen.view()[k] == self.source.view()[i]
            &&& !self.capped ==> self.seen.view().dom().contains(k)
        }
    }

    /// There is one source value for every row.
    pub proof fn lemma_rows(self)
        requires
            self.wf(),
        ensures
            self.row_count() == self.sources().len(),
            self.row_count() == self.outputs().len(),
    {
    }

    /// Begin a run.
    pub fn begin(run_id: i64, has_rex: bool) -> (r: ApplyRun)
        ensures
            r.wf(),
            r.id() == run_id,
            r.with_rex() == has_rex,
            r.sources().len() == 0,
            r.outputs().len() == 0,
            r.inverted().len() == 0,
            r.images().len() == 0,
            r.remembered() == Map::<Seq<u8>, Seq<u8>>::empty(),
            !r.is_capped(),
            r.row_count() == 0,
    {
        ApplyRun {
            run_id,
            source: CanonChain::new(),
            output: CanonChain::new(),
            back: CanonChain::new(),
            seen: SeenImages::new(),
            capped: false,
            has_rex,
            rows: 0,
            images: Ghost(Seq::empty()),
        }
    }

    /// Take one row: its key, its source value, what the forward function made
    /// of it, and what the residual function did where the pair has one. Gives
    /// back the value and the residual to store. A collision is a different
    /// source on the same image; the same source may come again.
    pub fn note_row(
        &mut self,
        pair: &str,
        table: &str,
        column: &str,
        col_type: ColumnType,
        pk: &Value,
        x: &Cell,
        y: Result<Cell>,
        r: Option<Result<Cell>>,
    ) -> (res: Result<(Cell, Option<Cell>)>)
        requires
            old(self).wf(),
            old(self).row_count() < u64::MAX,
            r is Some <==> old(self).with_rex(),
        ensures
            final(self).wf(),
            final(self).id() == old(self).id(),
            final(self).with_rex() == old(self).with_rex(),
            final(self).inverted() == old(self).inverted(),
            match row_fault(pair@, table@, column@, col_type, pk.model(), *x, y, r, old(self).remembered()) {
                Some(f) => res is Err && res->Err_0@ == f && *final(self) == *old(self),
                None => {
                    let k = image_key(y->Ok_0.bits@, kept_bits(r));
                    let seen = old(self).remembered();
                    &&& res is Ok
                    &&& res->Ok_0.0 == y->Ok_0
                    &&& res->Ok_0.1 == (if old(self).with_rex() { Some(r->Some_0->Ok_0) } else { None })
                    &&& final(self).sources() == old(self).sources().push(x.bits@)
                    &&& final(self).outputs() == old(self).outputs().push(y->Ok_0.bits@)
                    &&& final(self).images() == old(self).images().push(k)
                    &&& final(self).row_count() == old(self).row_count() + 1
                    &&& final(self).remembered() == (if !seen.dom().contains(k) && seen.dom().len() < COLLISION_DIAG_CAP {
                        seen.insert(k, x.bits@)
                    } else {
                        seen
                    })
                    &&& final(self).is_capped() == (old(self).is_capped() || (!seen.dom().contains(k) && seen.dom().len() >= COLLISION_DIAG_CAP))
                },
            },
    {
        let y = match y {
            Ok(c) => c,
            Err(e) => {
                return Err(forward_refused(pair, table, column, pk, &x.value, &e));
            },
        };
        if let Err(e) = type_gate(pair, table, column, col_type, &x.value, &y.value) {
            return Err(e);
        }
        let r: Option<Cell> = match r {
            None => None,
            Some(Ok(c)) => Some(c),
            Some(Err(e)) => {
                return Err(rex_refused(pair, pk, &x.value, &e));
            },
        };
        let ghost kept = cell_bits(r);
        let mut c = CanonChain::new();
        c.push(y.bits.as_slice());
        if let Some(r) = &r {
            c.push(r.bits.as_slice());
        }
        let key = c.digest();
        let ghost k = image_key(y.bits@, kept);
        proof {
            assert(c.view() =~= image_values(y.bits@, kept));
            assert(key@ == k);
        }
        let ghost before = *self;
        match self.seen.differs(key.as_slice(), x.bits.as_slice()) {
            Some(true) => {
                let mut m = quoted_in("`", pair, "` maps two DIFFERENT source values of `");
                m.append(table);
                m.append(".");
                m.append(column);
                m.append(
                    "` to the same (value, residual) — at most one could be recovered; the run is aborted (row ",
                );
                push_value_debug(&mut m, pk);
                m.append(")");
                return Err(Error::Unsupported(m));
            },
            Some(false) => {},
            None => {
                if self.seen.len() < COLLISION_DIAG_CAP {
                    self.seen.insert(key.as_slice(), x.bits.as_slice());
                } else {
                    self.capped = true;
                }
            },
        }
        self.source.push(x.bits.as_slice());
        self.output.push(y.bits.as_slice());
        self.rows = self.rows + 1;
        proof {
            let more = before.images@.push(k);
            self.images = Ghost(more);
            assert forall|i: int| 0 <= i < more.len() implies {
                let q = #[trigger] more[i];
                &&& self.seen.view().dom().contains(q) ==> self.seen.view()[q] == self.source.view()[i]
                &&& !self.capped ==> self.seen.view().dom().contains(q)
            } by {
                if i < before.images@.len() {
                    assert(more[i] == before.images@[i]);
                    assert(self.source.view()[i] == before.source.view()[i]);
                }
            }
        }
        Ok((y, r))
    }

    /// Take one inverted value of the verification pass.
    pub fn note_inverted(&mut self, x: &[u8])
        requires
            old(self).wf(),
        ensures
            final(self).wf(),
            final(self).id() == old(self).id(),
            final(self).inverted() == old(self).inverted().push(x@),
            final(self).sources() == old(self).sources(),
            final(self).outputs() == old(self).outputs(),
            final(self).images() == old(self).images(),
            final(self).remembered() == old(self).remembered(),
            final(self).is_capped() == old(self).is_capped(),
            final(self).row_count() == old(self).row_count(),
            final(self).with_rex() == old(self).with_rex(),
    {
        self.back.push(x);
    }

    /// The error for a residual that is not there inside the very transaction
    /// that wrote it.
    pub fn residual_missing(pk: &Value) -> (e: Error)
        ensures
            e@ == Fault::Corrupt(
                "verification: residual row missing for "@ + value_debug(pk.model()) + " inside the writing transaction"@,
            ),
    {
        let mut m = String::from_str("verification: residual row missing for ");
        push_value_debug(&mut m, pk);
        m.append(" inside the writing transaction");
        Error::Corrupt(m)
    }

    /// End the run: the inverted stream must hash like the source. Gives the
    /// report and the lineage row to insert before the commit.
    pub fn finish(
        self,
        pair: &str,
        forward_hash: &str,
        rex_hash: &str,
        inverse_hash: &str,
        table: &str,
        column: &str,
        residual_hash: String,
    ) -> (res: Result<(RretlReport, LineageRow)>)
        requires
            self.wf(),
            self.row_count() <= i64::MAX,
        ensures
            ({
                let source = stream_hash(self.sources());
                let back = stream_hash(self.inverted());
                match res {
                    Ok((report, row)) => {
                        &&& back == source
                        &&& report.run_id == self.id() && report.rows == self.row_count() && report.residuals == self.residual_count()
                        &&& row.run_id == self.id() && row.lens@ == pair@ && row.forward_hash@ == forward_hash@
                        &&& row.rex_hash@ == rex_hash@ && row.inverse_hash@ == inverse_hash@
                        &&& row.table@ == table@ && row.column@ == column@
                        &&& row.source_hash@ == source
                        &&& row.output_hash@ == stream_hash(self.outputs())
                        &&& row.residual_hash@ == residual_hash@
                        &&& row.rows == self.row_count()
                        &&& row.outcome@ == "applied"@
                        &&& row.error@.len() == 0
                    },
                    Err(e) => back != source && e@ == Fault::Corrupt(
                        "total verification FAILED: inverse of the transformed `"@ + table@ + "."@ + column@
                            + "` does not reproduce the source (run "@ + dec_int(self.id() as int) + ")"@ + (if self.is_capped() {
                            " (the collision diagnostic was capped on this table; a many-to-one image is one possible cause)"@
                        } else {
                            ""@
                        }) + "; the transaction is rolled back and the column is untouched"@,
                    ),
                }
            }),
    {
        let ApplyRun { run_id, source, output, back, seen, capped, has_rex, rows, images } = self;
        let residuals: u64 = if has_rex {
            rows
        } else {
            0
        };
        let source_hash = source.hex();
        let output_hash = output.hex();
        let back_hash = back.hex();
        if !same_text(back_hash.as_str(), source_hash.as_str()) {
            let mut m = quoted_in("total verification FAILED: inverse of the transformed `", table, ".");
            m.append(column);
            m.append("` does not reproduce the source (run ");
            push_dec_int(&mut m, run_id);
            m.append(")");
            if capped {
                m.append(
                    " (the collision diagnostic was capped on this table; a many-to-one image is one possible cause)",
                );
            } else {
                m.append("");
            }
            m.append("; the transaction is rolled back and the column is untouched");
            return Err(Error::Corrupt(m));
        }
        Ok(
            (
                RretlReport { run_id, rows, residuals },
                LineageRow {
                    run_id,
                    lens: pair.to_owned(),
                    forward_hash: forward_hash.to_owned(),
                    rex_hash: rex_hash.to_owned(),
                    inverse_hash: inverse_hash.to_owned(),
                    table: table.to_owned(),
                    column: column.to_owned(),
                    source_hash,
                    output_hash,
                    residual_hash,
                    rows: rows as i64,
                    outcome: "applied",
                    error: String::new(),
                },
            ),
        )
    }
}

/// Unless the diagnostic was capped, two rows of a run with the same image
/// came from the same source value.
pub proof fn law_apply_images_recoverable(run: ApplyRun, i: int, j: int)
    requires
        run.wf(),
        !run.is_capped(),
        0 <= i < run.images().len(),
        0 <= j < run.images().len(),
        run.images()[i] == run.images()[j],
    ensures
        run.sources()[i] == run.sources()[j],
{
    assert(run.images@[i] == run.images@[j]);
}

/// When the verification passes, the inverted stream is the source stream, or
/// the two are a collision of the hash function.
pub proof fn law_verified_or_collision(source: Seq<Seq<u8>>, back: Seq<Seq<u8>>)
    requires
        stream_hash(back) == stream_hash(source),
        forall|i: int| 0 <= i < source.len() ==> (#[trigger] source[i]).len() <= u64::MAX,
        forall|i: int| 0 <= i < back.len() ==> (#[trigger] back[i]).len() <= u64::MAX,
    ensures
        back == source || (framed_all(back) != framed_all(source) && blake3_digest(framed_all(back)) == blake3_digest(
            framed_all(source),
        )),
{
    let (p, q) = (blake3_digest(framed_all(back)), blake3_digest(framed_all(source)));
    crate::text::lemma_parse_hex(p);
    crate::text::lemma_parse_hex(q);
    if framed_all(back) == framed_all(source) {
        law_chain_framing_injective(back, source);
    }
}

/// A row is transformed exactly where nothing is lost by it: the pair gives it
/// a value that may stand in the column, gives it a residual where it keeps
/// any, and no other source value was seen to give the same of both.
pub proof fn law_row_is_taken_only_if_recoverable(
    pair: Seq<char>,
    table: Seq<char>,
    column: Seq<char>,
    col_type: ColumnType,
    pk: ValueModel,
    x: Cell,
    y: std::result::Result<Cell, Error>,
    r: Option<std::result::Result<Cell, Error>>,
    seen: Map<Seq<u8>, Seq<u8>>,
)
    ensures
        row_fault(pair, table, column, col_type, pk, x, y, r, seen) is None <==> {
            &&& y is Ok
            &&& match y->Ok_0.value.model() {
                ValueModel::Null => true,
                ValueModel::List(_) => true,
                ValueModel::Bool(_) => col_type == ColumnType::Bool || col_type == ColumnType::Any,
                ValueModel::Int(_) => col_type == ColumnType::Int64 || col_type == ColumnType::Any,
                ValueModel::Float { bits: _, shown: _ } => col_type == ColumnType::Float64 || col_type == ColumnType::Any,
                ValueModel::Text(_) => col_type == ColumnType::Text || col_type == ColumnType::Any,
                ValueModel::Blob(_) => col_type == ColumnType::Blob || col_type == ColumnType::Any,
                ValueModel::Timestamp(_) => col_type == ColumnType::Timestamp || col_type == ColumnType::Any,
            }
            &&& r is Some ==> r->Some_0 is Ok
            &&& ({
                let kept = if r is Some { Some(r->Some_0->Ok_0.bits@) } else { None };
                let k = image_key(y->Ok_0.bits@, kept);
                seen.dom().contains(k) ==> seen[k] == x.bits@
            })
        },
{
}

/// An image tells the value and the residual: the images of two rows are the
/// same only where both are, or where the hash function collides.
pub proof fn law_images_tell_rows_apart(y: Seq<u8>, r: Option<Seq<u8>>, z: Seq<u8>, s: Option<Seq<u8>>)
    requires
        image_key(y, r) == image_key(z, s),
        y.len() <= u64::MAX,
        z.len() <= u64::MAX,
        r is Some ==> r->Some_0.len() <= u64::MAX,
        s is Some ==> s->Some_0.len() <= u64::MAX,
    ensures
        (y == z && r == s) || exists|a: Seq<u8>, b: Seq<u8>| a != b && #[trigger] blake3_digest(a) == #[trigger] blake3_digest(b),
{
    let (a, b) = (image_values(y, r), image_values(z, s));
    if framed_all(a) == framed_all(b) {
        crate::hash::law_chain_framing_injective(a, b);
        assert(a[0] == y && b[0] == z);
        if r is Some {
            assert(a[1] == r->Some_0);
        }
        if s is Some {
            assert(b[1] == s->Some_0);
        }
    } else {
        assert(blake3_digest(framed_all(a)) == blake3_digest(framed_all(b)));
    }
}

} // verus!
