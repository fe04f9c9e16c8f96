//! Carrying one column of a row across a lens pair. The functions of a pair
//! are run by the interpreter; what their answers mean is decided here.

use vstd::prelude::*;
use vstd::string::StringExecFns;
use crate::bytes::same_bytes;
use crate::error::{fault_text, Error, Fault, Result};
use crate::rretl::Cell;
use crate::text::quoted_in;
use crate::value::{push_value_debug, value_debug, Value, ValueModel};

verus! {

/// What a pair promises: nothing comes back, everything comes back, or
/// everything comes back with the residual.
#[derive(Debug, Clone, Copy, PartialEq, Eq, Structural)]
pub enum LensClass {
    Lossy,
    Bijective,
    Residual,
}

/// The column being carried: table and column on both sides, and the row.
pub struct ColumnCtx<'a> {
    pub src: &'a str,
    pub dst: &'a str,
    pub dst_col: &'a str,
    pub key: &'a Value,
}

/// Where the carrying of a target value to the source stands.
pub enum Carry {
    /// Waiting for `forward(x)` of the current source value.
    ForwardOfSource,
    /// Waiting for `inverse(y)`.
    Inverse,
    /// Waiting for `rex(x)` of the current source value.
    RexOfSource,
    /// Waiting for `inverse(y, r)`.
    InverseWith(Cell),
    /// Waiting for `forward(x')` of the inverted value.
    ForwardOfInverse { x: Cell, rex: Option<Cell> },
    /// Waiting for `rex(x')` of the inverted value.
    RexOfInverse { x: Cell, r: Cell },
    /// The source keeps its value.
    Keep,
    /// The source takes the target value as it is.
    Copy,
    /// The source takes this value.
    Take(Cell),
}

/// How carrying begins, by the class of the pair.
pub fn begin_carry(class: Option<LensClass>) -> (c: Carry)
    ensures
        c == (match class {
            None => Carry::Copy,
            Some(LensClass::Lossy) => Carry::ForwardOfSource,
            Some(LensClass::Bijective) => Carry::Inverse,
            Some(LensClass::Residual) => Carry::RexOfSource,
        }),
{
    match class {
        None => Carry::Copy,
        Some(LensClass::Lossy) => Carry::ForwardOfSource,
        Some(LensClass::Bijective) => Carry::Inverse,
        Some(LensClass::Residual) => Carry::RexOfSource,
    }
}

pub open spec fn inverse_refused(dst: Seq<char>, col: Seq<char>, key: ValueModel, y: ValueModel, f: Fault) -> Fault {
    Fault::Unsupported(
        "map sync: inverse refuses `"@ + dst + "`.`"@ + col + "` value "@ + value_debug(y) + " (row "@ + value_debug(key)
            + "): "@ + fault_text(f),
    )
}

pub open spec fn lossy_edit(src: Seq<char>, dst: Seq<char>, col: Seq<char>, key: ValueModel) -> Fault {
    Fault::Unsupported(
        "map sync: `"@ + dst + "`.`"@ + col + "` (row "@ + value_debug(key)
            + ") was edited on the target side, but its pair is LOSSY — the edit has no meaning on `"@ + src
            + "`; revert the target edit or change the pair"@,
    )
}

pub open spec fn outside_image(dst: Seq<char>, col: Seq<char>, key: ValueModel, y: ValueModel, with_rex: bool, fwd: ValueModel) -> Fault {
    Fault::Unsupported(
        "map sync: edit "@ + value_debug(y) + " on `"@ + dst + "`.`"@ + col + "` (row "@ + value_debug(key)
            + ") is outside the pair's image — forward("@ + (if with_rex { "inverse(y, rex(x))"@ } else { "inverse(y)"@ }) + ") = "@
            + value_debug(fwd),
    )
}

pub open spec fn residual_lost(dst: Seq<char>, col: Seq<char>, key: ValueModel, y: ValueModel, r2: ValueModel, r: ValueModel) -> Fault {
    Fault::Unsupported(
        "map sync: the residual does not survive the edit "@ + value_debug(y) + " on `"@ + dst + "`.`"@ + col + "` (row "@
            + value_debug(key) + ") — rex(x') = "@ + value_debug(r2) + ", rex(x) = "@ + value_debug(r),
    )
}

/// How carrying the target value `y` goes on with the answer of the function
/// that was waited for. Nothing is waited for at the end.
pub open spec fn carries(ctx: ColumnCtx, y: Cell, state: Carry, answer: std::result::Result<Cell, Error>, next: std::result::Result<Carry, Error>) -> bool {
    let (src, dst, col, key, yv) = (ctx.src@, ctx.dst@, ctx.dst_col@, ctx.key.model(), y.value.model());
    match (state, answer) {
        (Carry::ForwardOfSource, Ok(fwd)) => if fwd.bits@ == y.bits@ {
            next == Ok::<Carry, Error>(Carry::Keep)
        } else {
            next is Err && next->Err_0@ == lossy_edit(src, dst, col, key)
        },
        (Carry::Inverse, Ok(x)) => next == Ok::<Carry, Error>(Carry::ForwardOfInverse { x, rex: None }),
        (Carry::Inverse, Err(e)) => next is Err && next->Err_0@ == inverse_refused(dst, col, key, yv, e@),
        (Carry::RexOfSource, Ok(r)) => next == Ok::<Carry, Error>(Carry::InverseWith(r)),
        (Carry::InverseWith(r), Ok(x)) => next == Ok::<Carry, Error>(Carry::ForwardOfInverse { x, rex: Some(r) }),
        (Carry::InverseWith(_), Err(e)) => next is Err && next->Err_0@ == inverse_refused(dst, col, key, yv, e@),
        (Carry::ForwardOfInverse { x, rex }, Ok(fwd)) => if fwd.bits@ != y.bits@ {
            next is Err && next->Err_0@ == outside_image(dst, col, key, yv, rex is Some, fwd.value.model())
        } else {
            match rex {
                None => next == Ok::<Carry, Error>(Carry::Take(x)),
                Some(r) => next == Ok::<Carry, Error>(Carry::RexOfInverse { x, r }),
            }
        },
        (Carry::RexOfInverse { x, r }, Ok(r2)) => if r2.bits@ != r.bits@ {
            next is Err && next->Err_0@ == residual_lost(dst, col, key, yv, r2.value.model(), r.value.model())
        } else {
            next == Ok::<Carry, Error>(Carry::Take(x))
        },
        (Carry::ForwardOfSource, Err(e)) => next == Err::<Carry, Error>(e),
        (Carry::RexOfSource, Err(e)) => next == Err::<Carry, Error>(e),
        (Carry::ForwardOfInverse { x: _, rex: _ }, Err(e)) => next == Err::<Carry, Error>(e),
        (Carry::RexOfInverse { x: _, r: _ }, Err(e)) => next == Err::<Carry, Error>(e),
        (done, _) => next == Ok::<Carry, Error>(done),
    }
}

fn place(m: &mut String, ctx: &ColumnCtx)
    ensures
        final(m)@ == old(m)@ + ctx.dst@ + "`.`"@ + ctx.dst_col@,
{
    m.append(ctx.dst);
    m.append("`.`");
    m.append(ctx.dst_col);
}

fn refuse_inverse(ctx: &ColumnCtx, y: &Cell, e: &Error) -> (r: Error)
    ensures
        r@ == inverse_refused(ctx.dst@, ctx.dst_col@, ctx.key.model(), y.value.model(), e@),
{
    let mut m = String::from_str("map sync: inverse refuses `");
    place(&mut m, ctx);
    m.append("` value ");
    push_value_debug(&mut m, &y.value);
    m.append(" (row ");
    push_value_debug(&mut m, ctx.key);
    m.append("): ");
    let t = e.message();
    m.append(t.as_str());
    Error::Unsupported(m)
}

/// Carry one target value to the source, one answer at a time. An edit that
/// the pair cannot carry back is refused by name.
pub fn inverse_all(ctx: &ColumnCtx, y: &Cell, state: Carry, answer: Result<Cell>) -> (next: Result<Carry>)
    ensures
        carries(*ctx, *y, state, answer, next),
{
    match (state, answer) {
        (Carry::ForwardOfSource, Ok(fwd)) => {
            if same_bytes(fwd.bits.as_slice(), y.bits.as_slice()) {
                return Ok(Carry::Keep);
            }
            let mut m = String::from_str("map sync: `");
            place(&mut m, ctx);
            m.append("` (row ");
            push_value_debug(&mut m, ctx.key);
            m.append(") was edited on the target side, but its pair is LOSSY — the edit has no meaning on `");
            m.append(ctx.src);
            m.append("`; revert the target edit or change the pair");
            Err(Error::Unsupported(m))
        },
        (Carry::Inverse, Ok(x)) => Ok(Carry::ForwardOfInverse { x, rex: None }),
        (Carry::Inverse, Err(e)) => Err(refuse_inverse(ctx, y, &e)),
        (Carry::RexOfSource, Ok(r)) => Ok(Carry::InverseWith(r)),
        (Carry::InverseWith(r), Ok(x)) => Ok(Carry::ForwardOfInverse { x, rex: Some(r) }),
        (Carry::InverseWith(_), Err(e)) => Err(refuse_inverse(ctx, y, &e)),
        (Carry::ForwardOfInverse { x, rex }, Ok(fwd)) => {
            if !same_bytes(fwd.bits.as_slice(), y.bits.as_slice()) {
                let mut m = String::from_str("map sync: edit ");
                push_value_debug(&mut m, &y.value);
                m.append(" on `");
                place(&mut m, ctx);
                m.append("` (row ");
                push_value_debug(&mut m, ctx.key);
                m.append(") is outside the pair's image — forward(");
                if rex.is_some() {
                    m.append("inverse(y, rex(x))");
                } else {
                    m.append("inverse(y)");
                }
                m.append(") = ");
                push_value_debug(&mut m, &fwd.value);
                return Err(Error::Unsupported(m));
            }
            match rex {
                None => Ok(Carry::Take(x)),
                Some(r) => Ok(Carry::RexOfInverse { x, r }),
            }
        },
        (Carry::RexOfInverse { x, r }, Ok(r2)) => {
            if !same_bytes(r2.bits.as_slice(), r.bits.as_slice()) {
                let mut m = String::from_str("map sync: the residual does not survive the edit ");
                push_value_debug(&mut m, &y.value);
                m.append(" on `");
                place(&mut m, ctx);
                m.append("` (row ");
                push_value_debug(&mut m, ctx.key);
                m.append(") — rex(x') = ");
                push_value_debug(&mut m, &r2.value);
                m.append(", rex(x) = ");
                push_value_debug(&mut m, &r.value);
                return Err(Error::Unsupported(m));
            }
            Ok(Carry::Take(x))
        },
        (Carry::ForwardOfSource, Err(e)) => Err(e),
        (Carry::RexOfSource, Err(e)) => Err(e),
        (Carry::ForwardOfInverse { x: _, rex: _ }, Err(e)) => Err(e),
        (Carry::RexOfInverse { x: _, r: _ }, Err(e)) => Err(e),
        (done, _) => Ok(done),
    }
}

/// The error for a source value that the forward function refuses.
pub fn forward_all_refused(src: &str, col: &str, x: &Value, e: &Error) -> (r: Error)
    ensures
        r@ == Fault::Unsupported(
            "map sync: `"@ + src@ + "`.`"@ + col@ + "` value "@ + value_debug(x.model()) + " refused by the pair's forward: "@
                + fault_text(e@),
        ),
{
    let mut m = quoted_in("map sync: `", src, "`.`");
    m.append(col);
    m.append("` value ");
    push_value_debug(&mut m, x);
    m.append(" refused by the pair's forward: ");
    let t = e.message();
    m.append(t.as_str());
    Error::Unsupported(m)
}

/// The fault of a created value outside its pair's image.
pub open spec fn created_fault(name: Seq<char>, ctx: ColumnCtx, y: Cell) -> Fault {
    Fault::Unsupported(
        "map sync `"@ + name + "`: created row "@ + value_debug(ctx.key.model()) + " on `"@ + ctx.dst@ + "` has `"@ + ctx.dst_col@
            + "` = "@ + value_debug(y.value.model()) + ", outside its pair's image"@,
    )
}

/// A value of a row created on the target side must be in its pair's image.
pub fn created_value_gate(name: &str, ctx: &ColumnCtx, y: &Cell, fwd: &Cell) -> (r: Result<()>)
    ensures
        match r {
            Ok(()) => fwd.bits@ == y.bits@,
            Err(e) => fwd.bits@ != y.bits@ && e@ == created_fault(name@, *ctx, *y),
        },
{
    if same_bytes(fwd.bits.as_slice(), y.bits.as_slice()) {
        return Ok(());
    }
    let mut m = quoted_in("map sync `", name, "`: created row ");
    push_value_debug(&mut m, ctx.key);
    m.append(" on `");
    m.append(ctx.dst);
    m.append("` has `");
    m.append(ctx.dst_col);
    m.append("` = ");
    push_value_debug(&mut m, &y.value);
    m.append(", outside its pair's image");
    Err(Error::Unsupported(m))
}

/// A value that the source takes was checked: it came from the inverse, the
/// forward function gave the target value again, and for a residual pair the
/// residual survived. A lossy pair never changes the source.
pub proof fn law_taken_values_are_checked(ctx: ColumnCtx, y: Cell, state: Carry, answer: std::result::Result<Cell, Error>, next: std::result::Result<Carry, Error>)
    requires
        carries(ctx, y, state, answer, next),
        next matches Ok(Carry::Take(_)),
        !(state is Take),
    ensures
        answer is Ok,
        match state {
            Carry::ForwardOfInverse { x, rex } => rex is None && next == Ok::<Carry, Error>(Carry::Take(x)) && answer->Ok_0.bits@ == y.bits@,
            Carry::RexOfInverse { x, r } => next == Ok::<Carry, Error>(Carry::Take(x)) && answer->Ok_0.bits@ == r.bits@,
            _ => false,
        },
{
}

/// An edit that the pair can carry is carried: through a bijective pair, where
/// forward gives the edit again of what the inverse gave, that is what the
/// source gets.
pub proof fn law_bijective_edit_is_carried(
    ctx: ColumnCtx,
    y: Cell,
    x: Cell,
    fwd: Cell,
    first: std::result::Result<Carry, Error>,
    last: std::result::Result<Carry, Error>,
)
    requires
        carries(ctx, y, Carry::Inverse, Ok(x), first),
        first is Ok,
        carries(ctx, y, first->Ok_0, Ok(fwd), last),
    ensures
        first == Ok::<Carry, Error>(Carry::ForwardOfInverse { x, rex: None }),
        last == Ok::<Carry, Error>(Carry::Take(x)) <==> fwd.bits@ == y.bits@,
        last is Err <==> fwd.bits@ != y.bits@,
{
}

/// Through a pair with a residual, the inverse gets the source's own residual,
/// and what it gives is taken where forward gives the edit again and the
/// residual is still the same.
pub proof fn law_residual_edit_is_carried(
    ctx: ColumnCtx,
    y: Cell,
    r: Cell,
    x: Cell,
    fwd: Cell,
    again: Cell,
    s1: std::result::Result<Carry, Error>,
    s2: std::result::Result<Carry, Error>,
    s3: std::result::Result<Carry, Error>,
    s4: std::result::Result<Carry, Error>,
)
    requires
        carries(ctx, y, Carry::RexOfSource, Ok(r), s1),
        s1 is Ok,
        carries(ctx, y, s1->Ok_0, Ok(x), s2),
        s2 is Ok,
        carries(ctx, y, s2->Ok_0, Ok(fwd), s3),
        s3 is Ok ==> carries(ctx, y, s3->Ok_0, Ok(again), s4),
    ensures
        s1 == Ok::<Carry, Error>(Carry::InverseWith(r)),
        s3 is Ok <==> fwd.bits@ == y.bits@,
        s3 is Ok ==> (s4 == Ok::<Carry, Error>(Carry::Take(x)) <==> again.bits@ == r.bits@) && (s4 is Err <==> again.bits@ != r.bits@),
{
}

/// Through a lossy pair the source keeps its value, and only where the target
/// still shows it.
pub proof fn law_lossy_column_is_not_edited(ctx: ColumnCtx, y: Cell, fwd: Cell, next: std::result::Result<Carry, Error>)
    requires
        carries(ctx, y, Carry::ForwardOfSource, Ok(fwd), next),
    ensures
        next == Ok::<Carry, Error>(Carry::Keep) <==> fwd.bits@ == y.bits@,
        next is Err <==> fwd.bits@ != y.bits@,
{
}

/// What a pair refuses is never carried.
pub proof fn law_refused_edit_is_not_carried(
    ctx: ColumnCtx,
    y: Cell,
    state: Carry,
    e: Error,
    next: std::result::Result<Carry, Error>,
)
    requires
        carries(ctx, y, state, Err(e), next),
        !(state is Keep || state is Copy || state is Take),
    ensures
        next is Err,
{
}

} // verus!
