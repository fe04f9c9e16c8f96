//! Whole columns carried back to the source: a value can only be had once
//! every check of its pair has passed.

use vstd::prelude::*;
use crate::bytes::copy_bytes;
use crate::error::{Error, Result};
use crate::rretl::Cell;
use crate::rretl_map::lens::{begin_carry, carries, created_fault, created_value_gate, inverse_all, Carry, ColumnCtx, LensClass};
use crate::rretl_map::sync::row_bits;

verus! {

/// What the functions of a pair answered, by canonical bytes.
pub struct CarryAnswers {
    /// What the forward function gave.
    pub forward: Option<Seq<u8>>,
    /// The residual of the source value.
    pub rex: Option<Seq<u8>>,
    /// The residual of the inverted value.
    pub again: Option<Seq<u8>>,
}

/// The answers with the one that was waited for.
pub open spec fn noted(state: Carry, seen: CarryAnswers, answer: Seq<u8>) -> CarryAnswers {
    match state {
        Carry::ForwardOfSource => CarryAnswers { forward: Some(answer), ..seen },
        Carry::ForwardOfInverse { x: _, rex: _ } => CarryAnswers { forward: Some(answer), ..seen },
        Carry::RexOfSource => CarryAnswers { rex: Some(answer), ..seen },
        Carry::RexOfInverse { x: _, r: _ } => CarryAnswers { again: Some(answer), ..seen },
        _ => seen,
    }
}

/// The source may take `value` for the target value `y`, its own being `x`: a
/// copied column takes it as it is; a lossy pair keeps the source value, whose
/// image the target value still is; of any other pair the forward function
/// gives the target value again, and a residual survives.
pub open spec fn carried_soundly(class: Option<LensClass>, x: Seq<u8>, y: Seq<u8>, value: Seq<u8>, seen: CarryAnswers) -> bool {
    match class {
        None => value == y,
        Some(LensClass::Lossy) => value == x && seen.forward == Some(y),
        Some(LensClass::Bijective) => seen.forward == Some(y),
        Some(LensClass::Residual) => seen.forward == Some(y) && seen.rex is Some && seen.again == seen.rex,
    }
}

/// One column on its way back to the source.
pub struct ColumnCarry {
    class: Option<LensClass>,
    x: Cell,
    y: Cell,
    state: Carry,
    seen: Ghost<CarryAnswers>,
}

impl ColumnCarry {
    /// The class of the pair; without a pair the column is copied.
    pub closed spec fn kind(&self) -> Option<LensClass> {
        self.class
    }

    /// The source value.
    pub closed spec fn source(&self) -> Cell {
        self.x
    }

    /// The target value.
    pub closed spec fn target(&self) -> Cell {
        self.y
    }

    /// Where the carrying stands.
    pub closed spec fn at(&self) -> Carry {
        self.state
    }

    /// What was answered so far.
    pub closed spec fn answers(&self) -> CarryAnswers {
        self.seen@
    }

    /// Nothing is waited for any more.
    pub open spec fn done(&self) -> bool {
        self.at() is Keep || self.at() is Copy || self.at() is Take
    }

    /// The value that the source gets, once nothing is waited for.
    pub open spec fn value_bits(&self) -> Seq<u8> {
        match self.at() {
            Carry::Keep => self.source().bits@,
            Carry::Copy => self.target().bits@,
            Carry::Take(c) => c.bits@,
            _ => Seq::empty(),
        }
    }

    /// The state belongs to the class of the pair, and was reached by answers
    /// that passed.
    pub closed spec fn wf(&self) -> bool {
        let y = self.y.bits@;
        let seen = self.seen@;
        match self.state {
            Carry::Copy => self.class is None,
            Carry::ForwardOfSource => self.class == Some(LensClass::Lossy),
            Carry::Keep => self.class == Some(LensClass::Lossy) && seen.forward == Some(y),
            Carry::Inverse => self.class == Some(LensClass::Bijective),
            Carry::RexOfSource => self.class == Some(LensClass::Residual),
            Carry::InverseWith(r) => self.class == Some(LensClass::Residual) && seen.rex == Some(r.bits@),
            Carry::ForwardOfInverse { x: _, rex } => match rex {
                None => self.class == Some(LensClass::Bijective),
                Some(r) => self.class == Some(LensClass::Residual) && seen.rex == Some(r.bits@),
            },
            Carry::RexOfInverse { x: _, r } => self.class == Some(LensClass::Residual) && seen.rex == Some(r.bits@) && seen.forward == Some(y),
            Carry::Take(_) => match self.class {
                Some(LensClass::Bijective) => seen.forward == Some(y),
                Some(LensClass::Residual) => seen.forward == Some(y) && seen.rex is Some && seen.again == seen.rex,
                _ => false,
            },
        }
    }

    /// Begin to carry the target value `y`; the source has `x`.
    pub fn begin(class: Option<LensClass>, x: Cell, y: Cell) -> (c: ColumnCarry)
        ensures
            c.wf(),
            c.kind() == class,
            c.source() == x,
            c.target() == y,
            c.at() == (match class {
                None => Carry::Copy,
                Some(LensClass::Lossy) => Carry::ForwardOfSource,
                Some(LensClass::Bijective) => Carry::Inverse,
                Some(LensClass::Residual) => Carry::RexOfSource,
            }),
            c.answers() == (CarryAnswers { forward: None, rex: None, again: None }),
    {
        ColumnCarry { class, x, y, state: begin_carry(class), seen: Ghost(CarryAnswers { forward: None, rex: None, again: None }) }
    }

    /// What is waited for.
    pub fn state(&self) -> (s: &Carry)
        ensures
            *s == self.at(),
    {
        &self.state
    }

    /// Go on with the answer of the function that was waited for.
    pub fn on_answer(self, ctx: &ColumnCtx, answer: Result<Cell>) -> (r: Result<ColumnCarry>)
        requires
            self.wf(),
        ensures
            carries(
                *ctx,
                self.target(),
                self.at(),
                answer,
                match r {
                    Ok(c) => Ok::<Carry, Error>(c.at()),
                    Err(e) => Err::<Carry, Error>(e),
                },
            ),
            r matches Ok(c) ==> {
                &&& c.wf()
                &&& c.kind() == self.kind()
                &&& c.source() == self.source()
                &&& c.target() == self.target()
                &&& answer is Ok ==> c.answers() == noted(self.at(), self.answers(), answer->Ok_0.bits@)
            },
    {
        let ColumnCarry { class, x, y, state, seen } = self;
        let ghost seen_after = if answer is Ok { noted(state, seen@, answer->Ok_0.bits@) } else { seen@ };
        match inverse_all(ctx, &y, state, answer) {
            Err(e) => Err(e),
            Ok(next) => Ok(ColumnCarry { class, x, y, state: next, seen: Ghost(seen_after) }),
        }
    }

    /// The value that the source gets.
    pub fn value(&self) -> (v: &Cell)
        requires
            self.wf(),
            self.done(),
        ensures
            v.bits@ == self.value_bits(),
            match self.at() {
                Carry::Keep => *v == self.source(),
                Carry::Copy => *v == self.target(),
                Carry::Take(c) => *v == c,
                _ => false,
            },
    {
        match &self.state {
            Carry::Keep => &self.x,
            Carry::Take(c) => c,
            _ => &self.y,
        }
    }
}

/// A column that was carried to its end was carried soundly.
pub proof fn law_carried_value_is_sound(c: ColumnCarry)
    requires
        c.wf(),
        c.done(),
    ensures
        carried_soundly(c.kind(), c.source().bits@, c.target().bits@, c.value_bits(), c.answers()),
{
}

/// Every column of a row was carried to its end, from the source values `a`
/// and the target values `b`.
pub open spec fn row_carried(cols: Seq<ColumnCarry>, a: Seq<Seq<u8>>, b: Seq<Seq<u8>>) -> bool {
    &&& cols.len() == a.len()
    &&& cols.len() == b.len()
    &&& forall|i: int| 0 <= i < cols.len() ==> {
        &&& (#[trigger] cols[i]).wf()
        &&& cols[i].done()
        &&& cols[i].source().bits@ == a[i]
        &&& cols[i].target().bits@ == b[i]
    }
}

/// The values that the source gets.
pub open spec fn carried_values(cols: Seq<ColumnCarry>) -> Seq<Seq<u8>> {
    cols.map_values(|c: ColumnCarry| c.value_bits())
}

/// The values that the source gets.
pub(crate) fn values_of(cols: &Vec<ColumnCarry>) -> (r: Vec<Vec<u8>>)
    requires
        forall|i: int| 0 <= i < cols@.len() ==> (#[trigger] cols@[i]).wf() && cols@[i].done(),
    ensures
        row_bits(r@) == carried_values(cols@),
{
    let mut out: Vec<Vec<u8>> = Vec::new();
    let mut i: usize = 0;
    proof {
        assert(row_bits(out@) =~= carried_values(cols@).take(0));
    }
    while i < cols.len()
        invariant
            i <= cols@.len(),
            forall|j: int| 0 <= j < cols@.len() ==> (#[trigger] cols@[j]).wf() && cols@[j].done(),
            row_bits(out@) == carried_values(cols@).take(i as int),
        decreases cols@.len() - i,
    {
        let ghost before = row_bits(out@);
        let bits = copy_bytes(cols[i].value().bits.as_slice());
        out.push(bits);
        proof {
            assert(row_bits(out@) =~= before.push(bits@));
            assert(carried_values(cols@).take(i + 1) =~= carried_values(cols@).take(i as int).push(cols@[i as int].value_bits()));
        }
        i += 1;
    }
    proof {
        assert(carried_values(cols@).take(i as int) =~= carried_values(cols@));
    }
    out
}

// ------------------------------------------------------------- created rows

/// A value made for the source from a target value that was created there.
pub struct CreatedValue {
    x: Cell,
    y: Ghost<Seq<u8>>,
    image: Ghost<Seq<u8>>,
}

impl CreatedValue {
    /// The target value.
    pub closed spec fn target(&self) -> Seq<u8> {
        self.y@
    }

    /// The value that the source gets.
    pub closed spec fn value_bits(&self) -> Seq<u8> {
        self.x.bits@
    }

    /// What the forward function makes of it; without a pair, the value.
    pub closed spec fn image_bits(&self) -> Seq<u8> {
        self.image@
    }

    /// The target value is the image.
    pub closed spec fn wf(&self) -> bool {
        self.image@ == self.y@
    }

    /// The value of a column without a pair.
    pub fn copied(y: Cell) -> (v: CreatedValue)
        ensures
            v.wf(),
            v.target() == y.bits@,
            v.value_bits() == y.bits@,
            v.image_bits() == y.bits@,
    {
        let ghost bits = y.bits@;
        CreatedValue { x: y, y: Ghost(bits), image: Ghost(bits) }
    }

    /// The value `x` that the inverse gave, of which the forward function made
    /// `fwd`; it must be the target value again.
    pub fn inverted(name: &str, ctx: &ColumnCtx, y: &Cell, x: Cell, fwd: &Cell) -> (r: Result<CreatedValue>)
        ensures
            match r {
                Ok(v) => fwd.bits@ == y.bits@ && v.wf() && v.target() == y.bits@ && v.value_bits() == x.bits@ && v.image_bits() == fwd.bits@,
                Err(e) => fwd.bits@ != y.bits@ && e@ == created_fault(name@, *ctx, *y),
            },
    {
        match created_value_gate(name, ctx, y, fwd) {
            Err(e) => Err(e),
            Ok(()) => Ok(CreatedValue { x, y: Ghost(y.bits@), image: Ghost(fwd.bits@) }),
        }
    }

    /// The value that the source gets.
    pub fn value(&self) -> (v: &Cell)
        ensures
            v.bits@ == self.value_bits(),
    {
        &self.x
    }
}

/// Every value of a row was made from the target values `b`.
pub open spec fn row_created(vals: Seq<CreatedValue>, b: Seq<Seq<u8>>) -> bool {
    &&& vals.len() == b.len()
    &&& forall|i: int| 0 <= i < vals.len() ==> (#[trigger] vals[i]).wf() && vals[i].target() == b[i]
}

/// The values that the source gets.
pub open spec fn created_bits(vals: Seq<CreatedValue>) -> Seq<Seq<u8>> {
    vals.map_values(|v: CreatedValue| v.value_bits())
}

/// The values that the source gets.
pub(crate) fn created_values(vals: &Vec<CreatedValue>) -> (r: Vec<Vec<u8>>)
    ensures
        row_bits(r@) == created_bits(vals@),
{
    let mut out: Vec<Vec<u8>> = Vec::new();
    let mut i: usize = 0;
    proof {
        assert(row_bits(out@) =~= created_bits(vals@).take(0));
    }
    while i < vals.len()
        invariant
            i <= vals@.len(),
            row_bits(out@) == created_bits(vals@).take(i as int),
        decreases vals@.len() - i,
    {
        let ghost before = row_bits(out@);
        let bits = copy_bytes(vals[i].value().bits.as_slice());
        out.push(bits);
        proof {
            assert(row_bits(out@) =~= before.push(bits@));
            assert(created_bits(vals@).take(i + 1) =~= created_bits(vals@).take(i as int).push(vals@[i as int].value_bits()));
        }
        i += 1;
    }
    proof {
        assert(created_bits(vals@).take(i as int) =~= created_bits(vals@));
    }
    out
}

/// The target row of a created row is the image of the row that the source
/// gets.
pub proof fn law_created_row_is_image(vals: Seq<CreatedValue>, b: Seq<Seq<u8>>, i: int)
    requires
        row_created(vals, b),
        0 <= i < vals.len(),
    ensures
        vals[i].image_bits() == b[i],
{
}

} // verus!
