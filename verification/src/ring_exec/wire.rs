//! Results and errors in ring slots: a code and a message whose fields are
//! joined by one separator character.

use vstd::prelude::*;
use vstd::string::{StrSliceExecFns, StringExecFns};
use vstd::utf8::{decode_utf8, encode_utf8, valid_utf8};
use crate::bytes::copy_bytes;
use crate::error::{fault_text, Error, Fault, PlanHash, Result};
use crate::text::{chars_of, dec, hex, hex_value, lemma_parse_dec, lemma_parse_hex, parse_u64, parsed_u64, push_dec, push_hex, quoted_in, value_of_digit};
use crate::utf8::{lemma_text_round_trip, lossy_text, lossy_utf8};

verus! {

/// The separator between the fields of a message.
pub const SEP: char = '\u{1f}';

/// The code and message text of a fault.
pub open spec fn wire_text(f: Fault) -> (u32, Seq<char>) {
    match f {
        Fault::PrimaryKeyViolation { table } => (1, table),
        Fault::UniqueViolation { table, constraint } => (2, table + seq![SEP] + constraint),
        Fault::NotNullViolation { table, column } => (3, table + seq![SEP] + column),
        Fault::CheckViolation { table, column, expr } => (4, table + seq![SEP] + column + seq![SEP] + expr),
        Fault::TypeMismatch(m) => (5, m),
        Fault::WrongParamCount { expected, got } => (6, dec(expected as nat) + seq![SEP] + dec(got as nat)),
        Fault::UnknownPlan(h) => (7, hex(h)),
        Fault::PlanInvalidated => (8, Seq::empty()),
        Fault::DbFull => (9, Seq::empty()),
        Fault::Corrupt(m) => (10, m),
        _ => (255, fault_text(f)),
    }
}

fn joined(a: &str, b: &str) -> (r: String)
    ensures
        r@ == a@ + seq![SEP] + b@,
{
    proof {
        reveal_strlit("\u{1f}");
        assert("\u{1f}"@ =~= seq![SEP]);
    }
    quoted_in(a, "\u{1f}", b)
}

/// An error as a ring slot holds it.
pub fn encode_error(e: &Error) -> (r: (u32, Vec<u8>))
    ensures
        r.0 == wire_text(e@).0,
        r.1@ == encode_utf8(wire_text(e@).1),
{
    let (code, text): (u32, String) = match e {
        Error::PrimaryKeyViolation { table } => (1, table.clone()),
        Error::UniqueViolation { table, constraint } => (2, joined(table.as_str(), constraint.as_str())),
        Error::NotNullViolation { table, column } => (3, joined(table.as_str(), column.as_str())),
        Error::CheckViolation { table, column, expr } => {
            let head = joined(table.as_str(), column.as_str());
            (4, joined(head.as_str(), expr.as_str()))
        },
        Error::TypeMismatch(m) => (5, m.clone()),
        Error::WrongParamCount { expected, got } => {
            let mut a = String::new();
            push_dec(&mut a, *expected as u128);
            let mut b = String::new();
            push_dec(&mut b, *got as u128);
            proof {
                assert(a@ =~= dec(*expected as nat));
                assert(b@ =~= dec(*got as nat));
            }
            (6, joined(a.as_str(), b.as_str()))
        },
        Error::UnknownPlan(h) => {
            let mut a = String::new();
            push_hex(&mut a, h.0.as_slice());
            proof {
                assert(a@ =~= hex(h@));
            }
            (7, a)
        },
        Error::PlanInvalidated => (8, String::new()),
        Error::DbFull => (9, String::new()),
        Error::Corrupt(m) => (10, m.clone()),
        other => (255, other.message()),
    };
    (code, copy_bytes(text.as_str().as_bytes()))
}

/// The place of the first separator from `i` on, or the length.
pub open spec fn sep_from(t: Seq<char>, i: int) -> int
    decreases t.len() - i,
{
    if i >= t.len() {
        t.len() as int
    } else if t[i] == SEP {
        i
    } else {
        sep_from(t, i + 1)
    }
}

/// Field number `k` of the text from `i` on; empty where there is none.
pub open spec fn field_from(t: Seq<char>, i: int, k: nat) -> Seq<char>
    decreases k,
{
    let e = sep_from(t, i);
    if k == 0 {
        t.subrange(i, e)
    } else if e >= t.len() {
        Seq::empty()
    } else {
        field_from(t, e + 1, (k - 1) as nat)
    }
}

/// Field number `k` of a message.
pub open spec fn field(t: Seq<char>, k: nat) -> Seq<char> {
    field_from(t, 0, k)
}

/// The plan hash that a text names: 64 hexadecimal digits.
pub open spec fn parsed_hash(t: Seq<char>) -> Option<Seq<u8>> {
    if t.len() == 64 { hex_value(t) } else { None }
}

/// The fault that a code and message stand for.
pub open spec fn ring_fault(code: u32, t: Seq<char>) -> Fault {
    if code == 1 {
        Fault::PrimaryKeyViolation { table: field(t, 0) }
    } else if code == 2 {
        Fault::UniqueViolation { table: field(t, 0), constraint: field(t, 1) }
    } else if code == 3 {
        Fault::NotNullViolation { table: field(t, 0), column: field(t, 1) }
    } else if code == 4 {
        Fault::CheckViolation { table: field(t, 0), column: field(t, 1), expr: field(t, 2) }
    } else if code == 5 {
        Fault::TypeMismatch(t)
    } else if code == 6 {
        Fault::WrongParamCount {
            expected: match parsed_u64(field(t, 0)) {
                Some(n) => n as int,
                None => 0,
            },
            got: match parsed_u64(field(t, 1)) {
                Some(n) => n as int,
                None => 0,
            },
        }
    } else if code == 7 {
        match parsed_hash(t) {
            Some(h) => Fault::UnknownPlan(h),
            None => Fault::PlanInvalidated,
        }
    } else if code == 8 {
        Fault::PlanInvalidated
    } else if code == 9 {
        Fault::DbFull
    } else if code == 10 {
        Fault::Corrupt(t)
    } else {
        Fault::Internal("batched execution failed: "@ + t)
    }
}

proof fn lemma_sep_range(t: Seq<char>, i: int)
    requires
        0 <= i <= t.len(),
    ensures
        i <= sep_from(t, i) <= t.len(),
        forall|j: int| i <= j < sep_from(t, i) ==> t[j] != SEP,
        sep_from(t, i) < t.len() ==> t[sep_from(t, i)] == SEP,
    decreases t.len() - i,
{
    if i < t.len() && t[i] != SEP {
        lemma_sep_range(t, i + 1);
    }
}

fn next_sep(cs: &Vec<char>, from: usize) -> (e: usize)
    requires
        from <= cs@.len(),
    ensures
        e == sep_from(cs@, from as int),
        from <= e <= cs@.len(),
{
    let mut i: usize = from;
    while i < cs.len() && cs[i] != SEP
        invariant
            from <= i <= cs@.len(),
            sep_from(cs@, from as int) == sep_from(cs@, i as int),
        decreases cs@.len() - i,
    {
        i += 1;
    }
    i
}

fn take_field(msg: &str, k: usize) -> (r: String)
    ensures
        r@ == field(msg@, k as nat),
{
    let cs = chars_of(msg);
    let mut i: usize = 0;
    let mut left: usize = k;
    while left > 0
        invariant
            cs@ == msg@,
            i <= cs@.len(),
            field(msg@, k as nat) == field_from(msg@, i as int, left as nat),
        decreases left,
    {
        let e: usize = next_sep(&cs, i);
        if e >= cs.len() {
            return String::new();
        }
        i = e + 1;
        left -= 1;
    }
    let e: usize = next_sep(&cs, i);
    String::from_str(msg.substring_char(i, e))
}

fn take_number(msg: &str, k: usize) -> (r: u64)
    ensures
        r == (match parsed_u64(field(msg@, k as nat)) {
            Some(n) => n as int,
            None => 0,
        }),
{
    let f = take_field(msg, k);
    match parse_u64(f.as_str()) {
        Some(n) => n,
        None => 0,
    }
}

proof fn lemma_hex_value_prefix(t: Seq<char>, n: int)
    requires
        0 <= n <= t.len(),
        n % 2 == t.len() as int % 2,
        hex_value(t) is Some,
    ensures
        hex_value(t.take(n)) is Some,
    decreases t.len(),
{
    if n < t.len() {
        lemma_hex_value_prefix(t.take(t.len() - 2), n);
        assert(t.take(t.len() - 2).take(n) =~= t.take(n));
    } else {
        assert(t.take(n) =~= t);
    }
}

fn parse_hash(s: &str) -> (r: Option<PlanHash>)
    ensures
        match r {
            Some(h) => parsed_hash(s@) == Some(h@),
            None => parsed_hash(s@) is None,
        },
{
    let cs = chars_of(s);
    if cs.len() != 64 {
        return None;
    }
    let mut h: [u8; 32] = [0u8; 32];
    let mut i: usize = 0;
    proof {
        assert(s@.take(0) =~= Seq::<char>::empty());
        assert(h@.take(0) =~= Seq::<u8>::empty());
    }
    while i < 32
        invariant
            i <= 32,
            cs@ == s@,
            cs@.len() == 64,
            hex_value(s@.take(2 * i)) == Some(h@.take(i as int)),
        decreases 32 - i,
    {
        proof {
            let t = s@.take(2 * (i + 1));
            assert(t.take(t.len() - 2) =~= s@.take(2 * i));
            if hex_value(s@) is Some {
                lemma_hex_value_prefix(s@, 2 * (i + 1));
            }
        }
        let x: u8 = match value_of_digit(cs[2 * i]) {
            Some(x) => x,
            None => {
                return None;
            },
        };
        let y: u8 = match value_of_digit(cs[2 * i + 1]) {
            Some(y) => y,
            None => {
                return None;
            },
        };
        let ghost before = h@;
        h[i] = 16 * x + y;
        proof {
            assert(h@.take(i + 1) =~= before.take(i as int).push((16 * x + y) as u8));
        }
        i += 1;
    }
    proof {
        assert(s@.take(64) =~= s@);
        assert(h@.take(32) =~= h@);
    }
    Some(PlanHash(h))
}

fn fault_of(code: u32, msg: String) -> (e: Error)
    ensures
        e@ == ring_fault(code, msg@),
{
    let m = msg.as_str();
    match code {
        1 => Error::PrimaryKeyViolation { table: take_field(m, 0) },
        2 => Error::UniqueViolation { table: take_field(m, 0), constraint: take_field(m, 1) },
        3 => Error::NotNullViolation { table: take_field(m, 0), column: take_field(m, 1) },
        4 => Error::CheckViolation {
            table: take_field(m, 0),
            column: take_field(m, 1),
            expr: take_field(m, 2),
        },
        5 => Error::TypeMismatch(msg),
        6 => Error::WrongParamCount { expected: take_number(m, 0), got: take_number(m, 1) },
        7 => match parse_hash(m) {
            Some(h) => Error::UnknownPlan(h),
            None => Error::PlanInvalidated,
        },
        8 => Error::PlanInvalidated,
        9 => Error::DbFull,
        10 => Error::Corrupt(msg),
        _ => Error::Internal(String::from_str("batched execution failed: ").concat(m)),
    }
}

/// What a ring slot answers: the number of rows written, or the error that
/// its code and message stand for.
pub fn decode_ring_result(err_code: u32, affected: u64, err_msg: &[u8]) -> (r: Result<u64>)
    ensures
        match r {
            Ok(n) => err_code == 0 && n == affected,
            Err(e) => err_code != 0 && e@ == ring_fault(err_code, lossy_text(err_msg@)) && (valid_utf8(
                err_msg@,
            ) ==> e@ == ring_fault(err_code, decode_utf8(err_msg@))),
        },
{
    if err_code == 0 {
        return Ok(affected);
    }
    let msg = lossy_utf8(err_msg);
    Err(fault_of(err_code, msg))
}

// ---------------------------------------------------------------- laws

/// A text without the separator.
pub open spec fn sep_free(t: Seq<char>) -> bool {
    forall|i: int| 0 <= i < t.len() ==> t[i] != SEP
}

/// A fault that a ring slot carries whole: one with a code of its own, and
/// names without the separator.
pub open spec fn carried_whole(f: Fault) -> bool {
    match f {
        Fault::PrimaryKeyViolation { table } => sep_free(table),
        Fault::UniqueViolation { table, constraint } => sep_free(table) && sep_free(constraint),
        Fault::NotNullViolation { table, column } => sep_free(table) && sep_free(column),
        Fault::CheckViolation { table, column, expr } => sep_free(table) && sep_free(column) && sep_free(expr),
        Fault::TypeMismatch(_) => true,
        Fault::WrongParamCount { expected, got } => 0 <= expected <= u64::MAX && 0 <= got <= u64::MAX,
        Fault::UnknownPlan(h) => h.len() == 32,
        Fault::PlanInvalidated => true,
        Fault::DbFull => true,
        Fault::Corrupt(_) => true,
        _ => false,
    }
}

proof fn lemma_sep_at(t: Seq<char>, i: int, e: int)
    requires
        0 <= i <= e <= t.len(),
        forall|j: int| i <= j < e ==> t[j] != SEP,
        e == t.len() || t[e] == SEP,
    ensures
        sep_from(t, i) == e,
    decreases e - i,
{
    if i < e {
        lemma_sep_at(t, i + 1, e);
    }
}

proof fn lemma_one_field(a: Seq<char>)
    requires
        sep_free(a),
    ensures
        field(a, 0) == a,
{
    lemma_sep_at(a, 0, a.len() as int);
    assert(a.subrange(0, a.len() as int) =~= a);
}

proof fn lemma_two_fields(a: Seq<char>, b: Seq<char>)
    requires
        sep_free(a),
        sep_free(b),
    ensures
        field(a + seq![SEP] + b, 0) == a,
        field(a + seq![SEP] + b, 1) == b,
{
    let t = a + seq![SEP] + b;
    let n = a.len() as int;
    lemma_sep_at(t, 0, n);
    assert forall|j: int| n + 1 <= j < t.len() implies t[j] != SEP by {
        assert(t[j] == b[j - n - 1]);
    }
    lemma_sep_at(t, n + 1, t.len() as int);
    assert(t.subrange(0, n) =~= a);
    assert(t.subrange(n + 1, t.len() as int) =~= b);
    assert(field_from(t, n + 1, 0) == b);
}

proof fn lemma_three_fields(a: Seq<char>, b: Seq<char>, c: Seq<char>)
    requires
        sep_free(a),
        sep_free(b),
        sep_free(c),
    ensures
        field(a + seq![SEP] + b + seq![SEP] + c, 0) == a,
        field(a + seq![SEP] + b + seq![SEP] + c, 1) == b,
        field(a + seq![SEP] + b + seq![SEP] + c, 2) == c,
{
    let t = a + seq![SEP] + b + seq![SEP] + c;
    let n = a.len() as int;
    let m = n + 1 + b.len();
    assert forall|j: int| 0 <= j < n implies t[j] != SEP by {
        assert(t[j] == a[j]);
    }
    lemma_sep_at(t, 0, n);
    assert forall|j: int| n + 1 <= j < m implies t[j] != SEP by {
        assert(t[j] == b[j - n - 1]);
    }
    lemma_sep_at(t, n + 1, m);
    assert forall|j: int| m + 1 <= j < t.len() implies t[j] != SEP by {
        assert(t[j] == c[j - m - 1]);
    }
    lemma_sep_at(t, m + 1, t.len() as int);
    assert(t.subrange(0, n) =~= a);
    assert(t.subrange(n + 1, m) =~= b);
    assert(t.subrange(m + 1, t.len() as int) =~= c);
    assert(field_from(t, m + 1, 0) == c);
    assert(field_from(t, n + 1, 1) == c);
    assert(field_from(t, n + 1, 0) == b);
}

proof fn lemma_dec_sep_free(n: nat)
    ensures
        sep_free(dec(n)),
    decreases n,
{
    if n >= 10 {
        lemma_dec_sep_free(n / 10);
    }
}

/// An error that a slot carries whole comes out of it as it went in, the
/// bytes that stand for it being valid UTF-8.
pub proof fn law_ring_error_round_trip(f: Fault)
    requires
        carried_whole(f),
    ensures
        ({
            let (code, text) = wire_text(f);
            let bytes = encode_utf8(text);
            &&& code != 0
            &&& valid_utf8(bytes)
            &&& ring_fault(code, decode_utf8(bytes)) == f
        }),
{
    let (code, text) = wire_text(f);
    lemma_text_round_trip(text);
    match f {
        Fault::PrimaryKeyViolation { table } => lemma_one_field(table),
        Fault::UniqueViolation { table, constraint } => lemma_two_fields(table, constraint),
        Fault::NotNullViolation { table, column } => lemma_two_fields(table, column),
        Fault::CheckViolation { table, column, expr } => lemma_three_fields(table, column, expr),
        Fault::WrongParamCount { expected, got } => {
            let (a, b) = (dec(expected as nat), dec(got as nat));
            lemma_dec_sep_free(expected as nat);
            lemma_dec_sep_free(got as nat);
            lemma_two_fields(a, b);
            lemma_parse_dec(expected as nat);
            lemma_parse_dec(got as nat);
        },
        Fault::UnknownPlan(h) => lemma_parse_hex(h),
        _ => {},
    }
}

/// Different faults do not share a code, but for those that are carried as text
/// alone; success has a code of its own.
pub proof fn law_codes_tell_faults_apart(f: Fault, g: Fault)
    requires
        carried_whole(f),
        carried_whole(g),
        wire_text(f).0 == wire_text(g).0,
        wire_text(f).1 == wire_text(g).1,
    ensures
        f == g,
        wire_text(f).0 != 0,
{
    law_ring_error_round_trip(f);
    law_ring_error_round_trip(g);
}

/// A fault that a code does not stand for arrives as a failed execution that
/// tells its text.
pub proof fn law_other_faults_arrive_as_text(f: Fault)
    ensures
        ({
            let (code, text) = wire_text(f);
            code > 10 ==> (ring_fault(code, text) matches Fault::Internal(m) && exists|head: Seq<char>| m == #[trigger] (head + fault_text(f)))
        }),
        wire_text(f).0 != 0,
{
    if wire_text(f).0 > 10 {
        assert(ring_fault(255, fault_text(f)) == Fault::Internal("batched execution failed: "@ + fault_text(f)));
    }
}

} // verus!
