//! Text building with exact contracts: decimal and hexadecimal numerals and
//! concatenation, over `Seq<char>` as the model of a string.

use vstd::prelude::*;
use vstd::std_specs::iter::IteratorSpec;

verus! {

/// The character of one hexadecimal (or decimal) digit.
pub open spec fn digit(d: int) -> char {
    if d == 0 { '0' } else if d == 1 { '1' } else if d == 2 { '2' } else if d == 3 { '3' }
    else if d == 4 { '4' } else if d == 5 { '5' } else if d == 6 { '6' } else if d == 7 { '7' }
    else if d == 8 { '8' } else if d == 9 { '9' } else if d == 10 { 'a' } else if d == 11 { 'b' }
    else if d == 12 { 'c' } else if d == 13 { 'd' } else if d == 14 { 'e' } else { 'f' }
}

/// The decimal numeral of `n`, without leading zeros.
pub open spec fn dec(n: nat) -> Seq<char>
    decreases n,
{
    if n < 10 { seq![digit(n as int)] } else { dec(n / 10).push(digit((n % 10) as int)) }
}

/// The decimal numeral of a signed number.
pub open spec fn dec_int(i: int) -> Seq<char> {
    if i < 0 { "-"@ + dec((-i) as nat) } else { dec(i as nat) }
}

/// Two lower-case hexadecimal digits of one byte.
pub open spec fn hex_byte(b: u8) -> Seq<char> {
    seq![digit(b as int / 16), digit(b as int % 16)]
}

/// Lower-case hexadecimal text of a byte string, two digits per byte.
pub open spec fn hex(s: Seq<u8>) -> Seq<char>
    decreases s.len(),
{
    if s.len() == 0 { Seq::empty() } else { hex(s.drop_last()) + hex_byte(s.last()) }
}

/// Two digits per byte.
pub proof fn lemma_hex_len(s: Seq<u8>)
    ensures
        hex(s).len() == 2 * s.len(),
    decreases s.len(),
{
    if s.len() > 0 {
        lemma_hex_len(s.drop_last());
    }
}

fn digit_str(d: u8) -> (r: &'static str)
    requires
        d < 16,
    ensures
        r@ == seq![digit(d as int)],
{
    proof {
        reveal_strlit("0"); reveal_strlit("1"); reveal_strlit("2"); reveal_strlit("3");
        reveal_strlit("4"); reveal_strlit("5"); reveal_strlit("6"); reveal_strlit("7");
        reveal_strlit("8"); reveal_strlit("9"); reveal_strlit("a"); reveal_strlit("b");
        reveal_strlit("c"); reveal_strlit("d"); reveal_strlit("e"); reveal_strlit("f");
    }
    let r: &'static str = match d {
        0 => "0", 1 => "1", 2 => "2", 3 => "3", 4 => "4", 5 => "5", 6 => "6", 7 => "7",
        8 => "8", 9 => "9", 10 => "a", 11 => "b", 12 => "c", 13 => "d", 14 => "e", _ => "f",
    };
    assert(r@ =~= seq![digit(d as int)]);
    r
}

/// Append the decimal numeral of `n`.
pub(crate) fn push_dec(s: &mut String, n: u128)
    ensures
        final(s)@ == old(s)@ + dec(n as nat),
    decreases n,
{
    if n >= 10 {
        push_dec(s, n / 10);
    }
    s.append(digit_str((n % 10) as u8));
    proof {
        assert(s@ =~= old(s)@ + dec(n as nat));
    }
}

/// Append the decimal numeral of a signed number.
pub(crate) fn push_dec_int(s: &mut String, i: i64)
    ensures
        final(s)@ == old(s)@ + dec_int(i as int),
{
    if i < 0 {
        s.append("-");
        push_dec(s, (-(i as i128)) as u128);
        proof {
            assert(s@ =~= old(s)@ + dec_int(i as int));
        }
    } else {
        push_dec(s, i as u128);
    }
}

/// Append two hexadecimal digits.
pub(crate) fn push_hex_byte(s: &mut String, b: u8)
    ensures
        final(s)@ == old(s)@ + hex_byte(b),
{
    s.append(digit_str(b / 16));
    s.append(digit_str(b % 16));
    proof {
        assert(s@ =~= old(s)@ + hex_byte(b));
    }
}

/// Append the hexadecimal text of a byte string.
pub(crate) fn push_hex(s: &mut String, b: &[u8])
    ensures
        final(s)@ == old(s)@ + hex(b@),
{
    let mut i: usize = 0;
    proof {
        assert(b@.take(0) =~= Seq::<u8>::empty());
        assert(s@ =~= old(s)@ + hex(b@.take(0)));
    }
    while i < b.len()
        invariant
            i <= b@.len(),
            s@ == old(s)@ + hex(b@.take(i as int)),
        decreases b@.len() - i,
    {
        push_hex_byte(s, b[i]);
        proof {
            assert(b@.take(i + 1).drop_last() =~= b@.take(i as int));
            assert(s@ =~= old(s)@ + hex(b@.take(i + 1)));
        }
        i += 1;
    }
    proof {
        assert(b@.take(i as int) =~= b@);
    }
}

/// `a` followed by the numeral of `n` and by `b`.
pub(crate) fn numbered(a: &str, n: u128, b: &str) -> (r: String)
    ensures
        r@ == a@ + dec(n as nat) + b@,
{
    let mut s = String::from_str(a);
    push_dec(&mut s, n);
    s.append(b);
    s
}

/// `a`, `m` and `b` in a row.
pub(crate) fn quoted_in(a: &str, m: &str, b: &str) -> (r: String)
    ensures
        r@ == a@ + m@ + b@,
{
    let mut s = String::from_str(a);
    s.append(m);
    s.append(b);
    s
}

/// Texts in a row with a separator between them.
pub open spec fn joined_text(parts: Seq<Seq<char>>, sep: Seq<char>) -> Seq<char>
    decreases parts.len(),
{
    if parts.len() == 0 {
        Seq::empty()
    } else if parts.len() == 1 {
        parts[0]
    } else {
        joined_text(parts.drop_last(), sep) + sep + parts.last()
    }
}

/// The texts of a list of strings.
pub open spec fn texts(v: Seq<String>) -> Seq<Seq<char>> {
    v.map_values(|s: String| s@)
}

/// Strings in a row with a separator between them.
pub(crate) fn join_text(parts: &Vec<String>, sep: &str) -> (r: String)
    ensures
        r@ == joined_text(texts(parts@), sep@),
{
    let mut s = String::new();
    let mut i: usize = 0;
    let ghost ts = texts(parts@);
    proof {
        assert(ts.take(0) =~= Seq::<Seq<char>>::empty());
        assert(s@ =~= joined_text(ts.take(0), sep@));
    }
    while i < parts.len()
        invariant
            i <= parts@.len(),
            ts == texts(parts@),
            s@ == joined_text(ts.take(i as int), sep@),
        decreases parts@.len() - i,
    {
        if i > 0 {
            s.append(sep);
        }
        s.append(parts[i].as_str());
        proof {
            assert(ts.take(i + 1).drop_last() =~= ts.take(i as int));
            assert(ts.take(i + 1).last() == parts@[i as int]@);
            assert(s@ =~= joined_text(ts.take(i + 1), sep@));
        }
        i += 1;
    }
    proof {
        assert(ts.take(i as int) =~= ts);
    }
    s
}

/// The characters with the Unicode property White_Space.
pub open spec fn white_space(c: char) -> bool {
    let n = c as u32;
    ||| 0x09 <= n <= 0x0d
    ||| n == 0x20
    ||| n == 0x85
    ||| n == 0xa0
    ||| n == 0x1680
    ||| 0x2000 <= n <= 0x200a
    ||| n == 0x2028
    ||| n == 0x2029
    ||| n == 0x202f
    ||| n == 0x205f
    ||| n == 0x3000
}

/// Whether a character is white space.
pub(crate) fn is_white_space(c: char) -> (r: bool)
    ensures
        r == white_space(c),
{
    let n: u32 = c as u32;
    (0x09 <= n && n <= 0x0d) || n == 0x20 || n == 0x85 || n == 0xa0 || n == 0x1680 || (0x2000 <= n && n <= 0x200a) || n == 0x2028 || n
        == 0x2029 || n == 0x202f || n == 0x205f || n == 0x3000
}

/// The characters of a string.
pub(crate) fn chars_of(s: &str) -> (v: Vec<char>)
    ensures
        v@ == s@,
{
    broadcast use vstd::string::group_string_axioms;

    let mut v: Vec<char> = Vec::new();
    let mut it = s.chars();
    proof {
        assert(v@ + it.remaining() =~= s@);
    }
    loop
        invariant
            it.obeys_prophetic_iter_laws(),
            v@ + it.remaining() == s@,
        ensures
            it.remaining().len() == 0,
        decreases s@.len() - v@.len(),
    {
        let ghost before = it.remaining();
        let ghost prev = v@;
        match it.next() {
            Some(c) => {
                v.push(c);
                proof {
                    assert(prev + before =~= v@ + it.remaining());
                }
            },
            None => {
                break;
            },
        }
    }
    proof {
        assert(v@ + it.remaining() =~= v@);
    }
    v
}

/// The value of a digit character, in base sixteen.
pub open spec fn digit_value(c: char) -> Option<nat> {
    if '0' <= c <= '9' {
        Some((c as u32 - '0' as u32) as nat)
    } else if 'a' <= c <= 'f' {
        Some((c as u32 - 'a' as u32 + 10) as nat)
    } else if 'A' <= c <= 'F' {
        Some((c as u32 - 'A' as u32 + 10) as nat)
    } else {
        None
    }
}

/// The value of a digit character, in base sixteen.
pub(crate) fn value_of_digit(c: char) -> (r: Option<u8>)
    ensures
        match r {
            Some(d) => digit_value(c) == Some(d as nat) && d < 16,
            None => digit_value(c) is None,
        },
{
    if '0' <= c && c <= '9' {
        Some((c as u32 - '0' as u32) as u8)
    } else if 'a' <= c && c <= 'f' {
        Some((c as u32 - 'a' as u32 + 10) as u8)
    } else if 'A' <= c && c <= 'F' {
        Some((c as u32 - 'A' as u32 + 10) as u8)
    } else {
        None
    }
}

/// The number that a string of decimal digits stands for.
pub open spec fn digits_value(t: Seq<char>) -> Option<nat>
    decreases t.len(),
{
    if t.len() == 0 {
        Some(0)
    } else {
        match (digits_value(t.drop_last()), digit_value(t.last())) {
            (Some(n), Some(d)) => if d < 10 { Some(10 * n + d) } else { None },
            _ => None,
        }
    }
}

/// A text parsed as an unsigned 64-bit number: an optional plus sign, then at
/// least one decimal digit.
pub open spec fn parsed_u64(t: Seq<char>) -> Option<nat> {
    let d = if t.len() > 0 && t[0] == '+' { t.skip(1) } else { t };
    if d.len() == 0 {
        None
    } else {
        match digits_value(d) {
            Some(n) => if n <= u64::MAX { Some(n) } else { None },
            None => None,
        }
    }
}

proof fn lemma_digits_prefix(t: Seq<char>, n: int)
    requires
        0 <= n <= t.len(),
        digits_value(t) is Some,
    ensures
        digits_value(t.take(n)) is Some,
        digits_value(t.take(n))->Some_0 <= digits_value(t)->Some_0,
    decreases t.len(),
{
    if n < t.len() {
        lemma_digits_prefix(t.drop_last(), n);
        assert(t.drop_last().take(n) =~= t.take(n));
    } else {
        assert(t.take(n) =~= t);
    }
}

/// Parse an unsigned 64-bit number.
pub(crate) fn parse_u64(s: &str) -> (r: Option<u64>)
    ensures
        match r {
            Some(n) => parsed_u64(s@) == Some(n as nat),
            None => parsed_u64(s@) is None,
        },
{
    let cs = chars_of(s);
    let from: usize = if cs.len() > 0 && cs[0] == '+' { 1 } else { 0 };
    let ghost d = if s@.len() > 0 && s@[0] == '+' { s@.skip(1) } else { s@ };
    proof {
        assert(d =~= s@.skip(from as int));
    }
    if cs.len() == from {
        return None;
    }
    let mut n: u64 = 0;
    let mut i: usize = from;
    proof {
        assert(d.take(0) =~= Seq::<char>::empty());
    }
    while i < cs.len()
        invariant
            from <= i <= cs@.len(),
            cs@ == s@,
            from < cs@.len(),
            d == s@.skip(from as int),
            parsed_u64(s@) == (match digits_value(d) {
                Some(n) => if n <= u64::MAX { Some(n) } else { None },
                None => None,
            }),
            digits_value(d.take(i - from)) == Some(n as nat),
        decreases cs@.len() - i,
    {
        proof {
            assert(d.take(i + 1 - from).drop_last() =~= d.take(i - from));
            assert(d.take(i + 1 - from).last() == cs@[i as int]);
            if digits_value(d) is Some {
                lemma_digits_prefix(d, i + 1 - from);
            }
        }
        let v: u8 = match value_of_digit(cs[i]) {
            Some(v) => v,
            None => {
                return None;
            },
        };
        if v >= 10 {
            return None;
        }
        let next: u128 = n as u128 * 10 + v as u128;
        if next > 0xFFFF_FFFF_FFFF_FFFF {
            return None;
        }
        n = next as u64;
        i += 1;
    }
    proof {
        assert(d.take(i - from) =~= d);
    }
    Some(n)
}

/// Parsing a numeral gives the number again.
pub proof fn lemma_parse_dec(n: nat)
    ensures
        digits_value(dec(n)) == Some(n),
        dec(n).len() > 0,
        digit_value(dec(n)[0]) is Some,
    decreases n,
{
    if n < 10 {
        let t = seq![digit(n as int)];
        assert(t.drop_last() =~= Seq::<char>::empty());
        assert(digits_value(t.drop_last()) == Some(0nat));
        assert(t.last() == digit(n as int));
    } else {
        lemma_parse_dec(n / 10);
        assert(dec(n).drop_last() =~= dec(n / 10));
        assert(dec(n).last() == digit((n % 10) as int));
        assert(dec(n)[0] == dec(n / 10)[0]);
    }
}

/// The bytes that hexadecimal text stands for, two digits each.
pub open spec fn hex_value(t: Seq<char>) -> Option<Seq<u8>>
    decreases t.len(),
{
    if t.len() == 0 {
        Some(Seq::empty())
    } else if t.len() == 1 {
        None
    } else {
        match (
            hex_value(t.take(t.len() - 2)),
            digit_value(t[t.len() - 2]),
            digit_value(t[t.len() - 1]),
        ) {
            (Some(b), Some(x), Some(y)) => Some(b.push((16 * x + y) as u8)),
            _ => None,
        }
    }
}

/// Reading hexadecimal text gives the bytes again.
pub proof fn lemma_parse_hex(b: Seq<u8>)
    ensures
        hex_value(hex(b)) == Some(b),
        hex(b).len() == 2 * b.len(),
    decreases b.len(),
{
    if b.len() > 0 {
        lemma_parse_hex(b.drop_last());
        let t = hex(b);
        assert(t.take(t.len() - 2) =~= hex(b.drop_last()));
        assert(b =~= b.drop_last().push(b.last()));
    }
}

/// What `{:?}` writes for a string.
pub uninterp spec fn str_debug(s: Seq<char>) -> Seq<char>;

/// The text of a string in debug notation: quoted and escaped.
///
/// Calls std's `Debug` for `str`, whose output is a function of the string.
#[verifier::external_body]
pub(crate) fn debug_str(s: &str) -> (r: String)
    ensures
        r@ == str_debug(s@),
{
    format!("{:?}", s)
}

/// The decimal numeral has at least one digit.
pub proof fn lemma_dec_nonempty(n: nat)
    ensures
        dec(n).len() > 0,
{
}

proof fn lemma_digit_injective(a: int, b: int)
    requires
        0 <= a < 16,
        0 <= b < 16,
        digit(a) == digit(b),
    ensures
        a == b,
{
}

/// Different numbers have different numerals.
pub proof fn lemma_dec_injective(m: nat, n: nat)
    requires
        dec(m) == dec(n),
    ensures
        m == n,
    decreases m,
{
    if m < 10 && n < 10 {
        assert(dec(m)[0] == digit(m as int));
        assert(dec(n)[0] == digit(n as int));
        lemma_digit_injective(m as int, n as int);
    } else if m >= 10 && n >= 10 {
        let (a, b) = (dec(m / 10), dec(n / 10));
        assert(dec(m).drop_last() =~= a);
        assert(dec(n).drop_last() =~= b);
        assert(dec(m).last() == digit((m % 10) as int));
        assert(dec(n).last() == digit((n % 10) as int));
        lemma_digit_injective((m % 10) as int, (n % 10) as int);
        lemma_dec_injective(m / 10, n / 10);
    } else {
        if m < 10 {
            lemma_dec_nonempty(n / 10);
            assert(dec(n) == dec(n / 10).push(digit((n % 10) as int)));
            assert(dec(m) == seq![digit(m as int)]);
        } else {
            lemma_dec_nonempty(m / 10);
            assert(dec(m) == dec(m / 10).push(digit((m % 10) as int)));
            assert(dec(n) == seq![digit(n as int)]);
        }
        assert(dec(m).len() != dec(n).len());
    }
}

} // verus!
