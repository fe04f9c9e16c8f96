//! The delta format: a header with both lengths, then COPY and INSERT
//! instructions that produce the target front to back.

use vstd::prelude::*;
use vstd::string::StringExecFns;
use vstd::slice::slice_subrange;
use crate::bytes::{get_le, le_bytes, le_value, put_bytes, put_le};
use crate::error::{Error, Fault, Result};
use crate::fnv::{fold_range, folded, FNV_OFFSET};
use crate::retl_codec::envelope::MAX_PAYLOAD;
use crate::text::{dec, hex_byte, numbered, push_dec, push_hex_byte};

verus! {

pub const OP_INSERT: u8 = 0;
pub const OP_COPY: u8 = 1;
/// Encoder parameters; the format does not carry them.
pub const BLOCK: usize = 16;

/// The multiplier of the hash that spreads blocks over the chains.
pub const BLOCK_PRIME: u64 = 0x1000_0000_01b3;
pub const CHAIN_CAP: usize = 64;
pub const MIN_MATCH: usize = 16;

// ------------------------------------------------------------ the format

/// One instruction of a delta.
pub enum DeltaOp {
    /// Produce `len` bytes of the base from `off` on.
    Copy { off: nat, len: nat },
    /// Produce these bytes.
    Insert { bytes: Seq<u8> },
}

/// How many bytes an instruction produces.
pub open spec fn op_len(op: DeltaOp) -> nat {
    match op {
        DeltaOp::Copy { off, len } => len,
        DeltaOp::Insert { bytes } => bytes.len(),
    }
}

/// What an instruction produces.
pub open spec fn op_output(base: Seq<u8>, op: DeltaOp) -> Seq<u8> {
    match op {
        DeltaOp::Copy { off, len } => base.subrange(off as int, (off + len) as int),
        DeltaOp::Insert { bytes } => bytes,
    }
}

/// How an instruction is written.
pub open spec fn op_bytes(op: DeltaOp) -> Seq<u8> {
    match op {
        DeltaOp::Copy { off, len } => seq![OP_COPY] + le_bytes(off, 8) + le_bytes(len, 8),
        DeltaOp::Insert { bytes } => seq![OP_INSERT] + le_bytes(bytes.len(), 4) + bytes,
    }
}

/// A COPY stays inside the base; an INSERT fits its 32-bit length.
pub open spec fn op_fits(base_len: nat, op: DeltaOp) -> bool {
    match op {
        DeltaOp::Copy { off, len } => off + len <= base_len,
        DeltaOp::Insert { bytes } => bytes.len() <= u32::MAX,
    }
}

pub open spec fn ops_len(ops: Seq<DeltaOp>) -> nat
    decreases ops.len(),
{
    if ops.len() == 0 { 0 } else { op_len(ops[0]) + ops_len(ops.drop_first()) }
}

pub open spec fn ops_output(base: Seq<u8>, ops: Seq<DeltaOp>) -> Seq<u8>
    decreases ops.len(),
{
    if ops.len() == 0 {
        Seq::empty()
    } else {
        op_output(base, ops[0]) + ops_output(base, ops.drop_first())
    }
}

pub open spec fn ops_bytes(ops: Seq<DeltaOp>) -> Seq<u8>
    decreases ops.len(),
{
    if ops.len() == 0 { Seq::empty() } else { op_bytes(ops[0]) + ops_bytes(ops.drop_first()) }
}

pub open spec fn ops_fit(base_len: nat, ops: Seq<DeltaOp>) -> bool {
    forall|i: int| 0 <= i < ops.len() ==> op_fits(base_len, #[trigger] ops[i])
}

/// A delta against a base of `base_len` bytes that produces `target_len`
/// bytes by `ops`.
pub open spec fn delta_bytes(base_len: nat, target_len: nat, ops: Seq<DeltaOp>) -> Seq<u8> {
    le_bytes(base_len, 8) + le_bytes(target_len, 8) + ops_bytes(ops)
}

// ----------------------------------------------------------- the decoder

/// The instruction at `i` and the position behind it, or what is wrong.
pub open spec fn read_op(base_len: nat, delta: Seq<u8>, i: int) -> std::result::Result<
    (DeltaOp, int),
    Seq<char>,
> {
    if delta[i] == OP_COPY {
        if delta.len() - i < 17 {
            Err("truncated COPY"@)
        } else {
            let off = le_value(delta.subrange(i + 1, i + 9));
            let len = le_value(delta.subrange(i + 9, i + 17));
            if off + len > u64::MAX {
                Err("COPY overflows"@)
            } else if off + len > base_len {
                Err(
                    "COPY "@ + dec(off) + "+"@ + dec(len) + " reaches past the "@ + dec(base_len)
                        + "-byte base"@,
                )
            } else {
                Ok((DeltaOp::Copy { off, len }, i + 17))
            }
        }
    } else if delta[i] == OP_INSERT {
        if delta.len() - i < 5 {
            Err("truncated INSERT header"@)
        } else {
            let len = le_value(delta.subrange(i + 1, i + 5));
            if delta.len() - i - 5 < len {
                Err("truncated INSERT body"@)
            } else {
                Ok((DeltaOp::Insert { bytes: delta.subrange(i + 5, i + 5 + len) }, i + 5 + len))
            }
        }
    } else {
        Err("unknown instruction 0x"@ + hex_byte(delta[i]))
    }
}

/// The instructions from `i` on, when those before it produce `total` bytes,
/// or the first thing that is wrong.
pub open spec fn read_ops(
    base_len: nat,
    target_len: nat,
    delta: Seq<u8>,
    i: int,
    total: nat,
) -> std::result::Result<Seq<DeltaOp>, Seq<char>>
    decreases delta.len() - i,
{
    if i < 0 || i >= delta.len() {
        if total == target_len {
            Ok(Seq::empty())
        } else {
            Err(
                "instructions produce "@ + dec(total) + " bytes, header promises "@ + dec(
                    target_len,
                ),
            )
        }
    } else {
        match read_op(base_len, delta, i) {
            Err(m) => Err(m),
            Ok((op, next)) => {
                let t = total + op_len(op);
                if t > u64::MAX {
                    Err("output overflows"@)
                } else if t > target_len {
                    Err("instructions produce more than target_len"@)
                } else if next <= i {
                    Err(Seq::empty())
                } else {
                    match read_ops(base_len, target_len, delta, next, t) {
                        Err(m) => Err(m),
                        Ok(rest) => Ok(seq![op] + rest),
                    }
                }
            },
        }
    }
}

/// The instructions of a whole delta against a base of `base_len` bytes, or
/// the first thing that is wrong.
pub open spec fn delta_ops(base_len: nat, delta: Seq<u8>) -> std::result::Result<
    Seq<DeltaOp>,
    Seq<char>,
> {
    if delta.len() < 16 {
        Err("truncated before the header"@)
    } else {
        let made_for = le_value(delta.subrange(0, 8));
        let target_len = le_value(delta.subrange(8, 16));
        if made_for != base_len {
            Err(
                "base is "@ + dec(base_len) + " bytes but the delta was made against "@ + dec(
                    made_for,
                ) + " — wrong base"@,
            )
        } else if target_len > MAX_PAYLOAD {
            Err("target_len "@ + dec(target_len) + " exceeds the envelope cap"@)
        } else {
            read_ops(base_len, target_len, delta, 16, 0)
        }
    }
}

/// What applying `delta` to `base` gives.
pub open spec fn delta_result(base: Seq<u8>, delta: Seq<u8>) -> std::result::Result<
    Seq<u8>,
    Fault,
> {
    match delta_ops(base.len(), delta) {
        Ok(ops) => Ok(ops_output(base, ops)),
        Err(m) => Err(Fault::Corrupt("delta-v1: "@ + m)),
    }
}

fn corrupt(m: &str) -> (e: Error)
    ensures
        e@ == Fault::Corrupt("delta-v1: "@ + m@),
{
    let mut s = String::from_str("delta-v1: ");
    s.append(m);
    Error::Corrupt(s)
}

pub proof fn lemma_ops_output_push(base: Seq<u8>, ops: Seq<DeltaOp>, op: DeltaOp)
    ensures
        ops_output(base, ops.push(op)) == ops_output(base, ops) + op_output(base, op),
    decreases ops.len(),
{
    if ops.len() == 0 {
        assert(ops.push(op).drop_first() =~= ops);
        assert(ops_output(base, ops) =~= Seq::<u8>::empty());
        assert(ops_output(base, ops.push(op)) =~= op_output(base, op));
        assert(ops_output(base, ops) + op_output(base, op) =~= op_output(base, op));
    } else {
        assert(ops.push(op).drop_first() =~= ops.drop_first().push(op));
        lemma_ops_output_push(base, ops.drop_first(), op);
        assert(ops_output(base, ops.push(op)) =~= ops_output(base, ops) + op_output(base, op));
    }
}

/// Apply a delta to `base`. The instruction stream is walked once before
/// anything is allocated: every COPY is checked against the base, and the
/// lengths must sum to exactly the promised target length.
pub fn delta_apply(base: &[u8], delta: &[u8]) -> (r: Result<Vec<u8>>)
    ensures
        match r {
            Ok(v) => delta_result(base@, delta@) == Ok::<Seq<u8>, Fault>(v@),
            Err(e) => delta_result(base@, delta@) == Err::<Seq<u8>, Fault>(e@),
        },
{
    if delta.len() < 16 {
        return Err(corrupt("truncated before the header"));
    }
    let base_len: u64 = get_le(delta, 0, 8);
    let target_len: u64 = get_le(delta, 8, 8);
    if base_len != base.len() as u64 {
        let mut m = numbered("base is ", base.len() as u128, " bytes but the delta was made against ");
        push_dec(&mut m, base_len as u128);
        m.append(" — wrong base");
        return Err(corrupt(m.as_str()));
    }
    if target_len > MAX_PAYLOAD as u64 {
        let m = numbered("target_len ", target_len as u128, " exceeds the envelope cap");
        return Err(corrupt(m.as_str()));
    }

    let ghost bl = base@.len();
    let ghost tl = target_len as nat;
    let ghost whole = read_ops(bl, tl, delta@, 16, 0);
    assert(whole == delta_ops(bl, delta@));
    let mut i: usize = 16;
    let mut total: u64 = 0;
    let ghost mut done: Seq<DeltaOp> = Seq::empty();
    proof {
        assert forall|rest: Seq<DeltaOp>| #[trigger] (Seq::<DeltaOp>::empty() + rest) == rest by {
            assert(Seq::<DeltaOp>::empty() + rest =~= rest);
        }
    }
    while i < delta.len()
        invariant
            16 <= i <= delta@.len(),
            base_len == base@.len(),
            bl == base@.len(),
            tl == target_len,
            target_len <= MAX_PAYLOAD,
            total <= target_len,
            whole == delta_ops(bl, delta@),
            whole == (match read_ops(bl, tl, delta@, i as int, total as nat) {
                Err(m) => Err::<Seq<DeltaOp>, Seq<char>>(m),
                Ok(rest) => Ok(done + rest),
            }),
        decreases delta@.len() - i,
    {
        let ghost i0 = i as int;
        let ghost t0 = total as nat;
        let ghost op;
        match delta[i] {
            OP_COPY => {
                if delta.len() - i < 17 {
                    return Err(corrupt("truncated COPY"));
                }
                let off: u64 = get_le(delta, i + 1, 8);
                let len: u64 = get_le(delta, i + 9, 8);
                proof {
                    op = DeltaOp::Copy { off: off as nat, len: len as nat };
                }
                let end: u64 = match off.checked_add(len) {
                    Some(end) => end,
                    None => {
                        return Err(corrupt("COPY overflows"));
                    },
                };
                if end > base_len {
                    let mut m = numbered("COPY ", off as u128, "+");
                    push_dec(&mut m, len as u128);
                    m.append(" reaches past the ");
                    push_dec(&mut m, base_len as u128);
                    m.append("-byte base");
                    return Err(corrupt(m.as_str()));
                }
                total = match total.checked_add(len) {
                    Some(t) => t,
                    None => {
                        return Err(corrupt("output overflows"));
                    },
                };
                i += 17;
            },
            OP_INSERT => {
                if delta.len() - i < 5 {
                    return Err(corrupt("truncated INSERT header"));
                }
                let len: u64 = get_le(delta, i + 1, 4);
                if ((delta.len() - i - 5) as u64) < len {
                    return Err(corrupt("truncated INSERT body"));
                }
                proof {
                    op = DeltaOp::Insert { bytes: delta@.subrange(i + 5, i + 5 + len) };
                }
                total = match total.checked_add(len) {
                    Some(t) => t,
                    None => {
                        return Err(corrupt("output overflows"));
                    },
                };
                i += 5 + len as usize;
            },
            other => {
                let mut m = String::from_str("unknown instruction 0x");
                push_hex_byte(&mut m, other);
                return Err(corrupt(m.as_str()));
            },
        }
        assert(read_op(bl, delta@, i0) == Ok::<(DeltaOp, int), Seq<char>>((op, i as int)));
        if total > target_len {
            return Err(corrupt("instructions produce more than target_len"));
        }
        proof {
            match read_ops(bl, tl, delta@, i as int, total as nat) {
                Ok(rest) => {
                    assert(done + (seq![op] + rest) =~= done.push(op) + rest);
                },
                Err(_) => {},
            }
            done = done.push(op);
        }
    }
    if total != target_len {
        let mut m = numbered("instructions produce ", total as u128, " bytes, header promises ");
        push_dec(&mut m, target_len as u128);
        return Err(corrupt(m.as_str()));
    }
    assert(whole is Ok);

    let mut out: Vec<u8> = Vec::with_capacity(target_len as usize);
    let mut i: usize = 16;
    let ghost mut made: Seq<DeltaOp> = Seq::empty();
    let ghost mut sum: nat = 0;
    while i < delta.len()
        invariant
            16 <= i <= delta@.len(),
            base_len == base@.len(),
            bl == base@.len(),
            whole is Ok,
            read_ops(bl, tl, delta@, i as int, sum) is Ok,
            whole == Ok::<Seq<DeltaOp>, Seq<char>>(
                made + read_ops(bl, tl, delta@, i as int, sum)->Ok_0,
            ),
            out@ == ops_output(base@, made),
        decreases delta@.len() - i,
    {
        let ghost i0 = i as int;
        let ghost op;
        assert(read_op(bl, delta@, i0) is Ok);
        if delta[i] == OP_COPY {
            let off: u64 = get_le(delta, i + 1, 8);
            let len: u64 = get_le(delta, i + 9, 8);
            assert(off + len <= base.len());
            put_bytes(&mut out, slice_subrange(base, off as usize, off as usize + len as usize));
            proof {
                op = DeltaOp::Copy { off: off as nat, len: len as nat };
            }
            i += 17;
        } else {
            let len: u64 = get_le(delta, i + 1, 4);
            put_bytes(&mut out, slice_subrange(delta, i + 5, i + 5 + len as usize));
            proof {
                op = DeltaOp::Insert { bytes: delta@.subrange(i + 5, i + 5 + len) };
            }
            i += 5 + len as usize;
        }
        proof {
            lemma_ops_output_push(base@, made, op);
            let rest = read_ops(bl, tl, delta@, i as int, sum + op_len(op))->Ok_0;
            assert(made + (seq![op] + rest) =~= made.push(op) + rest);
            made = made.push(op);
            sum = sum + op_len(op);
        }
    }
    proof {
        assert(made + Seq::<DeltaOp>::empty() =~= made);
    }
    Ok(out)
}

// ----------------------------------------------------------- the encoder

/// The smallest power of two from `size` on that exceeds `n`.
pub open spec fn grown(size: nat, n: nat) -> nat
    decreases (if size > n { 0 } else { n + 1 - size }),
{
    if size == 0 || size > n { size } else { grown(2 * size, n) }
}

/// The number of hash chains for a base of `n` blocks.
pub open spec fn table_size(n: nat) -> nat {
    grown(16, n)
}

/// The chain that a block belongs to.
pub open spec fn chain_of(s: Seq<u8>, size: nat) -> nat {
    folded(BLOCK_PRIME, FNV_OFFSET, s) as nat % size
}

/// Block number `bi` of the base.
pub open spec fn block(base: Seq<u8>, bi: int) -> Seq<u8> {
    base.subrange(bi * 16, bi * 16 + 16)
}

/// The lowest block from `from` on in chain `h`, or the number of blocks.
pub open spec fn next_block(base: Seq<u8>, size: nat, h: nat, from: int) -> int
    decreases base.len() / 16 - from,
{
    let n = base.len() as int / 16;
    if from >= n {
        n
    } else if chain_of(block(base, from), size) == h {
        from
    } else {
        next_block(base, size, h, from + 1)
    }
}

/// How far `base` from `b` on and `target` from `t` on agree.
pub open spec fn match_len(base: Seq<u8>, target: Seq<u8>, b: int, t: int) -> nat
    decreases base.len() - b,
{
    if b < base.len() && t < target.len() && base[b] == target[t] {
        1 + match_len(base, target, b + 1, t + 1)
    } else {
        0
    }
}

/// The longest match at target position `pos` (length and base offset) among
/// the next `left` blocks of the chain from `cand` on, starting from `best`;
/// of equally long ones the lowest offset.
pub open spec fn best_match(
    base: Seq<u8>,
    target: Seq<u8>,
    size: nat,
    pos: int,
    cand: int,
    left: nat,
    best: (nat, nat),
) -> (nat, nat)
    decreases left,
{
    if left == 0 || cand < 0 || cand >= base.len() as int / 16 {
        best
    } else {
        let l = match_len(base, target, cand * 16, pos);
        best_match(
            base,
            target,
            size,
            pos,
            next_block(base, size, chain_of(block(base, cand), size), cand + 1),
            (left - 1) as nat,
            if l > best.0 { (l, (cand * 16) as nat) } else { best },
        )
    }
}

/// The match the encoder takes at `pos`.
pub open spec fn match_at(base: Seq<u8>, target: Seq<u8>, pos: int) -> (nat, nat) {
    let size = table_size(base.len() / 16);
    let h = chain_of(target.subrange(pos, pos + 16), size);
    best_match(base, target, size, pos, next_block(base, size, h, 0), 64, (0, 0))
}

/// INSERT instructions for the target bytes from `from` up to `to`.
pub open spec fn literal_ops(target: Seq<u8>, from: int, to: int) -> Seq<DeltaOp>
    decreases to - from,
{
    if from >= to {
        Seq::empty()
    } else {
        let n = if to - from <= u32::MAX { to - from } else { u32::MAX as int };
        seq![DeltaOp::Insert { bytes: target.subrange(from, from + n) }] + literal_ops(
            target,
            from + n,
            to,
        )
    }
}

/// The instructions for the target from `lit` on, when no match was taken
/// between `lit` and `pos`: a match of at least a block is copied, everything
/// else is literal.
pub open spec fn greedy_from(base: Seq<u8>, target: Seq<u8>, pos: int, lit: int) -> Seq<DeltaOp>
    decreases (if target.len() - pos < 16 { 0 } else { target.len() - pos }),
{
    if target.len() - pos < 16 {
        literal_ops(target, lit, target.len() as int)
    } else {
        let m = match_at(base, target, pos);
        if m.0 >= 16 {
            literal_ops(target, lit, pos) + seq![DeltaOp::Copy { off: m.1, len: m.0 }]
                + greedy_from(base, target, pos + m.0, pos + m.0)
        } else {
            greedy_from(base, target, pos + 1, lit)
        }
    }
}

/// The encoder's instructions for `target` against `base`.
pub open spec fn greedy_ops(base: Seq<u8>, target: Seq<u8>) -> Seq<DeltaOp> {
    greedy_from(base, target, 0, 0)
}

/// The encoder's delta.
pub open spec fn delta_encoding(base: Seq<u8>, target: Seq<u8>) -> Seq<u8> {
    delta_bytes(base.len(), target.len(), greedy_ops(base, target))
}

pub proof fn lemma_ops_bytes_concat(a: Seq<DeltaOp>, b: Seq<DeltaOp>)
    ensures
        ops_bytes(a + b) == ops_bytes(a) + ops_bytes(b),
    decreases a.len(),
{
    if a.len() == 0 {
        assert(a + b =~= b);
        assert(ops_bytes(a) + ops_bytes(b) =~= ops_bytes(b));
    } else {
        assert((a + b).drop_first() =~= a.drop_first() + b);
        lemma_ops_bytes_concat(a.drop_first(), b);
        assert(ops_bytes(a + b) =~= ops_bytes(a) + ops_bytes(b));
    }
}

pub proof fn lemma_one_op_bytes(op: DeltaOp)
    ensures
        ops_bytes(seq![op]) == op_bytes(op),
{
    assert(seq![op].drop_first() =~= Seq::<DeltaOp>::empty());
    assert(ops_bytes(Seq::<DeltaOp>::empty()) =~= Seq::<u8>::empty());
    assert(ops_bytes(seq![op]) =~= op_bytes(op));
}

fn chain_index(b: &[u8], at: usize, size: usize) -> (h: usize)
    requires
        at + 16 <= b@.len(),
        size > 0,
    ensures
        h == chain_of(b@.subrange(at as int, at + 16), size as nat),
        h < size,
{
    assert(at + 16 <= b.len());
    let h: u64 = fold_range(BLOCK_PRIME, FNV_OFFSET, b, at, at + BLOCK);
    (h % (size as u64)) as usize
}

fn match_length(base: &[u8], target: &[u8], b: usize, t: usize) -> (l: usize)
    requires
        b <= base@.len(),
        t <= target@.len(),
    ensures
        l == match_len(base@, target@, b as int, t as int),
        b + l <= base@.len(),
        t + l <= target@.len(),
{
    let mut l: usize = 0;
    while l < base.len() - b && l < target.len() - t && base[b + l] == target[t + l]
        invariant
            b + l <= base@.len(),
            t + l <= target@.len(),
            match_len(base@, target@, b as int, t as int) == l + match_len(
                base@,
                target@,
                b + l,
                t + l,
            ),
        decreases base@.len() - b - l,
    {
        l += 1;
    }
    l
}

fn flush_literal(out: &mut Vec<u8>, target: &[u8], from: usize, to: usize)
    requires
        from <= to <= target@.len(),
    ensures
        final(out)@ == old(out)@ + ops_bytes(literal_ops(target@, from as int, to as int)),
{
    let mut s: usize = from;
    let ghost all = ops_bytes(literal_ops(target@, from as int, to as int));
    while s < to
        invariant
            from <= s <= to <= target@.len(),
            all == ops_bytes(literal_ops(target@, from as int, to as int)),
            old(out)@ + all == out@ + ops_bytes(literal_ops(target@, s as int, to as int)),
        decreases to - s,
    {
        let n: usize = if to - s <= 0xFFFF_FFFF { to - s } else { 0xFFFF_FFFF };
        let ghost before = out@;
        let ghost op = DeltaOp::Insert { bytes: target@.subrange(s as int, s + n) };
        out.push(OP_INSERT);
        put_le(out, n as u64, 4);
        put_bytes(out, slice_subrange(target, s, s + n));
        proof {
            let rest = literal_ops(target@, s + n, to as int);
            assert(out@ =~= before + op_bytes(op));
            lemma_one_op_bytes(op);
            lemma_ops_bytes_concat(seq![op], rest);
            assert(before + (op_bytes(op) + ops_bytes(rest)) =~= before + op_bytes(op) + ops_bytes(rest));
        }
        s += n;
    }
    proof {
        assert(out@ + Seq::<u8>::empty() =~= out@);
    }
}

/// The hash chains of the blocks of a base: `heads[h]` is the first block of
/// chain `h`, `nexts[b]` the block behind `b` in its chain; the number of
/// blocks stands for none.
struct Chains {
    heads: Vec<usize>,
    nexts: Vec<usize>,
}

impl Chains {
    /// The chains list, of the blocks from `from` on, all in ascending order.
    spec fn lists(&self, base: Seq<u8>, from: int) -> bool {
        let n = base.len() as int / 16;
        let size = table_size(n as nat);
        &&& self.heads@.len() == size
        &&& size > 0
        &&& self.nexts@.len() == n
        &&& forall|h: int| 0 <= h < size ==> #[trigger] self.heads@[h] == next_block(base, size, h as nat, from)
        &&& forall|b: int| from <= b < n ==> #[trigger] self.nexts@[b] == next_block(
            base,
            size,
            chain_of(block(base, b), size),
            b + 1,
        )
    }
}

fn chain_count(n: usize) -> (size: usize)
    requires
        n <= usize::MAX / 16,
    ensures
        size == table_size(n as nat),
        size > 0,
{
    let mut size: usize = 16;
    while size <= n
        invariant
            n <= usize::MAX / 16,
            16 <= size,
            grown(size as nat, n as nat) == table_size(n as nat),
        decreases (if size > n { 0 } else { n + 1 - size }),
    {
        size = 2 * size;
    }
    size
}

fn index_base(base: &[u8]) -> (c: Chains)
    ensures
        c.lists(base@, 0),
{
    let n: usize = base.len() / BLOCK;
    let size: usize = chain_count(n);
    let mut c = Chains { heads: vec![n; size], nexts: vec![n; n] };
    let mut bi: usize = n;
    while bi > 0
        invariant
            bi <= n,
            n == base@.len() / 16,
            size == table_size(n as nat),
            c.lists(base@, bi as int),
        decreases bi,
    {
        bi -= 1;
        assert(bi * 16 + 16 <= base.len());
        let h: usize = chain_index(base, bi * BLOCK, size);
        let ghost before = c;
        let first: usize = c.heads[h];
        c.nexts.set(bi, first);
        c.heads.set(h, bi);
        proof {
            assert(base@.subrange(bi * 16, bi * 16 + 16) == block(base@, bi as int));
            assert forall|k: int| 0 <= k < size implies #[trigger] c.heads@[k] == next_block(base@, size as nat, k as nat, bi as int) by {
                assert(before.heads@[k] == next_block(base@, size as nat, k as nat, bi + 1));
            }
            assert forall|b: int| bi <= b < n implies #[trigger] c.nexts@[b] == next_block(
                base@,
                size as nat,
                chain_of(block(base@, b), size as nat),
                b + 1,
            ) by {
                if b > bi {
                    assert(before.nexts@[b] == next_block(base@, size as nat, chain_of(block(base@, b), size as nat), b + 1));
                }
            }
        }
    }
    c
}

pub proof fn lemma_next_block_range(base: Seq<u8>, size: nat, h: nat, from: int)
    requires
        0 <= from <= base.len() as int / 16,
    ensures
        from <= next_block(base, size, h, from) <= base.len() as int / 16,
        next_block(base, size, h, from) < base.len() as int / 16 ==> chain_of(
            block(base, next_block(base, size, h, from)),
            size,
        ) == h,
    decreases base.len() / 16 - from,
{
    let n = base.len() as int / 16;
    if from < n && chain_of(block(base, from), size) != h {
        lemma_next_block_range(base, size, h, from + 1);
    }
}

fn find_match(base: &[u8], target: &[u8], pos: usize, c: &Chains) -> (r: (usize, usize))
    requires
        pos + 16 <= target@.len(),
        c.lists(base@, 0),
    ensures
        (r.0 as nat, r.1 as nat) == match_at(base@, target@, pos as int),
        pos + r.0 <= target@.len(),
{
    let n: usize = base.len() / BLOCK;
    let ghost size = table_size(n as nat);
    let h: usize = chain_index(target, pos, c.heads.len());
    let mut best_len: usize = 0;
    let mut best_off: usize = 0;
    let mut cand: usize = c.heads[h];
    let mut probes: usize = 0;
    proof {
        lemma_next_block_range(base@, size, h as nat, 0);
    }
    while cand != n && probes < CHAIN_CAP
        invariant
            pos + 16 <= target@.len(),
            c.lists(base@, 0),
            n == base@.len() / 16,
            size == table_size(n as nat),
            cand <= n,
            probes <= 64,
            pos + best_len <= target@.len(),
            match_at(base@, target@, pos as int) == best_match(
                base@,
                target@,
                size,
                pos as int,
                cand as int,
                (64 - probes) as nat,
                (best_len as nat, best_off as nat),
            ),
        decreases 64 - probes,
    {
        assert(cand * 16 + 16 <= base.len());
        let boff: usize = cand * BLOCK;
        let l: usize = match_length(base, target, boff, pos);
        if l > best_len {
            best_len = l;
            best_off = boff;
        }
        proof {
            lemma_next_block_range(base@, size, chain_of(block(base@, cand as int), size), cand + 1);
        }
        cand = c.nexts[cand];
        probes += 1;
    }
    (best_len, best_off)
}

/// Encode `target` against `base`. `None` when the delta would not be smaller
/// than storing the target raw in an envelope. A pure function of its
/// arguments.
pub fn delta_encode(base: &[u8], target: &[u8]) -> (r: Option<Vec<u8>>)
    ensures
        match r {
            Some(v) => v@ == delta_encoding(base@, target@) && v@.len() < target@.len() + 5,
            None => delta_encoding(base@, target@).len() >= target@.len() + 5,
        },
{
    let mut out: Vec<u8> = Vec::with_capacity(64);
    put_le(&mut out, base.len() as u64, 8);
    put_le(&mut out, target.len() as u64, 8);
    proof {
        crate::bytes::lemma_le_bytes_len(base@.len(), 8);
        crate::bytes::lemma_le_bytes_len(target@.len(), 8);
    }
    let c = index_base(base);
    let ghost whole = delta_encoding(base@, target@);
    let mut lit: usize = 0;
    let mut pos: usize = 0;
    proof {
        assert(whole =~= out@ + ops_bytes(greedy_from(base@, target@, 0, 0)));
    }
    while target.len() - pos >= BLOCK
        invariant
            lit <= pos <= target@.len(),
            c.lists(base@, 0),
            whole == delta_encoding(base@, target@),
            whole == out@ + ops_bytes(greedy_from(base@, target@, pos as int, lit as int)),
            out@.len() >= 16,
        decreases target@.len() - pos,
    {
        let (best_len, best_off) = find_match(base, target, pos, &c);
        if best_len >= MIN_MATCH {
            let ghost before = out@;
            let ghost lits = literal_ops(target@, lit as int, pos as int);
            let ghost op = DeltaOp::Copy { off: best_off as nat, len: best_len as nat };
            let ghost rest = greedy_from(base@, target@, pos + best_len, pos + best_len);
            flush_literal(&mut out, target, lit, pos);
            out.push(OP_COPY);
            put_le(&mut out, best_off as u64, 8);
            put_le(&mut out, best_len as u64, 8);
            proof {
                assert(out@ =~= before + ops_bytes(lits) + op_bytes(op));
                lemma_one_op_bytes(op);
                lemma_ops_bytes_concat(lits, seq![op]);
                lemma_ops_bytes_concat(lits + seq![op], rest);
                assert(before + (ops_bytes(lits) + op_bytes(op) + ops_bytes(rest)) =~= out@ + ops_bytes(rest));
            }
            pos += best_len;
            lit = pos;
        } else {
            pos += 1;
        }
        if out.len() - 16 >= target.len() {
            return None;
        }
    }
    flush_literal(&mut out, target, lit, target.len());
    assert(out@ == whole);
    if out.len() - 5 < target.len() {
        Some(out)
    } else {
        None
    }
}

} // verus!
