//! Laws of the delta format: what decodes, and that encoding and applying are
//! inverse.

use vstd::prelude::*;
use crate::bytes::{le_bytes, le_value, lemma_le_bytes_len, lemma_le_bytes_of_value, lemma_le_value_of_bytes, lemma_pow256_values};
use crate::error::Fault;
use crate::retl_codec::delta::{best_match, block, chain_of, delta_bytes, delta_encoding, delta_ops, delta_result, greedy_from, greedy_ops, literal_ops, match_at, match_len, next_block, op_bytes, op_fits, op_len, op_output, ops_bytes, ops_fit, ops_len, ops_output, read_op, read_ops, table_size, DeltaOp, OP_COPY};
use crate::retl_codec::envelope::MAX_PAYLOAD;

verus! {

proof fn lemma_read_op_sound(bl: nat, delta: Seq<u8>, i: int)
    requires
        0 <= i < delta.len(),
        read_op(bl, delta, i) is Ok,
    ensures
        ({
            let (op, next) = read_op(bl, delta, i)->Ok_0;
            &&& i < next <= delta.len()
            &&& delta.subrange(i, next) == op_bytes(op)
            &&& op_fits(bl, op)
        }),
{
    let (op, next) = read_op(bl, delta, i)->Ok_0;
    lemma_pow256_values();
    if delta[i] == OP_COPY {
        lemma_le_bytes_of_value(delta.subrange(i + 1, i + 9));
        lemma_le_bytes_of_value(delta.subrange(i + 9, i + 17));
        assert(delta.subrange(i, next) =~= op_bytes(op));
    } else {
        lemma_le_bytes_of_value(delta.subrange(i + 1, i + 5));
        assert(delta.subrange(i, next) =~= op_bytes(op));
    }
}

proof fn lemma_read_ops_sound(bl: nat, tl: nat, delta: Seq<u8>, i: int, total: nat)
    requires
        0 <= i <= delta.len(),
        read_ops(bl, tl, delta, i, total) is Ok,
    ensures
        delta.skip(i) == ops_bytes(read_ops(bl, tl, delta, i, total)->Ok_0),
        ops_fit(bl, read_ops(bl, tl, delta, i, total)->Ok_0),
        total + ops_len(read_ops(bl, tl, delta, i, total)->Ok_0) == tl,
    decreases delta.len() - i,
{
    let ops = read_ops(bl, tl, delta, i, total)->Ok_0;
    if i == delta.len() {
        assert(delta.skip(i) =~= ops_bytes(ops));
    } else {
        lemma_read_op_sound(bl, delta, i);
        let (op, next) = read_op(bl, delta, i)->Ok_0;
        lemma_read_ops_sound(bl, tl, delta, next, total + op_len(op));
        let rest = read_ops(bl, tl, delta, next, total + op_len(op))->Ok_0;
        assert(ops.drop_first() =~= rest);
        assert(delta.skip(i) =~= delta.subrange(i, next) + delta.skip(next));
        assert forall|k: int| 0 <= k < ops.len() implies op_fits(bl, #[trigger] ops[k]) by {
            if k > 0 {
                assert(ops[k] == rest[k - 1]);
            }
        }
    }
}

proof fn lemma_read_op_complete(bl: nat, delta: Seq<u8>, i: int, op: DeltaOp, rest: Seq<u8>)
    requires
        0 <= i <= delta.len(),
        bl <= u64::MAX,
        op_fits(bl, op),
        delta.skip(i) == op_bytes(op) + rest,
    ensures
        i < delta.len(),
        read_op(bl, delta, i) == Ok::<(DeltaOp, int), Seq<char>>((op, i + op_bytes(op).len())),
        delta.skip(i + op_bytes(op).len()) == rest,
        op_bytes(op).len() >= 5,
{
    lemma_pow256_values();
    let tail = delta.skip(i);
    let b = op_bytes(op);
    match op {
        DeltaOp::Copy { off, len } => {
            lemma_le_bytes_len(off, 8);
            lemma_le_bytes_len(len, 8);
            lemma_le_value_of_bytes(off, 8);
            lemma_le_value_of_bytes(len, 8);
            assert(tail.len() == b.len() + rest.len());
            assert(delta[i] == tail[0]);
            assert(delta.subrange(i + 1, i + 9) =~= tail.subrange(1, 9));
            assert(delta.subrange(i + 9, i + 17) =~= tail.subrange(9, 17));
            assert(tail.subrange(1, 9) =~= le_bytes(off, 8));
            assert(tail.subrange(9, 17) =~= le_bytes(len, 8));
        },
        DeltaOp::Insert { bytes } => {
            lemma_le_bytes_len(bytes.len(), 4);
            lemma_le_value_of_bytes(bytes.len(), 4);
            assert(tail.len() == b.len() + rest.len());
            assert(delta[i] == tail[0]);
            assert(delta.subrange(i + 1, i + 5) =~= tail.subrange(1, 5));
            assert(tail.subrange(1, 5) =~= le_bytes(bytes.len(), 4));
            assert(tail.subrange(5, 5 + bytes.len() as int) =~= bytes);
            assert(delta.subrange(i + 5, i + 5 + bytes.len()) =~= tail.subrange(5, 5 + bytes.len() as int));
        },
    }
    assert(delta.skip(i + b.len()) =~= tail.skip(b.len() as int));
    assert(tail.skip(b.len() as int) =~= rest);
}

proof fn lemma_read_ops_complete(
    bl: nat,
    tl: nat,
    delta: Seq<u8>,
    i: int,
    total: nat,
    ops: Seq<DeltaOp>,
)
    requires
        0 <= i <= delta.len(),
        bl <= u64::MAX,
        tl <= MAX_PAYLOAD,
        delta.skip(i) == ops_bytes(ops),
        ops_fit(bl, ops),
        total + ops_len(ops) == tl,
    ensures
        read_ops(bl, tl, delta, i, total) == Ok::<Seq<DeltaOp>, Seq<char>>(ops),
    decreases ops.len(),
{
    if ops.len() == 0 {
        assert(delta.skip(i).len() == 0);
        assert(ops =~= Seq::<DeltaOp>::empty());
    } else {
        let op = ops[0];
        let rest = ops.drop_first();
        assert(op_fits(bl, op));
        lemma_read_op_complete(bl, delta, i, op, ops_bytes(rest));
        assert forall|k: int| 0 <= k < rest.len() implies op_fits(bl, #[trigger] rest[k]) by {
            assert(rest[k] == ops[k + 1]);
        }
        lemma_read_ops_complete(bl, tl, delta, i + op_bytes(op).len(), total + op_len(op), rest);
        assert(seq![op] + rest =~= ops);
    }
}

/// A byte string decodes to the instructions `ops` against a base of
/// `base_len` bytes exactly when it is the header with both lengths followed
/// by those instructions, each of which fits, and the target is no longer
/// than an envelope can carry.
pub proof fn law_delta_format(base_len: nat, delta: Seq<u8>, ops: Seq<DeltaOp>)
    requires
        base_len <= u64::MAX,
    ensures
        delta_ops(base_len, delta) == Ok::<Seq<DeltaOp>, Seq<char>>(ops) <==> {
            &&& delta == delta_bytes(base_len, ops_len(ops), ops)
            &&& ops_fit(base_len, ops)
            &&& ops_len(ops) <= MAX_PAYLOAD
        },
{
    let t = ops_len(ops);
    lemma_pow256_values();
    lemma_le_bytes_len(base_len, 8);
    lemma_le_bytes_len(t, 8);
    if delta_ops(base_len, delta) == Ok::<Seq<DeltaOp>, Seq<char>>(ops) {
        lemma_read_ops_sound(base_len, le_value(delta.subrange(8, 16)), delta, 16, 0);
        lemma_le_bytes_of_value(delta.subrange(0, 8));
        lemma_le_bytes_of_value(delta.subrange(8, 16));
        assert(delta =~= delta.subrange(0, 8) + delta.subrange(8, 16) + delta.skip(16));
    }
    if delta == delta_bytes(base_len, t, ops) && ops_fit(base_len, ops) && t <= MAX_PAYLOAD {
        lemma_le_value_of_bytes(base_len, 8);
        lemma_le_value_of_bytes(t, 8);
        assert(delta.subrange(0, 8) =~= le_bytes(base_len, 8));
        assert(delta.subrange(8, 16) =~= le_bytes(t, 8));
        assert(delta.skip(16) =~= ops_bytes(ops));
        lemma_read_ops_complete(base_len, t, delta, 16, 0, ops);
    }
}

// -------------------------------------------------- the encoder's output

/// `ops` fit the base, are all productive, and produce `t`.
spec fn makes(base: Seq<u8>, ops: Seq<DeltaOp>, t: Seq<u8>) -> bool {
    &&& ops_fit(base.len(), ops)
    &&& ops_output(base, ops) == t
    &&& ops_len(ops) == t.len()
    &&& productive(ops)
}

spec fn productive(ops: Seq<DeltaOp>) -> bool {
    forall|i: int| 0 <= i < ops.len() ==> op_len(#[trigger] ops[i]) > 0
}

proof fn lemma_makes_concat(base: Seq<u8>, a: Seq<DeltaOp>, b: Seq<DeltaOp>, s: Seq<u8>, t: Seq<u8>)
    requires
        makes(base, a, s),
        makes(base, b, t),
    ensures
        makes(base, a + b, s + t),
    decreases a.len(),
{
    if a.len() == 0 {
        assert(a + b =~= b);
        assert(s + t =~= t);
    } else {
        let a1 = a.drop_first();
        let s1 = ops_output(base, a1);
        assert((a + b).drop_first() =~= a1 + b);
        assert forall|i: int| 0 <= i < a1.len() implies op_fits(base.len(), #[trigger] a1[i]) && op_len(a1[i]) > 0 by {
            assert(a1[i] == a[i + 1]);
        }
        assert(op_fits(base.len(), a[0]) && op_len(a[0]) > 0);
        assert(op_output(base, a[0]).len() == op_len(a[0]));
        lemma_makes_concat(base, a1, b, s1, t);
        assert(s + t =~= op_output(base, a[0]) + (s1 + t));
        assert forall|i: int| 0 <= i < (a + b).len() implies op_fits(base.len(), #[trigger] (a + b)[i]) && op_len((a + b)[i]) > 0 by {
            if i < a.len() {
                assert((a + b)[i] == a[i]);
            } else {
                assert((a + b)[i] == b[i - a.len()]);
            }
        }
    }
}

proof fn lemma_makes_one(base: Seq<u8>, op: DeltaOp)
    requires
        op_fits(base.len(), op),
        op_len(op) > 0,
    ensures
        makes(base, seq![op], op_output(base, op)),
{
    let ops = seq![op];
    assert(ops.drop_first() =~= Seq::<DeltaOp>::empty());
    assert(ops_output(base, Seq::<DeltaOp>::empty()) =~= Seq::<u8>::empty());
    assert(ops_output(base, ops) =~= op_output(base, op));
    assert(ops_len(Seq::<DeltaOp>::empty()) == 0);
}

proof fn lemma_literal(base: Seq<u8>, target: Seq<u8>, from: int, to: int)
    requires
        0 <= from <= to <= target.len(),
    ensures
        makes(base, literal_ops(target, from, to), target.subrange(from, to)),
    decreases to - from,
{
    if from >= to {
        assert(target.subrange(from, to) =~= Seq::<u8>::empty());
    } else {
        let n = if to - from <= u32::MAX { to - from } else { u32::MAX as int };
        let op = DeltaOp::Insert { bytes: target.subrange(from, from + n) };
        lemma_makes_one(base, op);
        lemma_literal(base, target, from + n, to);
        lemma_makes_concat(base, seq![op], literal_ops(target, from + n, to), target.subrange(from, from + n), target.subrange(from + n, to));
        assert(target.subrange(from, from + n) + target.subrange(from + n, to) =~= target.subrange(from, to));
    }
}

proof fn lemma_match_len(base: Seq<u8>, target: Seq<u8>, b: int, t: int)
    requires
        0 <= b <= base.len(),
        0 <= t <= target.len(),
    ensures
        b + match_len(base, target, b, t) <= base.len(),
        t + match_len(base, target, b, t) <= target.len(),
        base.subrange(b, b + match_len(base, target, b, t)) == target.subrange(
            t,
            t + match_len(base, target, b, t),
        ),
    decreases base.len() - b,
{
    let l = match_len(base, target, b, t);
    if b < base.len() && t < target.len() && base[b] == target[t] {
        lemma_match_len(base, target, b + 1, t + 1);
        assert forall|k: int| 0 <= k < l implies #[trigger] base.subrange(b, b + l)[k] == target.subrange(t, t + l)[k] by {
            if k > 0 {
                assert(base.subrange(b + 1, b + l)[k - 1] == target.subrange(t + 1, t + l)[k - 1]);
            }
        }
    }
    assert(base.subrange(b, b + l) =~= target.subrange(t, t + l));
}

spec fn is_match(base: Seq<u8>, target: Seq<u8>, pos: int, m: (nat, nat)) -> bool {
    &&& m.1 + m.0 <= base.len()
    &&& pos + m.0 <= target.len()
    &&& base.subrange(m.1 as int, (m.1 + m.0) as int) == target.subrange(pos, pos + m.0)
}

proof fn lemma_best_match(base: Seq<u8>, target: Seq<u8>, size: nat, pos: int, cand: int, left: nat, best: (nat, nat))
    requires
        0 <= pos <= target.len(),
        is_match(base, target, pos, best),
    ensures
        is_match(base, target, pos, best_match(base, target, size, pos, cand, left, best)),
    decreases left,
{
    if left > 0 && 0 <= cand < base.len() as int / 16 {
        let l = match_len(base, target, cand * 16, pos);
        lemma_match_len(base, target, cand * 16, pos);
        lemma_best_match(
            base,
            target,
            size,
            pos,
            next_block(base, size, chain_of(block(base, cand), size), cand + 1),
            (left - 1) as nat,
            if l > best.0 { (l, (cand * 16) as nat) } else { best },
        );
    }
}

proof fn lemma_greedy(base: Seq<u8>, target: Seq<u8>, pos: int, lit: int)
    requires
        0 <= lit <= pos <= target.len(),
    ensures
        makes(base, greedy_from(base, target, pos, lit), target.subrange(lit, target.len() as int)),
    decreases target.len() - pos,
{
    if target.len() - pos < 16 {
        lemma_literal(base, target, lit, target.len() as int);
    } else {
        let size = table_size(base.len() / 16);
        let h = chain_of(target.subrange(pos, pos + 16), size);
        assert(base.subrange(0, 0) =~= target.subrange(pos, pos + 0));
        lemma_best_match(base, target, size, pos, next_block(base, size, h, 0), 64, (0, 0));
        let m = match_at(base, target, pos);
        if m.0 >= 16 {
            let op = DeltaOp::Copy { off: m.1, len: m.0 };
            let e = pos + m.0;
            let n = target.len() as int;
            lemma_literal(base, target, lit, pos);
            lemma_makes_one(base, op);
            lemma_greedy(base, target, e, e);
            lemma_makes_concat(base, literal_ops(target, lit, pos), seq![op], target.subrange(lit, pos), target.subrange(pos, e));
            assert(target.subrange(lit, pos) + target.subrange(pos, e) =~= target.subrange(lit, e));
            lemma_makes_concat(base, literal_ops(target, lit, pos) + seq![op], greedy_from(base, target, e, e), target.subrange(lit, e), target.subrange(e, n));
            assert(target.subrange(lit, e) + target.subrange(e, n) =~= target.subrange(lit, n));
        } else {
            lemma_greedy(base, target, pos + 1, lit);
        }
    }
}

/// Applying what the encoder made of `target` against `base` to that base
/// gives `target` back, for every target that an envelope can carry.
pub proof fn law_delta_round_trip(base: Seq<u8>, target: Seq<u8>)
    requires
        base.len() <= u64::MAX,
        target.len() <= MAX_PAYLOAD,
    ensures
        delta_result(base, delta_encoding(base, target)) == Ok::<Seq<u8>, Fault>(target),
{
    lemma_greedy(base, target, 0, 0);
    assert(target.subrange(0, target.len() as int) =~= target);
    law_delta_format(base.len(), delta_encoding(base, target), greedy_ops(base, target));
}

proof fn lemma_shorter_bytes_shorter_output(bl: nat, a: Seq<DeltaOp>, b: Seq<DeltaOp>)
    requires
        bl <= u64::MAX,
        ops_fit(bl, a),
        ops_fit(bl, b),
        productive(b),
        ops_bytes(a).len() < ops_bytes(b).len(),
        ops_bytes(a) == ops_bytes(b).take(ops_bytes(a).len() as int),
    ensures
        ops_len(a) < ops_len(b),
    decreases a.len(),
{
    assert(b.len() > 0);
    assert(op_fits(bl, b[0]) && op_len(b[0]) > 0);
    let b1 = b.drop_first();
    if a.len() > 0 {
        let a1 = a.drop_first();
        let (x, y) = (ops_bytes(a), ops_bytes(b));
        assert(op_fits(bl, a[0]));
        assert(x.skip(0) =~= op_bytes(a[0]) + ops_bytes(a1));
        lemma_read_op_complete(bl, x, 0, a[0], ops_bytes(a1));
        let p = op_bytes(a[0]).len();
        assert(y.skip(0) =~= op_bytes(a[0]) + y.skip(p as int));
        lemma_read_op_complete(bl, y, 0, a[0], y.skip(p as int));
        assert(y.skip(0) =~= op_bytes(b[0]) + ops_bytes(b1));
        lemma_read_op_complete(bl, y, 0, b[0], ops_bytes(b1));
        assert(a[0] == b[0]);
        assert forall|i: int| 0 <= i < a1.len() implies op_fits(bl, #[trigger] a1[i]) by {
            assert(a1[i] == a[i + 1]);
        }
        assert forall|i: int| 0 <= i < b1.len() implies op_fits(bl, #[trigger] b1[i]) && op_len(b1[i]) > 0 by {
            assert(b1[i] == b[i + 1]);
        }
        assert(ops_bytes(a1) =~= ops_bytes(b1).take(ops_bytes(a1).len() as int)) by {
            assert forall|k: int| 0 <= k < ops_bytes(a1).len() implies ops_bytes(a1)[k] == ops_bytes(b1)[k] by {
                assert(x[k + p] == y[k + p]);
            }
        }
        lemma_shorter_bytes_shorter_output(bl, a1, b1);
    }
}

/// A delta that the encoder made and that lost bytes at its end is refused.
pub proof fn law_delta_prefix_refused(base: Seq<u8>, target: Seq<u8>, n: int)
    requires
        base.len() <= u64::MAX,
        target.len() <= MAX_PAYLOAD,
        0 <= n < delta_encoding(base, target).len(),
    ensures
        delta_result(base, delta_encoding(base, target).take(n)) is Err,
{
    let whole = delta_encoding(base, target);
    let cut = whole.take(n);
    if delta_ops(base.len(), cut) is Ok {
        let ops = delta_ops(base.len(), cut)->Ok_0;
        let all = greedy_ops(base, target);
        lemma_greedy(base, target, 0, 0);
        lemma_pow256_values();
        law_delta_format(base.len(), cut, ops);
        lemma_le_bytes_len(base.len(), 8);
        lemma_le_bytes_len(target.len(), 8);
        lemma_le_bytes_len(ops_len(ops), 8);
        lemma_le_value_of_bytes(ops_len(ops), 8);
        lemma_le_value_of_bytes(target.len(), 8);
        assert(cut.subrange(8, 16) =~= whole.subrange(8, 16));
        assert(cut.subrange(8, 16) =~= le_bytes(ops_len(ops), 8));
        assert(whole.subrange(8, 16) =~= le_bytes(target.len(), 8));
        assert(cut.skip(16) =~= ops_bytes(ops));
        assert(whole.skip(16) =~= ops_bytes(all));
        assert(ops_bytes(ops) =~= ops_bytes(all).take(ops_bytes(ops).len() as int)) by {
            assert(cut.skip(16) =~= whole.skip(16).take(n - 16));
        }
        lemma_shorter_bytes_shorter_output(base.len(), ops, all);
        assert(false);
    }
}

/// A delta is refused for every base of another length than the one it was
/// made against, and the refusal names both lengths.
pub proof fn law_delta_wrong_base(base: Seq<u8>, other: Seq<u8>, target: Seq<u8>)
    requires
        base.len() <= u64::MAX,
        other.len() != base.len(),
    ensures
        delta_result(other, delta_encoding(base, target)) == Err::<Seq<u8>, Fault>(
            Fault::Corrupt(
                "delta-v1: "@ + ("base is "@ + crate::text::dec(other.len())
                    + " bytes but the delta was made against "@ + crate::text::dec(base.len())
                    + " — wrong base"@),
            ),
        ),
{
    let d = delta_encoding(base, target);
    lemma_pow256_values();
    lemma_le_bytes_len(base.len(), 8);
    lemma_le_bytes_len(target.len(), 8);
    lemma_le_value_of_bytes(base.len(), 8);
    assert(d.subrange(0, 8) =~= le_bytes(base.len(), 8));
}

} // verus!
