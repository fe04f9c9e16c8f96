//! A stable sort that returns the order as indices.

use vstd::prelude::*;

verus! {

/// Keys with a total preorder.
pub trait Ranked: Sized {
    /// What a key is compared by.
    type Rank;

    spec fn rank(self) -> Self::Rank;

    spec fn le(a: Self::Rank, b: Self::Rank) -> bool;

    proof fn total(a: Self::Rank, b: Self::Rank)
        ensures
            Self::le(a, b) || Self::le(b, a),
    ;

    proof fn transitive(a: Self::Rank, b: Self::Rank, c: Self::Rank)
        requires
            Self::le(a, b),
            Self::le(b, c),
        ensures
            Self::le(a, c),
    ;

    fn at_most(&self, other: &Self) -> (r: bool)
        ensures
            r == Self::le(self.rank(), other.rank()),
    ;
}

impl Ranked for u64 {
    type Rank = u64;

    open spec fn rank(self) -> u64 {
        self
    }

    open spec fn le(a: u64, b: u64) -> bool {
        a <= b
    }

    proof fn total(a: u64, b: u64) {
    }

    proof fn transitive(a: u64, b: u64, c: u64) {
    }

    fn at_most(&self, other: &u64) -> (r: bool) {
        *self <= *other
    }
}

/// In a stable sort by `keys`, index `i` comes before index `j`.
pub open spec fn before<K: Ranked>(keys: Seq<K::Rank>, i: int, j: int) -> bool {
    if i < j { K::le(keys[i], keys[j]) } else { i != j && !K::le(keys[j], keys[i]) }
}

/// `x` stands somewhere in `order`.
pub open spec fn lists(order: Seq<usize>, x: int) -> bool {
    exists|a: int| 0 <= a < order.len() && #[trigger] order[a] == x
}

/// `order` lists the indices from `lo` up to `hi`, each once, stably sorted.
pub open spec fn is_run<K: Ranked>(keys: Seq<K::Rank>, order: Seq<usize>, lo: int, hi: int) -> bool {
    &&& order.len() == hi - lo
    &&& forall|a: int| 0 <= a < order.len() ==> lo <= #[trigger] order[a] < hi
    &&& forall|x: int| lo <= x < hi ==> #[trigger] lists(order, x)
    &&& forall|a: int, b: int| 0 <= a < b < order.len() ==> before::<K>(
        keys,
        #[trigger] order[a] as int,
        #[trigger] order[b] as int,
    )
}

/// `order` is the stable sort of all indices by `keys`.
pub open spec fn is_sorting<K: Ranked>(keys: Seq<K::Rank>, order: Seq<usize>) -> bool {
    is_run::<K>(keys, order, 0, keys.len() as int)
}

pub proof fn lemma_before_transitive<K: Ranked>(keys: Seq<K::Rank>, i: int, j: int, k: int)
    requires
        before::<K>(keys, i, j),
        before::<K>(keys, j, k),
    ensures
        before::<K>(keys, i, k),
{
    let (a, b, c) = (keys[i], keys[j], keys[k]);
    K::total(a, b);
    K::total(b, c);
    K::total(a, c);
    if K::le(a, b) && K::le(b, c) {
        K::transitive(a, b, c);
    }
    if K::le(c, a) && K::le(a, b) {
        K::transitive(c, a, b);
    }
    if K::le(b, c) && K::le(c, a) {
        K::transitive(b, c, a);
    }
}

pub proof fn lemma_before_asymmetric<K: Ranked>(keys: Seq<K::Rank>, i: int, j: int)
    requires
        before::<K>(keys, i, j),
    ensures
        !before::<K>(keys, j, i),
{
}

proof fn lemma_same_head<K: Ranked>(keys: Seq<K::Rank>, p: Seq<usize>, q: Seq<usize>, n: int)
    requires
        is_sorting::<K>(keys, p),
        is_sorting::<K>(keys, q),
        0 <= n < keys.len(),
        p.take(n) == q.take(n),
    ensures
        !before::<K>(keys, q[n] as int, p[n] as int),
{
    if before::<K>(keys, q[n] as int, p[n] as int) {
        let x = q[n] as int;
        assert(lists(p, x));
        let a = choose|a: int| 0 <= a < p.len() && #[trigger] p[a] == x;
        if a < n {
            assert(p.take(n)[a] == p[a] && q.take(n)[a] == q[a]);
            assert(before::<K>(keys, q[a] as int, q[n] as int));
        } else if a > n {
            assert(before::<K>(keys, p[n] as int, p[a] as int));
            lemma_before_asymmetric::<K>(keys, x, p[n] as int);
        }
    }
}

proof fn lemma_sorting_unique_to<K: Ranked>(keys: Seq<K::Rank>, p: Seq<usize>, q: Seq<usize>, n: int)
    requires
        is_sorting::<K>(keys, p),
        is_sorting::<K>(keys, q),
        0 <= n <= keys.len(),
    ensures
        p.take(n) == q.take(n),
    decreases n,
{
    if n > 0 {
        lemma_sorting_unique_to::<K>(keys, p, q, n - 1);
        lemma_same_head::<K>(keys, p, q, n - 1);
        lemma_same_head::<K>(keys, q, p, n - 1);
        let (x, y) = (p[n - 1] as int, q[n - 1] as int);
        K::total(keys[x], keys[y]);
        assert(x == y);
        assert(p.take(n) =~= p.take(n - 1).push(p[n - 1]));
        assert(q.take(n) =~= q.take(n - 1).push(q[n - 1]));
    } else {
        assert(p.take(0) =~= q.take(0));
    }
}

/// There is only one stable sort.
pub proof fn lemma_sorting_unique<K: Ranked>(keys: Seq<K::Rank>, p: Seq<usize>, q: Seq<usize>)
    requires
        is_sorting::<K>(keys, p),
        is_sorting::<K>(keys, q),
    ensures
        p == q,
{
    let n = keys.len() as int;
    lemma_sorting_unique_to::<K>(keys, p, q, n);
    assert(p.take(n) =~= p);
    assert(q.take(n) =~= q);
}

/// What a list of keys is compared by.
pub open spec fn ranks<K: Ranked>(keys: Seq<K>) -> Seq<K::Rank> {
    keys.map_values(|k: K| k.rank())
}

/// The stable sort of the indices of `keys`.
pub open spec fn sorting<K: Ranked>(keys: Seq<K::Rank>) -> Seq<usize> {
    choose|order: Seq<usize>| is_sorting::<K>(keys, order)
}

fn merge<K: Ranked>(keys: &[K], x: &Vec<usize>, y: &Vec<usize>, lo: usize, mid: usize, hi: usize) -> (out: Vec<usize>)
    requires
        lo <= mid <= hi <= keys@.len(),
        is_run::<K>(ranks(keys@), x@, lo as int, mid as int),
        is_run::<K>(ranks(keys@), y@, mid as int, hi as int),
    ensures
        is_run::<K>(ranks(keys@), out@, lo as int, hi as int),
{
    let mut out: Vec<usize> = Vec::with_capacity(x.len());
    let mut i: usize = 0;
    let mut j: usize = 0;
    while i < x.len() || j < y.len()
        invariant
            lo <= mid <= hi <= keys@.len(),
            is_run::<K>(ranks(keys@), x@, lo as int, mid as int),
            is_run::<K>(ranks(keys@), y@, mid as int, hi as int),
            i <= x@.len(),
            j <= y@.len(),
            out@.len() == i + j,
            forall|a: int| 0 <= a < out@.len() ==> lo <= #[trigger] out@[a] < hi,
            forall|a: int, b: int| 0 <= a < b < out@.len() ==> before::<K>(
                ranks(keys@),
                #[trigger] out@[a] as int,
                #[trigger] out@[b] as int,
            ),
            forall|a: int, b: int| 0 <= a < out@.len() && i <= b < x@.len() ==> before::<K>(
                ranks(keys@),
                #[trigger] out@[a] as int,
                #[trigger] x@[b] as int,
            ),
            forall|a: int, b: int| 0 <= a < out@.len() && j <= b < y@.len() ==> before::<K>(
                ranks(keys@),
                #[trigger] out@[a] as int,
                #[trigger] y@[b] as int,
            ),
            forall|b: int| 0 <= b < i ==> exists|a: int| 0 <= a < out@.len() && #[trigger] out@[a] == #[trigger] x@[b],
            forall|b: int| 0 <= b < j ==> exists|a: int| 0 <= a < out@.len() && #[trigger] out@[a] == #[trigger] y@[b],
        decreases x@.len() - i + y@.len() - j,
    {
        let from_x: bool = if i == x.len() {
            false
        } else if j == y.len() {
            true
        } else {
            keys[x[i]].at_most(&keys[y[j]])
        };
        let next: usize = if from_x { x[i] } else { y[j] };
        let ghost prev = out@;
        let ghost (i0, j0) = (i as int, j as int);
        out.push(next);
        if from_x {
            i += 1;
        } else {
            j += 1;
        }
        proof {
            assert(out@ == prev.push(next));
            assert forall|b: int| i <= b < x@.len() implies before::<K>(ranks(keys@), next as int, #[trigger] x@[b] as int) by {
                if from_x {
                    assert(before::<K>(ranks(keys@), x@[i0] as int, x@[b] as int));
                } else {
                    if i0 < b {
                        assert(before::<K>(ranks(keys@), x@[i0] as int, x@[b] as int));
                    }
                    K::total(ranks(keys@)[x@[i0] as int], ranks(keys@)[y@[j0] as int]);
                    assert(before::<K>(ranks(keys@), y@[j0] as int, x@[i0] as int));
                    if i0 < b {
                        lemma_before_transitive::<K>(ranks(keys@), y@[j0] as int, x@[i0] as int, x@[b] as int);
                    }
                }
            }
            assert forall|b: int| j <= b < y@.len() implies before::<K>(ranks(keys@), next as int, #[trigger] y@[b] as int) by {
                if !from_x {
                    assert(before::<K>(ranks(keys@), y@[j0] as int, y@[b] as int));
                } else {
                    assert(before::<K>(ranks(keys@), x@[i0] as int, y@[j0] as int));
                    if j0 < b {
                        assert(before::<K>(ranks(keys@), y@[j0] as int, y@[b] as int));
                        lemma_before_transitive::<K>(ranks(keys@), x@[i0] as int, y@[j0] as int, y@[b] as int);
                    }
                }
            }
            assert forall|b: int| 0 <= b < i implies exists|a: int| 0 <= a < out@.len() && #[trigger] out@[a] == #[trigger] x@[b] by {
                if b < i0 {
                    let a = choose|a: int| 0 <= a < prev.len() && #[trigger] prev[a] == x@[b];
                    assert(out@[a] == x@[b]);
                } else {
                    assert(out@[prev.len() as int] == x@[b]);
                }
            }
            assert forall|b: int| 0 <= b < j implies exists|a: int| 0 <= a < out@.len() && #[trigger] out@[a] == #[trigger] y@[b] by {
                if b < j0 {
                    let a = choose|a: int| 0 <= a < prev.len() && #[trigger] prev[a] == y@[b];
                    assert(out@[a] == y@[b]);
                } else {
                    assert(out@[prev.len() as int] == y@[b]);
                }
            }
        }
    }
    proof {
        assert forall|v: int| lo <= v < hi implies #[trigger] lists(out@, v) by {
            if v < mid {
                assert(lists(x@, v));
                let b = choose|b: int| 0 <= b < x@.len() && #[trigger] x@[b] == v;
                let a = choose|a: int| 0 <= a < out@.len() && #[trigger] out@[a] == x@[b];
                assert(out@[a] == v);
            } else {
                assert(lists(y@, v));
                let b = choose|b: int| 0 <= b < y@.len() && #[trigger] y@[b] == v;
                let a = choose|a: int| 0 <= a < out@.len() && #[trigger] out@[a] == y@[b];
                assert(out@[a] == v);
            }
        }
    }
    out
}

fn sort_range<K: Ranked>(keys: &[K], lo: usize, hi: usize) -> (out: Vec<usize>)
    requires
        lo <= hi <= keys@.len(),
    ensures
        is_run::<K>(ranks(keys@), out@, lo as int, hi as int),
    decreases hi - lo,
{
    let mut out: Vec<usize> = Vec::new();
    if hi - lo == 0 {
        return out;
    }
    if hi - lo == 1 {
        out.push(lo);
        proof {
            assert(out@[0] == lo);
        }
        return out;
    }
    let mid: usize = lo + (hi - lo) / 2;
    let x = sort_range(keys, lo, mid);
    let y = sort_range(keys, mid, hi);
    merge(keys, &x, &y, lo, mid, hi)
}

/// The stable sort of the indices of `keys`.
pub(crate) fn sorted_order<K: Ranked>(keys: &[K]) -> (order: Vec<usize>)
    ensures
        is_sorting::<K>(ranks(keys@), order@),
        order@ == sorting::<K>(ranks(keys@)),
{
    let out = sort_range(keys, 0, keys.len());
    proof {
        assert(is_sorting::<K>(ranks(keys@), out@));
        lemma_sorting_unique::<K>(ranks(keys@), out@, sorting::<K>(ranks(keys@)));
    }
    out
}

proof fn lemma_run_exists<K: Ranked>(keys: Seq<K::Rank>, n: int) -> (order: Seq<usize>)
    requires
        0 <= n <= keys.len() <= usize::MAX,
    ensures
        is_run::<K>(keys, order, 0, n),
    decreases n,
{
    if n == 0 {
        Seq::empty()
    } else {
        let o = lemma_run_exists::<K>(keys, n - 1);
        let p = lemma_insert_at::<K>(keys, o, n - 1, 0);
        let r = o.insert(p, (n - 1) as usize);
        assert forall|x: int| 0 <= x < n implies #[trigger] lists(r, x) by {
            if x == n - 1 {
                assert(r[p] == x);
            } else {
                assert(lists(o, x));
                let a = choose|a: int| 0 <= a < o.len() && #[trigger] o[a] == x;
                if a < p {
                    assert(r[a] == x);
                } else {
                    assert(r[a + 1] == x);
                }
            }
        }
        r
    }
}

/// Where index `m` goes in a run of the indices below it.
proof fn lemma_insert_at<K: Ranked>(keys: Seq<K::Rank>, o: Seq<usize>, m: int, from: int) -> (p: int)
    requires
        0 <= m < keys.len(),
        is_run::<K>(keys, o, 0, m),
        0 <= from <= o.len(),
        forall|a: int| 0 <= a < from ==> before::<K>(keys, #[trigger] o[a] as int, m),
    ensures
        0 <= p <= o.len(),
        forall|a: int| 0 <= a < p ==> before::<K>(keys, #[trigger] o[a] as int, m),
        forall|a: int| p <= a < o.len() ==> before::<K>(keys, m, #[trigger] o[a] as int),
    decreases o.len() - from,
{
    if from == o.len() {
        from
    } else if before::<K>(keys, o[from] as int, m) {
        lemma_insert_at::<K>(keys, o, m, from + 1)
    } else {
        K::total(keys[m], keys[o[from] as int]);
        assert forall|a: int| from <= a < o.len() implies before::<K>(keys, m, #[trigger] o[a] as int) by {
            if a > from {
                assert(before::<K>(keys, o[from] as int, o[a] as int));
                lemma_before_transitive::<K>(keys, m, o[from] as int, o[a] as int);
            }
        }
        from
    }
}

/// The stable sort exists.
pub proof fn lemma_sorting_exists<K: Ranked>(keys: Seq<K::Rank>)
    requires
        keys.len() <= usize::MAX,
    ensures
        is_sorting::<K>(keys, sorting::<K>(keys)),
{
    let o = lemma_run_exists::<K>(keys, keys.len() as int);
    assert(is_sorting::<K>(keys, o));
}

} // verus!
