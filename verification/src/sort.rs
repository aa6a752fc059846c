//! A stable sort by number and text.

use vstd::prelude::*;

use crate::scan::{
    law_order_is_irreflexive, law_order_is_total, law_order_is_transitive, less, lex_less,
};

verus! {

/// What is sorted by: the numbers in turn, then the text.
pub struct SortKey {
    pub rank: (usize, usize, usize, usize, usize),
    pub text: Vec<char>,
}

#[verifier::ext_equal]
pub struct SortKeyView {
    pub rank: (usize, usize, usize, usize, usize),
    pub text: Seq<char>,
}

impl View for SortKey {
    type V = SortKeyView;

    open spec fn view(&self) -> SortKeyView {
        SortKeyView { rank: self.rank, text: self.text@ }
    }
}

pub open spec fn keys_view(v: Seq<SortKey>) -> Seq<SortKeyView> {
    v.map_values(|k: SortKey| k@)
}

/// Whether the numbers `a` come before `b`, the first that differs deciding.
pub open spec fn rank_less(
    a: (usize, usize, usize, usize, usize),
    b: (usize, usize, usize, usize, usize),
) -> bool {
    if a.0 != b.0 {
        a.0 < b.0
    } else if a.1 != b.1 {
        a.1 < b.1
    } else if a.2 != b.2 {
        a.2 < b.2
    } else if a.3 != b.3 {
        a.3 < b.3
    } else {
        a.4 < b.4
    }
}

pub open spec fn key_less(a: SortKeyView, b: SortKeyView) -> bool {
    rank_less(a.rank, b.rank) || (a.rank == b.rank && lex_less(a.text, b.text))
}

/// Whether the item at `a` comes before the one at `b`: by key, and among
/// equal keys by place.
pub open spec fn precedes(keys: Seq<SortKeyView>, a: int, b: int) -> bool {
    key_less(keys[a], keys[b]) || (keys[a] == keys[b] && a < b)
}

/// `order` lists the places `from..to`, each once, in the order of their keys.
pub open spec fn sorted_places(
    keys: Seq<SortKeyView>,
    order: Seq<usize>,
    from: int,
    to: int,
) -> bool {
    &&& order.len() == to - from
    &&& forall|i: int| 0 <= i < order.len() ==> from <= #[trigger] order[i] < to
    &&& forall|i: int, j: int|
        0 <= i < j < order.len() ==> precedes(
            keys,
            #[trigger] order[i] as int,
            #[trigger] order[j] as int,
        )
    &&& forall|x: usize| from <= x < to ==> #[trigger] order.contains(x)
}

proof fn lemma_key_total(a: SortKeyView, b: SortKeyView)
    ensures
        key_less(a, b) || key_less(b, a) || a == b,
        !(key_less(a, b) && key_less(b, a)),
        !(key_less(a, b) && a == b),
{
    law_order_is_total(a.text, b.text);
    law_order_is_irreflexive(a.text);
    if lex_less(a.text, b.text) && lex_less(b.text, a.text) {
        law_order_is_transitive(a.text, b.text, a.text);
    }
}

proof fn lemma_key_transitive(a: SortKeyView, b: SortKeyView, c: SortKeyView)
    requires
        key_less(a, b),
        key_less(b, c),
    ensures
        key_less(a, c),
{
    if a.rank == b.rank && b.rank == c.rank {
        law_order_is_transitive(a.text, b.text, c.text);
    }
}

proof fn lemma_precedes_transitive(keys: Seq<SortKeyView>, a: int, b: int, c: int)
    requires
        precedes(keys, a, b),
        precedes(keys, b, c),
    ensures
        precedes(keys, a, c),
{
    if key_less(keys[a], keys[b]) && key_less(keys[b], keys[c]) {
        lemma_key_transitive(keys[a], keys[b], keys[c]);
    }
}

fn key_before(a: &SortKey, b: &SortKey) -> (r: bool)
    ensures
        r == key_less(a@, b@),
{
    let x = a.rank;
    let y = b.rank;
    if x.0 != y.0 {
        x.0 < y.0
    } else if x.1 != y.1 {
        x.1 < y.1
    } else if x.2 != y.2 {
        x.2 < y.2
    } else if x.3 != y.3 {
        x.3 < y.3
    } else if x.4 != y.4 {
        x.4 < y.4
    } else {
        less(&a.text, &b.text)
    }
}

/// What a merge has done so far: `out` holds the first `i` of `a` and the
/// first `j` of `b`, in order, and before all that is left.
spec fn merging(
    keys: Seq<SortKeyView>,
    a: Seq<usize>,
    b: Seq<usize>,
    out: Seq<usize>,
    i: int,
    j: int,
) -> bool {
    &&& 0 <= i <= a.len() && 0 <= j <= b.len() && out.len() == i + j
    &&& forall|k: int| 0 <= k < i ==> out.contains(#[trigger] a[k])
    &&& forall|k: int| 0 <= k < j ==> out.contains(#[trigger] b[k])
    &&& forall|k: int| 0 <= k < out.len() ==> a.contains(#[trigger] out[k]) || b.contains(out[k])
    &&& forall|p: int, q: int|
        0 <= p < q < out.len() ==> precedes(
            keys,
            #[trigger] out[p] as int,
            #[trigger] out[q] as int,
        )
    &&& forall|p: int, k: int|
        0 <= p < out.len() && i <= k < a.len() ==> precedes(
            keys,
            #[trigger] out[p] as int,
            #[trigger] a[k] as int,
        )
    &&& forall|p: int, k: int|
        0 <= p < out.len() && j <= k < b.len() ==> precedes(
            keys,
            #[trigger] out[p] as int,
            #[trigger] b[k] as int,
        )
}

/// Both lists are in order.
spec fn in_order(keys: Seq<SortKeyView>, a: Seq<usize>) -> bool {
    forall|p: int, q: int|
        0 <= p < q < a.len() ==> precedes(keys, #[trigger] a[p] as int, #[trigger] a[q] as int)
}

proof fn lemma_pushed(out: Seq<usize>, x: usize, y: usize)
    ensures
        out.contains(y) ==> out.push(x).contains(y),
        out.push(x).contains(x),
{
    if out.contains(y) {
        let k = choose|k: int| 0 <= k < out.len() && out[k] == y;
        assert(out.push(x)[k] == y);
    }
    assert(out.push(x)[out.len() as int] == x);
}

/// Taking the next of `a`, where it comes before the next of `b`.
proof fn lemma_take_left(
    keys: Seq<SortKeyView>,
    a: Seq<usize>,
    b: Seq<usize>,
    out: Seq<usize>,
    i: int,
    j: int,
)
    requires
        merging(keys, a, b, out, i, j),
        in_order(keys, a),
        in_order(keys, b),
        i < a.len(),
        j < b.len() ==> precedes(keys, a[i] as int, b[j] as int),
    ensures
        merging(keys, a, b, out.push(a[i]), i + 1, j),
{
    let next = out.push(a[i]);
    assert forall|k: int| 0 <= k < i + 1 implies next.contains(#[trigger] a[k]) by {
        lemma_pushed(out, a[i], a[k]);
    }
    assert forall|k: int| 0 <= k < j implies next.contains(#[trigger] b[k]) by {
        lemma_pushed(out, a[i], b[k]);
    }
    assert forall|k: int| 0 <= k < next.len() implies a.contains(#[trigger] next[k]) || b.contains(
        next[k],
    ) by {
        if k < out.len() {
            assert(next[k] == out[k]);
        }
    }
    assert forall|p: int, k: int| 0 <= p < next.len() && j <= k < b.len() implies precedes(
        keys,
        #[trigger] next[p] as int,
        #[trigger] b[k] as int,
    ) by {
        if p == out.len() && k > j {
            lemma_precedes_transitive(keys, a[i] as int, b[j] as int, b[k] as int);
        }
    }
}

/// Taking the next of `b`, where it comes before the next of `a`.
proof fn lemma_take_right(
    keys: Seq<SortKeyView>,
    a: Seq<usize>,
    b: Seq<usize>,
    out: Seq<usize>,
    i: int,
    j: int,
)
    requires
        merging(keys, a, b, out, i, j),
        in_order(keys, a),
        in_order(keys, b),
        j < b.len(),
        i < a.len() ==> precedes(keys, b[j] as int, a[i] as int),
    ensures
        merging(keys, a, b, out.push(b[j]), i, j + 1),
{
    let next = out.push(b[j]);
    assert forall|k: int| 0 <= k < j + 1 implies next.contains(#[trigger] b[k]) by {
        lemma_pushed(out, b[j], b[k]);
    }
    assert forall|k: int| 0 <= k < i implies next.contains(#[trigger] a[k]) by {
        lemma_pushed(out, b[j], a[k]);
    }
    assert forall|k: int| 0 <= k < next.len() implies a.contains(#[trigger] next[k]) || b.contains(
        next[k],
    ) by {
        if k < out.len() {
            assert(next[k] == out[k]);
        }
    }
    assert forall|p: int, k: int| 0 <= p < next.len() && i <= k < a.len() implies precedes(
        keys,
        #[trigger] next[p] as int,
        #[trigger] a[k] as int,
    ) by {
        if p == out.len() && k > i {
            lemma_precedes_transitive(keys, b[j] as int, a[i] as int, a[k] as int);
        }
    }
}

fn merge(keys: &Vec<SortKey>, a: &Vec<usize>, b: &Vec<usize>, from: usize, mid: usize, to: usize) -> (r: Vec<
    usize,
>)
    requires
        from <= mid <= to <= keys@.len(),
        sorted_places(keys_view(keys@), a@, from as int, mid as int),
        sorted_places(keys_view(keys@), b@, mid as int, to as int),
    ensures
        sorted_places(keys_view(keys@), r@, from as int, to as int),
{
    let ghost all = keys_view(keys@);
    let mut out: Vec<usize> = Vec::new();
    let mut i: usize = 0;
    let mut j: usize = 0;
    while i < a.len() || j < b.len()
        invariant
            all == keys_view(keys@),
            from <= mid <= to <= keys@.len(),
            sorted_places(all, a@, from as int, mid as int),
            sorted_places(all, b@, mid as int, to as int),
            in_order(all, a@),
            in_order(all, b@),
            i <= a@.len(),
            j <= b@.len(),
            merging(all, a@, b@, out@, i as int, j as int),
        decreases a@.len() - i + b@.len() - j,
    {
        let left = if i == a.len() {
            false
        } else if j == b.len() {
            true
        } else {
            let x = a[i];
            let y = b[j];
            proof {
                lemma_key_total(all[x as int], all[y as int]);
                assert(all[x as int] == keys@[x as int]@);
                assert(all[y as int] == keys@[y as int]@);
            }
            !key_before(&keys[y], &keys[x])
        };
        if left {
            proof {
                lemma_take_left(all, a@, b@, out@, i as int, j as int);
            }
            out.push(a[i]);
            i += 1;
        } else {
            proof {
                lemma_take_right(all, a@, b@, out@, i as int, j as int);
            }
            out.push(b[j]);
            j += 1;
        }
    }
    proof {
        assert forall|k: int| 0 <= k < out@.len() implies from <= #[trigger] out@[k] < to by {
            if a@.contains(out@[k]) {
                let p = choose|p: int| 0 <= p < a@.len() && a@[p] == out@[k];
            } else {
                let p = choose|p: int| 0 <= p < b@.len() && b@[p] == out@[k];
            }
        }
        assert forall|x: usize| from <= x < to implies #[trigger] out@.contains(x) by {
            if x < mid {
                assert(a@.contains(x));
                let p = choose|p: int| 0 <= p < a@.len() && a@[p] == x;
                assert(out@.contains(a@[p]));
            } else {
                assert(b@.contains(x));
                let p = choose|p: int| 0 <= p < b@.len() && b@[p] == x;
                assert(out@.contains(b@[p]));
            }
        }
    }
    out
}

fn sort_range(keys: &Vec<SortKey>, from: usize, to: usize) -> (r: Vec<usize>)
    requires
        from <= to <= keys@.len(),
    ensures
        sorted_places(keys_view(keys@), r@, from as int, to as int),
    decreases to - from,
{
    if to - from == 0 {
        return Vec::new();
    }
    if to - from == 1 {
        let mut one: Vec<usize> = Vec::new();
        one.push(from);
        assert(one@[0] == from);
        return one;
    }
    let mid = from + (to - from) / 2;
    let a = sort_range(keys, from, mid);
    let b = sort_range(keys, mid, to);
    merge(keys, &a, &b, from, mid, to)
}

/// The places of `keys` in the order of their keys; equal keys stay in the
/// order in which they stand.
pub fn sorted_order(keys: &Vec<SortKey>) -> (r: Vec<usize>)
    ensures
        sorted_places(keys_view(keys@), r@, 0, keys@.len() as int),
{
    sort_range(keys, 0, keys.len())
}

/// There is one such order.
pub proof fn law_sorted_order_is_unique(keys: Seq<SortKeyView>, a: Seq<usize>, b: Seq<usize>, n: int)
    requires
        0 <= n <= usize::MAX,
        sorted_places(keys, a, 0, n),
        sorted_places(keys, b, 0, n),
    ensures
        a == b,
{
    assert forall|i: int| 0 <= i < n implies a[i] == b[i] by {
        lemma_same_place(keys, a, b, n, i);
    }
    assert(a =~= b);
}

proof fn lemma_same_place(keys: Seq<SortKeyView>, a: Seq<usize>, b: Seq<usize>, n: int, i: int)
    requires
        0 <= n <= usize::MAX,
        0 <= i < n,
        sorted_places(keys, a, 0, n),
        sorted_places(keys, b, 0, n),
    ensures
        a[i] == b[i],
    decreases i,
{
    assert forall|k: int| 0 <= k < i implies a[k] == b[k] by {
        lemma_same_place(keys, a, b, n, k);
    }
    if a[i] != b[i] {
        assert(b.contains(a[i]));
        let p = choose|p: int| 0 <= p < b.len() && b[p] == a[i];
        assert(a.contains(b[i]));
        let q = choose|q: int| 0 <= q < a.len() && a[q] == b[i];
        if p < i {
            assert(a[p] == a[i]);
            assert(precedes(keys, a[p] as int, a[i] as int));
            lemma_key_total(keys[a[i] as int], keys[a[i] as int]);
        }
        if q < i {
            assert(b[q] == b[i]);
            assert(precedes(keys, b[q] as int, b[i] as int));
            lemma_key_total(keys[b[i] as int], keys[b[i] as int]);
        }
        assert(precedes(keys, b[i] as int, b[p] as int));
        assert(precedes(keys, a[i] as int, a[q] as int));
        lemma_key_total(keys[a[i] as int], keys[b[i] as int]);
    }
}

} // verus!
