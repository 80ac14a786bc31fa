//! Stable sorting by an integer key.

use vstd::prelude::*;

verus! {

/// Item `a` stands before item `b`: by key, and by position among equal keys.
pub open spec fn precedes(keys: Seq<i64>, a: int, b: int) -> bool {
    keys[a] < keys[b] || (keys[a] == keys[b] && a < b)
}

/// Every position of `p` is a position of `keys`, none twice.
pub open spec fn distinct_positions(p: Seq<usize>, n: int) -> bool {
    &&& forall|i: int| 0 <= i < p.len() ==> #[trigger] p[i] < n
    &&& forall|i: int, j: int| 0 <= i < j < p.len() ==> #[trigger] p[i] != #[trigger] p[j]
}

/// The positions of `p` come in ascending order of key, equal keys in order of position.
pub open spec fn ascending(keys: Seq<i64>, p: Seq<usize>) -> bool {
    forall|i: int, j: int|
        0 <= i < j < p.len() ==> precedes(keys, #[trigger] p[i] as int, #[trigger] p[j] as int)
}

/// `p` lists all positions of `keys` in stable ascending order of key.
pub open spec fn sorts(keys: Seq<i64>, p: Seq<usize>) -> bool {
    &&& p.len() == keys.len()
    &&& distinct_positions(p, keys.len() as int)
    &&& ascending(keys, p)
}

/// The items of `items` at the positions of `p`.
pub open spec fn picked<T>(items: Seq<T>, p: Seq<usize>) -> Seq<T> {
    Seq::new(p.len(), |i: int| items[p[i] as int])
}

/// Holds the positions `lo..hi`, each once, in ascending order.
spec fn sorts_range(keys: Seq<i64>, p: Seq<usize>, lo: int, hi: int) -> bool {
    &&& p.len() == hi - lo
    &&& forall|i: int| 0 <= i < p.len() ==> lo <= #[trigger] p[i] < hi
    &&& ascending(keys, p)
}

/// Merges two sorted runs that stand next to each other.
fn merge(
    keys: &Vec<i64>,
    a: &Vec<usize>,
    b: &Vec<usize>,
    Ghost(lo): Ghost<int>,
    Ghost(mid): Ghost<int>,
    Ghost(hi): Ghost<int>,
) -> (r: Vec<usize>)
    requires
        0 <= lo <= mid <= hi <= keys@.len(),
        sorts_range(keys@, a@, lo, mid),
        sorts_range(keys@, b@, mid, hi),
    ensures
        sorts_range(keys@, r@, lo, hi),
{
    let mut r: Vec<usize> = Vec::new();
    let mut i: usize = 0;
    let mut j: usize = 0;
    while i < a.len() || j < b.len()
        invariant
            0 <= lo <= mid <= hi <= keys@.len(),
            sorts_range(keys@, a@, lo, mid),
            sorts_range(keys@, b@, mid, hi),
            i <= a.len(),
            j <= b.len(),
            r@.len() == i + j,
            forall|k: int| 0 <= k < r@.len() ==> lo <= #[trigger] r@[k] < hi,
            ascending(keys@, r@),
            forall|k: int, x: int|
                0 <= k < r@.len() && i <= x < a@.len() ==> precedes(
                    keys@,
                    #[trigger] r@[k] as int,
                    #[trigger] a@[x] as int,
                ),
            forall|k: int, x: int|
                0 <= k < r@.len() && j <= x < b@.len() ==> precedes(
                    keys@,
                    #[trigger] r@[k] as int,
                    #[trigger] b@[x] as int,
                ),
        decreases a.len() - i + b.len() - j,
    {
        let from_a = if i == a.len() {
            false
        } else if j == b.len() {
            true
        } else {
            keys[a[i]] <= keys[b[j]]
        };
        if from_a {
            let x: usize = a[i];
            r.push(x);
            i = i + 1;
        } else {
            let x: usize = b[j];
            r.push(x);
            j = j + 1;
        }
    }
    r
}

fn sort_range(keys: &Vec<i64>, lo: usize, hi: usize) -> (r: Vec<usize>)
    requires
        lo <= hi <= keys@.len(),
    ensures
        sorts_range(keys@, r@, lo as int, hi as int),
    decreases hi - lo,
{
    if hi - lo <= 1 {
        let mut r: Vec<usize> = Vec::new();
        if lo < hi {
            r.push(lo);
        }
        r
    } else {
        let mid: usize = lo + (hi - lo) / 2;
        let a = sort_range(keys, lo, mid);
        let b = sort_range(keys, mid, hi);
        merge(keys, &a, &b, Ghost(lo as int), Ghost(mid as int), Ghost(hi as int))
    }
}

/// The positions of `keys` in stable ascending order of key.
pub fn sorted_positions(keys: &Vec<i64>) -> (p: Vec<usize>)
    ensures
        sorts(keys@, p@),
{
    let p = sort_range(keys, 0, keys.len());
    assert forall|i: int, j: int| 0 <= i < j < p@.len() implies #[trigger] p@[i] != #[trigger] p@[j] by {
        assert(precedes(keys@, p@[i] as int, p@[j] as int));
    }
    p
}

/// Moves the items at the positions of `p` into a vector of their own.
pub fn pick<T>(items: Vec<T>, p: &Vec<usize>) -> (r: Vec<T>)
    requires
        distinct_positions(p@, items@.len() as int),
    ensures
        r@ == picked(items@, p@),
{
    let ghost all = items@;
    let mut cells: Vec<Option<T>> = Vec::new();
    let mut rest = items;
    // The cells stand in reverse order of the items.
    while rest.len() > 0
        invariant
            cells@.len() + rest@.len() == all.len(),
            rest@ == all.take(rest@.len() as int),
            forall|k: int|
                0 <= k < cells@.len() ==> #[trigger] cells@[k] == Some(all[all.len() - 1 - k]),
        decreases rest.len(),
    {
        let ghost n = rest@.len();
        let x = rest.pop();
        cells.push(x);
        assert(rest@ =~= all.take(n - 1));
    }
    let n: usize = cells.len();
    let mut r: Vec<T> = Vec::new();
    let mut i: usize = 0;
    while i < p.len()
        invariant
            i <= p@.len(),
            n == all.len(),
            cells@.len() == n,
            distinct_positions(p@, n as int),
            forall|k: int|
                i <= k < p@.len() ==> cells@[n - 1 - #[trigger] p@[k]] == Some(all[p@[k] as int]),
            r@.len() == i,
            forall|k: int| 0 <= k < i ==> #[trigger] r@[k] == all[p@[k] as int],
        decreases p.len() - i,
    {
        let pos: usize = p[i];
        assert(pos < n);
        let at: usize = n - 1 - pos;
        let mut taken: Option<T> = None;
        cells.set_and_swap(at, &mut taken);
        match taken {
            Some(x) => {
                r.push(x);
            },
            None => {},
        }
        i = i + 1;
    }
    assert(r@ =~= picked(all, p@));
    r
}

/// Sorted positions leave none out.
pub proof fn law_sorting_keeps_every_position(keys: Seq<i64>, p: Seq<usize>, k: int)
    requires
        sorts(keys, p),
        0 <= k < keys.len(),
    ensures
        exists|i: int| 0 <= i < p.len() && #[trigger] p[i] == k,
{
    let ints = p.map_values(|x: usize| x as int);
    assert forall|i: int, j: int| 0 <= i < ints.len() && 0 <= j < ints.len() && i != j implies ints[i]
        != ints[j] by {
        if i < j {
            assert(p[i] != p[j]);
        } else {
            assert(p[j] != p[i]);
        }
    }
    ints.unique_seq_to_set();
    let n = keys.len() as int;
    let range = vstd::set_lib::set_int_range(0, n);
    vstd::set_lib::lemma_int_range(0, n);
    assert(ints.to_set().subset_of(range)) by {
        assert forall|x: int| ints.to_set().contains(x) implies range.contains(x) by {
            let i = choose|i: int| 0 <= i < ints.len() && ints[i] == x;
            assert(p[i] < n);
        }
    }
    vstd::set_lib::lemma_set_subset_finite(range, ints.to_set());
    vstd::set_lib::lemma_subset_equality(ints.to_set(), range);
    assert(ints.to_set().contains(k));
    let i = choose|i: int| 0 <= i < ints.len() && ints[i] == k;
    assert(p[i] == k);
}

/// `p` lists the best of the wanted positions: by descending score, at most
/// `limit` of them, and none that is left out scores higher.
pub open spec fn is_top(scores: Seq<i32>, wanted: Seq<bool>, limit: int, p: Seq<usize>) -> bool {
    &&& distinct_positions(p, scores.len() as int)
    &&& forall|i: int| 0 <= i < p.len() ==> wanted[#[trigger] p[i] as int]
    &&& forall|i: int, j: int|
        0 <= i < j < p.len() ==> scores[#[trigger] p[i] as int] >= scores[#[trigger] p[j] as int]
    &&& p.len() <= limit
    &&& forall|q: int|
        0 <= q < scores.len() && #[trigger] wanted[q] && !p.contains(q as usize) ==> p.len() == limit
            && forall|i: int| 0 <= i < p.len() ==> scores[#[trigger] p[i] as int] >= scores[q]
}

/// The best `limit` of the wanted positions, by descending score.
pub fn top_positions(scores: &Vec<i32>, wanted: &Vec<bool>, limit: usize) -> (r: Vec<usize>)
    requires
        scores@.len() == wanted@.len(),
    ensures
        is_top(scores@, wanted@, limit as int, r@),
{
    let mut places: Vec<usize> = Vec::new();
    let mut keys: Vec<i64> = Vec::new();
    let mut i: usize = 0;
    while i < scores.len()
        invariant
            i <= scores@.len(),
            scores@.len() == wanted@.len(),
            places@.len() == keys@.len(),
            forall|k: int|
                0 <= k < places@.len() ==> #[trigger] places@[k] < i && wanted@[places@[k] as int]
                    && keys@[k] == -scores@[places@[k] as int],
            forall|a: int, b: int|
                0 <= a < b < places@.len() ==> #[trigger] places@[a] < #[trigger] places@[b],
            forall|q: int|
                0 <= q < i && #[trigger] wanted@[q] ==> exists|k: int|
                    0 <= k < places@.len() && #[trigger] places@[k] == q,
        decreases scores.len() - i,
    {
        if wanted[i] {
            let ghost before = places@;
            places.push(i);
            keys.push(-(scores[i] as i64));
            assert forall|q: int| 0 <= q < i + 1 && #[trigger] wanted@[q] implies exists|k: int|
                0 <= k < places@.len() && #[trigger] places@[k] == q by {
                if q < i {
                    let k = choose|k: int| 0 <= k < before.len() && #[trigger] before[k] == q;
                    assert(places@[k] == q);
                } else {
                    assert(places@[before.len() as int] == q);
                }
            }
        }
        i = i + 1;
    }
    let sorted = sorted_positions(&keys);
    let n: usize = if limit < sorted.len() {
        limit
    } else {
        sorted.len()
    };
    let mut r: Vec<usize> = Vec::new();
    let mut j: usize = 0;
    while j < n
        invariant
            j <= n <= sorted@.len(),
            sorts(keys@, sorted@),
            places@.len() == keys@.len(),
            r@.len() == j,
            forall|k: int| 0 <= k < j ==> #[trigger] r@[k] == places@[sorted@[k] as int],
        decreases n - j,
    {
        let at: usize = sorted[j];
        assert(at < keys@.len());
        r.push(places[at]);
        j = j + 1;
    }
    proof {
        assert forall|a: int, b: int| 0 <= a < b < r@.len() implies #[trigger] r@[a] != #[trigger] r@[b] by {
            assert(sorted@[a] != sorted@[b]);
            let x = sorted@[a] as int;
            let y = sorted@[b] as int;
            assert(places@[x] != places@[y]) by {
                if x < y {
                    assert(places@[x] < places@[y]);
                } else {
                    assert(places@[y] < places@[x]);
                }
            }
        }
        assert forall|a: int, b: int| 0 <= a < b < r@.len() implies scores@[#[trigger] r@[a] as int]
            >= scores@[#[trigger] r@[b] as int] by {
            assert(precedes(keys@, sorted@[a] as int, sorted@[b] as int));
        }
        assert forall|q: int|
            0 <= q < scores@.len() && #[trigger] wanted@[q] && !r@.contains(q as usize) implies r@.len()
            == limit && forall|k: int| 0 <= k < r@.len() ==> scores@[#[trigger] r@[k] as int]
            >= scores@[q] by {
            let at = choose|k: int| 0 <= k < places@.len() && #[trigger] places@[k] == q;
            law_sorting_keeps_every_position(keys@, sorted@, at);
            let s = choose|s: int| 0 <= s < sorted@.len() && #[trigger] sorted@[s] == at;
            if s < n {
                assert(r@[s] == q);
                assert(r@.contains(q as usize));
            }
            assert forall|k: int| 0 <= k < r@.len() implies scores@[#[trigger] r@[k] as int]
                >= scores@[q] by {
                assert(precedes(keys@, sorted@[k] as int, sorted@[s] as int));
            }
        }
    }
    r
}

} // verus!
