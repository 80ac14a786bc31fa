//! Sorting texts.

use crate::text::chars_of;
use vstd::prelude::*;

verus! {

/// `a` stands before `b`: by the first character in which they differ, and a
/// text before those that it starts.
pub open spec fn text_less(a: Seq<char>, b: Seq<char>) -> bool
    decreases a.len(),
{
    if b.len() == 0 {
        false
    } else if a.len() == 0 {
        true
    } else if a[0] == b[0] {
        text_less(a.skip(1), b.skip(1))
    } else {
        (a[0] as int) < (b[0] as int)
    }
}

/// The order of texts has no cycle.
pub proof fn law_text_order_is_transitive(a: Seq<char>, b: Seq<char>, c: Seq<char>)
    requires
        text_less(a, b),
        text_less(b, c),
    ensures
        text_less(a, c),
    decreases a.len(),
{
    if a.len() > 0 && a[0] == b[0] && b[0] == c[0] {
        law_text_order_is_transitive(a.skip(1), b.skip(1), c.skip(1));
    }
}

/// Of two texts that differ, exactly one stands before the other.
pub proof fn law_text_order_is_total(a: Seq<char>, b: Seq<char>)
    ensures
        a == b ==> !text_less(a, b),
        a != b ==> (text_less(a, b) <==> !text_less(b, a)),
    decreases a.len(),
{
    if a.len() > 0 && b.len() > 0 && a[0] == b[0] {
        law_text_order_is_total(a.skip(1), b.skip(1));
        if a.skip(1) == b.skip(1) {
            assert forall|i: int| 0 <= i < a.len() implies a[i] == b[i] by {
                if i > 0 {
                    assert(a.skip(1)[i - 1] == b.skip(1)[i - 1]);
                }
            }
            assert(a =~= b);
        }
    } else if a.len() == 0 && b.len() == 0 {
        assert(a =~= b);
    }
}

/// Whether `a` stands before `b`.
pub fn is_less(a: &str, b: &str) -> (r: bool)
    ensures
        r == text_less(a@, b@),
{
    let xs = chars_of(a);
    let ys = chars_of(b);
    let mut i: usize = 0;
    assert(xs@.skip(0) =~= xs@);
    assert(ys@.skip(0) =~= ys@);
    while i < xs.len() && i < ys.len() && xs[i] == ys[i]
        invariant
            i <= xs@.len(),
            i <= ys@.len(),
            text_less(xs@, ys@) == text_less(xs@.skip(i as int), ys@.skip(i as int)),
        decreases xs.len() - i,
    {
        assert(xs@.skip(i as int).skip(1) =~= xs@.skip(i + 1));
        assert(ys@.skip(i as int).skip(1) =~= ys@.skip(i + 1));
        i = i + 1;
    }
    if i == ys.len() {
        false
    } else if i == xs.len() {
        true
    } else {
        let x: char = xs[i];
        let y: char = ys[i];
        x < y
    }
}

/// Key `a` stands before key `b`: by text, and by position among equal texts.
pub open spec fn text_precedes(keys: Seq<String>, a: int, b: int) -> bool {
    text_less(keys[a]@, keys[b]@) || (keys[a]@ == keys[b]@ && a < b)
}

/// `p` lists the positions below `n`, each once, in stable ascending order of text.
pub open spec fn sorts_texts(keys: Seq<String>, p: Seq<usize>, n: int) -> bool {
    &&& p.len() == n
    &&& crate::order::distinct_positions(p, n)
    &&& forall|i: int, j: int|
        0 <= i < j < p.len() ==> text_precedes(
            keys,
            #[trigger] p[i] as int,
            #[trigger] p[j] as int,
        )
}

proof fn lemma_precedes_transitive(keys: Seq<String>, a: int, b: int, c: int)
    requires
        text_precedes(keys, a, b),
        text_precedes(keys, b, c),
    ensures
        text_precedes(keys, a, c),
{
    if text_less(keys[a]@, keys[b]@) && text_less(keys[b]@, keys[c]@) {
        law_text_order_is_transitive(keys[a]@, keys[b]@, keys[c]@);
    }
}

/// The positions of `keys` in stable ascending order of text.
pub fn sorted_texts(keys: &Vec<String>) -> (p: Vec<usize>)
    ensures
        sorts_texts(keys@, p@, keys@.len() as int),
{
    let mut p: Vec<usize> = Vec::new();
    let mut n: usize = 0;
    while n < keys.len()
        invariant
            n <= keys@.len(),
            sorts_texts(keys@, p@, n as int),
        decreases keys.len() - n,
    {
        let mut at: usize = p.len();
        while at > 0 && is_less(keys[n].as_str(), keys[p[at - 1]].as_str())
            invariant
                n < keys@.len(),
                sorts_texts(keys@, p@, n as int),
                at <= p@.len(),
                forall|j: int|
                    at <= j < p@.len() ==> text_precedes(
                        keys@,
                        n as int,
                        #[trigger] p@[j] as int,
                    ),
            decreases at,
        {
            at = at - 1;
        }
        proof {
            assert forall|j: int| 0 <= j < at implies text_precedes(
                keys@,
                #[trigger] p@[j] as int,
                n as int,
            ) by {
                let last = p@[at - 1] as int;
                law_text_order_is_total(keys@[last]@, keys@[n as int]@);
                assert(text_precedes(keys@, last, n as int));
                if j < at - 1 {
                    lemma_precedes_transitive(keys@, p@[j] as int, last, n as int);
                }
            }
        }
        let ghost before = p@;
        p.insert(at, n);
        proof {
            assert(p@ =~= before.insert(at as int, n));
            let q = p@;
            assert forall|i: int| 0 <= i < q.len() implies #[trigger] q[i] < n + 1 by {
                if i < at {
                    assert(q[i] == before[i]);
                } else if i > at {
                    assert(q[i] == before[i - 1]);
                }
            }
            assert forall|i: int, j: int| 0 <= i < j < q.len() implies text_precedes(
                keys@,
                #[trigger] q[i] as int,
                #[trigger] q[j] as int,
            ) && q[i] != q[j] by {
                let bi = if i < at { before[i] } else { before[i - 1] };
                let bj = if j < at { before[j] } else { before[j - 1] };
            }
        }
        n = n + 1;
    }
    p
}

/// Texts are ordered by the first character in which they differ, the smaller one
/// first; a text stands before those that it starts.
pub proof fn law_the_first_difference_decides(
    start: Seq<char>,
    x: char,
    y: char,
    rest: Seq<char>,
    other: Seq<char>,
)
    requires
        x != y,
    ensures
        text_less(start.push(x) + rest, start.push(y) + other) <==> (x as int) < (y as int),
        text_less(start, start.push(x) + rest),
    decreases start.len(),
{
    let a = start.push(x) + rest;
    let b = start.push(y) + other;
    if start.len() > 0 {
        let tail = start.skip(1);
        law_the_first_difference_decides(tail, x, y, rest, other);
        assert(a.skip(1) =~= tail.push(x) + rest);
        assert(b.skip(1) =~= tail.push(y) + other);
        assert(a[0] == start[0] && b[0] == start[0]);
    } else {
        assert(a[0] == x && b[0] == y);
    }
}

} // verus!
