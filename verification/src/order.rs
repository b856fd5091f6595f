//! Lexicographic order on character sequences (the order `String`'s `Ord`
//! gives, since UTF-8 preserves code-point order) and the facts sorting
//! needs about it.

use vstd::prelude::*;

verus! {

/// `a` sorts before or equal to `b` in code-point lexicographic order.
pub open spec fn lex_le(a: Seq<char>, b: Seq<char>) -> bool
    decreases a.len(),
{
    if a.len() == 0 {
        true
    } else if b.len() == 0 {
        false
    } else if a[0] != b[0] {
        a[0] < b[0]
    } else {
        lex_le(a.drop_first(), b.drop_first())
    }
}

pub proof fn lemma_lex_total(a: Seq<char>, b: Seq<char>)
    ensures
        lex_le(a, b) || lex_le(b, a),
    decreases a.len(),
{
    if a.len() > 0 && b.len() > 0 && a[0] == b[0] {
        lemma_lex_total(a.drop_first(), b.drop_first());
    }
}

pub proof fn lemma_lex_refl(a: Seq<char>)
    ensures
        lex_le(a, a),
    decreases a.len(),
{
    if a.len() > 0 {
        lemma_lex_refl(a.drop_first());
    }
}

pub proof fn lemma_lex_trans(a: Seq<char>, b: Seq<char>, c: Seq<char>)
    requires
        lex_le(a, b),
        lex_le(b, c),
    ensures
        lex_le(a, c),
    decreases a.len(),
{
    if a.len() > 0 && b.len() > 0 && c.len() > 0 && a[0] == b[0] && b[0] == c[0] {
        lemma_lex_trans(a.drop_first(), b.drop_first(), c.drop_first());
    }
}

pub proof fn lemma_lex_antisym(a: Seq<char>, b: Seq<char>)
    requires
        lex_le(a, b),
        lex_le(b, a),
    ensures
        a == b,
    decreases a.len(),
{
    if a.len() > 0 && b.len() > 0 {
        lemma_lex_antisym(a.drop_first(), b.drop_first());
        assert(a =~= seq![a[0]] + a.drop_first());
        assert(b =~= seq![b[0]] + b.drop_first());
    } else if a.len() == 0 && b.len() == 0 {
        assert(a =~= b);
    }
}

/// Whether `a` sorts before or equal to `b`.
pub fn lex_le_chars(a: &[char], b: &[char]) -> (r: bool)
    ensures
        r == lex_le(a@, b@),
{
    let mut i: usize = 0;
    assert(a@.skip(0) =~= a@);
    assert(b@.skip(0) =~= b@);
    while i < a.len() && i < b.len() && a[i] == b[i]
        invariant
            i <= a.len(),
            i <= b.len(),
            lex_le(a@, b@) == lex_le(a@.skip(i as int), b@.skip(i as int)),
        decreases a.len() - i,
    {
        proof {
            assert(a@.skip(i as int).drop_first() =~= a@.skip(i + 1));
            assert(b@.skip(i as int).drop_first() =~= b@.skip(i + 1));
        }
        i = i + 1;
    }
    if i == a.len() {
        true
    } else if i == b.len() {
        false
    } else {
        a[i] < b[i]
    }
}

/// Positions `a` and `b` of `keys` in stable order: by key (first, then
/// second component), then by position.
pub open spec fn key_lt(keys: Seq<(i64, i64)>, a: usize, b: usize) -> bool {
    keys[a as int].0 < keys[b as int].0 || (keys[a as int].0 == keys[b as int].0 && (keys[a as int].1
        < keys[b as int].1 || (keys[a as int].1 == keys[b as int].1 && a < b)))
}

/// `order` lists every position of `keys` once, in stable key order.
pub open spec fn is_stable_order(keys: Seq<(i64, i64)>, order: Seq<usize>) -> bool {
    &&& order.to_multiset() == Seq::new(keys.len(), |i: int| i as usize).to_multiset()
    &&& forall|a: int, b: int| 0 <= a < b < order.len() ==> key_lt(keys, #[trigger] order[a], #[trigger] order[b])
}

fn key_no_later(keys: &Vec<(i64, i64)>, a: usize, b: usize) -> (r: bool)
    requires
        a < keys@.len(),
        b < keys@.len(),
    ensures
        r == (keys@[a as int].0 < keys@[b as int].0 || (keys@[a as int].0 == keys@[b as int].0
            && keys@[a as int].1 <= keys@[b as int].1)),
{
    let x = keys[a];
    let y = keys[b];
    x.0 < y.0 || (x.0 == y.0 && x.1 <= y.1)
}

/// The positions of `keys` in stable order (a stable sort by key).
pub fn stable_order(keys: &Vec<(i64, i64)>) -> (order: Vec<usize>)
    ensures
        is_stable_order(keys@, order@),
        order@.len() == keys@.len(),
        forall|k: int| 0 <= k < order@.len() ==> #[trigger] order@[k] < keys@.len(),
{
    broadcast use vstd::seq_lib::group_to_multiset_ensures;

    let ghost all = Seq::new(keys@.len(), |i: int| i as usize);
    let mut order: Vec<usize> = Vec::new();
    let mut k: usize = 0;
    while k < keys.len()
        invariant
            k <= keys@.len(),
            order@.len() == k,
            all == Seq::new(keys@.len(), |i: int| i as usize),
            order@.to_multiset() == all.take(k as int).to_multiset(),
            forall|a: int, b: int| 0 <= a < b < order@.len() ==> key_lt(keys@, #[trigger] order@[a], #[trigger] order@[b]),
            forall|q: int| 0 <= q < order@.len() ==> #[trigger] order@[q] < k,
        decreases keys.len() - k,
    {
        let mut p: usize = 0;
        while p < order.len() && key_no_later(keys, order[p], k)
            invariant
                p <= order@.len(),
                k < keys@.len(),
                forall|q: int| 0 <= q < order@.len() ==> #[trigger] order@[q] < k,
                forall|q: int| 0 <= q < p ==> key_lt(keys@, #[trigger] order@[q], k),
            decreases order.len() - p,
        {
            p = p + 1;
        }
        let ghost old_order = order@;
        order.insert(p, k);
        proof {
            vstd::seq_lib::to_multiset_insert(old_order, p as int, k);
            assert(all.take(k + 1) =~= all.take(k as int).push(k));
            vstd::seq_lib::to_multiset_build(all.take(k as int), k);
            assert forall|a: int, b: int| 0 <= a < b < order@.len() implies key_lt(
                keys@,
                #[trigger] order@[a],
                #[trigger] order@[b],
            ) by {
                if b < p {
                    assert(order@[a] == old_order[a] && order@[b] == old_order[b]);
                } else if b == p {
                    assert(order@[a] == old_order[a]);
                } else if a == p {
                    assert(order@[b] == old_order[b - 1]);
                    assert(!key_lt(keys@, old_order[p as int], k) || old_order[p as int] >= k);
                    if b - 1 > p {
                        assert(key_lt(keys@, old_order[p as int], old_order[b - 1]));
                    }
                } else if a < p {
                    assert(order@[a] == old_order[a] && order@[b] == old_order[b - 1]);
                } else {
                    assert(order@[a] == old_order[a - 1] && order@[b] == old_order[b - 1]);
                }
            }
            assert forall|q: int| 0 <= q < order@.len() implies #[trigger] order@[q] < k + 1 by {
                if q < p {
                    assert(order@[q] == old_order[q]);
                } else if q > p {
                    assert(order@[q] == old_order[q - 1]);
                }
            }
        }
        k = k + 1;
    }
    proof {
        assert(all.take(keys@.len() as int) =~= all);
    }
    order
}

} // verus!
