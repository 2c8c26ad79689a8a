//! The order of texts, and sorting by it.

use vstd::prelude::*;

use crate::text::{chars_of, Text};

verus! {

/// Does `a` come before `b` in the order of strings? That is the order of their
/// characters' code points, compared from the front, which their UTF-8 bytes
/// have too.
pub open spec fn precedes(a: Text, b: Text) -> bool
    decreases a.len(),
{
    if b.len() == 0 {
        false
    } else if a.len() == 0 {
        true
    } else if a[0] != b[0] {
        a[0] < b[0]
    } else {
        precedes(a.skip(1), b.skip(1))
    }
}

/// Does `a` come before `b`?
pub fn comes_before(a: &str, b: &str) -> (r: bool)
    ensures
        r == precedes(a@, b@),
{
    let x = chars_of(a);
    let y = chars_of(b);
    let mut i: usize = 0;
    assert(a@.skip(0) =~= a@);
    assert(b@.skip(0) =~= b@);
    loop
        invariant
            i <= x@.len(),
            i <= y@.len(),
            x@ == a@,
            y@ == b@,
            precedes(a@, b@) == precedes(a@.skip(i as int), b@.skip(i as int)),
        decreases x@.len() - i,
    {
        if i == y.len() {
            return false;
        }
        if i == x.len() {
            return true;
        }
        if x[i] != y[i] {
            return x[i] < y[i];
        }
        assert(a@.skip(i as int).skip(1) =~= a@.skip(i + 1));
        assert(b@.skip(i as int).skip(1) =~= b@.skip(i + 1));
        i = i + 1;
    }
}

/// A pair put into sorted pairs, behind all whose name does not come later.
pub open spec fn placed(sorted: Seq<(Text, Text)>, pair: (Text, Text)) -> Seq<(Text, Text)>
    decreases sorted.len(),
{
    if sorted.len() > 0 && precedes(pair.0, sorted.last().0) {
        placed(sorted.drop_last(), pair).push(sorted.last())
    } else {
        sorted.push(pair)
    }
}

/// The pairs sorted by name. Those with the same name stay in their order.
pub open spec fn sorted_pairs(pairs: Seq<(Text, Text)>) -> Seq<(Text, Text)>
    decreases pairs.len(),
{
    if pairs.len() == 0 {
        Seq::empty()
    } else {
        placed(sorted_pairs(pairs.drop_last()), pairs.last())
    }
}

proof fn lemma_not_placed_yet(sorted: Seq<(Text, Text)>, pair: (Text, Text), k: int)
    requires
        0 < k <= sorted.len(),
        precedes(pair.0, sorted[k - 1].0),
    ensures
        placed(sorted.take(k), pair) + sorted.skip(k) == placed(sorted.take(k - 1), pair)
            + sorted.skip(k - 1),
{
    let now = sorted.take(k);
    assert(now.drop_last() =~= sorted.take(k - 1));
    assert(now.last() == sorted[k - 1]);
    assert(placed(now, pair) + sorted.skip(k) =~= placed(sorted.take(k - 1), pair) + sorted.skip(
        k - 1,
    ));
}

/// Put a pair into sorted pairs.
fn place(sorted: &mut Vec<(String, String)>, pair: (String, String))
    ensures
        final(sorted).deep_view() == placed(old(sorted).deep_view(), pair.deep_view()),
{
    let ghost before = sorted.deep_view();
    let ghost item = pair.deep_view();
    let mut k: usize = sorted.len();
    assert(before.take(k as int) =~= before);
    assert(placed(before, item) + before.skip(k as int) =~= placed(before, item));
    while k > 0 && comes_before(pair.0.as_str(), sorted[k - 1].0.as_str())
        invariant
            k <= sorted@.len(),
            before == sorted.deep_view(),
            item == pair.deep_view(),
            placed(before, item) == placed(before.take(k as int), item) + before.skip(k as int),
        decreases k,
    {
        assert(before[k - 1] == sorted@[k - 1].deep_view());
        proof {
            lemma_not_placed_yet(before, item, k as int);
        }
        k = k - 1;
    }
    proof {
        if k > 0 {
            assert(before.take(k as int).last() == sorted@[k - 1].deep_view());
        }
    }
    sorted.insert(k, pair);
    assert(sorted.deep_view() =~= before.take(k as int).push(item) + before.skip(k as int));
}

/// Sort pairs by name, as a stable sort does.
pub fn sort_pairs(pairs: Vec<(String, String)>) -> (r: Vec<(String, String)>)
    ensures
        r.deep_view() == sorted_pairs(pairs.deep_view()),
{
    let ghost all = pairs.deep_view();
    let mut out: Vec<(String, String)> = Vec::new();
    let mut i: usize = 0;
    assert(out.deep_view() =~= sorted_pairs(all.take(0)));
    while i < pairs.len()
        invariant
            i <= pairs@.len(),
            all == pairs.deep_view(),
            out.deep_view() == sorted_pairs(all.take(i as int)),
        decreases pairs@.len() - i,
    {
        let pair = (pairs[i].0.clone(), pairs[i].1.clone());
        proof {
            assert(pair.deep_view() == all[i as int]);
            assert(all.take(i + 1).drop_last() =~= all.take(i as int));
            assert(all.take(i + 1).last() == all[i as int]);
        }
        place(&mut out, pair);
        i = i + 1;
    }
    assert(all.take(pairs@.len() as int) =~= all);
    out
}

// ─── Laws ────────────────────────────────────────────────────────────

/// The order of texts is total: of two different texts one comes before the
/// other, and only one.
pub proof fn order_is_total(a: Text, b: Text)
    ensures
        precedes(a, b) ==> !precedes(b, a),
        a != b ==> precedes(a, b) || precedes(b, a),
        a == b ==> !precedes(a, b),
    decreases a.len(),
{
    if a.len() > 0 && b.len() > 0 {
        if a[0] == b[0] {
            order_is_total(a.skip(1), b.skip(1));
            if a.skip(1) == b.skip(1) {
                assert(a =~= b) by {
                    assert forall|i: int| 0 <= i < a.len() implies a[i] == b[i] by {
                        if i > 0 {
                            assert(a.skip(1)[i - 1] == b.skip(1)[i - 1]);
                        }
                    }
                    assert(a.skip(1).len() == b.skip(1).len());
                }
            }
        }
    } else if a.len() == 0 && b.len() == 0 {
        assert(a =~= b);
    }
}

/// What comes before a text that does not come after another comes before, or
/// is, that other.
pub proof fn order_is_transitive(a: Text, b: Text, c: Text)
    requires
        !precedes(b, a),
        !precedes(c, b),
    ensures
        !precedes(c, a),
    decreases a.len(),
{
    if a.len() > 0 && b.len() > 0 && c.len() > 0 && a[0] == b[0] && b[0] == c[0] {
        order_is_transitive(a.skip(1), b.skip(1), c.skip(1));
    }
}

/// Are the pairs in the order of their names?
pub open spec fn in_order(pairs: Seq<(Text, Text)>) -> bool {
    forall|i: int, j: int|
        0 <= i < j < pairs.len() ==> !precedes((#[trigger] pairs[j]).0, (#[trigger] pairs[i]).0)
}

proof fn lemma_placed(sorted: Seq<(Text, Text)>, pair: (Text, Text))
    requires
        in_order(sorted),
    ensures
        in_order(placed(sorted, pair)),
        placed(sorted, pair).to_multiset() == sorted.to_multiset().insert(pair),
        placed(sorted, pair).len() == sorted.len() + 1,
        forall|name: Text|
            (forall|i: int| 0 <= i < sorted.len() ==> !precedes(name, (#[trigger] sorted[i]).0))
                && !precedes(name, pair.0) ==> (forall|i: int|
                0 <= i < placed(sorted, pair).len() ==> !precedes(
                    name,
                    (#[trigger] placed(sorted, pair)[i]).0,
                )),
    decreases sorted.len(),
{
    broadcast use vstd::seq_lib::group_to_multiset_ensures;

    if sorted.len() > 0 && precedes(pair.0, sorted.last().0) {
        let front = sorted.drop_last();
        let last = sorted.last();
        lemma_placed(front, pair);
        assert(front.push(last) =~= sorted);
        assert(placed(sorted, pair).to_multiset() =~= sorted.to_multiset().insert(pair));
        assert(!precedes(last.0, pair.0)) by {
            order_is_total(pair.0, last.0);
        }
        assert forall|i: int| 0 <= i < front.len() implies !precedes(
            last.0,
            (#[trigger] front[i]).0,
        ) by {
            assert(sorted[i] == front[i]);
            assert(sorted[sorted.len() - 1] == last);
        }
    } else {
        let now = sorted.push(pair);
        assert forall|i: int, j: int| 0 <= i < j < now.len() implies !precedes(
            (#[trigger] now[j]).0,
            (#[trigger] now[i]).0,
        ) by {
            if j == sorted.len() {
                let last = sorted.last();
                if i < sorted.len() - 1 {
                    assert(!precedes(sorted[sorted.len() - 1].0, sorted[i].0));
                    order_is_transitive(sorted[i].0, last.0, pair.0);
                }
            }
        }
    }
}

/// Sorting gives the same pairs, in the order of their names.
pub proof fn sorting_sorts(pairs: Seq<(Text, Text)>)
    ensures
        in_order(sorted_pairs(pairs)),
        sorted_pairs(pairs).to_multiset() == pairs.to_multiset(),
    decreases pairs.len(),
{
    broadcast use vstd::seq_lib::group_to_multiset_ensures;

    if pairs.len() > 0 {
        sorting_sorts(pairs.drop_last());
        lemma_placed(sorted_pairs(pairs.drop_last()), pairs.last());
        assert(pairs.drop_last().push(pairs.last()) =~= pairs);
    } else {
        assert(pairs =~= Seq::empty());
    }
}

} // verus!
