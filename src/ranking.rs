use vstd::prelude::*;

verus! {

/// Position `i` ranks before position `j`: its key is higher, or the keys are
/// equal and `i` comes first.
pub open spec fn ranks_before(keys: Seq<int>, i: int, j: int) -> bool {
    keys[i] > keys[j] || (keys[i] == keys[j] && i < j)
}

/// `order` lists every position of `keys` exactly once, highest key first and
/// equal keys in the order they were given.
pub open spec fn is_ranking(keys: Seq<int>, order: Seq<int>) -> bool {
    &&& order.len() == keys.len()
    &&& forall|k: int| 0 <= k < order.len() ==> 0 <= #[trigger] order[k] < keys.len()
    &&& order.no_duplicates()
    &&& forall|i: int| 0 <= i < keys.len() ==> #[trigger] order.contains(i)
    &&& forall|k: int, l: int|
        0 <= k < l < order.len() ==> ranks_before(keys, #[trigger] order[k], #[trigger] order[l])
}

/// The items at the positions that `order` lists, in that order.
pub open spec fn reorder<T>(items: Seq<T>, order: Seq<int>) -> Seq<T> {
    order.map_values(|i: int| items[i])
}

pub open spec fn key_ints(keys: Seq<i128>) -> Seq<int> {
    keys.map_values(|k: i128| k as int)
}

/// The items in the order of their keys, highest first; items with equal keys
/// keep the order they were given in.
pub fn rank_by_key<T>(items: Vec<T>, keys: &Vec<i128>) -> (r: Vec<T>)
    requires
        items@.len() == keys@.len(),
    ensures
        exists|order: Seq<int>| is_ranking(key_ints(keys@), order) && r@ == reorder(items@, order),
{
    let ghost orig = items@;
    let ghost ks = key_ints(keys@);
    let n = items.len();
    let mut rest = items;
    let mut sorted: Vec<T> = Vec::new();
    let mut sorted_keys: Vec<i128> = Vec::new();
    let ghost mut order: Seq<int> = Seq::empty();
    let mut i: usize = 0;
    while i < n
        invariant
            n == orig.len(),
            n == keys@.len(),
            ks == key_ints(keys@),
            0 <= i <= n,
            rest@ == orig.subrange(i as int, n as int),
            order.len() == i,
            forall|k: int| 0 <= k < order.len() ==> 0 <= #[trigger] order[k] < i,
            order.no_duplicates(),
            forall|j: int| 0 <= j < i ==> #[trigger] order.contains(j),
            forall|k: int, l: int|
                0 <= k < l < order.len() ==> ranks_before(ks, #[trigger] order[k], #[trigger] order[l]),
            sorted@ == reorder(orig, order),
            sorted_keys@.len() == i,
            forall|k: int| 0 <= k < i ==> #[trigger] sorted_keys@[k] as int == ks[order[k]],
        decreases n - i,
    {
        let x = rest.remove(0);
        let key = keys[i];
        let mut pos: usize = i;
        while pos > 0 && sorted_keys[pos - 1] < key
            invariant
                0 <= pos <= i,
                i < n,
                sorted_keys@.len() == i,
                order.len() == i,
                ks == key_ints(keys@),
                n == keys@.len(),
                key == keys@[i as int],
                forall|k: int| 0 <= k < order.len() ==> 0 <= #[trigger] order[k] < i,
                forall|k: int| 0 <= k < i ==> #[trigger] sorted_keys@[k] as int == ks[order[k]],
                forall|k: int| pos <= k < i ==> ks[#[trigger] order[k]] < key,
            decreases pos,
        {
            pos = pos - 1;
        }
        proof {
            let old_order = order;
            order = order.insert(pos as int, i as int);
            old_order.insert_ensures(pos as int, i as int);
            assert(ks[i as int] == key as int);
            assert forall|k: int, l: int| 0 <= k < l < order.len() implies ranks_before(
                ks,
                #[trigger] order[k],
                #[trigger] order[l],
            ) by {
                if l == pos {
                    // `order[pos - 1]` has a key at least as high, and came earlier
                    if k < pos - 1 {
                        assert(ranks_before(ks, old_order[k], old_order[pos - 1]));
                    }
                    assert(old_order[pos - 1] < i);
                } else if k == pos {
                    assert(ks[old_order[l - 1]] < key);
                } else if k < pos && l > pos {
                    assert(ranks_before(ks, old_order[k], old_order[l - 1]));
                } else if k > pos {
                    assert(ranks_before(ks, old_order[k - 1], old_order[l - 1]));
                } else {
                    assert(ranks_before(ks, old_order[k], old_order[l]));
                }
            }
            assert(order.no_duplicates());
            assert forall|j: int| 0 <= j < i + 1 implies #[trigger] order.contains(j) by {
                if j == i {
                    assert(order[pos as int] == j);
                } else {
                    assert(old_order.contains(j));
                    let m = choose|m: int| 0 <= m < old_order.len() && old_order[m] == j;
                    if m < pos {
                        assert(order[m] == j);
                    } else {
                        assert(order[m + 1] == j);
                    }
                }
            }
            assert(orig[i as int] == x);
        }
        sorted.insert(pos, x);
        sorted_keys.insert(pos, key);
        proof {
            assert(sorted@ =~= reorder(orig, order));
            assert(rest@ =~= orig.subrange(i + 1, n as int));
        }
        i = i + 1;
    }
    proof {
        assert(is_ranking(ks, order));
    }
    sorted
}

/// Two rankings of the same keys are the same.
pub proof fn lemma_ranking_unique(keys: Seq<int>, a: Seq<int>, b: Seq<int>)
    requires
        is_ranking(keys, a),
        is_ranking(keys, b),
    ensures
        a == b,
{
    assert forall|x: int| a.contains(x) <==> b.contains(x) by {
        if a.contains(x) {
            let k = choose|k: int| 0 <= k < a.len() && a[k] == x;
            assert(0 <= a[k] < keys.len());
        }
        if b.contains(x) {
            let k = choose|k: int| 0 <= k < b.len() && b[k] == x;
            assert(0 <= b[k] < keys.len());
        }
    }
    lemma_sorted_same_elements(keys, a, b);
}

/// Two duplicate-free sequences of positions, both ordered by `ranks_before`
/// and holding the same positions, are equal.
proof fn lemma_sorted_same_elements(keys: Seq<int>, a: Seq<int>, b: Seq<int>)
    requires
        a.len() == b.len(),
        a.no_duplicates(),
        b.no_duplicates(),
        forall|k: int| 0 <= k < a.len() ==> 0 <= #[trigger] a[k] < keys.len(),
        forall|x: int| a.contains(x) <==> b.contains(x),
        forall|k: int, l: int|
            0 <= k < l < a.len() ==> ranks_before(keys, #[trigger] a[k], #[trigger] a[l]),
        forall|k: int, l: int|
            0 <= k < l < b.len() ==> ranks_before(keys, #[trigger] b[k], #[trigger] b[l]),
    ensures
        a == b,
    decreases a.len(),
{
    if a.len() > 0 {
        assert(a.contains(a[0]));
        let j = choose|j: int| 0 <= j < b.len() && b[j] == a[0];
        assert(b.contains(b[0]));
        let i = choose|i: int| 0 <= i < a.len() && a[i] == b[0];
        if j != 0 {
            assert(ranks_before(keys, b[0], b[j]));
            assert(i != 0);
            assert(ranks_before(keys, a[0], a[i]));
            assert(false);
        }
        let a1 = a.drop_first();
        let b1 = b.drop_first();
        assert forall|x: int| a1.contains(x) <==> b1.contains(x) by {
            if a1.contains(x) {
                let k = choose|k: int| 0 <= k < a1.len() && a1[k] == x;
                assert(a[k + 1] == x);
                assert(b.contains(x));
                let m = choose|m: int| 0 <= m < b.len() && b[m] == x;
                assert(m != 0);
                assert(b1[m - 1] == x);
            }
            if b1.contains(x) {
                let k = choose|k: int| 0 <= k < b1.len() && b1[k] == x;
                assert(b[k + 1] == x);
                assert(a.contains(x));
                let m = choose|m: int| 0 <= m < a.len() && a[m] == x;
                assert(m != 0);
                assert(a1[m - 1] == x);
            }
        }
        assert forall|k: int, l: int| 0 <= k < l < a1.len() implies ranks_before(
            keys,
            #[trigger] a1[k],
            #[trigger] a1[l],
        ) by {
            assert(ranks_before(keys, a[k + 1], a[l + 1]));
        }
        assert forall|k: int, l: int| 0 <= k < l < b1.len() implies ranks_before(
            keys,
            #[trigger] b1[k],
            #[trigger] b1[l],
        ) by {
            assert(ranks_before(keys, b[k + 1], b[l + 1]));
        }
        assert forall|k: int| 0 <= k < a1.len() implies 0 <= #[trigger] a1[k] < keys.len() by {
            assert(a[k + 1] == a1[k]);
        }
        lemma_sorted_same_elements(keys, a1, b1);
        assert forall|k: int| 0 <= k < a.len() implies a[k] == b[k] by {
            if k > 0 {
                assert(a1[k - 1] == b1[k - 1]);
            }
        }
        assert(a =~= b);
    }
}

/// Where the keys never rise, listing the positions in order is the ranking.
pub proof fn lemma_identity_ranking(keys: Seq<int>)
    requires
        forall|k: int, l: int| 0 <= k < l < keys.len() ==> keys[k] >= keys[l],
    ensures
        is_ranking(keys, Seq::new(keys.len(), |i: int| i)),
{
    let id = Seq::new(keys.len(), |i: int| i);
    assert forall|i: int| 0 <= i < keys.len() implies #[trigger] id.contains(i) by {
        assert(id[i] == i);
    }
    assert forall|k: int, l: int| 0 <= k < l < id.len() implies ranks_before(
        keys,
        #[trigger] id[k],
        #[trigger] id[l],
    ) by {
        assert(keys[k] >= keys[l]);
    }
}

} // verus!
