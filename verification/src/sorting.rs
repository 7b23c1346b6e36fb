//! Ordering a list by keys: the largest (or the smallest) key comes first, and
//! equal keys keep their order.

use vstd::prelude::*;

use crate::num::smaller;

verus! {

/// Whether place `a` of a list comes before place `b` when the largest key comes
/// first and equal keys keep their order.
pub open spec fn comes_before(keys: Seq<int>, a: int, b: int) -> bool {
    keys[a] > keys[b] || (keys[a] == keys[b] && a < b)
}

/// Whether `order` lists the first `n` places of `keys`, each once, in order.
pub open spec fn orders(keys: Seq<int>, order: Seq<int>, n: int) -> bool {
    &&& order.len() == n
    &&& forall|i: int| 0 <= i < n ==> 0 <= #[trigger] order[i] < n
    &&& forall|a: int| 0 <= a < n ==> #[trigger] order.contains(a)
    &&& forall|i: int, j: int|
        0 <= i < j < n ==> comes_before(keys, #[trigger] order[i], #[trigger] order[j])
}

/// The places of a list in the order of their keys.
pub open spec fn ranking(keys: Seq<int>) -> Seq<int> {
    choose|order: Seq<int>| orders(keys, order, keys.len() as int)
}

/// Law: there is only one such order.
pub proof fn ranking_is_unique(keys: Seq<int>, a: Seq<int>, b: Seq<int>)
    requires
        orders(keys, a, keys.len() as int),
        orders(keys, b, keys.len() as int),
    ensures
        a == b,
{
    lemma_prefixes_agree(keys, a, b, keys.len());
    assert(a =~= b);
}

proof fn lemma_prefixes_agree(keys: Seq<int>, a: Seq<int>, b: Seq<int>, n: nat)
    requires
        orders(keys, a, keys.len() as int),
        orders(keys, b, keys.len() as int),
        n <= keys.len(),
    ensures
        forall|i: int| 0 <= i < n ==> a[i] == b[i],
    decreases n,
{
    if n > 0 {
        lemma_prefixes_agree(keys, a, b, (n - 1) as nat);
        let k = n - 1;
        assert(b.contains(a[k]));
        assert(a.contains(b[k]));
        let j = choose|j: int| 0 <= j < b.len() && b[j] == a[k];
        let i = choose|i: int| 0 <= i < a.len() && a[i] == b[k];
        if a[k] != b[k] {
            if j < k {
                assert(a[j] == b[j]);
                assert(comes_before(keys, a[j], a[k]));
            }
            if i < k {
                assert(a[i] == b[i]);
                assert(comes_before(keys, b[i], b[k]));
            }
            assert(comes_before(keys, b[k], b[j]));
            assert(comes_before(keys, a[k], a[i]));
        }
    }
}

/// Inserting the next place between those that come before it and those that do
/// not keeps the order.
proof fn lemma_inserted(keys: Seq<int>, before: Seq<int>, at: int, i: int)
    requires
        orders(keys, before, i),
        0 <= at <= i < keys.len(),
        forall|k: int| 0 <= k < at ==> comes_before(keys, #[trigger] before[k], i),
        forall|k: int| at <= k < i ==> comes_before(keys, i, #[trigger] before[k]),
    ensures
        orders(keys, before.insert(at, i), i + 1),
{
    let after = before.insert(at, i);
    assert forall|a: int| 0 <= a < i + 1 implies #[trigger] after.contains(a) by {
        if a == i {
            assert(after[at] == a);
        } else {
            assert(before.contains(a));
            let k = choose|k: int| 0 <= k < before.len() && before[k] == a;
            if k < at {
                assert(after[k] == a);
            } else {
                assert(after[k + 1] == a);
            }
        }
    }
    assert forall|j: int, k: int| 0 <= j < k < i + 1 implies comes_before(
        keys,
        #[trigger] after[j],
        #[trigger] after[k],
    ) by {
        let old_j = if j < at {
            j
        } else {
            j - 1
        };
        let old_k = if k < at {
            k
        } else {
            k - 1
        };
        if j != at && k != at {
            assert(comes_before(keys, before[old_j], before[old_k]));
        } else if k == at {
            assert(comes_before(keys, before[old_j], i));
        } else {
            assert(comes_before(keys, i, before[old_k]));
        }
    }
}

/// Where the place `i` goes among the first `n` of those in order.
spec fn place_among(keys: Seq<int>, order: Seq<int>, i: int, n: nat) -> nat
    decreases n,
{
    if n > 0 && comes_before(keys, i, order[n - 1]) {
        place_among(keys, order, i, (n - 1) as nat)
    } else {
        n
    }
}

proof fn lemma_place_among(keys: Seq<int>, order: Seq<int>, i: int, n: nat)
    requires
        orders(keys, order, i),
        n <= i < keys.len(),
        forall|k: int| n <= k < i ==> comes_before(keys, i, #[trigger] order[k]),
    ensures
        place_among(keys, order, i, n) <= n,
        forall|k: int| 0 <= k < place_among(keys, order, i, n) ==> comes_before(keys, #[trigger] order[k], i),
        forall|k: int| place_among(keys, order, i, n) <= k < i ==> comes_before(keys, i, #[trigger] order[k]),
    decreases n,
{
    if n > 0 {
        if comes_before(keys, i, order[n - 1]) {
            lemma_place_among(keys, order, i, (n - 1) as nat);
        } else {
            assert(0 <= order[n - 1] < i);
            assert forall|k: int| 0 <= k < n implies comes_before(keys, #[trigger] order[k], i) by {
                if k < n - 1 {
                    assert(comes_before(keys, order[k], order[n - 1]));
                }
            }
        }
    }
}

proof fn lemma_first_places(keys: Seq<int>, n: nat) -> (order: Seq<int>)
    requires
        n <= keys.len(),
    ensures
        orders(keys, order, n as int),
    decreases n,
{
    if n == 0 {
        Seq::empty()
    } else {
        let before = lemma_first_places(keys, (n - 1) as nat);
        let at = place_among(keys, before, n - 1, (n - 1) as nat);
        lemma_place_among(keys, before, n - 1, (n - 1) as nat);
        lemma_inserted(keys, before, at as int, n - 1);
        before.insert(at as int, n - 1)
    }
}

/// Law: a ranking lists every place of the list once and in order.
pub proof fn ranking_lists_all_in_order(keys: Seq<int>)
    ensures
        orders(keys, ranking(keys), keys.len() as int),
{
    let order = lemma_first_places(keys, keys.len());
    assert(orders(keys, order, keys.len() as int));
}

/// Keys such that the first in order have the largest, or those with the
/// opposite sign.
pub open spec fn directed(keys: Seq<i64>, largest_first: bool) -> Seq<int> {
    Seq::new(
        keys.len(),
        |i: int|
            if largest_first {
                keys[i] as int
            } else {
                -keys[i]
            },
    )
}

/// The places of a list as plain numbers.
pub open spec fn places(order: Seq<usize>) -> Seq<int> {
    order.map_values(|i: usize| i as int)
}

/// The first `width` elements of a list in the order of their keys.
pub open spec fn selection<A>(list: Seq<A>, keys: Seq<int>, width: int) -> Seq<A> {
    Seq::new(smaller(list.len() as int, width) as nat, |i: int| list[ranking(keys)[i]])
}

fn beats(a: i64, b: i64, largest_first: bool) -> (r: bool)
    ensures
        r == (if largest_first {
            a > b
        } else {
            a < b
        }),
{
    if largest_first {
        a > b
    } else {
        a < b
    }
}

/// Places the key `i` behind those that come before it.
fn insert_place(keys: &Vec<i64>, largest_first: bool, order: &mut Vec<usize>, i: usize)
    requires
        i < keys@.len(),
        orders(directed(keys@, largest_first), places(old(order)@), i as int),
    ensures
        orders(directed(keys@, largest_first), places(final(order)@), i + 1),
{
    let ghost plain = directed(keys@, largest_first);
    let ghost before = places(order@);
    assert(before.len() == order@.len());
    assert forall|k: int| 0 <= k < i implies before[k] == #[trigger] order@[k] && order@[k] < i by {
        assert(0 <= before[k] < i);
    }
    let mut at: usize = order.len();
    while at > 0 && beats(keys[i], keys[order[at - 1]], largest_first)
        invariant
            at <= order@.len() == i < keys@.len(),
            plain == directed(keys@, largest_first),
            before == places(order@),
            forall|k: int| 0 <= k < i ==> before[k] == #[trigger] order@[k] && order@[k] < i,
            orders(plain, before, i as int),
            forall|k: int| at <= k < i ==> comes_before(plain, i as int, #[trigger] before[k]),
        decreases at,
    {
        assert(before[at - 1] == order@[at - 1]);
        at -= 1;
    }
    proof {
        if at > 0 {
            assert(before[at - 1] == order@[at - 1]);
            assert(comes_before(plain, before[at - 1], i as int));
        }
        assert forall|k: int| 0 <= k < at implies comes_before(plain, #[trigger] before[k], i as int) by {
            if k < at - 1 {
                assert(comes_before(plain, before[k], before[at - 1]));
            }
        }
    }
    proof {
        lemma_inserted(plain, before, at as int, i as int);
    }
    order.insert(at, i);
    assert(places(order@) =~= before.insert(at as int, i as int));
}

/// The places of a list in the order of their keys.
pub fn rank(keys: &Vec<i64>, largest_first: bool) -> (r: Vec<usize>)
    ensures
        places(r@) == ranking(directed(keys@, largest_first)),
        orders(directed(keys@, largest_first), places(r@), keys@.len() as int),
{
    let mut order: Vec<usize> = Vec::new();
    let mut i: usize = 0;
    while i < keys.len()
        invariant
            i <= keys@.len(),
            orders(directed(keys@, largest_first), places(order@), i as int),
        decreases keys@.len() - i,
    {
        insert_place(keys, largest_first, &mut order, i);
        i += 1;
    }
    proof {
        let plain = directed(keys@, largest_first);
        assert(plain.len() == keys@.len());
        ranking_is_unique(plain, places(order@), ranking(plain));
    }
    order
}

} // verus!
