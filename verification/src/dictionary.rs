//! The dictionary order of lists of numbers.

use vstd::prelude::*;

verus! {

/// Whether a list of numbers comes before another in dictionary order.
pub open spec fn precedes(a: Seq<int>, b: Seq<int>) -> bool {
    exists|i: int| #[trigger] differs_first(a, b, i) && a[i] < b[i]
}

/// Whether `i` is the first place at which two lists of numbers differ.
pub open spec fn differs_first(a: Seq<int>, b: Seq<int>, i: int) -> bool {
    &&& 0 <= i < a.len() && i < b.len()
    &&& a[i] != b[i]
    &&& forall|j: int| 0 <= j < i ==> a[j] == b[j]
}

/// Law: of two lists of equal length exactly one comes first, or they are equal.
pub proof fn dictionary_order_is_total(a: Seq<int>, b: Seq<int>)
    requires
        a.len() == b.len(),
    ensures
        a == b || precedes(a, b) || precedes(b, a),
        !(precedes(a, b) && precedes(b, a)),
        !precedes(a, a),
{
    if precedes(a, b) && precedes(b, a) {
        let i = choose|i: int| #[trigger] differs_first(a, b, i) && a[i] < b[i];
        let j = choose|j: int| #[trigger] differs_first(b, a, j) && b[j] < a[j];
        assert(i == j);
    }
    if a != b {
        let i = lemma_first_difference(a, b, 0);
        assert(differs_first(a, b, i));
        assert(differs_first(b, a, i));
    }
}

proof fn lemma_first_difference(a: Seq<int>, b: Seq<int>, from: int) -> (i: int)
    requires
        a.len() == b.len(),
        a != b,
        0 <= from <= a.len(),
        forall|j: int| 0 <= j < from ==> a[j] == b[j],
    ensures
        differs_first(a, b, i),
    decreases a.len() - from,
{
    if from == a.len() {
        assert(a =~= b);
        from
    } else if a[from] != b[from] {
        from
    } else {
        lemma_first_difference(a, b, from + 1)
    }
}

/// The first difference decides.
pub proof fn lemma_decided(a: Seq<int>, b: Seq<int>)
    ensures
        forall|i: int| #[trigger] differs_first(a, b, i) ==> (precedes(a, b) <==> a[i] < b[i]),
{
    assert forall|i: int| #[trigger] differs_first(a, b, i) implies (precedes(a, b) <==> a[i] < b[i]) by {
        if precedes(a, b) {
            let j = choose|j: int| #[trigger] differs_first(a, b, j) && a[j] < b[j];
            assert(i == j);
        }
    }
}

/// Law: what comes before something that comes before a third comes before the third.
pub proof fn dictionary_order_is_transitive(a: Seq<int>, b: Seq<int>, c: Seq<int>)
    requires
        a.len() == b.len(),
        b.len() == c.len(),
        precedes(a, b),
        precedes(b, c),
    ensures
        precedes(a, c),
{
    let i = choose|i: int| #[trigger] differs_first(a, b, i) && a[i] < b[i];
    let j = choose|j: int| #[trigger] differs_first(b, c, j) && b[j] < c[j];
    let k = if i <= j {
        i
    } else {
        j
    };
    assert(differs_first(a, c, k));
}

/// Law: the first number decides before all others.
pub proof fn the_first_number_decides(a: Seq<int>, b: Seq<int>)
    requires
        a.len() > 0,
        b.len() > 0,
    ensures
        a[0] < b[0] ==> precedes(a, b) && !precedes(b, a),
        !precedes(a, b) ==> a[0] >= b[0],
{
    if a[0] < b[0] {
        assert(differs_first(a, b, 0));
        lemma_decided(b, a);
        assert(differs_first(b, a, 0));
    }
}

} // verus!
