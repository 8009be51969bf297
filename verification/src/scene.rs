//! The order in which the parts of a scene are drawn.
use crate::selection::{first_clicked, lemma_first_set};
use vstd::prelude::*;

verus! {

/// Whether part `a` is drawn before part `b`: it has the lower order, or
/// the same order and stands earlier in the list.
pub open spec fn drawn_before(orders: Seq<i32>, a: int, b: int) -> bool {
    orders[a] < orders[b] || (orders[a] == orders[b] && a < b)
}

/// Whether `drawn` lists every part of the scene once, each before the
/// parts that are drawn after it.
pub open spec fn is_draw_order(orders: Seq<i32>, drawn: Seq<usize>) -> bool {
    &&& drawn.len() == orders.len()
    &&& forall|i: int| 0 <= i < drawn.len() ==> (#[trigger] drawn[i]) < orders.len()
    &&& forall|i: int, j: int|
        0 <= i < j < drawn.len() ==> drawn_before(orders, drawn[i] as int, drawn[j] as int)
    &&& forall|k: usize| k < orders.len() ==> drawn.contains(k)
}

/// Two draw orders of one scene have the same part at every place.
pub proof fn lemma_same_place(orders: Seq<i32>, a: Seq<usize>, b: Seq<usize>, i: int)
    requires
        is_draw_order(orders, a),
        is_draw_order(orders, b),
        0 <= i < a.len(),
    ensures
        a[i] == b[i],
    decreases i,
{
    let k = a[i];
    assert(b.contains(k));
    let j = choose|j: int| 0 <= j < b.len() && b[j] == k;
    let other = b[i];
    assert(a.contains(other));
    let back = choose|back: int| 0 <= back < a.len() && a[back] == other;
    if j < i {
        lemma_same_place(orders, a, b, j);
        assert(drawn_before(orders, a[j] as int, a[i] as int));
    } else if j > i {
        assert(drawn_before(orders, b[i] as int, b[j] as int));
        if back < i {
            lemma_same_place(orders, a, b, back);
            assert(drawn_before(orders, b[back] as int, b[i] as int));
        } else if back > i {
            assert(drawn_before(orders, a[i] as int, a[back] as int));
        }
    }
}

/// A scene has one draw order only.
pub proof fn lemma_draw_order_unique(orders: Seq<i32>, a: Seq<usize>, b: Seq<usize>)
    requires
        is_draw_order(orders, a),
        is_draw_order(orders, b),
    ensures
        a == b,
{
    assert forall|i: int| 0 <= i < a.len() implies a[i] == b[i] by {
        lemma_same_place(orders, a, b, i);
    }
    assert(a =~= b);
}

/// The order in which the parts of a scene are drawn anew, if the order of
/// any part has changed: by rising order, and parts of one order as they
/// stand in the list.
pub fn draw_order(orders: &Vec<i32>, changed: &Vec<bool>) -> (r: Option<Vec<usize>>)
    requires
        orders.len() == changed.len(),
    ensures
        r.is_some() <==> exists|i: int| 0 <= i < changed.len() && changed[i],
        r.is_some() ==> is_draw_order(orders@, r.unwrap()@),
{
    proof {
        lemma_first_set(changed@);
    }
    if first_clicked(changed).is_none() {
        return None;
    }
    let mut drawn: Vec<usize> = Vec::new();
    let mut i: usize = 0;
    while i < orders.len()
        invariant
            i <= orders.len(),
            drawn.len() == i,
            forall|a: int| 0 <= a < drawn.len() ==> (#[trigger] drawn[a]) < i,
            forall|a: int, b: int|
                0 <= a < b < drawn.len() ==> drawn_before(orders@, drawn[a] as int, drawn[b] as int),
            forall|k: usize| k < i ==> drawn@.contains(k),
        decreases orders.len() - i,
    {
        let mut at: usize = drawn.len();
        while at > 0 && orders[drawn[at - 1]] > orders[i]
            invariant
                i < orders.len(),
                drawn.len() == i,
                at <= drawn.len(),
                forall|a: int| 0 <= a < drawn.len() ==> (#[trigger] drawn[a]) < i,
                forall|a: int| at <= a < drawn.len() ==> orders[(#[trigger] drawn[a]) as int] > orders[i as int],
            decreases at,
        {
            at -= 1;
        }
        let ghost before = drawn@;
        drawn.insert(at, i);
        proof {
            assert forall|a: int, b: int| 0 <= a < b < drawn.len() implies drawn_before(
                orders@,
                drawn[a] as int,
                drawn[b] as int,
            ) by {
                if b < at {
                    assert(drawn[a] == before[a] && drawn[b] == before[b]);
                } else if b == at {
                    assert(drawn[a] == before[a]);
                    assert(drawn_before(orders@, before[a] as int, before[at - 1] as int) || a == at - 1);
                } else if a < at {
                    assert(drawn[a] == before[a] && drawn[b] == before[b - 1]);
                } else if a == at {
                    assert(drawn[b] == before[b - 1]);
                } else {
                    assert(drawn[a] == before[a - 1] && drawn[b] == before[b - 1]);
                }
            }
            assert forall|k: usize| k < i + 1 implies drawn@.contains(k) by {
                if k == i {
                    assert(drawn[at as int] == i);
                } else {
                    assert(before.contains(k));
                    let a = choose|a: int| 0 <= a < before.len() && before[a] == k;
                    if a < at {
                        assert(drawn[a] == k);
                    } else {
                        assert(drawn[a + 1] == k);
                    }
                }
            }
            assert forall|a: int| 0 <= a < drawn.len() implies (#[trigger] drawn[a]) < i + 1 by {
                if a < at {
                    assert(drawn[a] == before[a]);
                } else if a > at {
                    assert(drawn[a] == before[a - 1]);
                }
            }
        }
        i += 1;
    }
    Some(drawn)
}

} // verus!
