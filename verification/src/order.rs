//! Things in the order of their names.

use vstd::prelude::*;

use crate::text::{comes_before, lemma_text_less_trans, lemma_text_order, text_less};

verus! {

/// The views of a list of string slices.
pub open spec fn slices(list: Seq<&str>) -> Seq<Seq<char>> {
    list.map_values(|text: &str| text@)
}

/// How many of the places in `order` have a name that does not come behind
/// `name`, counted from the front.
pub open spec fn rank(names: Seq<Seq<char>>, order: Seq<int>, name: Seq<char>) -> nat
    decreases order.len(),
{
    if order.len() == 0 || text_less(name, names[order[0]]) {
        0
    } else {
        1 + rank(names, order.drop_first(), name)
    }
}

/// The places of the first `n` names, in the order of the names; of equal names
/// the first stays first.
pub open spec fn order_of_first(names: Seq<Seq<char>>, n: nat) -> Seq<int>
    decreases n,
{
    if n == 0 || n > names.len() {
        Seq::empty()
    } else {
        let order = order_of_first(names, (n - 1) as nat);
        order.insert(rank(names, order, names[n - 1]) as int, n - 1)
    }
}

/// The places of names, in the order of the names.
pub open spec fn name_order(names: Seq<Seq<char>>) -> Seq<int> {
    order_of_first(names, names.len())
}

/// The items at these places.
pub open spec fn arranged<T>(items: Seq<T>, order: Seq<int>) -> Seq<T> {
    order.map_values(|i: int| items[i])
}

/// Places as numbers.
pub open spec fn as_places(order: Seq<usize>) -> Seq<int> {
    order.map_values(|m: usize| m as int)
}

proof fn lemma_rank(names: Seq<Seq<char>>, order: Seq<int>, name: Seq<char>)
    ensures
        rank(names, order, name) <= order.len(),
        rank(names, order, name) < order.len() ==> text_less(
            name,
            names[order[rank(names, order, name) as int]],
        ),
        forall|k: int|
            0 <= k < rank(names, order, name) ==> !text_less(name, names[#[trigger] order[k]]),
    decreases order.len(),
{
    if order.len() > 0 && !text_less(name, names[order[0]]) {
        let rest = order.drop_first();
        lemma_rank(names, rest, name);
        assert forall|k: int| 0 <= k < rank(names, order, name) implies !text_less(
            name,
            names[#[trigger] order[k]],
        ) by {
            if k > 0 {
                assert(order[k] == rest[k - 1]);
            }
        }
    }
}

proof fn lemma_rank_is(names: Seq<Seq<char>>, order: Seq<int>, name: Seq<char>, at: int)
    requires
        0 <= at <= order.len(),
        at < order.len() ==> text_less(name, names[order[at]]),
        forall|k: int| 0 <= k < at ==> !text_less(name, names[#[trigger] order[k]]),
    ensures
        rank(names, order, name) == at,
{
    lemma_rank(names, order, name);
}

proof fn lemma_order_of_first(names: Seq<Seq<char>>, n: nat)
    requires
        n <= names.len(),
    ensures
        order_of_first(names, n).len() == n,
        forall|k: int| 0 <= k < n ==> 0 <= #[trigger] order_of_first(names, n)[k] < n,
        order_of_first(names, n).no_duplicates(),
        forall|i: int| 0 <= i < n ==> #[trigger] order_of_first(names, n).contains(i),
        forall|i: int, j: int|
            0 <= i < j < n ==> !text_less(
                names[#[trigger] order_of_first(names, n)[j]],
                names[#[trigger] order_of_first(names, n)[i]],
            ),
    decreases n,
{
    if n > 0 {
        let order = order_of_first(names, (n - 1) as nat);
        let name = names[n - 1];
        lemma_order_of_first(names, (n - 1) as nat);
        lemma_rank(names, order, name);
        let at = rank(names, order, name) as int;
        let all = order.insert(at, n - 1);
        assert forall|k: int| 0 <= k < n implies #[trigger] all[k] == (if k < at {
            order[k]
        } else if k == at {
            n - 1
        } else {
            order[k - 1]
        }) by {}
        assert forall|k: int| 0 <= k < n implies 0 <= #[trigger] all[k] < n by {
            if k < at {
                assert(0 <= order[k] < n - 1);
            } else if k > at {
                assert(0 <= order[k - 1] < n - 1);
            }
        }
        assert forall|i: int, j: int| 0 <= i < n && 0 <= j < n && i != j implies all[i] != all[j] by {
            let x = if i < at {
                i
            } else {
                i - 1
            };
            let y = if j < at {
                j
            } else {
                j - 1
            };
            if i == at {
                assert(0 <= order[y] < n - 1);
            } else if j == at {
                assert(0 <= order[x] < n - 1);
            } else {
                assert(order[x] != order[y]);
            }
        }
        assert forall|i: int| 0 <= i < n implies #[trigger] all.contains(i) by {
            if i == n - 1 {
                assert(all[at] == i);
            } else {
                assert(order.contains(i));
                let k = choose|k: int| 0 <= k < order.len() && order[k] == i;
                if k < at {
                    assert(all[k] == i);
                } else {
                    assert(all[k + 1] == i);
                }
            }
        }
        assert forall|i: int, j: int| 0 <= i < j < n implies !text_less(
            names[#[trigger] all[j]],
            names[#[trigger] all[i]],
        ) by {
            let x = if i < at {
                i
            } else {
                i - 1
            };
            let y = if j < at {
                j
            } else {
                j - 1
            };
            if i == at {
                assert(all[j] == order[y]);
                if at < y {
                    assert(!text_less(names[order[y]], names[order[at]]));
                }
                lemma_text_order(name, names[order[at]]);
                lemma_text_order(names[order[y]], names[order[at]]);
                if text_less(names[order[y]], name) {
                    lemma_text_less_trans(names[order[y]], name, names[order[at]]);
                }
            } else if j == at {
                assert(all[i] == order[x]);
                lemma_text_order(name, names[order[x]]);
            } else {
                assert(all[i] == order[x] && all[j] == order[y]);
            }
        }
    }
}

/// The order of names holds every place once, and no name stands before one
/// that precedes it.
pub proof fn names_are_ordered(names: Seq<Seq<char>>)
    ensures
        name_order(names).len() == names.len(),
        forall|k: int| 0 <= k < names.len() ==> 0 <= #[trigger] name_order(names)[k] < names.len(),
        name_order(names).no_duplicates(),
        forall|i: int| 0 <= i < names.len() ==> #[trigger] name_order(names).contains(i),
        forall|i: int, j: int|
            0 <= i < j < names.len() ==> !text_less(
                names[#[trigger] name_order(names)[j]],
                names[#[trigger] name_order(names)[i]],
            ),
{
    lemma_order_of_first(names, names.len());
}

/// The places of names, in the order of the names.
pub fn sort_names(names: &Vec<&str>) -> (order: Vec<usize>)
    ensures
        as_places(order@) == name_order(slices(names@)),
        order@.len() == names@.len(),
        forall|k: int| 0 <= k < order@.len() ==> (#[trigger] order@[k]) < names@.len(),
{
    let ghost all = slices(names@);
    let mut order: Vec<usize> = Vec::new();
    let mut i: usize = 0;
    assert(as_places(order@) =~= order_of_first(all, 0));
    while i < names.len()
        invariant
            i <= names@.len(),
            all == slices(names@),
            all.len() == names@.len(),
            order@.len() == i,
            forall|k: int| 0 <= k < order@.len() ==> (#[trigger] order@[k]) < i,
            as_places(order@) == order_of_first(all, i as nat),
        decreases names@.len() - i,
    {
        let ghost before = order@;
        let ghost places = as_places(before);
        let ghost name = all[i as int];
        let mut at: usize = 0;
        while at < order.len() && !comes_before(names[i], names[order[at]])
            invariant
                at <= order@.len(),
                order@ == before,
                i < names@.len(),
                all == slices(names@),
                all.len() == names@.len(),
                name == all[i as int],
                places == as_places(before),
                places.len() == before.len(),
                forall|k: int| 0 <= k < order@.len() ==> (#[trigger] order@[k]) < i,
                forall|k: int| 0 <= k < at ==> !text_less(name, all[#[trigger] places[k]]),
            decreases order@.len() - at,
        {
            assert(places[at as int] == before[at as int]);
            assert(all[places[at as int]] == names@[before[at as int] as int]@);
            at = at + 1;
        }
        proof {
            if at < before.len() {
                assert(places[at as int] == before[at as int]);
                assert(before[at as int] < i);
                assert(all[places[at as int]] == names@[before[at as int] as int]@);
            }
            lemma_rank_is(all, places, name, at as int);
        }
        order.insert(at, i);
        assert(as_places(order@) =~= order_of_first(all, (i + 1) as nat));
        assert forall|k: int| 0 <= k < order@.len() implies (#[trigger] order@[k]) < i + 1 by {
            if k < at {
                assert(order@[k] == before[k]);
            } else if k > at {
                assert(order@[k] == before[k - 1]);
            }
        }
        i = i + 1;
    }
    order
}

} // verus!
