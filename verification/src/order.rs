//! The order in which the entries of one directory are listed: by creation
//! time, entries of equal time in the order in which they were found.

use vstd::prelude::*;
use crate::entry::{Entry, Timestamp};

verus! {

/// Whether something created at `a` is older than something created at `b`.
/// An absent time is older than every time that is present.
pub open spec fn older(a: Option<Timestamp>, b: Option<Timestamp>) -> bool {
    match (a, b) {
        (None, Some(_)) => true,
        (Some(x), Some(y)) => x.instant() < y.instant(),
        _ => false,
    }
}

/// Whether `a` has to be listed before `b`: the older one first, or with
/// `reversed` the newer one first. The reversed order is the same comparison
/// with its sides exchanged, so two equal times tie in both.
pub open spec fn comes_before(a: Option<Timestamp>, b: Option<Timestamp>, reversed: bool) -> bool {
    if reversed {
        older(b, a)
    } else {
        older(a, b)
    }
}

/// Whether the entries at `a` and `b` are of one creation time, or both of
/// none. The time is the entry's own, by which it is ordered.
pub open spec fn tied(entries: Seq<Entry>, a: int, b: int) -> bool {
    !older(entries[a].own_created, entries[b].own_created) && !older(entries[b].own_created, entries[a].own_created)
}

/// Whether the entry at index `a` is listed before the one at index `b`: its
/// creation time comes first, or the two tie and `a` was found first.
pub open spec fn goes_first(entries: Seq<Entry>, a: int, b: int, reversed: bool) -> bool {
    ||| comes_before(entries[a].own_created, entries[b].own_created, reversed)
    ||| (!comes_before(entries[b].own_created, entries[a].own_created, reversed) && a < b)
}

/// What it is for `order` to list the first `n` of `entries`: it holds the
/// index of every entry among them that is shown, and of no other, each
/// before all those that it goes first of.
pub open spec fn lists_in_order(
    entries: Seq<Entry>,
    n: int,
    order: Seq<int>,
    show_hidden: bool,
    reversed: bool,
) -> bool {
    &&& (forall|i: int|
        0 <= i < order.len() ==> 0 <= #[trigger] order[i] < n && entries[order[i]].shown(
            show_hidden,
        ))
    &&& (forall|k: int|
        0 <= k < n && (#[trigger] entries[k]).shown(show_hidden) ==> exists|i: int|
            0 <= i < order.len() && order[i] == k)
    &&& (forall|i: int, j: int|
        #![trigger order[i], order[j]]
        0 <= i < j < order.len() ==> goes_first(entries, order[i], order[j], reversed))
}

/// The place in `order` at which index `k` is put: behind every index that
/// the entry at `k` does not come before, counted from the end.
pub open spec fn insert_position(entries: Seq<Entry>, order: Seq<int>, k: int, reversed: bool) -> int
    decreases order.len(),
{
    if order.len() > 0 && comes_before(
        entries[k].own_created,
        entries[order.last()].own_created,
        reversed,
    ) {
        insert_position(entries, order.drop_last(), k, reversed)
    } else {
        order.len() as int
    }
}

/// The order of the first `n` entries, built up entry by entry.
pub open spec fn order_upto(entries: Seq<Entry>, n: int, show_hidden: bool, reversed: bool) -> Seq<
    int,
>
    decreases n,
{
    if n <= 0 {
        Seq::empty()
    } else {
        let rest = order_upto(entries, n - 1, show_hidden, reversed);
        if entries[n - 1].shown(show_hidden) {
            rest.insert(insert_position(entries, rest, n - 1, reversed), n - 1)
        } else {
            rest
        }
    }
}

/// The indices of the entries that a listing of `entries` shows, in the order
/// in which it shows them.
pub open spec fn emission_order(entries: Seq<Entry>, show_hidden: bool, reversed: bool) -> Seq<int> {
    order_upto(entries, entries.len() as int, show_hidden, reversed)
}

/// The entries that a listing of `entries` shows, in the order in which it
/// shows them.
pub open spec fn arranged(entries: Seq<Entry>, show_hidden: bool, reversed: bool) -> Seq<Entry> {
    emission_order(entries, show_hidden, reversed).map_values(|k: int| entries[k])
}

/// The indices of a vector as integers.
pub open spec fn indices(order: Seq<usize>) -> Seq<int> {
    order.map_values(|k: usize| k as int)
}

proof fn lemma_insert_position(entries: Seq<Entry>, order: Seq<int>, k: int, reversed: bool)
    requires
        0 <= k < entries.len(),
        forall|i: int| 0 <= i < order.len() ==> 0 <= #[trigger] order[i] < entries.len(),
        forall|i: int, j: int|
            #![trigger order[i], order[j]]
            0 <= i < j < order.len() ==> goes_first(entries, order[i], order[j], reversed),
    ensures
        0 <= insert_position(entries, order, k, reversed) <= order.len(),
        forall|i: int|
            insert_position(entries, order, k, reversed) <= i < order.len() ==> comes_before(
                entries[k].own_created,
                entries[#[trigger] order[i]].own_created,
                reversed,
            ),
        forall|i: int|
            0 <= i < insert_position(entries, order, k, reversed) ==> !comes_before(
                entries[k].own_created,
                entries[#[trigger] order[i]].own_created,
                reversed,
            ),
    decreases order.len(),
{
    if order.len() > 0 {
        let last = order.len() - 1;
        if comes_before(entries[k].own_created, entries[order.last()].own_created, reversed) {
            let front = order.drop_last();
            assert forall|i: int, j: int| 0 <= i < j < front.len() implies goes_first(
                entries,
                #[trigger] front[i],
                #[trigger] front[j],
                reversed,
            ) by {
                assert(front[i] == order[i] && front[j] == order[j]);
            }
            lemma_insert_position(entries, front, k, reversed);
            let pos = insert_position(entries, order, k, reversed);
            assert forall|i: int| pos <= i < order.len() implies comes_before(
                entries[k].own_created,
                entries[#[trigger] order[i]].own_created,
                reversed,
            ) by {
                if i < last {
                    assert(front[i] == order[i]);
                }
            }
            assert forall|i: int| 0 <= i < pos implies !comes_before(
                entries[k].own_created,
                entries[#[trigger] order[i]].own_created,
                reversed,
            ) by {
                assert(front[i] == order[i]);
            }
        } else {
            assert forall|i: int| 0 <= i < order.len() implies !comes_before(
                entries[k].own_created,
                entries[#[trigger] order[i]].own_created,
                reversed,
            ) by {
                if i < last {
                    assert(goes_first(entries, order[i], order[last], reversed));
                }
            }
        }
    }
}

proof fn lemma_order_upto(entries: Seq<Entry>, n: int, show_hidden: bool, reversed: bool)
    requires
        0 <= n <= entries.len(),
    ensures
        lists_in_order(entries, n, order_upto(entries, n, show_hidden, reversed), show_hidden, reversed),
    decreases n,
{
    if n > 0 {
        let k = n - 1;
        let rest = order_upto(entries, k, show_hidden, reversed);
        lemma_order_upto(entries, k, show_hidden, reversed);
        if entries[k].shown(show_hidden) {
            lemma_insert_position(entries, rest, k, reversed);
            let pos = insert_position(entries, rest, k, reversed);
            let order = rest.insert(pos, k);
            rest.insert_ensures(pos, k);
            assert forall|i: int| 0 <= i < order.len() implies 0 <= #[trigger] order[i] < n
                && entries[order[i]].shown(show_hidden) by {
                if i < pos {
                    assert(order[i] == rest[i]);
                } else if i > pos {
                    assert(order[(i - 1) + 1] == rest[i - 1]);
                }
            }
            assert forall|m: int| 0 <= m < n && (#[trigger] entries[m]).shown(
                show_hidden,
            ) implies exists|i: int| 0 <= i < order.len() && order[i] == m by {
                if m == k {
                    assert(order[pos] == m);
                } else {
                    let at = choose|i: int| 0 <= i < rest.len() && rest[i] == m;
                    if at < pos {
                        assert(order[at] == m);
                    } else {
                        assert(order[at + 1] == m);
                    }
                }
            }
            assert forall|i: int, j: int|
                #![trigger order[i], order[j]]
                0 <= i < j < order.len() implies goes_first(entries, order[i], order[j], reversed) by {
                let a = if i < pos { i } else { i - 1 };
                let b = if j < pos { j } else { j - 1 };
                if i != pos {
                    assert(order[i] == rest[a]);
                }
                if j != pos {
                    assert(order[(b + 1)] == rest[b] || order[j] == rest[b]);
                    assert(order[j] == rest[b]);
                }
                if i != pos && j != pos {
                    assert(goes_first(entries, rest[a], rest[b], reversed));
                }
            }
        }
    }
}

/// The order of a listing holds the index of each shown entry, and of no
/// other; an entry whose creation time comes first stands first, and of two
/// entries that tie the one found first.
pub proof fn emission_order_lists_in_order(entries: Seq<Entry>, show_hidden: bool, reversed: bool)
    ensures
        lists_in_order(
            entries,
            entries.len() as int,
            emission_order(entries, show_hidden, reversed),
            show_hidden,
            reversed,
        ),
{
    lemma_order_upto(entries, entries.len() as int, show_hidden, reversed);
}

proof fn lemma_without_newest(
    entries: Seq<Entry>,
    n: int,
    order: Seq<int>,
    pos: int,
    show_hidden: bool,
    reversed: bool,
)
    requires
        1 <= n <= entries.len(),
        lists_in_order(entries, n, order, show_hidden, reversed),
        0 <= pos < order.len(),
        order[pos] == n - 1,
    ensures
        lists_in_order(entries, n - 1, order.remove(pos), show_hidden, reversed),
        order == order.remove(pos).insert(pos, n - 1),
        forall|i: int|
            0 <= i < pos ==> !comes_before(
                entries[n - 1].own_created,
                entries[#[trigger] order.remove(pos)[i]].own_created,
                reversed,
            ),
        forall|i: int|
            pos <= i < order.remove(pos).len() ==> comes_before(
                entries[n - 1].own_created,
                entries[#[trigger] order.remove(pos)[i]].own_created,
                reversed,
            ),
{
    let k = n - 1;
    let others = order.remove(pos);
    order.remove_ensures(pos);
    assert forall|i: int| 0 <= i < others.len() implies 0 <= #[trigger] others[i] < k
        && entries[others[i]].shown(show_hidden) && (i < pos ==> !comes_before(
        entries[k].own_created,
        entries[others[i]].own_created,
        reversed,
    )) && (pos <= i ==> comes_before(entries[k].own_created, entries[others[i]].own_created, reversed)) by {
        if i < pos {
            assert(others[i] == order[i]);
            assert(goes_first(entries, order[i], order[pos], reversed));
        } else {
            assert(others[i] == order[i + 1]);
            assert(goes_first(entries, order[pos], order[i + 1], reversed));
        }
    }
    assert forall|m: int| 0 <= m < k && (#[trigger] entries[m]).shown(show_hidden) implies exists|
        i: int,
    | 0 <= i < others.len() && others[i] == m by {
        let at = choose|i: int| 0 <= i < order.len() && order[i] == m;
        if at < pos {
            assert(others[at] == m);
        } else {
            assert(others[at - 1] == order[at - 1 + 1]);
            assert(others[at - 1] == m);
        }
    }
    assert forall|i: int, j: int|
        #![trigger others[i], others[j]]
        0 <= i < j < others.len() implies goes_first(entries, others[i], others[j], reversed) by {
        let a = if i < pos { i } else { i + 1 };
        let b = if j < pos { j } else { j + 1 };
        assert(others[i] == order[a]);
        assert(others[j] == order[b]);
        assert(goes_first(entries, order[a], order[b], reversed));
    }
    assert(order =~= others.insert(pos, k));
}

proof fn lemma_order_is_determined(
    entries: Seq<Entry>,
    n: int,
    order: Seq<int>,
    show_hidden: bool,
    reversed: bool,
)
    requires
        0 <= n <= entries.len(),
        lists_in_order(entries, n, order, show_hidden, reversed),
    ensures
        order == order_upto(entries, n, show_hidden, reversed),
    decreases n,
{
    if n == 0 {
        if order.len() > 0 {
            assert(order[0] < n);
        }
        assert(order =~= Seq::<int>::empty());
    } else {
        let k = n - 1;
        let rest = order_upto(entries, k, show_hidden, reversed);
        if entries[k].shown(show_hidden) {
            let pos = choose|i: int| 0 <= i < order.len() && order[i] == k;
            lemma_without_newest(entries, n, order, pos, show_hidden, reversed);
            lemma_order_is_determined(entries, k, order.remove(pos), show_hidden, reversed);
            assert(order.remove(pos) == rest);
            lemma_order_upto(entries, k, show_hidden, reversed);
            lemma_insert_position(entries, rest, k, reversed);
            let place = insert_position(entries, rest, k, reversed);
            if pos < place {
                assert(comes_before(entries[k].own_created, entries[rest[pos]].own_created, reversed));
            } else if place < pos {
                assert(!comes_before(entries[k].own_created, entries[rest[place]].own_created, reversed));
            }
            assert(pos == place);
        } else {
            assert forall|i: int| 0 <= i < order.len() implies 0 <= #[trigger] order[i] < k
                && entries[order[i]].shown(show_hidden) by {}
            assert(lists_in_order(entries, k, order, show_hidden, reversed));
            lemma_order_is_determined(entries, k, order, show_hidden, reversed);
        }
    }
}

/// There is one order in which a listing lists its entries: whatever holds
/// the index of each shown entry and of no other, what comes first by
/// creation time before what comes later, and of two that tie the one found
/// first, is the order of the listing.
pub proof fn creation_order_is_determined(
    entries: Seq<Entry>,
    order: Seq<int>,
    show_hidden: bool,
    reversed: bool,
)
    requires
        lists_in_order(entries, entries.len() as int, order, show_hidden, reversed),
    ensures
        order == emission_order(entries, show_hidden, reversed),
{
    lemma_order_is_determined(entries, entries.len() as int, order, show_hidden, reversed);
}

/// Sorting is stable: two listed entries of one creation time, or both of
/// none, stand in the order in which they were found, whether the listing is
/// reversed or not.
pub proof fn ties_keep_found_order(
    entries: Seq<Entry>,
    show_hidden: bool,
    reversed: bool,
    i: int,
    j: int,
)
    requires
        0 <= i < emission_order(entries, show_hidden, reversed).len(),
        0 <= j < emission_order(entries, show_hidden, reversed).len(),
        tied(
            entries,
            emission_order(entries, show_hidden, reversed)[i],
            emission_order(entries, show_hidden, reversed)[j],
        ),
    ensures
        (i < j) == (emission_order(entries, show_hidden, reversed)[i] < emission_order(
            entries,
            show_hidden,
            reversed,
        )[j]),
{
    let order = emission_order(entries, show_hidden, reversed);
    emission_order_lists_in_order(entries, show_hidden, reversed);
    if i < j {
        assert(goes_first(entries, order[i], order[j], reversed));
    } else if j < i {
        assert(goes_first(entries, order[j], order[i], reversed));
    }
}

/// An absent creation time sorts as the oldest: an entry without one is
/// listed before every entry that has one, and after it when the listing is
/// reversed.
pub proof fn absent_time_sorts_oldest(
    entries: Seq<Entry>,
    show_hidden: bool,
    reversed: bool,
    i: int,
    j: int,
)
    requires
        0 <= i < emission_order(entries, show_hidden, reversed).len(),
        0 <= j < emission_order(entries, show_hidden, reversed).len(),
        entries[emission_order(entries, show_hidden, reversed)[i]].own_created is None,
        entries[emission_order(entries, show_hidden, reversed)[j]].own_created is Some,
    ensures
        if reversed {
            j < i
        } else {
            i < j
        },
{
    let order = emission_order(entries, show_hidden, reversed);
    emission_order_lists_in_order(entries, show_hidden, reversed);
    if i < j {
        assert(goes_first(entries, order[i], order[j], reversed));
    } else if j < i {
        assert(goes_first(entries, order[j], order[i], reversed));
    }
}

/// Whether something created at `a` is listed before something created at `b`.
pub fn is_before(a: &Option<Timestamp>, b: &Option<Timestamp>, reversed: bool) -> (r: bool)
    ensures
        r == comes_before(*a, *b, reversed),
{
    let (first, second) = if reversed { (b, a) } else { (a, b) };
    match first {
        None => second.is_some(),
        Some(x) => match second {
            None => false,
            Some(y) => x.is_before(y),
        },
    }
}

/// Sorts a listing: the indices of the entries that are shown, ordered by
/// creation time, ties in the order in which the entries stand in `entries`.
/// The entries need no time: one without sorts as older than any with one.
pub fn creation_order(entries: &Vec<Entry>, show_hidden: bool, reversed: bool) -> (order: Vec<usize>)
    ensures
        indices(order@) == emission_order(entries@, show_hidden, reversed),
        lists_in_order(
            entries@,
            entries@.len() as int,
            indices(order@),
            show_hidden,
            reversed,
        ),
{
    let mut order: Vec<usize> = Vec::new();
    let mut i: usize = 0;
    assert(indices(order@) =~= order_upto(entries@, 0, show_hidden, reversed));
    while i < entries.len()
        invariant
            i <= entries.len(),
            indices(order@) == order_upto(entries@, i as int, show_hidden, reversed),
        decreases entries.len() - i,
    {
        if entries[i].is_shown(show_hidden) {
            let ghost prior = indices(order@);
            proof {
                lemma_order_upto(entries@, i as int, show_hidden, reversed);
                assert(prior.take(order.len() as int) =~= prior);
            }
            let mut pos: usize = order.len();
            while pos > 0 && is_before(
                &entries[i].own_created,
                &entries[order[pos - 1]].own_created,
                reversed,
            )
                invariant
                    pos <= order.len(),
                    i < entries.len(),
                    indices(order@) == prior,
                    forall|j: int| 0 <= j < prior.len() ==> 0 <= #[trigger] prior[j] < i,
                    insert_position(entries@, prior, i as int, reversed) == insert_position(
                        entries@,
                        prior.take(pos as int),
                        i as int,
                        reversed,
                    ),
                decreases pos,
            {
                proof {
                    assert(prior[pos - 1] == order@[pos - 1] as int);
                    assert(prior.take(pos as int).last() == prior[pos - 1]);
                    assert(prior.take(pos as int).drop_last() =~= prior.take(pos - 1));
                }
                pos -= 1;
            }
            proof {
                if pos > 0 {
                    assert(prior[pos - 1] == order@[pos - 1] as int);
                    assert(prior.take(pos as int).last() == prior[pos - 1]);
                }
                assert(insert_position(entries@, prior, i as int, reversed) == pos);
            }
            order.insert(pos, i);
            proof {
                assert(indices(order@) =~= prior.insert(pos as int, i as int));
            }
        }
        i += 1;
    }
    proof {
        emission_order_lists_in_order(entries@, show_hidden, reversed);
    }
    order
}

/// The entries that are shown, in the order in which they are listed.
pub fn arrange(entries: &Vec<Entry>, show_hidden: bool, reversed: bool) -> (listed: Vec<Entry>)
    ensures
        listed@ == arranged(entries@, show_hidden, reversed),
{
    let order = creation_order(entries, show_hidden, reversed);
    let mut listed: Vec<Entry> = Vec::new();
    let mut i: usize = 0;
    while i < order.len()
        invariant
            i <= order.len(),
            indices(order@) == emission_order(entries@, show_hidden, reversed),
            lists_in_order(
                entries@,
                entries@.len() as int,
                indices(order@),
                show_hidden,
                reversed,
            ),
            listed@ == arranged(entries@, show_hidden, reversed).take(i as int),
        decreases order.len() - i,
    {
        proof {
            assert(indices(order@)[i as int] == order@[i as int] as int);
        }
        listed.push(entries[order[i]].clone());
        proof {
            assert(listed@ =~= arranged(entries@, show_hidden, reversed).take(i + 1));
        }
        i += 1;
    }
    proof {
        assert(listed@ =~= arranged(entries@, show_hidden, reversed));
    }
    listed
}

} // verus!
