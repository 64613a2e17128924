//! A directory tree held in memory, and what a walk lists of it.

use vstd::prelude::*;
use crate::entry::Entry;
use crate::order::arranged;
use crate::walker::{settled, settled_is_open, Step, WalkOptions, Walker};

verus! {

/// A directory tree, listing by listing. Listing 0 holds the entries of the
/// root directory as they were found; the entries of a directory lower down
/// are the listing whose number is the `id` of the directory's own entry. A
/// directory whose `id` is the number of no listing could not be read.
pub struct Snapshot {
    pub listings: Vec<Vec<Entry>>,
}

impl View for Snapshot {
    type V = Seq<Seq<Entry>>;

    open spec fn view(&self) -> Seq<Seq<Entry>> {
        self.listings@.map_values(|listing: Vec<Entry>| listing@)
    }
}

/// An entry that a walk lists, with its depth below the root.
#[derive(Debug, PartialEq, Eq)]
pub struct Visit {
    pub entry: Entry,
    pub depth: usize,
}

/// What a walk lists of `entries`, which lie at `depth` and are in the order
/// of their listing: each entry, then what lies below it, then the entries
/// after it.
pub open spec fn walk_level(
    tree: Seq<Seq<Entry>>,
    entries: Seq<Entry>,
    depth: nat,
    o: WalkOptions,
) -> Seq<Visit>
    decreases o.max_depth - depth, entries.len() + 1,
{
    if entries.len() == 0 {
        Seq::empty()
    } else {
        seq![Visit { entry: entries[0], depth: depth as usize }] + walk_below(
            tree,
            entries[0],
            depth,
            o,
        ) + walk_level(tree, entries.drop_first(), depth, o)
    }
}

/// What a walk lists below `entry`, which lies at `depth`: nothing, unless the
/// entry is a directory, no link, above the greatest depth, and could be read;
/// then the entries of its listing that are shown, in their order, each with
/// what lies below it.
pub open spec fn walk_below(tree: Seq<Seq<Entry>>, entry: Entry, depth: nat, o: WalkOptions) -> Seq<
    Visit,
>
    decreases o.max_depth - depth, 0nat,
{
    if entry.enterable() && depth < o.max_depth && entry.id < tree.len() {
        walk_level(tree, arranged(tree[entry.id as int], o.show_hidden, o.reversed), depth + 1, o)
    } else {
        Seq::empty()
    }
}

/// What a walk lists of a whole tree: the shown entries of the root directory
/// in their order, each with what lies below it.
pub open spec fn walk(tree: Seq<Seq<Entry>>, o: WalkOptions) -> Seq<Visit> {
    if tree.len() > 0 {
        walk_level(tree, arranged(tree[0], o.show_hidden, o.reversed), 1, o)
    } else {
        Seq::empty()
    }
}

/// What a walk that stands at `pending` still lists, when every directory
/// that it asks for is supplied from `tree`.
pub open spec fn remaining(tree: Seq<Seq<Entry>>, pending: Seq<Seq<Entry>>, o: WalkOptions) -> Seq<
    Visit,
>
    decreases pending.len(),
{
    if pending.len() == 0 {
        Seq::empty()
    } else {
        walk_level(tree, pending.last(), pending.len(), o) + remaining(
            tree,
            pending.drop_last(),
            o,
        )
    }
}

proof fn lemma_remaining_settled(tree: Seq<Seq<Entry>>, pending: Seq<Seq<Entry>>, o: WalkOptions)
    ensures
        remaining(tree, settled(pending), o) == remaining(tree, pending, o),
    decreases pending.len(),
{
    if pending.len() > 0 && pending.last().len() == 0 {
        lemma_remaining_settled(tree, pending.drop_last(), o);
        assert(walk_level(tree, pending.last(), pending.len(), o) =~= Seq::empty());
        assert(remaining(tree, pending, o) =~= remaining(tree, pending.drop_last(), o));
    }
}

proof fn lemma_remaining_step(tree: Seq<Seq<Entry>>, open: Seq<Seq<Entry>>, o: WalkOptions)
    requires
        open.len() > 0,
        open.last().len() > 0,
    ensures
        remaining(tree, open, o) == seq![
            Visit { entry: open.last()[0], depth: open.len() as usize },
        ] + walk_below(tree, open.last()[0], open.len(), o) + remaining(
            tree,
            open.drop_last().push(open.last().drop_first()),
            o,
        ),
{
    let after = open.drop_last().push(open.last().drop_first());
    assert(after.drop_last() =~= open.drop_last());
    assert(after.last() == open.last().drop_first());
    let first = seq![Visit { entry: open.last()[0], depth: open.len() as usize }];
    let below = walk_below(tree, open.last()[0], open.len(), o);
    let siblings = walk_level(tree, open.last().drop_first(), open.len(), o);
    let outer = remaining(tree, open.drop_last(), o);
    assert(remaining(tree, open, o) == (first + below + siblings) + outer);
    assert(remaining(tree, after, o) == siblings + outer);
    assert((first + below + siblings) + outer =~= first + below + (siblings + outer));
}

proof fn lemma_remaining_supplied(
    tree: Seq<Seq<Entry>>,
    pending: Seq<Seq<Entry>>,
    entry: Entry,
    o: WalkOptions,
)
    requires
        entry.enterable(),
        pending.len() < o.max_depth,
        entry.id < tree.len(),
    ensures
        remaining(
            tree,
            pending.push(arranged(tree[entry.id as int], o.show_hidden, o.reversed)),
            o,
        ) == walk_below(tree, entry, pending.len(), o) + remaining(tree, pending, o),
{
    let listed = arranged(tree[entry.id as int], o.show_hidden, o.reversed);
    assert(pending.push(listed).drop_last() =~= pending);
    assert(pending.push(listed).last() == listed);
}

/// Walks a tree that is held in memory and gives what is listed, in order.
pub fn walk_snapshot(snapshot: &Snapshot, options: WalkOptions) -> (visits: Vec<Visit>)
    ensures
        visits@ == walk(snapshot@, options.normal()),
{
    let ghost tree = snapshot@;
    let ghost o = options.normal();
    let mut walker = Walker::new(options);
    if snapshot.listings.len() > 0 {
        walker.supply(&snapshot.listings[0]);
        proof {
            let listed = arranged(tree[0], o.show_hidden, o.reversed);
            let pending = walker@.pending;
            assert(pending =~= seq![listed]);
            assert(pending.last() == listed);
            assert(pending.drop_last() =~= Seq::<Seq<Entry>>::empty());
            assert(remaining(tree, pending.drop_last(), o) =~= Seq::<Visit>::empty());
            assert(remaining(tree, pending, o) =~= walk_level(tree, listed, 1, o));
        }
    }
    let mut visits: Vec<Visit> = Vec::new();
    loop
        invariant
            walker.wf(),
            walker@.options == o,
            o == options.normal(),
            tree == snapshot@,
            visits@ + remaining(tree, walker@.pending, o) == walk(tree, o),
        decreases walk(tree, o).len() - visits@.len(),
    {
        let ghost before = walker@.pending;
        let ghost listed = visits@;
        proof {
            walker.view_is_wf();
            lemma_remaining_settled(tree, before, o);
            settled_is_open(before);
        }
        match walker.next() {
            Step::Done => {
                proof {
                    assert(remaining(tree, settled(before), o) =~= Seq::<Visit>::empty());
                    assert(visits@ + Seq::<Visit>::empty() =~= visits@);
                }
                return visits;
            },
            Step::Visit { entry, depth, list } => {
                let ghost open = settled(before);
                let ghost after = walker@.pending;
                let ghost found = entry;
                proof {
                    lemma_remaining_step(tree, open, o);
                }
                let id = entry.id;
                visits.push(Visit { entry, depth });
                if list && id < snapshot.listings.len() {
                    walker.supply(&snapshot.listings[id]);
                    proof {
                        lemma_remaining_supplied(tree, after, found, o);
                    }
                }
                proof {
                    let first = seq![Visit { entry: found, depth: open.len() as usize }];
                    let below = walk_below(tree, found, open.len(), o);
                    assert(visits@ =~= listed + first);
                    assert(remaining(tree, walker@.pending, o) == below + remaining(
                        tree,
                        after,
                        o,
                    ));
                    assert(listed + (first + below + remaining(tree, after, o)) =~= (listed
                        + first) + (below + remaining(tree, after, o)));
                }
            },
        }
    }
}

} // verus!
