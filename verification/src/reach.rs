//! Which entries of a tree a walk reaches: the laws of depth and of pruning.
//!
//! An entry of a tree is named by its path: the position of its topmost
//! ancestor in the listing of the root directory, then the position of the
//! next ancestor in the listing of that one, and so on down to its own.

use vstd::prelude::*;
use vstd::seq_lib::*;
use crate::entry::Entry;
use crate::order::{emission_order, emission_order_lists_in_order, goes_first, lists_in_order};
use crate::snapshot::{walk, walk_below, walk_level, Visit};
use crate::walker::WalkOptions;

verus! {

/// The entry at `path`, followed from listing `dir`.
pub open spec fn entry_at(tree: Seq<Seq<Entry>>, dir: int, path: Seq<int>) -> Entry
    decreases path.len(),
{
    if path.len() <= 1 {
        tree[dir][path[0]]
    } else {
        entry_at(tree, tree[dir][path[0]].id as int, path.drop_first())
    }
}

/// Whether a walk that lists listing `dir` at `depth` has the entry at `path`
/// in view: the entry lies no deeper than the greatest depth, it is shown,
/// and so is every ancestor of it on the path, each of which is a directory,
/// no link, that could be read.
pub open spec fn in_view(
    tree: Seq<Seq<Entry>>,
    dir: int,
    depth: nat,
    path: Seq<int>,
    o: WalkOptions,
) -> bool
    decreases path.len(),
{
    &&& path.len() >= 1
    &&& depth <= o.max_depth
    &&& 0 <= dir < tree.len()
    &&& 0 <= path[0] < tree[dir].len()
    &&& tree[dir][path[0]].shown(o.show_hidden)
    &&& (path.len() > 1 ==> tree[dir][path[0]].enterable() && in_view(
        tree,
        tree[dir][path[0]].id as int,
        depth + 1,
        path.drop_first(),
        o,
    ))
}

/// The visit that lists the entry at `path`, followed from listing `dir`,
/// whose entries lie at `depth`.
pub open spec fn visit_at(tree: Seq<Seq<Entry>>, dir: int, depth: nat, path: Seq<int>) -> Visit {
    Visit { entry: entry_at(tree, dir, path), depth: (depth + path.len() - 1) as usize }
}

/// The paths `paths`, each below position `k`.
pub open spec fn under(k: int, paths: Seq<Seq<int>>) -> Seq<Seq<int>> {
    paths.map_values(|p: Seq<int>| seq![k] + p)
}

/// The paths of what a walk lists of listing `dir`, whose entries lie at
/// `depth` and are listed in `order`.
pub open spec fn paths_level(
    tree: Seq<Seq<Entry>>,
    dir: int,
    order: Seq<int>,
    depth: nat,
    o: WalkOptions,
) -> Seq<Seq<int>>
    decreases o.max_depth - depth, order.len() + 1,
{
    if order.len() == 0 {
        Seq::empty()
    } else {
        seq![seq![order[0]]] + under(order[0], paths_below(tree, tree[dir][order[0]], depth, o))
            + paths_level(tree, dir, order.drop_first(), depth, o)
    }
}

/// The paths of what a walk lists below `entry`, which lies at `depth`,
/// followed from the entry's own listing.
pub open spec fn paths_below(tree: Seq<Seq<Entry>>, entry: Entry, depth: nat, o: WalkOptions) -> Seq<
    Seq<int>,
>
    decreases o.max_depth - depth, 0nat,
{
    if entry.enterable() && depth < o.max_depth && entry.id < tree.len() {
        paths_level(
            tree,
            entry.id as int,
            emission_order(tree[entry.id as int], o.show_hidden, o.reversed),
            depth + 1,
            o,
        )
    } else {
        Seq::empty()
    }
}

/// The paths of what a walk lists of a whole tree, in order.
pub open spec fn walk_paths(tree: Seq<Seq<Entry>>, o: WalkOptions) -> Seq<Seq<int>> {
    if tree.len() > 0 {
        paths_level(tree, 0, emission_order(tree[0], o.show_hidden, o.reversed), 1, o)
    } else {
        Seq::empty()
    }
}

proof fn lemma_under(k: int, paths: Seq<Seq<int>>)
    ensures
        under(k, paths).len() == paths.len(),
        forall|q: Seq<int>| #[trigger]
            under(k, paths).contains(q) <==> (q.len() >= 1 && q[0] == k && paths.contains(
                q.drop_first(),
            )),
        paths.no_duplicates() ==> under(k, paths).no_duplicates(),
{
    let u = under(k, paths);
    assert forall|q: Seq<int>| #[trigger] u.contains(q) implies (q.len() >= 1 && q[0] == k
        && paths.contains(q.drop_first())) by {
        let i = choose|i: int| 0 <= i < u.len() && u[i] == q;
        assert(q == seq![k] + paths[i]);
        assert(q.drop_first() =~= paths[i]);
    }
    assert forall|q: Seq<int>|
        (q.len() >= 1 && q[0] == k && paths.contains(q.drop_first())) implies #[trigger] u.contains(
        q,
    ) by {
        let i = choose|i: int| 0 <= i < paths.len() && paths[i] == q.drop_first();
        assert(u[i] =~= q);
    }
    if paths.no_duplicates() {
        assert forall|i: int, j: int| 0 <= i < u.len() && 0 <= j < u.len() && i != j implies u[i]
            != u[j] by {
            assert(u[i].drop_first() =~= paths[i]);
            assert(u[j].drop_first() =~= paths[j]);
        }
    }
}

proof fn lemma_order_split(order: Seq<int>, x: int)
    requires
        order.len() > 0,
    ensures
        order.contains(x) <==> (x == order[0] || order.drop_first().contains(x)),
        order.no_duplicates() ==> order.drop_first().no_duplicates() && !order.drop_first().contains(
            order[0],
        ),
{
    let tail = order.drop_first();
    if order.contains(x) {
        let i = choose|i: int| 0 <= i < order.len() && order[i] == x;
        if i > 0 {
            assert(tail[i - 1] == x);
        }
    }
    if tail.contains(x) {
        let i = choose|i: int| 0 <= i < tail.len() && tail[i] == x;
        assert(order[i + 1] == x);
    }
    if order.no_duplicates() {
        assert forall|i: int, j: int| 0 <= i < tail.len() && 0 <= j < tail.len() && i != j implies tail[i]
            != tail[j] by {
            assert(tail[i] == order[i + 1] && tail[j] == order[j + 1]);
        }
        if tail.contains(order[0]) {
            let i = choose|i: int| 0 <= i < tail.len() && tail[i] == order[0];
            assert(order[i + 1] == order[0]);
        }
    }
}

proof fn lemma_paths_level(
    tree: Seq<Seq<Entry>>,
    dir: int,
    order: Seq<int>,
    depth: nat,
    o: WalkOptions,
)
    requires
        0 <= dir < tree.len(),
        depth <= o.max_depth,
        forall|i: int|
            0 <= i < order.len() ==> 0 <= #[trigger] order[i] < tree[dir].len()
                && tree[dir][order[i]].shown(o.show_hidden),
        order.no_duplicates(),
    ensures
        forall|p: Seq<int>| #[trigger]
            paths_level(tree, dir, order, depth, o).contains(p) <==> (in_view(
                tree,
                dir,
                depth,
                p,
                o,
            ) && order.contains(p[0])),
        paths_level(tree, dir, order, depth, o).no_duplicates(),
    decreases o.max_depth - depth, order.len() + 1,
{
    let all = paths_level(tree, dir, order, depth, o);
    if order.len() == 0 {
        assert forall|p: Seq<int>| #[trigger]
            all.contains(p) <==> (in_view(tree, dir, depth, p, o) && order.contains(p[0])) by {}
    } else {
        let k = order[0];
        let e = tree[dir][k];
        let own = seq![seq![k]];
        let below = paths_below(tree, e, depth, o);
        let sub = under(k, below);
        let tail = order.drop_first();
        let rest = paths_level(tree, dir, tail, depth, o);
        lemma_paths_below(tree, e, depth, o);
        lemma_under(k, below);
        lemma_order_split(order, k);
        assert forall|i: int| 0 <= i < tail.len() implies 0 <= #[trigger] tail[i] < tree[dir].len()
            && tree[dir][tail[i]].shown(o.show_hidden) by {
            assert(tail[i] == order[i + 1]);
        }
        lemma_paths_level(tree, dir, tail, depth, o);
        assert(all == own + sub + rest);
        assert forall|p: Seq<int>| #[trigger]
            all.contains(p) <==> (in_view(tree, dir, depth, p, o) && order.contains(p[0])) by {
            lemma_seq_concat_contains_all_elements(own + sub, rest, p);
            lemma_seq_concat_contains_all_elements(own, sub, p);
            lemma_order_split(order, p[0]);
            if own.contains(p) {
                let i = choose|i: int| 0 <= i < own.len() && own[i] == p;
                assert(p == seq![k]);
            }
            if p.len() == 1 && p[0] == k {
                assert(p =~= seq![k]);
                assert(own[0] == p);
            }
        }
        assert forall|i: int, j: int| 0 <= i < own.len() && 0 <= j < sub.len() implies own[i]
            != sub[j] by {
            assert(sub.contains(sub[j]));
            assert(below.contains(sub[j].drop_first()));
        }
        lemma_no_dup_in_concat(own, sub);
        let head = own + sub;
        assert forall|i: int, j: int| 0 <= i < head.len() && 0 <= j < rest.len() implies head[i]
            != rest[j] by {
            assert(rest.contains(rest[j]));
            assert(tail.contains(rest[j][0]));
            if i > 0 {
                assert(head[i] == sub[i - 1]);
                assert(sub.contains(sub[i - 1]));
            }
            assert(head[i][0] == k);
        }
        lemma_no_dup_in_concat(head, rest);
    }
}

proof fn lemma_paths_below(tree: Seq<Seq<Entry>>, entry: Entry, depth: nat, o: WalkOptions)
    ensures
        forall|p: Seq<int>| #[trigger]
            paths_below(tree, entry, depth, o).contains(p) <==> (entry.enterable() && in_view(
                tree,
                entry.id as int,
                depth + 1,
                p,
                o,
            )),
        paths_below(tree, entry, depth, o).no_duplicates(),
    decreases o.max_depth - depth, 0nat,
{
    let below = paths_below(tree, entry, depth, o);
    if entry.enterable() && depth < o.max_depth && entry.id < tree.len() {
        let dir = entry.id as int;
        let order = emission_order(tree[dir], o.show_hidden, o.reversed);
        lemma_emission_order(tree[dir], o.show_hidden, o.reversed);
        lemma_paths_level(tree, dir, order, depth + 1, o);
        assert forall|p: Seq<int>| #[trigger]
            below.contains(p) <==> (entry.enterable() && in_view(tree, dir, depth + 1, p, o)) by {
            if in_view(tree, dir, depth + 1, p, o) {
                assert(tree[dir][p[0]].shown(o.show_hidden));
                assert(order.contains(p[0]));
            }
        }
    } else {
        assert forall|p: Seq<int>| #[trigger]
            below.contains(p) <==> (entry.enterable() && in_view(
                tree,
                entry.id as int,
                depth + 1,
                p,
                o,
            )) by {}
    }
}

proof fn lemma_emission_order(entries: Seq<Entry>, show_hidden: bool, reversed: bool)
    ensures
        forall|i: int|
            0 <= i < emission_order(entries, show_hidden, reversed).len() ==> 0 <= (
            #[trigger] emission_order(entries, show_hidden, reversed)[i]) < entries.len()
                && entries[emission_order(entries, show_hidden, reversed)[i]].shown(show_hidden),
        forall|k: int|
            0 <= k < entries.len() && (#[trigger] entries[k]).shown(show_hidden)
                ==> emission_order(entries, show_hidden, reversed).contains(k),
        emission_order(entries, show_hidden, reversed).no_duplicates(),
{
    let order = emission_order(entries, show_hidden, reversed);
    emission_order_lists_in_order(entries, show_hidden, reversed);
    assert(lists_in_order(entries, entries.len() as int, order, show_hidden, reversed));
    assert forall|i: int, j: int| 0 <= i < order.len() && 0 <= j < order.len() && i != j implies order[i]
        != order[j] by {
        if i < j {
            assert(goes_first(entries, order[i], order[j], reversed));
        } else {
            assert(goes_first(entries, order[j], order[i], reversed));
        }
    }
}

proof fn lemma_level_visits(
    tree: Seq<Seq<Entry>>,
    dir: int,
    order: Seq<int>,
    depth: nat,
    o: WalkOptions,
)
    requires
        0 <= dir < tree.len(),
    ensures
        walk_level(tree, order.map_values(|k: int| tree[dir][k]), depth, o) == paths_level(
            tree,
            dir,
            order,
            depth,
            o,
        ).map_values(|p: Seq<int>| visit_at(tree, dir, depth, p)),
    decreases o.max_depth - depth, order.len() + 1,
{
    let entries = order.map_values(|k: int| tree[dir][k]);
    let paths = paths_level(tree, dir, order, depth, o);
    let visits = walk_level(tree, entries, depth, o);
    if order.len() == 0 {
        assert(visits =~= paths.map_values(|p: Seq<int>| visit_at(tree, dir, depth, p)));
    } else {
        let k = order[0];
        let e = tree[dir][k];
        let tail = order.drop_first();
        assert(entries[0] == e);
        assert(entries.drop_first() =~= tail.map_values(|k: int| tree[dir][k]));
        lemma_level_visits(tree, dir, tail, depth, o);
        lemma_below_visits(tree, e, depth, o);
        lemma_paths_below(tree, e, depth, o);
        let below = paths_below(tree, e, depth, o);
        let sub = under(k, below);
        let rest = paths_level(tree, dir, tail, depth, o);
        let own = seq![seq![k]];
        assert(paths == own + sub + rest);
        let first = seq![Visit { entry: e, depth: depth as usize }];
        let lower = walk_below(tree, e, depth, o);
        let after = walk_level(tree, entries.drop_first(), depth, o);
        assert(visits == first + lower + after);
        let mapped = paths.map_values(|p: Seq<int>| visit_at(tree, dir, depth, p));
        assert(visits.len() == mapped.len());
        assert forall|i: int| 0 <= i < visits.len() implies visits[i] == mapped[i] by {
            if i == 0 {
                assert(paths[0] == seq![k]);
            } else if i < 1 + sub.len() {
                let q = below[i - 1];
                assert(below.contains(q));
                assert(paths[i] == seq![k] + q);
                assert((seq![k] + q).drop_first() =~= q);
                assert(visits[i] == lower[i - 1]);
            } else {
                assert(paths[i] == rest[i - 1 - sub.len()]);
                assert(visits[i] == after[i - 1 - lower.len()]);
            }
        }
        assert(visits =~= mapped);
    }
}

proof fn lemma_below_visits(tree: Seq<Seq<Entry>>, entry: Entry, depth: nat, o: WalkOptions)
    ensures
        walk_below(tree, entry, depth, o) == paths_below(tree, entry, depth, o).map_values(
            |p: Seq<int>| visit_at(tree, entry.id as int, depth + 1, p),
        ),
    decreases o.max_depth - depth, 0nat,
{
    if entry.enterable() && depth < o.max_depth && entry.id < tree.len() {
        let dir = entry.id as int;
        let order = emission_order(tree[dir], o.show_hidden, o.reversed);
        lemma_level_visits(tree, dir, order, depth + 1, o);
    } else {
        assert(walk_below(tree, entry, depth, o) =~= paths_below(tree, entry, depth, o).map_values(
            |p: Seq<int>| visit_at(tree, entry.id as int, depth + 1, p),
        ));
    }
}

proof fn lemma_in_view_depth(
    tree: Seq<Seq<Entry>>,
    dir: int,
    depth: nat,
    path: Seq<int>,
    o: WalkOptions,
)
    requires
        in_view(tree, dir, depth, path, o),
    ensures
        depth + path.len() - 1 <= o.max_depth,
        entry_at(tree, dir, path).shown(o.show_hidden),
    decreases path.len(),
{
    if path.len() > 1 {
        lemma_in_view_depth(tree, tree[dir][path[0]].id as int, depth + 1, path.drop_first(), o);
    }
}

proof fn lemma_in_view_prefix(
    tree: Seq<Seq<Entry>>,
    dir: int,
    depth: nat,
    path: Seq<int>,
    cut: int,
    o: WalkOptions,
)
    requires
        in_view(tree, dir, depth, path, o),
        1 <= cut <= path.len(),
    ensures
        entry_at(tree, dir, path.take(cut)).shown(o.show_hidden),
    decreases path.len(),
{
    let front = path.take(cut);
    assert(front[0] == path[0]);
    if cut > 1 {
        assert(front.drop_first() =~= path.drop_first().take(cut - 1));
        lemma_in_view_prefix(
            tree,
            tree[dir][path[0]].id as int,
            depth + 1,
            path.drop_first(),
            cut - 1,
            o,
        );
    }
}

/// What a walk lists, entry by entry, is what lies at its paths. No path is
/// listed twice, and the paths listed are those in view: every entry that
/// lies no deeper than the greatest depth and whose ancestors are all listed
/// directories is listed exactly once, and no other entry is. So nothing is
/// listed from below the greatest depth, and nothing that is not shown.
pub proof fn walk_lists_what_is_in_view_once(tree: Seq<Seq<Entry>>, o: WalkOptions)
    requires
        o.max_depth >= 1,
    ensures
        walk(tree, o) == walk_paths(tree, o).map_values(|p: Seq<int>| visit_at(tree, 0, 1, p)),
        walk_paths(tree, o).no_duplicates(),
        forall|p: Seq<int>| #[trigger] walk_paths(tree, o).contains(p) <==> in_view(tree, 0, 1, p, o),
        forall|i: int|
            0 <= i < walk(tree, o).len() ==> 1 <= (#[trigger] walk(tree, o)[i]).depth
                <= o.max_depth && walk(tree, o)[i].entry.shown(o.show_hidden),
{
    let paths = walk_paths(tree, o);
    if tree.len() > 0 {
        let order = emission_order(tree[0], o.show_hidden, o.reversed);
        lemma_emission_order(tree[0], o.show_hidden, o.reversed);
        lemma_paths_level(tree, 0, order, 1, o);
        lemma_level_visits(tree, 0, order, 1, o);
        assert forall|p: Seq<int>| #[trigger] paths.contains(p) <==> in_view(tree, 0, 1, p, o) by {
            if in_view(tree, 0, 1, p, o) {
                assert(tree[0][p[0]].shown(o.show_hidden));
                assert(order.contains(p[0]));
            }
        }
        assert forall|i: int| 0 <= i < walk(tree, o).len() implies 1 <= (#[trigger] walk(
            tree,
            o,
        )[i]).depth <= o.max_depth && walk(tree, o)[i].entry.shown(o.show_hidden) by {
            assert(paths.contains(paths[i]));
            lemma_in_view_depth(tree, 0, 1, paths[i], o);
        }
    } else {
        assert(walk(tree, o) =~= paths.map_values(|p: Seq<int>| visit_at(tree, 0, 1, p)));
        assert forall|p: Seq<int>| #[trigger] paths.contains(p) <==> in_view(tree, 0, 1, p, o) by {}
    }
}

/// Where hidden entries are left out, a hidden entry takes all that lies
/// below it out of the listing with it: no path that leads to a hidden entry
/// or through one is listed, whatever the entries further down are.
pub proof fn hidden_entry_prunes_its_subtree(
    tree: Seq<Seq<Entry>>,
    o: WalkOptions,
    path: Seq<int>,
    cut: int,
)
    requires
        o.max_depth >= 1,
        !o.show_hidden,
        1 <= cut <= path.len(),
        entry_at(tree, 0, path.take(cut)).hidden(),
    ensures
        !walk_paths(tree, o).contains(path),
{
    walk_lists_what_is_in_view_once(tree, o);
    if in_view(tree, 0, 1, path, o) {
        lemma_in_view_prefix(tree, 0, 1, path, cut, o);
    }
}

} // verus!
