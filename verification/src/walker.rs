//! The tree walker: which entry is listed next, and which directories are read.
//!
//! The walker reads nothing itself. It hands out one entry after the other and
//! says of each whether its directory is to be read; the caller reads that
//! directory and supplies what it found, or supplies nothing where the
//! directory could not be read.

use vstd::prelude::*;
use crate::entry::Entry;
use crate::order::{arrange, arranged, emission_order, emission_order_lists_in_order};

verus! {

/// How a tree is walked.
#[derive(Clone, Copy, Debug, PartialEq, Eq, Structural)]
pub struct WalkOptions {
    /// The depth of the deepest entries that are listed; the entries of the
    /// root directory have depth one. A depth of zero counts as one.
    pub max_depth: usize,
    /// Whether entries whose name begins with a dot are listed.
    pub show_hidden: bool,
    /// Whether the newest entry of a directory comes first, not the oldest.
    pub reversed: bool,
}

impl WalkOptions {
    /// The options with a depth of at least one.
    pub open spec fn normal(self) -> WalkOptions {
        WalkOptions {
            max_depth: if self.max_depth == 0 { 1 } else { self.max_depth },
            show_hidden: self.show_hidden,
            reversed: self.reversed,
        }
    }

    /// Computes `normal`.
    pub fn normalized(self) -> (o: WalkOptions)
        ensures
            o == self.normal(),
    {
        WalkOptions {
            max_depth: if self.max_depth == 0 { 1 } else { self.max_depth },
            show_hidden: self.show_hidden,
            reversed: self.reversed,
        }
    }
}

/// What a walker does next.
#[derive(Debug, PartialEq, Eq)]
pub enum Step {
    /// `entry`, at `depth`, is listed now. Where `list` holds the caller reads
    /// the directory that the entry is and supplies its entries before it asks
    /// for the next step.
    Visit { entry: Entry, depth: usize, list: bool },
    /// Nothing is left.
    Done,
}

/// The entries of one directory in the order of their listing, and how many
/// of them are listed already.
struct Level {
    entries: Vec<Entry>,
    next: usize,
}

/// The state of a walk.
pub struct Walker {
    options: WalkOptions,
    levels: Vec<Level>,
    awaiting: bool,
}

/// A walk as contracts see it.
pub struct WalkerView {
    /// The options, their depth at least one.
    pub options: WalkOptions,
    /// For each directory that the walk is in, the root's first: its entries
    /// that are still to be listed, the next one first.
    pub pending: Seq<Seq<Entry>>,
    /// Whether the walker waits for the entries of a directory.
    pub awaiting: bool,
}

impl WalkerView {
    /// What holds of every walk: it is never deeper than its options allow,
    /// it asks for no directory below that depth, and nothing that it is
    /// still to list is left out by its options.
    pub open spec fn wf(self) -> bool {
        &&& self.options.max_depth >= 1
        &&& self.pending.len() <= self.options.max_depth
        &&& (self.awaiting ==> self.pending.len() < self.options.max_depth)
        &&& (forall|j: int, i: int|
            0 <= j < self.pending.len() && 0 <= i < self.pending[j].len()
                ==> (#[trigger] self.pending[j][i]).shown(self.options.show_hidden))
    }
}

/// `pending` without the directories at its end of which nothing is left.
pub open spec fn settled(pending: Seq<Seq<Entry>>) -> Seq<Seq<Entry>>
    decreases pending.len(),
{
    if pending.len() > 0 && pending.last().len() == 0 {
        settled(pending.drop_last())
    } else {
        pending
    }
}

/// What is left when the exhausted directories are taken off the end: a
/// beginning of `pending` that is empty or ends in a directory of which
/// something is left.
pub proof fn settled_is_open(pending: Seq<Seq<Entry>>)
    ensures
        settled(pending).len() <= pending.len(),
        settled(pending) == pending.take(settled(pending).len() as int),
        settled(pending).len() > 0 ==> settled(pending).last().len() > 0,
    decreases pending.len(),
{
    if pending.len() > 0 && pending.last().len() == 0 {
        settled_is_open(pending.drop_last());
        let kept = settled(pending).len() as int;
        assert(pending.drop_last().take(kept) =~= pending.take(kept));
    } else {
        assert(pending.take(pending.len() as int) =~= pending);
    }
}

impl View for Walker {
    type V = WalkerView;

    closed spec fn view(&self) -> WalkerView {
        WalkerView {
            options: self.options,
            pending: self.levels@.map_values(|l: Level| l.entries@.skip(l.next as int)),
            awaiting: self.awaiting,
        }
    }
}

impl Walker {
    /// The walker's invariant.
    pub closed spec fn wf(&self) -> bool {
        &&& self@.wf()
        &&& (forall|j: int|
            0 <= j < self.levels@.len() ==> (#[trigger] self.levels@[j]).next
                <= self.levels@[j].entries@.len())
    }

    /// A well-formed walker has a well-formed view.
    pub proof fn view_is_wf(&self)
        requires
            self.wf(),
        ensures
            self@.wf(),
    {
    }

    /// A walk that has listed nothing yet and waits for the entries of the
    /// root directory.
    pub fn new(options: WalkOptions) -> (walker: Walker)
        ensures
            walker.wf(),
            walker@.options == options.normal(),
            walker@.pending.len() == 0,
            walker@.awaiting,
    {
        let walker = Walker { options: options.normalized(), levels: Vec::new(), awaiting: true };
        assert(walker@.pending =~= Seq::empty());
        walker
    }

    /// Takes the entries of the directory that the walker waits for, as they
    /// were found. Those that are shown stand next in line, ordered by creation
    /// time. A walker that waits for nothing leaves them aside.
    pub fn supply(&mut self, listing: &Vec<Entry>)
        requires
            old(self).wf(),
        ensures
            final(self).wf(),
            final(self)@.options == old(self)@.options,
            old(self)@.awaiting ==> !final(self)@.awaiting && final(self)@.pending == old(
                self,
            )@.pending.push(
                arranged(listing@, old(self)@.options.show_hidden, old(self)@.options.reversed),
            ),
            !old(self)@.awaiting ==> final(self)@ == old(self)@,
    {
        if self.awaiting {
            let entries = arrange(listing, self.options.show_hidden, self.options.reversed);
            proof {
                emission_order_lists_in_order(
                    listing@,
                    self.options.show_hidden,
                    self.options.reversed,
                );
                let order = emission_order(
                    listing@,
                    self.options.show_hidden,
                    self.options.reversed,
                );
                assert forall|i: int| 0 <= i < entries@.len() implies (#[trigger] entries@[i]).shown(
                    self.options.show_hidden,
                ) by {
                    assert(entries@[i] == listing@[order[i]]);
                }
            }
            let ghost before = self@.pending;
            self.levels.push(Level { entries, next: 0 });
            self.awaiting = false;
            proof {
                assert(entries@.skip(0) =~= entries@);
                assert(self@.pending =~= before.push(entries@));
            }
        }
    }

    /// The next step of the walk. The entry that is next in line in the
    /// deepest directory of which something is left is listed, at the depth of
    /// that directory. Its own directory is to be read where the entry is a
    /// directory, no link, and lies above the greatest depth. A directory that
    /// was asked for and not supplied is passed over. So no entry is listed
    /// below the greatest depth, none that the options leave out, and no
    /// directory is read that is not listed itself.
    pub fn next(&mut self) -> (step: Step)
        requires
            old(self).wf(),
        ensures
            final(self).wf(),
            final(self)@.options == old(self)@.options,
            settled(old(self)@.pending).len() == 0 ==> step is Done && final(self)@.pending.len()
                == 0 && !final(self)@.awaiting,
            settled(old(self)@.pending).len() > 0 ==> ({
                let open = settled(old(self)@.pending);
                let entry = open.last()[0];
                let list = entry.enterable() && open.len() < old(self)@.options.max_depth;
                &&& step == (Step::Visit { entry, depth: open.len() as usize, list })
                &&& final(self)@.pending == open.drop_last().push(open.last().drop_first())
                &&& final(self)@.awaiting == list
            }),
            step matches Step::Visit { entry, depth, list } ==> {
                &&& entry.shown(old(self)@.options.show_hidden)
                &&& 1 <= depth <= old(self)@.options.max_depth
                &&& (list ==> entry.enterable() && depth < old(self)@.options.max_depth)
            },
    {
        proof {
            settled_is_open(old(self)@.pending);
            let open = settled(old(self)@.pending);
            if open.len() > 0 {
                assert(open.last()[0] == old(self)@.pending[open.len() - 1][0]);
            }
        }
        self.awaiting = false;
        assert(self@.pending == old(self)@.pending);
        while self.levels.len() > 0
            invariant
                self.wf(),
                !self.awaiting,
                self.options == old(self).options,
                settled(self@.pending) == settled(old(self)@.pending),
            decreases self.levels.len(),
        {
            let ghost prev = self@.pending;
            let ghost prev_levels = self.levels@;
            let mut level = self.levels.pop().unwrap();
            proof {
                assert(prev.last() == level.entries@.skip(level.next as int));
                assert(self@.pending =~= prev.drop_last());
                assert forall|j: int| 0 <= j < self.levels@.len() implies (
                #[trigger] self.levels@[j]).next <= self.levels@[j].entries@.len() by {
                    assert(self.levels@[j] == prev_levels[j]);
                }
                assert forall|j: int, i: int|
                    0 <= j < self@.pending.len() && 0 <= i < self@.pending[j].len() implies (
                #[trigger] self@.pending[j][i]).shown(self.options.show_hidden) by {
                    assert(self@.pending[j][i] == prev[j][i]);
                }
                assert(prev_levels[prev_levels.len() - 1].next <= level.entries@.len());
            }
            if level.next < level.entries.len() {
                let entry = level.entries[level.next].clone();
                let ghost rest = level.entries@.skip(level.next + 1);
                level.next = level.next + 1;
                self.levels.push(level);
                let depth = self.levels.len();
                let list = entry.is_enterable() && depth < self.options.max_depth;
                self.awaiting = list;
                proof {
                    assert(settled(prev) == prev);
                    assert(rest =~= prev.last().drop_first());
                    assert(self@.pending =~= prev.drop_last().push(rest));
                    assert forall|i: int| 0 <= i < rest.len() implies (#[trigger] rest[i]).shown(
                        self.options.show_hidden,
                    ) by {
                        assert(rest[i] == prev[prev.len() - 1][i + 1]);
                    }
                    assert forall|j: int, i: int|
                        0 <= j < self@.pending.len() && 0 <= i < self@.pending[j].len() implies (
                    #[trigger] self@.pending[j][i]).shown(self.options.show_hidden) by {
                        if j < prev.len() - 1 {
                            assert(self@.pending[j][i] == prev[j][i]);
                        } else {
                            assert(self@.pending[j][i] == rest[i]);
                        }
                    }
                    assert forall|j: int| 0 <= j < self.levels@.len() implies (
                    #[trigger] self.levels@[j]).next <= self.levels@[j].entries@.len() by {
                        if j < prev_levels.len() - 1 {
                            assert(self.levels@[j] == prev_levels[j]);
                        }
                    }
                }
                return Step::Visit { entry, depth, list };
            }
            proof {
                assert(prev.last().len() == 0);
                assert(settled(prev) == settled(prev.drop_last()));
            }
        }
        proof {
            assert(self@.pending =~= Seq::empty());
            assert(settled(self@.pending).len() == 0);
        }
        Step::Done
    }
}

} // verus!
