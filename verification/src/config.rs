//! The configuration of a listing, and the listing of a whole tree.

use vstd::prelude::*;
use vstd::string::*;
use crate::cli::Args;
use crate::entry::Entry;
use crate::render::{is_row_of, is_table_of, render_as_row, render_as_table, texts};
use crate::snapshot::{walk, walk_snapshot, Snapshot, Visit};
use crate::text::same_text;
use crate::unit::Unit;
use crate::walker::WalkOptions;

verus! {

/// Configuration for viewing files.
#[derive(Debug)]
pub struct Config {
    /// Directory to view.
    pub dir: String,
    /// Maximum depth to traverse; one where none is given.
    pub max_depth: Option<usize>,
    /// If true, show the resolved absolute path in place of the file name.
    pub canonicalize: bool,
    /// If true, show hidden entries, those whose name begins with a dot.
    pub show_hidden: bool,
    /// If true, render the output as a table.
    pub table: bool,
    /// Unit for file sizes; bytes where none is given.
    pub unit: Option<Unit>,
    /// If true, list the newest entry of a directory first.
    pub reversed: bool,
}

/// A configuration with every choice made.
#[derive(Clone, Copy, Debug, PartialEq, Eq, Structural)]
pub struct ListingConfig {
    /// How the tree is walked; the depth is at least one.
    pub options: WalkOptions,
    pub canonicalize: bool,
    pub table: bool,
    pub unit: Unit,
}

/// The directory that stands for the one the program runs in.
pub open spec fn here() -> Seq<char> {
    "./"@
}

/// The choices that are made where no configuration is given: the entries of
/// the directory itself, none of them hidden ones, oldest first, row by row,
/// with names as they are and sizes in bytes.
pub open spec fn default_listing() -> ListingConfig {
    ListingConfig {
        options: WalkOptions { max_depth: 1, show_hidden: false, reversed: false },
        canonicalize: false,
        table: false,
        unit: Unit::Bytes,
    }
}

/// The choices of a configuration that may be absent.
pub open spec fn resolved(config: Option<Config>) -> ListingConfig {
    match config {
        Some(c) => c.listing(),
        None => default_listing(),
    }
}

/// The entries of some visits, in their order.
pub open spec fn entries_of(visits: Seq<Visit>) -> Seq<Entry> {
    visits.map_values(|v: Visit| v.entry)
}

/// Whether `text` is a row of `entry` with a line feed behind it.
pub open spec fn is_line_of(text: Seq<char>, entry: Entry, listing: ListingConfig) -> bool {
    &&& text.len() > 0
    &&& text.last() == '\n'
    &&& is_row_of(text.drop_last(), entry, listing.canonicalize, listing.unit)
}

/// Whether `printed` is what is written for `entries`, piece by piece. Row by
/// row there is a piece for each entry, its row and a line feed. In table
/// mode there is one piece, the table of all of them. Either way the pieces
/// make up a row of each entry in turn, a line feed behind each.
pub open spec fn is_printed_as(
    printed: Seq<Seq<char>>,
    entries: Seq<Entry>,
    listing: ListingConfig,
) -> bool {
    if listing.table {
        printed.len() == 1 && is_table_of(printed[0], entries, listing.canonicalize, listing.unit)
    } else {
        &&& printed.len() == entries.len()
        &&& (forall|i: int|
            0 <= i < printed.len() ==> is_line_of(#[trigger] printed[i], entries[i], listing))
    }
}

impl Config {
    /// The choices of the configuration: a depth of one where none is given
    /// or zero is, bytes where no unit is given.
    pub open spec fn listing(&self) -> ListingConfig {
        ListingConfig {
            options: WalkOptions {
                max_depth: match self.max_depth {
                    Some(d) => d,
                    None => 1,
                },
                show_hidden: self.show_hidden,
                reversed: self.reversed,
            }.normal(),
            canonicalize: self.canonicalize,
            table: self.table,
            unit: match self.unit {
                Some(u) => u,
                None => Unit::Bytes,
            },
        }
    }

    /// Computes `listing`.
    pub fn resolve(&self) -> (listing: ListingConfig)
        ensures
            listing == self.listing(),
    {
        let options = WalkOptions {
            max_depth: match self.max_depth {
                Some(d) => d,
                None => 1,
            },
            show_hidden: self.show_hidden,
            reversed: self.reversed,
        };
        ListingConfig {
            options: options.normalized(),
            canonicalize: self.canonicalize,
            table: self.table,
            unit: match self.unit {
                Some(u) => u,
                None => Unit::Bytes,
            },
        }
    }

    /// The configuration with the working directory in place of `./`, where
    /// the working directory is known; else the configuration as it is.
    pub fn with_working_dir(self, cwd: Option<String>) -> (config: Config)
        ensures
            config.dir@ == (if self.dir@ == here() && cwd is Some {
                cwd->0@
            } else {
                self.dir@
            }),
            config.max_depth == self.max_depth,
            config.canonicalize == self.canonicalize,
            config.show_hidden == self.show_hidden,
            config.table == self.table,
            config.unit == self.unit,
            config.reversed == self.reversed,
    {
        let replace = same_text(self.dir.as_str(), "./");
        match cwd {
            Some(dir) => if replace {
                Config {
                    dir,
                    max_depth: self.max_depth,
                    canonicalize: self.canonicalize,
                    show_hidden: self.show_hidden,
                    table: self.table,
                    unit: self.unit,
                    reversed: self.reversed,
                }
            } else {
                self
            },
            None => self,
        }
    }
}

impl Clone for Config {
    fn clone(&self) -> (copy: Self)
        ensures
            copy == *self,
    {
        Config {
            dir: self.dir.clone(),
            max_depth: self.max_depth,
            canonicalize: self.canonicalize,
            show_hidden: self.show_hidden,
            table: self.table,
            unit: self.unit,
            reversed: self.reversed,
        }
    }
}

impl Default for Config {
    fn default() -> (config: Self)
        ensures
            config.dir@ == here(),
            config.max_depth is None,
            !config.canonicalize,
            !config.show_hidden,
            !config.table,
            config.unit == Some(Unit::Bytes),
            !config.reversed,
    {
        Config {
            dir: String::from_str("./"),
            max_depth: None,
            canonicalize: false,
            show_hidden: false,
            table: false,
            unit: Some(Unit::Bytes),
            reversed: false,
        }
    }
}

impl From<Args> for Config {
    fn from(args: Args) -> (config: Self) {
        Config {
            dir: args.dir,
            max_depth: args.max_depth,
            canonicalize: args.canonicalize,
            show_hidden: args.show_hidden,
            table: args.table,
            unit: args.unit,
            reversed: args.reversed,
        }
    }
}

impl vstd::std_specs::convert::FromSpecImpl<Args> for Config {
    open spec fn obeys_from_spec() -> bool {
        true
    }

    open spec fn from_spec(args: Args) -> Config {
        Config {
            dir: args.dir,
            max_depth: args.max_depth,
            canonicalize: args.canonicalize,
            show_hidden: args.show_hidden,
            table: args.table,
            unit: args.unit,
            reversed: args.reversed,
        }
    }
}

/// Lists a tree that is held in memory, with the configuration given or, if
/// none is given, as the default chooses. What comes back is what is written,
/// piece by piece, for the entries that the walk lists, in the walk's order:
/// row by row a piece for each entry, in table mode one table of them all.
pub fn view_files(config: Option<Config>, snapshot: &Snapshot) -> (printed: Vec<String>)
    ensures
        is_printed_as(
            texts(printed@),
            entries_of(walk(snapshot@, resolved(config).options)),
            resolved(config),
        ),
{
    let listing = match &config {
        Some(c) => c.resolve(),
        None => Config::default().resolve(),
    };
    assert(listing == resolved(config));
    let visits = walk_snapshot(snapshot, listing.options);
    let ghost entries = entries_of(visits@);
    let mut printed: Vec<String> = Vec::new();
    if listing.table {
        let mut listed: Vec<Entry> = Vec::new();
        let mut i: usize = 0;
        while i < visits.len()
            invariant
                i <= visits.len(),
                entries == entries_of(visits@),
                listed@ == entries.take(i as int),
            decreases visits.len() - i,
        {
            listed.push(visits[i].entry.clone());
            proof {
                assert(listed@ =~= entries.take(i + 1));
            }
            i += 1;
        }
        proof {
            assert(listed@ =~= entries);
        }
        printed.push(render_as_table(&listed, listing.canonicalize, &listing.unit));
    } else {
        let mut i: usize = 0;
        while i < visits.len()
            invariant
                i <= visits.len(),
                !listing.table,
                entries == entries_of(visits@),
                printed@.len() == i,
                forall|j: int|
                    0 <= j < i ==> is_line_of((#[trigger] printed@[j])@, entries[j], listing),
            decreases visits.len() - i,
        {
            let mut line = render_as_row(&visits[i].entry, listing.canonicalize, &listing.unit);
            let ghost row = line@;
            line.append("\n");
            proof {
                reveal_strlit("\n");
                assert(line@.drop_last() =~= row);
            }
            printed.push(line);
            i += 1;
        }
    }
    proof {
        let shown = texts(printed@);
        if !listing.table {
            assert forall|j: int| 0 <= j < shown.len() implies is_line_of(
                #[trigger] shown[j],
                entries[j],
                listing,
            ) by {
                assert(shown[j] == printed@[j]@);
            }
        }
    }
    printed
}

} // verus!
