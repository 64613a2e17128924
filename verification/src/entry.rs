//! What is known of one entry of a directory, as plain values.

use vstd::prelude::*;
use vstd::string::*;

verus! {

/// A point in time: whole seconds since the start of 1970 (UTC), which may be
/// negative, and the nanoseconds past that second.
#[derive(Clone, Copy, Debug, PartialEq, Eq, Structural)]
pub struct Timestamp {
    pub secs: i64,
    pub nanos: u32,
}

impl Timestamp {
    /// The nanoseconds between the start of 1970 and this point in time.
    pub open spec fn instant(self) -> int {
        self.secs * 1_000_000_000 + self.nanos
    }

    /// The point in time that lies `secs` seconds and `nanos` nanoseconds
    /// after the start of 1970. Seconds beyond the greatest that can be held
    /// count as the greatest.
    pub fn after_epoch(secs: u64, nanos: u32) -> (t: Timestamp)
        ensures
            secs <= i64::MAX ==> t.instant() == secs * 1_000_000_000 + nanos,
            secs > i64::MAX ==> t == (Timestamp { secs: i64::MAX, nanos }),
    {
        if secs <= 0x7fff_ffff_ffff_ffff {
            Timestamp { secs: secs as i64, nanos }
        } else {
            Timestamp { secs: i64::MAX, nanos }
        }
    }

    /// The point in time that lies `secs` seconds and `nanos` nanoseconds
    /// before the start of 1970. A time too early to be held counts as the
    /// earliest that can be.
    pub fn before_epoch(secs: u64, nanos: u32) -> (t: Timestamp)
        ensures
            secs * 1_000_000_000 + nanos <= i64::MAX * 1_000_000_000 ==> t.instant() == -(secs
                * 1_000_000_000 + nanos),
            secs * 1_000_000_000 + nanos > i64::MAX * 1_000_000_000 ==> t == (Timestamp {
                secs: i64::MIN,
                nanos: 0,
            }),
            t.nanos < 1_000_000_000,
    {
        let total: i128 = (secs as i128) * 1_000_000_000 + (nanos as i128);
        if total <= 9_223_372_036_854_775_807_000_000_000 {
            let whole: i128 = total / 1_000_000_000;
            let part: i128 = total % 1_000_000_000;
            if part == 0 {
                Timestamp { secs: (-whole) as i64, nanos: 0 }
            } else {
                Timestamp { secs: (-whole - 1) as i64, nanos: (1_000_000_000 - part) as u32 }
            }
        } else {
            Timestamp { secs: i64::MIN, nanos: 0 }
        }
    }

    /// Whether this point in time lies before `other`.
    pub fn is_before(&self, other: &Timestamp) -> (r: bool)
        ensures
            r == (self.instant() < other.instant()),
    {
        let mine: i128 = (self.secs as i128) * 1_000_000_000 + (self.nanos as i128);
        let theirs: i128 = (other.secs as i128) * 1_000_000_000 + (other.nanos as i128);
        mine < theirs
    }
}

/// What kind of thing an entry is.
#[derive(Clone, Copy, Debug, PartialEq, Eq, Structural)]
pub enum EntryKind {
    Directory,
    Symlink,
    RegularFile,
    Other,
}

/// One entry of a directory. Every attribute that could not be found out is
/// absent by itself; the others stay usable.
#[derive(Debug, PartialEq, Eq)]
pub struct Entry {
    /// The caller's handle for the entry: by it the caller finds the entry
    /// again when it is asked to list it.
    pub id: usize,
    /// The last segment of the path, where it is text.
    pub name: Option<String>,
    /// The absolute path with every link resolved, where it was asked for,
    /// could be found and is text.
    pub resolved: Option<String>,
    /// Whether the path leads to a directory, links followed.
    pub is_dir: bool,
    /// Whether the entry itself is a symbolic link.
    pub is_symlink: bool,
    /// Whether the path leads to a regular file, links followed.
    pub is_file: bool,
    /// When the entry itself was created, a link not followed: the time by
    /// which the entry is ordered.
    pub own_created: Option<Timestamp>,
    /// When what the path leads to was created, links followed: the time
    /// that is shown.
    pub created: Option<Timestamp>,
    /// By how many seconds the local time is ahead of UTC at `created`.
    pub utc_offset: i32,
    /// The mode word, of which the low nine bits are the permissions.
    pub mode: Option<u32>,
    /// The size in bytes.
    pub size: Option<u64>,
}

impl Clone for Entry {
    fn clone(&self) -> (copy: Self)
        ensures
            copy == *self,
    {
        let name = match &self.name {
            Some(text) => Some(text.clone()),
            None => None,
        };
        let resolved = match &self.resolved {
            Some(text) => Some(text.clone()),
            None => None,
        };
        Entry {
            id: self.id,
            name,
            resolved,
            is_dir: self.is_dir,
            is_symlink: self.is_symlink,
            is_file: self.is_file,
            own_created: self.own_created,
            created: self.created,
            utc_offset: self.utc_offset,
            mode: self.mode,
            size: self.size,
        }
    }
}

impl Entry {
    /// An entry is hidden when its name is text and begins with a dot.
    pub open spec fn hidden(&self) -> bool {
        match self.name {
            Some(name) => name@.len() > 0 && name@[0] == '.',
            None => false,
        }
    }

    /// Whether a listing shows the entry: all are shown when hidden entries
    /// are asked for, else those that are not hidden.
    pub open spec fn shown(&self, show_hidden: bool) -> bool {
        show_hidden || !self.hidden()
    }

    /// Whether a walk may go into the entry: it is a directory itself, not a
    /// link to one.
    pub open spec fn enterable(&self) -> bool {
        self.is_dir && !self.is_symlink
    }

    /// The kind of the entry. The three probes are asked in turn: directory,
    /// then link, then regular file.
    pub open spec fn kind(&self) -> EntryKind {
        if self.is_dir {
            EntryKind::Directory
        } else if self.is_symlink {
            EntryKind::Symlink
        } else if self.is_file {
            EntryKind::RegularFile
        } else {
            EntryKind::Other
        }
    }

    /// Computes `shown`.
    pub fn is_shown(&self, show_hidden: bool) -> (r: bool)
        ensures
            r == self.shown(show_hidden),
    {
        show_hidden || !is_hidden(self)
    }

    /// Computes `enterable`.
    pub fn is_enterable(&self) -> (r: bool)
        ensures
            r == self.enterable(),
    {
        self.is_dir && !self.is_symlink
    }

    /// Computes `kind`.
    pub fn classify(&self) -> (kind: EntryKind)
        ensures
            kind == self.kind(),
    {
        if self.is_dir {
            EntryKind::Directory
        } else if self.is_symlink {
            EntryKind::Symlink
        } else if self.is_file {
            EntryKind::RegularFile
        } else {
            EntryKind::Other
        }
    }
}

/// Whether the entry is hidden: its name begins with a dot. A name that is
/// not text hides nothing.
pub fn is_hidden(entry: &Entry) -> (r: bool)
    ensures
        r == entry.hidden(),
{
    match &entry.name {
        Some(name) => {
            let text: &str = name.as_str();
            text.unicode_len() > 0 && text.get_char(0) == '.'
        },
        None => false,
    }
}

} // verus!
