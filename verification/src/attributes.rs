//! The attributes of an entry as text: icon, name, creation date,
//! permissions and size. Each may be absent by itself.

use vstd::prelude::*;
use vstd::string::*;
use crate::entry::{Entry, EntryKind, Timestamp};
use crate::text::{decimal, to_decimal};
use crate::unit::{normalize_size_unit, Unit};

verus! {

/// The first second for which a date is written: the start of the year
/// -262142, a year above the earliest date that can be held.
pub const FIRST_DATED_SECOND: i64 = -8_334_569_692_800;

/// The last second for which a date is written: the end of the year 262141,
/// a year below the latest date that can be held.
pub const LAST_DATED_SECOND: i64 = 8_210_235_340_799;

/// The form in which a date is written: the date, a space, the time.
pub open spec fn date_format() -> Seq<char> {
    "%x %X"@
}

/// The icon of each kind of entry, with the colour it is shown in. An
/// entry of no known kind has none.
pub open spec fn icon_text(kind: EntryKind) -> Seq<char> {
    match kind {
        EntryKind::Directory => "\x1b[34m\u{f4d3}\x1b[0m"@,
        EntryKind::Symlink => "\x1b[36m\u{f481}\x1b[0m"@,
        EntryKind::RegularFile => "\x1b[32m\u{f15b}\x1b[0m"@,
        EntryKind::Other => ""@,
    }
}

/// The name under which an entry is shown: its file name, or with
/// `canonicalize` its resolved path. There is none where the file name is
/// not text, or where the resolved path is asked for and absent.
pub open spec fn display_name(entry: Entry, canonicalize: bool) -> Option<Seq<char>> {
    match entry.name {
        None => None,
        Some(name) => if canonicalize {
            match entry.resolved {
                Some(path) => Some(path@),
                None => None,
            }
        } else {
            Some(name@)
        },
    }
}

/// A name with its icon before it.
pub open spec fn labelled(icon: Seq<char>, name: Seq<char>) -> Seq<char> {
    icon + seq![' '] + name
}

/// The letters of one group of three permission bits: read is 4, write is 2,
/// execute is 1.
pub open spec fn triplet(bits: u32) -> Seq<char> {
    seq![
        if bits & 4 != 0 { 'r' } else { '-' },
        if bits & 2 != 0 { 'w' } else { '-' },
        if bits & 1 != 0 { 'x' } else { '-' },
    ]
}

/// The permissions of a mode word: its low nine bits as three groups, for
/// the owner, the group and the others.
pub open spec fn permission_text(mode: u32) -> Seq<char> {
    triplet(((mode & 0o777) >> 6) & 0o7) + triplet(((mode & 0o777) >> 3) & 0o7) + triplet(
        (mode & 0o777) & 0o7,
    )
}

/// A size in a unit: the bytes divided by the unit's size, the remainder
/// dropped, then a space and the unit's short name.
pub open spec fn size_text(bytes: u64, unit: Unit) -> Seq<char> {
    decimal((bytes as nat) / unit.divisor()) + seq![' '] + unit.suffix()
}

/// Whether a date is written for a point in time: it lies within the
/// years that can be held, and its nanoseconds are less than a second.
pub open spec fn datable(t: Timestamp) -> bool {
    FIRST_DATED_SECOND <= t.secs <= LAST_DATED_SECOND && t.nanos < 1_000_000_000
}

/// Whether local time can be that many seconds ahead of UTC: less than a
/// day, either way.
pub open spec fn is_zone_offset(offset_secs: int) -> bool {
    -86_400 < offset_secs < 86_400
}

/// The date and time that `LocaleDate::formatl` writes in the form
/// `date_format` for the point in time `secs` seconds and `nanos`
/// nanoseconds after the start of 1970, in a zone `offset_secs` seconds
/// ahead of UTC.
pub uninterp spec fn date_text_of(secs: int, nanos: int, offset_secs: int) -> Seq<char>;

/// Whether a character is a decimal digit.
pub open spec fn is_digit(c: char) -> bool {
    '0' <= c <= '9'
}

/// The shape of a date: month, day and year of two digits each with a slash
/// between them, a space, then hour, minute and second of two digits each
/// with a colon between them.
pub open spec fn is_date_shaped(text: Seq<char>) -> bool {
    &&& text.len() == 17
    &&& text[2] == '/' && text[5] == '/' && text[8] == ' ' && text[11] == ':' && text[14] == ':'
    &&& is_digit(text[0]) && is_digit(text[1]) && is_digit(text[3]) && is_digit(text[4])
    &&& is_digit(text[6]) && is_digit(text[7]) && is_digit(text[9]) && is_digit(text[10])
    &&& is_digit(text[12]) && is_digit(text[13]) && is_digit(text[15]) && is_digit(text[16])
}

/// Why an entry has no name to show.
#[derive(Clone, Copy, Debug, PartialEq, Eq, Structural)]
pub enum NameError {
    /// The file name is not text.
    NotText,
    /// The resolved path was asked for and is absent.
    Unresolved,
}

impl NameError {
    /// The error in words.
    pub fn message(&self) -> (text: String)
        ensures
            text@ == match *self {
                NameError::NotText => "Failed to convert file name to string"@,
                NameError::Unresolved => "Failed to resolve the path"@,
            },
    {
        match self {
            NameError::NotText => String::from_str("Failed to convert file name to string"),
            NameError::Unresolved => String::from_str("Failed to resolve the path"),
        }
    }
}

/// Formats a point in time as a date in a zone of a fixed offset. The body
/// calls `DateTime::from_timestamp`, `FixedOffset::east_opt` and
/// `DateTime::with_timezone` of chrono, and `LocaleDate::formatl` of
/// chrono_lc with the format and an empty locale. For the inputs admitted
/// chrono has the date and the zone, so there is a text; it is the one that
/// `date_text_of` names, and in this format it has the shape of a date.
#[verifier::external_body]
fn date_text(secs: i64, nanos: u32, offset_secs: i32, format: &str) -> (text: Option<String>)
    requires
        FIRST_DATED_SECOND <= secs <= LAST_DATED_SECOND,
        nanos < 1_000_000_000,
        -86_400 < offset_secs < 86_400,
        format@ == date_format(),
    ensures
        text is Some,
        text->0@ == date_text_of(secs as int, nanos as int, offset_secs as int),
        is_date_shaped(text->0@),
{
    let utc = chrono::DateTime::from_timestamp(secs, nanos)?;
    let zone = chrono::FixedOffset::east_opt(offset_secs)?;
    let local = utc.with_timezone(&zone);
    Some(chrono_lc::LocaleDate::formatl(&local, format, "").to_string())
}

/// The icon of an entry, by its kind.
pub fn get_file_icon(entry: &Entry) -> (icon: &'static str)
    ensures
        icon@ == icon_text(entry.kind()),
{
    match entry.classify() {
        EntryKind::Directory => "\x1b[34m\u{f4d3}\x1b[0m",
        EntryKind::Symlink => "\x1b[36m\u{f481}\x1b[0m",
        EntryKind::RegularFile => "\x1b[32m\u{f15b}\x1b[0m",
        EntryKind::Other => "",
    }
}

/// The name under which the entry is shown, if it has one.
pub fn get_display_name(entry: &Entry, canonicalize: bool) -> (name: Result<&String, NameError>)
    ensures
        match name {
            Ok(text) => display_name(*entry, canonicalize) == Some(text@),
            Err(e) => display_name(*entry, canonicalize) is None && e == (if entry.name is None {
                NameError::NotText
            } else {
                NameError::Unresolved
            }),
        },
{
    match &entry.name {
        None => Err(NameError::NotText),
        Some(name) => if canonicalize {
            match &entry.resolved {
                Some(path) => Ok(path),
                None => Err(NameError::Unresolved),
            }
        } else {
            Ok(name)
        },
    }
}

/// Joins an icon and a name with a space.
pub fn label(icon: &str, name: &str) -> (text: String)
    ensures
        text@ == labelled(icon@, name@),
{
    let mut text = String::from_str(icon);
    text.append(" ");
    text.append(name);
    proof {
        reveal_strlit(" ");
        assert(text@ =~= labelled(icon@, name@));
    }
    text
}

/// The name of the entry with its icon: the file name, or with
/// `canonicalize` the resolved path.
pub fn get_file_name(entry: &Entry, canonicalize: bool) -> (name: Result<String, NameError>)
    ensures
        match name {
            Ok(text) => display_name(*entry, canonicalize) is Some && text@ == labelled(
                icon_text(entry.kind()),
                display_name(*entry, canonicalize)->0,
            ),
            Err(e) => display_name(*entry, canonicalize) is None && e == (if entry.name is None {
                NameError::NotText
            } else {
                NameError::Unresolved
            }),
        },
{
    match get_display_name(entry, canonicalize) {
        Ok(shown) => Ok(label(get_file_icon(entry), shown.as_str())),
        Err(e) => Err(e),
    }
}

/// Whether an entry has a creation date: its creation time is present, a
/// date is written for it, and its offset is one that local time can have.
pub open spec fn dated(entry: Entry) -> bool {
    entry.created is Some && datable(entry.created->0) && is_zone_offset(entry.utc_offset as int)
}

/// The creation date of an entry, if it has one: its creation time as date
/// and time in the zone that its offset gives.
pub open spec fn date_field(entry: Entry) -> Option<Seq<char>> {
    if dated(entry) {
        Some(
            date_text_of(
                entry.created->0.secs as int,
                entry.created->0.nanos as int,
                entry.utc_offset as int,
            ),
        )
    } else {
        None
    }
}

/// The creation date of the entry in local time, such as `10/01/23 12:34:56`.
/// There is none where the creation time is absent. There is none either for
/// a time outside the years that can be held, nanoseconds of a second or
/// more, or an offset of a day or more.
pub fn get_file_creation_date(entry: &Entry) -> (date: Option<String>)
    ensures
        date is Some <==> dated(*entry),
        date matches Some(text) ==> Some(text@) == date_field(*entry),
        date matches Some(text) ==> is_date_shaped(text@),
{
    match entry.created {
        None => None,
        Some(t) => {
            if FIRST_DATED_SECOND <= t.secs && t.secs <= LAST_DATED_SECOND && t.nanos
                < 1_000_000_000 && -86_400 < entry.utc_offset && entry.utc_offset < 86_400 {
                date_text(t.secs, t.nanos, entry.utc_offset, "%x %X")
            } else {
                None
            }
        },
    }
}

/// The letters of one group of three permission bits.
pub fn triplet_text(bits: u32) -> (text: String)
    ensures
        text@ == triplet(bits),
{
    let mut text = String::from_str(if bits & 4 != 0 { "r" } else { "-" });
    text.append(if bits & 2 != 0 { "w" } else { "-" });
    text.append(if bits & 1 != 0 { "x" } else { "-" });
    proof {
        reveal_strlit("r");
        reveal_strlit("w");
        reveal_strlit("x");
        reveal_strlit("-");
        assert(text@ =~= triplet(bits));
    }
    text
}

/// The permissions of the entry as nine letters, such as `rwxr-xr--`.
pub fn get_file_permissions(entry: &Entry) -> (text: Option<String>)
    ensures
        match entry.mode {
            Some(mode) => text is Some && text->0@ == permission_text(mode),
            None => text is None,
        },
{
    match entry.mode {
        None => None,
        Some(mode) => {
            let perms: u32 = mode & 0o777;
            let mut text = triplet_text((perms >> 6) & 0o7);
            let group = triplet_text((perms >> 3) & 0o7);
            let others = triplet_text(perms & 0o7);
            text.append(group.as_str());
            text.append(others.as_str());
            Some(text)
        },
    }
}

/// The size of the entry in `unit`, such as `1 kib`.
pub fn get_file_size(entry: &Entry, unit: &Unit) -> (text: Option<String>)
    ensures
        match entry.size {
            Some(bytes) => text is Some && text->0@ == size_text(bytes, *unit),
            None => text is None,
        },
{
    match entry.size {
        None => None,
        Some(bytes) => {
            let mut text = to_decimal(bytes / unit.bytes_per_unit());
            text.append(" ");
            text.append(normalize_size_unit(unit));
            proof {
                reveal_strlit(" ");
                assert(text@ =~= size_text(bytes, *unit));
            }
            Some(text)
        },
    }
}

} // verus!
