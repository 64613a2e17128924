//! Rows and tables: the attributes of an entry laid out in fixed columns.

use vstd::prelude::*;
use vstd::string::*;
use crate::attributes::{
    date_field, display_name, get_display_name, get_file_creation_date, get_file_icon, get_file_permissions,
    get_file_size, icon_text, label, labelled, permission_text, size_text,
};
use crate::entry::Entry;
use crate::string_ext::{truncate_text, truncated};
use crate::text::{left_aligned, pad_left_aligned, pad_right_aligned, right_aligned};
use crate::unit::Unit;

verus! {

/// The width of the name column.
pub const NAME_WIDTH: usize = 35;

/// The width of the date column.
pub const DATE_WIDTH: usize = 20;

/// The width of the permissions column.
pub const PERMISSIONS_WIDTH: usize = 12;

/// The width of the size column.
pub const SIZE_WIDTH: usize = 10;

/// What stands in a column whose attribute is absent.
pub open spec fn placeholder() -> Seq<char> {
    seq!['-']
}

/// A text, or the placeholder where there is none.
pub open spec fn or_placeholder(text: Option<Seq<char>>) -> Seq<char> {
    match text {
        Some(t) => t,
        None => placeholder(),
    }
}

/// The characters of a text that may be absent.
pub open spec fn chars_of(text: Option<&str>) -> Option<Seq<char>> {
    match text {
        Some(t) => Some(t@),
        None => None,
    }
}

/// The sequence that ends every styled text.
pub open spec fn style_reset() -> Seq<char> {
    "\x1b[0m"@
}

/// What stands in the name column: the icon, a space, and the name cut to
/// one character less than the column is wide; the icon does not count
/// against that limit. The placeholder stands for an entry without a name.
pub open spec fn name_text(entry: Entry, canonicalize: bool) -> Seq<char> {
    match display_name(entry, canonicalize) {
        Some(name) => labelled(icon_text(entry.kind()), truncated(name, limit(NAME_WIDTH as nat))),
        None => placeholder(),
    }
}

/// The sequence that sets what follows in bold.
pub open spec fn bold_on() -> Seq<char> {
    "\x1b[1m"@
}

/// What colored makes of a text that it sets in bold, so that a reset
/// sequence inside the text does not end the bold: the text with the bold
/// sequence put in again behind each reset sequence.
pub uninterp spec fn bold_escaped_of(text: Seq<char>) -> Seq<char>;

/// What the name column may hold for `text`. Where no styles are written it
/// is the text padded to the column. Where they are written it is the bold
/// sequence, the escaped text padded to the column, and the reset sequence.
/// Where writing styles is switched on or off while the cell is made, the
/// bold sequence may be missing before it, and the text may stand unescaped.
pub open spec fn is_name_cell(cell: Seq<char>, text: Seq<char>) -> bool {
    ||| cell == left_aligned(text, NAME_WIDTH as nat)
    ||| cell == bold_on() + left_aligned(bold_escaped_of(text), NAME_WIDTH as nat) + style_reset()
    ||| cell == left_aligned(bold_escaped_of(text), NAME_WIDTH as nat) + style_reset()
    ||| cell == bold_on() + left_aligned(text, NAME_WIDTH as nat) + style_reset()
    ||| cell == left_aligned(text, NAME_WIDTH as nat) + style_reset()
}

/// The most characters that a text may have in a column of `width`: one
/// less than the column is wide.
pub open spec fn limit(width: nat) -> nat {
    if width == 0 {
        0
    } else {
        (width - 1) as nat
    }
}

/// A row: the name cell, the date and the permissions at the left of their
/// columns, each cut to one character less than its column is wide, and the
/// size at the right of its column, with a space between two columns.
pub open spec fn row_text(
    name_cell: Seq<char>,
    date: Option<Seq<char>>,
    permissions: Option<Seq<char>>,
    size: Option<Seq<char>>,
) -> Seq<char> {
    name_cell + seq![' '] + left_aligned(
        truncated(or_placeholder(date), limit(DATE_WIDTH as nat)),
        DATE_WIDTH as nat,
    ) + seq![' '] + left_aligned(
        truncated(or_placeholder(permissions), limit(PERMISSIONS_WIDTH as nat)),
        PERMISSIONS_WIDTH as nat,
    ) + seq![' '] + right_aligned(or_placeholder(size), SIZE_WIDTH as nat)
}

/// A text that is cut to the limit of its column and padded fills the
/// column exactly, however long it was.
pub proof fn column_is_filled(text: Seq<char>, width: nat)
    requires
        width >= 1,
    ensures
        left_aligned(truncated(text, limit(width)), width).len() == width,
{
}

/// The columns of a row are fixed: behind the name cell the date takes its
/// width and the permissions theirs, whatever their texts, and the size
/// takes its width unless its text is longer.
pub proof fn row_has_fixed_columns(
    name_cell: Seq<char>,
    date: Option<Seq<char>>,
    permissions: Option<Seq<char>>,
    size: Option<Seq<char>>,
)
    ensures
        row_text(name_cell, date, permissions, size).len() == name_cell.len() + 1 + DATE_WIDTH + 1
            + PERMISSIONS_WIDTH + 1 + (if or_placeholder(size).len() > SIZE_WIDTH {
            or_placeholder(size).len()
        } else {
            SIZE_WIDTH as nat
        }),
{
    column_is_filled(or_placeholder(date), DATE_WIDTH as nat);
    column_is_filled(or_placeholder(permissions), PERMISSIONS_WIDTH as nat);
}

/// The permissions column of an entry, before it is cut and padded.
pub open spec fn permission_field(entry: Entry) -> Option<Seq<char>> {
    match entry.mode {
        Some(mode) => Some(permission_text(mode)),
        None => None,
    }
}

/// The size column of an entry, before it is padded.
pub open spec fn size_field(entry: Entry, unit: Unit) -> Option<Seq<char>> {
    match entry.size {
        Some(bytes) => Some(size_text(bytes, unit)),
        None => None,
    }
}

/// Whether `row` is the row of `entry` with `cell` in its name column.
pub open spec fn is_row_with(
    row: Seq<char>,
    entry: Entry,
    canonicalize: bool,
    unit: Unit,
    cell: Seq<char>,
) -> bool {
    &&& is_name_cell(cell, name_text(entry, canonicalize))
    &&& row == row_text(cell, date_field(entry), permission_field(entry), size_field(entry, unit))
}

/// Whether `row` is a row of `entry`: all of it is fixed by the entry but
/// whether the name cell is styled, which the environment decides.
pub open spec fn is_row_of(row: Seq<char>, entry: Entry, canonicalize: bool, unit: Unit) -> bool {
    exists|cell: Seq<char>| #[trigger] is_row_with(row, entry, canonicalize, unit, cell)
}

/// Rows as one text, each row ended by a line feed.
pub open spec fn lines(rows: Seq<Seq<char>>) -> Seq<char>
    decreases rows.len(),
{
    if rows.len() == 0 {
        Seq::empty()
    } else {
        lines(rows.drop_last()) + rows.last() + seq!['\n']
    }
}

/// The characters of each of some texts.
pub open spec fn texts(rows: Seq<String>) -> Seq<Seq<char>> {
    rows.map_values(|row: String| row@)
}

/// Whether `table` is a table of `entries`: a row of each, in their order.
pub open spec fn is_table_of(
    table: Seq<char>,
    entries: Seq<Entry>,
    canonicalize: bool,
    unit: Unit,
) -> bool {
    exists|rows: Seq<Seq<char>>|
        {
            &&& rows.len() == entries.len()
            &&& (forall|i: int|
                0 <= i < rows.len() ==> is_row_of(#[trigger] rows[i], entries[i], canonicalize, unit))
            &&& table == #[trigger] lines(rows)
        }
}

/// Sets a text in bold and pads it to a column. The body calls
/// `Colorize::bold` of colored and formats the result left-aligned to
/// `width`. Whether colored writes styles depends on the environment, and it
/// asks more than once while it writes: the contract lists what can come of
/// it.
#[verifier::external_body]
fn bold_cell(text: &str, width: usize) -> (cell: String)
    requires
        width == NAME_WIDTH,
    ensures
        cell@ == left_aligned(text@, NAME_WIDTH as nat) || cell@ == bold_on() + left_aligned(
            bold_escaped_of(text@),
            NAME_WIDTH as nat,
        ) + style_reset() || cell@ == left_aligned(bold_escaped_of(text@), NAME_WIDTH as nat)
            + style_reset() || cell@ == bold_on() + left_aligned(text@, NAME_WIDTH as nat)
            + style_reset() || cell@ == left_aligned(text@, NAME_WIDTH as nat) + style_reset(),
{
    format!("{:<width$}", colored::Colorize::bold(text))
}

/// The text of the name column of an entry, before it is set in bold and
/// padded.
pub fn name_field(entry: &Entry, canonicalize: bool) -> (text: String)
    ensures
        text@ == name_text(*entry, canonicalize),
{
    match get_display_name(entry, canonicalize) {
        Ok(name) => {
            let cut = truncate_text(name.as_str(), NAME_WIDTH - 1);
            label(get_file_icon(entry), cut.as_str())
        },
        Err(_) => {
            proof {
                reveal_strlit("-");
                assert("-"@ =~= placeholder());
            }
            String::from_str("-")
        },
    }
}

/// A text cut to one character less than `width` and padded to `width`; the
/// placeholder where the text is absent.
pub fn set_in_column(text: Option<&str>, width: usize) -> (out: String)
    ensures
        out@ == left_aligned(
            truncated(or_placeholder(chars_of(text)), limit(width as nat)),
            width as nat,
        ),
{
    proof {
        reveal_strlit("-");
        assert("-"@ =~= placeholder());
    }
    let shown: &str = match text {
        Some(t) => t,
        None => "-",
    };
    let cut = truncate_text(shown, if width == 0 { 0 } else { width - 1 });
    pad_left_aligned(cut.as_str(), width)
}

/// Lays out a row from the name cell and the three other attributes.
pub fn compose_row(
    name_cell: &str,
    date: Option<&str>,
    permissions: Option<&str>,
    size: Option<&str>,
) -> (row: String)
    ensures
        row@ == row_text(name_cell@, chars_of(date), chars_of(permissions), chars_of(size)),
{
    proof {
        reveal_strlit("-");
        reveal_strlit(" ");
        assert("-"@ =~= placeholder());
    }
    let date_column = set_in_column(date, DATE_WIDTH);
    let permissions_column = set_in_column(permissions, PERMISSIONS_WIDTH);
    let size_shown: &str = match size {
        Some(t) => t,
        None => "-",
    };
    let size_column = pad_right_aligned(size_shown, SIZE_WIDTH);
    let mut row = String::from_str(name_cell);
    row.append(" ");
    row.append(date_column.as_str());
    row.append(" ");
    row.append(permissions_column.as_str());
    row.append(" ");
    row.append(size_column.as_str());
    proof {
        assert(row@ =~= row_text(
            name_cell@,
            chars_of(date),
            chars_of(permissions),
            chars_of(size),
        ));
    }
    row
}

/// A text that may be absent, borrowed.
fn borrowed(text: &Option<String>) -> (out: Option<&str>)
    ensures
        match *text {
            Some(t) => chars_of(out) == Some(t@),
            None => out is None,
        },
{
    match text {
        Some(t) => Some(t.as_str()),
        None => None,
    }
}

/// Renders one entry as a row of four columns: name, creation date,
/// permissions and size.
pub fn render_as_row(entry: &Entry, canonicalize: bool, unit: &Unit) -> (row: String)
    ensures
        is_row_of(row@, *entry, canonicalize, *unit),
{
    let name = name_field(entry, canonicalize);
    let cell = bold_cell(name.as_str(), NAME_WIDTH);
    let date = get_file_creation_date(entry);
    let permissions = get_file_permissions(entry);
    let size = get_file_size(entry, unit);
    let date_shown = borrowed(&date);
    let permissions_shown = borrowed(&permissions);
    let size_shown = borrowed(&size);
    let row = compose_row(cell.as_str(), date_shown, permissions_shown, size_shown);
    proof {
        assert(chars_of(date_shown) == date_field(*entry));
        assert(chars_of(permissions_shown) == permission_field(*entry));
        assert(chars_of(size_shown) == size_field(*entry, *unit));
        assert(is_row_with(row@, *entry, canonicalize, *unit, cell@));
    }
    row
}

/// Joins rows to one text, a line feed after each.
pub fn join_lines(rows: &Vec<String>) -> (table: String)
    ensures
        table@ == lines(texts(rows@)),
{
    let mut table = String::new();
    let mut i: usize = 0;
    proof {
        assert(texts(rows@).take(0) =~= Seq::<Seq<char>>::empty());
    }
    while i < rows.len()
        invariant
            i <= rows.len(),
            table@ == lines(texts(rows@).take(i as int)),
        decreases rows.len() - i,
    {
        table.append(rows[i].as_str());
        table.append("\n");
        proof {
            reveal_strlit("\n");
            let upto = texts(rows@).take(i + 1);
            assert(upto.drop_last() =~= texts(rows@).take(i as int));
            assert(upto.last() == rows@[i as int]@);
            assert(table@ =~= lines(upto));
        }
        i += 1;
    }
    proof {
        assert(texts(rows@).take(rows.len() as int) =~= texts(rows@));
    }
    table
}

/// Renders entries as a table: the row of each, one below the other.
pub fn render_as_table(entries: &Vec<Entry>, canonicalize: bool, unit: &Unit) -> (table: String)
    ensures
        is_table_of(table@, entries@, canonicalize, *unit),
{
    let mut rows: Vec<String> = Vec::new();
    let mut i: usize = 0;
    while i < entries.len()
        invariant
            i <= entries.len(),
            rows@.len() == i,
            forall|j: int|
                0 <= j < i ==> is_row_of((#[trigger] rows@[j])@, entries@[j], canonicalize, *unit),
        decreases entries.len() - i,
    {
        rows.push(render_as_row(&entries[i], canonicalize, unit));
        i += 1;
    }
    let table = join_lines(&rows);
    proof {
        let shown = texts(rows@);
        assert forall|j: int| 0 <= j < shown.len() implies is_row_of(
            #[trigger] shown[j],
            entries@[j],
            canonicalize,
            *unit,
        ) by {
            assert(shown[j] == rows@[j]@);
        }
        assert(table@ == lines(shown));
    }
    table
}

} // verus!
