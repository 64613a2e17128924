//! Directory listings as text: which entries of a directory tree are shown, in
//! what order, and how each of them is laid out as a row of fixed columns.

pub mod attributes;
pub mod cli;
pub mod config;
pub mod entry;
pub mod order;
pub mod reach;
pub mod render;
pub mod snapshot;
pub mod string_ext;
pub mod text;
pub mod unit;
pub mod walker;

pub use attributes::{
    get_display_name, get_file_creation_date, get_file_icon, get_file_name, get_file_permissions,
    get_file_size, NameError,
};
pub use cli::Args;
pub use config::{view_files, Config, ListingConfig};
pub use entry::{is_hidden, Entry, EntryKind, Timestamp};
pub use order::{arrange, creation_order};
pub use render::{compose_row, join_lines, name_field, render_as_row, render_as_table};
pub use snapshot::{walk_snapshot, Snapshot, Visit};
pub use string_ext::{StrExt, StringExt};
pub use unit::{normalize_size_unit, Unit};
pub use walker::{Step, WalkOptions, Walker};
