use dirview::render::set_in_column;
use dirview::{
    compose_row, join_lines, name_field, render_as_row, render_as_table, view_files, Config, Entry,
    Snapshot, Timestamp, Unit,
};

const FILE_ICON: &str = "\x1b[32m\u{f15b}\x1b[0m";
const DIR_ICON: &str = "\x1b[34m\u{f4d3}\x1b[0m";

fn entry_named(name: &str) -> Entry {
    Entry {
        id: 0,
        name: Some(String::from(name)),
        resolved: None,
        is_dir: false,
        is_symlink: false,
        is_file: true,
        own_created: None,
        created: None,
        utc_offset: 0,
        mode: Some(0o644),
        size: Some(2048),
    }
}

fn directory_named(id: usize, name: &str) -> Entry {
    let mut entry = entry_named(name);
    entry.id = id;
    entry.is_dir = true;
    entry.is_file = false;
    entry
}

fn expected_row(name_text: &str, date: &str, permissions: &str, size: &str) -> String {
    format!("{:<35} {:<20} {:<12} {:>10}", name_text, date, permissions, size)
}

#[test]
fn row_of_a_file() {
    colored::control::set_override(false);
    let row = render_as_row(&entry_named("a.txt"), false, &Unit::KB);
    let name = format!("{} a.txt", FILE_ICON);
    assert_eq!(row, expected_row(&name, "-", "rw-r--r--", "2 kib"));
}

#[test]
fn row_is_styled_when_styles_are_written() {
    colored::control::set_override(true);
    let row = render_as_row(&entry_named("a.txt"), false, &Unit::KB);
    colored::control::set_override(false);
    assert!(row.starts_with("\x1b[1m"));
    assert!(row.contains("a.txt"));
    assert!(row.ends_with(&format!(" {:<20} {:<12} {:>10}", "-", "rw-r--r--", "2 kib")));
}

#[test]
fn row_without_attributes_holds_placeholders() {
    colored::control::set_override(false);
    let mut entry = entry_named("x");
    entry.name = None;
    entry.mode = None;
    entry.size = None;
    let row = render_as_row(&entry, false, &Unit::Bytes);
    assert_eq!(row, expected_row("-", "-", "-", "-"));
    assert_eq!(row.chars().count(), 35 + 1 + 20 + 1 + 12 + 1 + 10);
}

#[test]
fn one_absent_attribute_leaves_the_others() {
    colored::control::set_override(false);
    let mut entry = entry_named("file");
    entry.mode = None;
    let row = render_as_row(&entry, false, &Unit::Bytes);
    let name = format!("{} file", FILE_ICON);
    assert_eq!(row, expected_row(&name, "-", "-", "2048 b"));
}

#[test]
fn long_name_is_cut_behind_its_icon() {
    let long = "n".repeat(40);
    let text = name_field(&entry_named(&long), false);
    assert_eq!(text, format!("{} {}\u{2026}", FILE_ICON, "n".repeat(33)));
}

#[test]
fn name_of_34_characters_is_kept_whole() {
    let name = "m".repeat(34);
    let text = name_field(&entry_named(&name), false);
    assert_eq!(text, format!("{} {}", FILE_ICON, name));
    let over = "m".repeat(35);
    let text = name_field(&entry_named(&over), false);
    assert_eq!(text, format!("{} {}\u{2026}", FILE_ICON, "m".repeat(33)));
}

#[test]
fn name_field_of_a_directory_and_of_no_name() {
    assert_eq!(name_field(&directory_named(1, "src"), false), format!("{} src", DIR_ICON));
    let mut unnamed = entry_named("x");
    unnamed.name = None;
    assert_eq!(name_field(&unnamed, false), "-");
    assert_eq!(name_field(&entry_named("x"), true), "-");
}

#[test]
fn resolved_path_is_shown_on_request() {
    let mut entry = entry_named("a.txt");
    entry.resolved = Some(String::from("/tmp/a.txt"));
    assert_eq!(name_field(&entry, true), format!("{} /tmp/a.txt", FILE_ICON));
}

#[test]
fn composed_row_has_fixed_columns() {
    let row = compose_row("NAME", Some("10/01/23 12:34:56"), Some("rwxr-xr--"), Some("1 kib"));
    assert_eq!(row, "NAME 10/01/23 12:34:56    rwxr-xr--         1 kib");
    assert_eq!(row, format!("NAME {:<20} {:<12} {:>10}", "10/01/23 12:34:56", "rwxr-xr--", "1 kib"));
}

#[test]
fn composed_row_cuts_long_columns() {
    let row = compose_row("N", Some("0123456789012345678901"), Some("rwxrwxrwxrwx"), Some("12345678901 b"));
    assert_eq!(row, "N 012345678901234567\u{2026}  rwxrwxrwxr\u{2026}  12345678901 b");
}

#[test]
fn column_at_its_limit_is_not_cut() {
    assert_eq!(set_in_column(Some("0123456789012345678"), 20), "0123456789012345678 ");
    assert_eq!(set_in_column(Some("01234567890123456789"), 20), "012345678901234567\u{2026} ");
    assert_eq!(set_in_column(None, 4), "-   ");
    assert_eq!(set_in_column(Some("abc"), 1), "\u{2026}");
    assert_eq!(set_in_column(Some("abc"), 0), "\u{2026}");
    assert_eq!(set_in_column(Some(""), 0), "");
}

#[test]
fn table_is_rows_with_line_feeds() {
    colored::control::set_override(false);
    let entries = vec![entry_named("a"), entry_named("b")];
    let table = render_as_table(&entries, false, &Unit::Bytes);
    let first = expected_row(&format!("{} a", FILE_ICON), "-", "rw-r--r--", "2048 b");
    let second = expected_row(&format!("{} b", FILE_ICON), "-", "rw-r--r--", "2048 b");
    assert_eq!(table, format!("{}\n{}\n", first, second));
}

#[test]
fn table_of_nothing_is_empty() {
    assert_eq!(render_as_table(&Vec::new(), false, &Unit::Bytes), "");
    assert_eq!(join_lines(&Vec::new()), "");
}

#[test]
fn lines_are_joined_with_line_feeds() {
    let rows = vec![String::from("one"), String::from(""), String::from("three")];
    assert_eq!(join_lines(&rows), "one\n\nthree\n");
}

#[test]
fn row_with_a_creation_date() {
    colored::control::set_override(false);
    let mut entry = entry_named("a.txt");
    entry.created = Some(Timestamp { secs: 1_696_163_696, nanos: 0 });
    entry.utc_offset = 7200;
    let row = render_as_row(&entry, false, &Unit::KB);
    let name = format!("{} a.txt", FILE_ICON);
    assert_eq!(row, expected_row(&name, "10/01/23 14:34:56", "rw-r--r--", "2 kib"));
}

#[test]
fn styled_row_holds_the_name_between_bold_and_reset() {
    colored::control::set_override(true);
    let mut unnamed = entry_named("x");
    unnamed.name = None;
    let row = render_as_row(&unnamed, false, &Unit::KB);
    colored::control::set_override(false);
    let cell = format!("\x1b[1m{:<35}\x1b[0m", "-");
    assert_eq!(row, format!("{} {:<20} {:<12} {:>10}", cell, "-", "rw-r--r--", "2 kib"));
}

#[test]
fn end_to_end_hidden_directory_is_pruned() {
    colored::control::set_override(false);
    let mut git = directory_named(2, ".git");
    git.own_created = Some(Timestamp { secs: 5, nanos: 0 });
    let snapshot = Snapshot {
        listings: vec![vec![entry_named("a.txt"), git], vec![], vec![entry_named("config")]],
    };
    let mut config = Config::default();
    config.max_depth = Some(5);
    let printed = view_files(Some(config), &snapshot);
    let row = expected_row(&format!("{} a.txt", FILE_ICON), "-", "rw-r--r--", "2048 b");
    assert_eq!(printed, vec![format!("{}\n", row)]);
}

#[test]
fn view_without_configuration_uses_the_default() {
    colored::control::set_override(false);
    let snapshot = Snapshot {
        listings: vec![
            vec![directory_named(1, "src"), entry_named(".hidden")],
            vec![entry_named("main.rs")],
        ],
    };
    let printed = view_files(None, &snapshot);
    let row = expected_row(&format!("{} src", DIR_ICON), "-", "rw-r--r--", "2048 b");
    assert_eq!(printed, vec![format!("{}\n", row)]);
}

#[test]
fn view_row_by_row_has_a_piece_for_each_entry() {
    colored::control::set_override(false);
    let snapshot = Snapshot {
        listings: vec![vec![directory_named(1, "src")], vec![entry_named("main.rs")]],
    };
    let mut config = Config::default();
    config.max_depth = Some(2);
    config.unit = Some(Unit::KB);
    let printed = view_files(Some(config), &snapshot);
    let first = expected_row(&format!("{} src", DIR_ICON), "-", "rw-r--r--", "2 kib");
    let second = expected_row(&format!("{} main.rs", FILE_ICON), "-", "rw-r--r--", "2 kib");
    assert_eq!(printed, vec![format!("{}\n", first), format!("{}\n", second)]);
}

#[test]
fn view_in_table_mode_is_one_block() {
    colored::control::set_override(false);
    let snapshot = Snapshot {
        listings: vec![vec![directory_named(1, "src")], vec![entry_named("main.rs")]],
    };
    let mut config = Config::default();
    config.max_depth = Some(2);
    config.table = true;
    config.unit = Some(Unit::KB);
    let printed = view_files(Some(config), &snapshot);
    let first = expected_row(&format!("{} src", DIR_ICON), "-", "rw-r--r--", "2 kib");
    let second = expected_row(&format!("{} main.rs", FILE_ICON), "-", "rw-r--r--", "2 kib");
    assert_eq!(printed, vec![format!("{}\n{}\n", first, second)]);
}

#[test]
fn table_mode_writes_what_row_mode_writes() {
    colored::control::set_override(false);
    let snapshot = Snapshot {
        listings: vec![
            vec![directory_named(1, "src"), entry_named("z")],
            vec![entry_named("main.rs")],
        ],
    };
    let mut rows = Config::default();
    rows.max_depth = Some(3);
    let mut table = rows.clone();
    table.table = true;
    let by_row = view_files(Some(rows), &snapshot);
    let as_table = view_files(Some(table), &snapshot);
    assert_eq!(by_row.len(), 3);
    assert_eq!(as_table.len(), 1);
    assert_eq!(by_row.concat(), as_table.concat());
}

#[test]
fn table_of_an_empty_tree_is_empty() {
    let mut config = Config::default();
    config.table = true;
    let printed = view_files(Some(config), &Snapshot { listings: vec![] });
    assert_eq!(printed, vec![String::new()]);
    let printed = view_files(None, &Snapshot { listings: vec![] });
    assert!(printed.is_empty());
}
