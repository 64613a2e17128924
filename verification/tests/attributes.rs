use dirview::text::{pad_left_aligned, pad_right_aligned, same_text, to_decimal};
use dirview::{
    get_display_name, get_file_creation_date, get_file_icon, get_file_name, get_file_permissions,
    get_file_size, is_hidden, Entry, EntryKind, NameError, Timestamp, Unit,
};

fn plain_entry(name: &str) -> Entry {
    Entry {
        id: 0,
        name: Some(String::from(name)),
        resolved: None,
        is_dir: false,
        is_symlink: false,
        is_file: true,
        own_created: None,
        created: None,
        utc_offset: 0,
        mode: None,
        size: None,
    }
}

fn sized(bytes: u64) -> Entry {
    let mut entry = plain_entry("file");
    entry.size = Some(bytes);
    entry
}

fn with_mode(mode: u32) -> Entry {
    let mut entry = plain_entry("file");
    entry.mode = Some(mode);
    entry
}

#[test]
fn size_in_kib() {
    assert_eq!(get_file_size(&sized(1024), &Unit::KB), Some(String::from("1 kib")));
}

#[test]
fn size_in_mib() {
    assert_eq!(get_file_size(&sized(1048576), &Unit::MB), Some(String::from("1 mib")));
}

#[test]
fn size_is_truncated_not_rounded() {
    assert_eq!(get_file_size(&sized(1023), &Unit::KB), Some(String::from("0 kib")));
    assert_eq!(get_file_size(&sized(2047), &Unit::KB), Some(String::from("1 kib")));
}

#[test]
fn size_in_every_unit() {
    let bytes: u64 = 5 * 1024 * 1024 * 1024 * 1024 + 7;
    assert_eq!(get_file_size(&sized(bytes), &Unit::Bytes), Some(String::from("5497558138887 b")));
    assert_eq!(get_file_size(&sized(bytes), &Unit::KB), Some(String::from("5368709120 kib")));
    assert_eq!(get_file_size(&sized(bytes), &Unit::MB), Some(String::from("5242880 mib")));
    assert_eq!(get_file_size(&sized(bytes), &Unit::GB), Some(String::from("5120 gib")));
    assert_eq!(get_file_size(&sized(bytes), &Unit::TB), Some(String::from("5 tib")));
}

#[test]
fn size_of_nothing_and_of_the_most() {
    assert_eq!(get_file_size(&sized(0), &Unit::Bytes), Some(String::from("0 b")));
    assert_eq!(
        get_file_size(&sized(u64::MAX), &Unit::Bytes),
        Some(String::from("18446744073709551615 b"))
    );
    assert_eq!(get_file_size(&sized(u64::MAX), &Unit::TB), Some(String::from("16777215 tib")));
}

#[test]
fn absent_size_has_no_text() {
    assert_eq!(get_file_size(&plain_entry("file"), &Unit::KB), None);
}

#[test]
fn decimal_of_numbers() {
    assert_eq!(to_decimal(0), "0");
    assert_eq!(to_decimal(9), "9");
    assert_eq!(to_decimal(10), "10");
    assert_eq!(to_decimal(1234567890), "1234567890");
}

#[test]
fn permissions_of_754() {
    assert_eq!(get_file_permissions(&with_mode(0o754)), Some(String::from("rwxr-xr--")));
}

#[test]
fn permissions_use_the_low_nine_bits() {
    assert_eq!(get_file_permissions(&with_mode(0o100644)), Some(String::from("rw-r--r--")));
    assert_eq!(get_file_permissions(&with_mode(0o40755)), Some(String::from("rwxr-xr-x")));
    assert_eq!(get_file_permissions(&with_mode(0)), Some(String::from("---------")));
    assert_eq!(get_file_permissions(&with_mode(0o777)), Some(String::from("rwxrwxrwx")));
    assert_eq!(get_file_permissions(&with_mode(0o421)), Some(String::from("r---w---x")));
    assert_eq!(get_file_permissions(&with_mode(u32::MAX)), Some(String::from("rwxrwxrwx")));
}

#[test]
fn absent_mode_has_no_permissions() {
    assert_eq!(get_file_permissions(&plain_entry("file")), None);
}

#[test]
fn icon_goes_by_kind_in_order() {
    let mut entry = plain_entry("x");
    entry.is_dir = true;
    entry.is_symlink = true;
    entry.is_file = true;
    assert_eq!(entry.classify(), EntryKind::Directory);
    assert_eq!(get_file_icon(&entry), "\x1b[34m\u{f4d3}\x1b[0m");
    entry.is_dir = false;
    assert_eq!(entry.classify(), EntryKind::Symlink);
    assert_eq!(get_file_icon(&entry), "\x1b[36m\u{f481}\x1b[0m");
    entry.is_symlink = false;
    assert_eq!(entry.classify(), EntryKind::RegularFile);
    assert_eq!(get_file_icon(&entry), "\x1b[32m\u{f15b}\x1b[0m");
    entry.is_file = false;
    assert_eq!(entry.classify(), EntryKind::Other);
    assert_eq!(get_file_icon(&entry), "");
}

#[test]
fn name_carries_its_icon() {
    let entry = plain_entry("a.txt");
    assert_eq!(get_file_name(&entry, false), Ok(String::from("\x1b[32m\u{f15b}\x1b[0m a.txt")));
}

#[test]
fn resolved_path_replaces_the_name() {
    let mut entry = plain_entry("a.txt");
    entry.resolved = Some(String::from("/home/user/a.txt"));
    assert_eq!(
        get_file_name(&entry, true),
        Ok(String::from("\x1b[32m\u{f15b}\x1b[0m /home/user/a.txt"))
    );
    assert_eq!(get_display_name(&entry, true), Ok(&String::from("/home/user/a.txt")));
    assert_eq!(get_display_name(&entry, false), Ok(&String::from("a.txt")));
}

#[test]
fn name_that_is_not_text_is_an_error() {
    let mut entry = plain_entry("a.txt");
    entry.name = None;
    entry.resolved = Some(String::from("/home/user/a.txt"));
    assert_eq!(get_file_name(&entry, false), Err(NameError::NotText));
    assert_eq!(get_file_name(&entry, true), Err(NameError::NotText));
    assert_eq!(NameError::NotText.message(), "Failed to convert file name to string");
}

#[test]
fn missing_resolved_path_is_an_error() {
    let entry = plain_entry("a.txt");
    assert_eq!(get_file_name(&entry, true), Err(NameError::Unresolved));
    assert_eq!(NameError::Unresolved.message(), "Failed to resolve the path");
}

#[test]
fn hidden_is_a_leading_dot() {
    assert!(is_hidden(&plain_entry(".hidden")));
    assert!(is_hidden(&plain_entry(".")));
    assert!(!is_hidden(&plain_entry("visible")));
    assert!(!is_hidden(&plain_entry("not.hidden")));
    assert!(!is_hidden(&plain_entry("")));
    let mut unnamed = plain_entry("x");
    unnamed.name = None;
    assert!(!is_hidden(&unnamed));
    assert!(unnamed.is_shown(false));
    assert!(!plain_entry(".git").is_shown(false));
    assert!(plain_entry(".git").is_shown(true));
}

#[test]
fn only_real_directories_are_entered() {
    let mut entry = plain_entry("d");
    entry.is_dir = true;
    assert!(entry.is_enterable());
    entry.is_symlink = true;
    assert!(!entry.is_enterable());
    assert!(!plain_entry("f").is_enterable());
}

#[test]
fn absent_creation_time_has_no_date() {
    assert_eq!(get_file_creation_date(&plain_entry("file")), None);
}

#[test]
fn creation_date_is_date_and_time() {
    let mut entry = plain_entry("file");
    entry.created = Some(Timestamp { secs: 1_696_163_696, nanos: 500 });
    assert_eq!(get_file_creation_date(&entry), Some(String::from("10/01/23 12:34:56")));
}

#[test]
fn creation_date_is_in_the_zone_of_the_offset() {
    let mut entry = plain_entry("file");
    entry.created = Some(Timestamp { secs: 1_696_163_696, nanos: 0 });
    entry.utc_offset = 3600;
    assert_eq!(get_file_creation_date(&entry), Some(String::from("10/01/23 13:34:56")));
    entry.utc_offset = -(12 * 3600 + 35 * 60);
    assert_eq!(get_file_creation_date(&entry), Some(String::from("09/30/23 23:59:56")));
    entry.utc_offset = 86_399;
    assert_eq!(get_file_creation_date(&entry), Some(String::from("10/02/23 12:34:55")));
}

#[test]
fn creation_date_ignores_the_own_time() {
    let mut entry = plain_entry("file");
    entry.own_created = Some(Timestamp { secs: 1_696_163_696, nanos: 0 });
    assert_eq!(get_file_creation_date(&entry), None);
    entry.created = Some(Timestamp { secs: 0, nanos: 0 });
    assert_eq!(get_file_creation_date(&entry), Some(String::from("01/01/70 00:00:00")));
}

#[test]
fn creation_date_before_1970_and_beyond_four_digit_years() {
    let mut entry = plain_entry("file");
    entry.created = Some(Timestamp { secs: -1, nanos: 999_999_999 });
    assert_eq!(get_file_creation_date(&entry), Some(String::from("12/31/69 23:59:59")));
    // the first second of the year 10000
    entry.created = Some(Timestamp { secs: 253_402_300_800, nanos: 0 });
    assert_eq!(get_file_creation_date(&entry), Some(String::from("01/01/00 00:00:00")));
    // the last second of the year 0, and the first of the year -1
    entry.created = Some(Timestamp { secs: -62_135_596_801, nanos: 0 });
    assert_eq!(get_file_creation_date(&entry), Some(String::from("12/31/00 23:59:59")));
}

#[test]
fn creation_date_at_the_ends_of_the_years_held() {
    let mut entry = plain_entry("file");
    entry.created = Some(Timestamp { secs: -8_334_569_692_800, nanos: 0 });
    assert_eq!(get_file_creation_date(&entry), Some(String::from("01/01/58 00:00:00")));
    entry.utc_offset = -86_399;
    assert_eq!(get_file_creation_date(&entry), Some(String::from("12/31/57 00:00:01")));
    entry.utc_offset = 86_399;
    entry.created = Some(Timestamp { secs: 8_210_235_340_799, nanos: 999_999_999 });
    assert_eq!(get_file_creation_date(&entry), Some(String::from("01/01/42 23:59:58")));
    entry.utc_offset = 0;
    assert_eq!(get_file_creation_date(&entry), Some(String::from("12/31/41 23:59:59")));
}

#[test]
fn creation_date_outside_what_can_be_held_is_absent() {
    let mut entry = plain_entry("file");
    entry.created = Some(Timestamp { secs: i64::MAX, nanos: 0 });
    assert_eq!(get_file_creation_date(&entry), None);
    entry.created = Some(Timestamp { secs: i64::MIN, nanos: 0 });
    assert_eq!(get_file_creation_date(&entry), None);
    entry.created = Some(Timestamp { secs: 8_210_235_340_800, nanos: 0 });
    assert_eq!(get_file_creation_date(&entry), None);
    entry.created = Some(Timestamp { secs: -8_334_569_692_801, nanos: 0 });
    assert_eq!(get_file_creation_date(&entry), None);
    entry.created = Some(Timestamp { secs: 0, nanos: 1_000_000_000 });
    assert_eq!(get_file_creation_date(&entry), None);
}

#[test]
fn creation_date_with_an_offset_of_a_day_is_absent() {
    let mut entry = plain_entry("file");
    entry.created = Some(Timestamp { secs: 0, nanos: 0 });
    entry.utc_offset = 86_400;
    assert_eq!(get_file_creation_date(&entry), None);
    entry.utc_offset = -86_400;
    assert_eq!(get_file_creation_date(&entry), None);
    entry.utc_offset = i32::MIN;
    assert_eq!(get_file_creation_date(&entry), None);
}

#[test]
fn timestamps_compare_by_instant() {
    let early = Timestamp { secs: -1, nanos: 999_999_999 };
    let epoch = Timestamp { secs: 0, nanos: 0 };
    let late = Timestamp { secs: 0, nanos: 1 };
    assert!(early.is_before(&epoch));
    assert!(epoch.is_before(&late));
    assert!(!late.is_before(&epoch));
    assert!(!epoch.is_before(&epoch));
    let same = Timestamp { secs: -1, nanos: 1_000_000_000 };
    assert!(!same.is_before(&epoch));
    assert!(!epoch.is_before(&same));
}

#[test]
fn texts_compare_and_pad() {
    assert!(same_text("abc", "abc"));
    assert!(!same_text("abc", "abd"));
    assert!(!same_text("abc", "ab"));
    assert!(same_text("", ""));
    assert_eq!(pad_left_aligned("ab", 5), "ab   ");
    assert_eq!(pad_left_aligned("abcdef", 5), "abcdef");
    assert_eq!(pad_right_aligned("ab", 5), "   ab");
    assert_eq!(pad_right_aligned("abcdef", 5), "abcdef");
    assert_eq!(pad_left_aligned("\u{e9}", 3), "\u{e9}  ");
}

#[test]
fn timestamps_from_durations() {
    assert_eq!(Timestamp::after_epoch(5, 7), Timestamp { secs: 5, nanos: 7 });
    assert_eq!(Timestamp::after_epoch(u64::MAX, 7), Timestamp { secs: i64::MAX, nanos: 7 });
    assert_eq!(Timestamp::before_epoch(5, 0), Timestamp { secs: -5, nanos: 0 });
    assert_eq!(Timestamp::before_epoch(5, 250_000_000), Timestamp { secs: -6, nanos: 750_000_000 });
    assert_eq!(Timestamp::before_epoch(0, 1), Timestamp { secs: -1, nanos: 999_999_999 });
    assert_eq!(Timestamp::before_epoch(u64::MAX, 1), Timestamp { secs: i64::MIN, nanos: 0 });
    assert_eq!(
        Timestamp::before_epoch(i64::MAX as u64, 0),
        Timestamp { secs: -i64::MAX, nanos: 0 }
    );
    assert_eq!(Timestamp::before_epoch(i64::MAX as u64, 1), Timestamp { secs: i64::MIN, nanos: 0 });
    assert_eq!(Timestamp::before_epoch(1, 2_500_000_000), Timestamp { secs: -4, nanos: 500_000_000 });
    assert!(Timestamp::before_epoch(0, 1).is_before(&Timestamp::after_epoch(0, 0)));
}
