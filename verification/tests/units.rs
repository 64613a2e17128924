use dirview::{normalize_size_unit, Unit};

#[test]
fn aliases_of_one_unit_agree() {
    assert_eq!(Unit::from_str("KiB"), Ok(Unit::KB));
    assert_eq!(Unit::from_str("kb"), Ok(Unit::KB));
    assert_eq!(Unit::from_str("K"), Ok(Unit::KB));
}

#[test]
fn every_alias_is_known() {
    for name in ["b", "bytes", "B", "Bytes", "BYTES"] {
        assert_eq!(Unit::from_str(name), Ok(Unit::Bytes));
    }
    for name in ["k", "kb", "kib", "KB", "Kib"] {
        assert_eq!(Unit::from_str(name), Ok(Unit::KB));
    }
    for name in ["m", "mb", "mib", "MB", "MiB"] {
        assert_eq!(Unit::from_str(name), Ok(Unit::MB));
    }
    for name in ["g", "gb", "gib", "GB", "GiB"] {
        assert_eq!(Unit::from_str(name), Ok(Unit::GB));
    }
    for name in ["t", "tb", "tib", "TB", "TiB"] {
        assert_eq!(Unit::from_str(name), Ok(Unit::TB));
    }
}

#[test]
fn unknown_unit_is_an_error() {
    assert_eq!(Unit::from_str("xyz"), Err(String::from("Invalid unit: xyz")));
    assert_eq!(Unit::from_str(""), Err(String::from("Invalid unit: ")));
    assert_eq!(Unit::from_str("kbs"), Err(String::from("Invalid unit: kbs")));
}

#[test]
fn error_names_the_unit_as_given() {
    assert_eq!(Unit::from_str("XyZ"), Err(String::from("Invalid unit: XyZ")));
}

#[test]
fn lowercase_name_is_looked_up_as_it_is() {
    assert_eq!(Unit::from_lowercase("mib", "MiB"), Ok(Unit::MB));
    assert_eq!(Unit::from_lowercase("MiB", "MiB"), Err(String::from("Invalid unit: MiB")));
}

#[test]
fn unit_parses_through_the_std_trait() {
    assert_eq!("gib".parse::<Unit>(), Ok(Unit::GB));
    assert_eq!("nope".parse::<Unit>(), Err(String::from("Invalid unit: nope")));
}

#[test]
fn short_names_of_units() {
    assert_eq!(normalize_size_unit(&Unit::Bytes), "b");
    assert_eq!(normalize_size_unit(&Unit::KB), "kib");
    assert_eq!(normalize_size_unit(&Unit::MB), "mib");
    assert_eq!(normalize_size_unit(&Unit::GB), "gib");
    assert_eq!(normalize_size_unit(&Unit::TB), "tib");
}

#[test]
fn bytes_per_unit_are_powers_of_1024() {
    assert_eq!(Unit::Bytes.bytes_per_unit(), 1);
    assert_eq!(Unit::KB.bytes_per_unit(), 1024);
    assert_eq!(Unit::MB.bytes_per_unit(), 1024 * 1024);
    assert_eq!(Unit::GB.bytes_per_unit(), 1024 * 1024 * 1024);
    assert_eq!(Unit::TB.bytes_per_unit(), 1024u64 * 1024 * 1024 * 1024);
}
