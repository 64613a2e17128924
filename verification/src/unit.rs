//! The units in which a size is shown.

use vstd::prelude::*;
use vstd::string::*;
use crate::text::same_text;

verus! {

/// File size units that are supported.
#[derive(Clone, Copy, Debug, PartialEq, Eq, Structural)]
pub enum Unit {
    Bytes,
    KB,
    MB,
    GB,
    TB,
}

/// What `str::to_lowercase` makes of a text: the lowercase form that
/// Unicode defines for it, which is the same wherever it is computed.
pub uninterp spec fn lowercase_of(text: Seq<char>) -> Seq<char>;

/// The unit that a name in lowercase stands for, if it stands for one.
pub open spec fn unit_named(lowered: Seq<char>) -> Option<Unit> {
    if lowered == "b"@ || lowered == "bytes"@ {
        Some(Unit::Bytes)
    } else if lowered == "k"@ || lowered == "kb"@ || lowered == "kib"@ {
        Some(Unit::KB)
    } else if lowered == "m"@ || lowered == "mb"@ || lowered == "mib"@ {
        Some(Unit::MB)
    } else if lowered == "g"@ || lowered == "gb"@ || lowered == "gib"@ {
        Some(Unit::GB)
    } else if lowered == "t"@ || lowered == "tb"@ || lowered == "tib"@ {
        Some(Unit::TB)
    } else {
        None
    }
}

/// What is said of a name that stands for no unit.
pub open spec fn invalid_unit_message(given: Seq<char>) -> Seq<char> {
    "Invalid unit: "@ + given
}

/// What parsing makes of a name whose lowercase form is `lowered`: its unit,
/// or the message that names what was given.
pub open spec fn parsed_as(
    result: Result<Unit, String>,
    lowered: Seq<char>,
    given: Seq<char>,
) -> bool {
    match result {
        Ok(unit) => unit_named(lowered) == Some(unit),
        Err(message) => unit_named(lowered) is None && message@ == invalid_unit_message(given),
    }
}

/// Calls `str::to_lowercase` of std. The contract names the result and
/// claims nothing more of it.
#[verifier::external_body]
fn lowercase(text: &str) -> (lowered: String)
    ensures
        lowered@ == lowercase_of(text@),
{
    text.to_lowercase()
}

impl Unit {
    /// By how many bytes a size is divided to be shown in the unit.
    pub open spec fn divisor(self) -> nat {
        match self {
            Unit::Bytes => 1,
            Unit::KB => 1024,
            Unit::MB => 1024 * 1024,
            Unit::GB => 1024 * 1024 * 1024,
            Unit::TB => 1024 * 1024 * 1024 * 1024,
        }
    }

    /// The short name of the unit, as it stands behind a size.
    pub open spec fn suffix(self) -> Seq<char> {
        match self {
            Unit::Bytes => "b"@,
            Unit::KB => "kib"@,
            Unit::MB => "mib"@,
            Unit::GB => "gib"@,
            Unit::TB => "tib"@,
        }
    }

    /// Computes `divisor`.
    pub fn bytes_per_unit(&self) -> (d: u64)
        ensures
            d == self.divisor(),
    {
        match self {
            Unit::Bytes => 1,
            Unit::KB => 1024,
            Unit::MB => 1_048_576,
            Unit::GB => 1_073_741_824,
            Unit::TB => 1_099_511_627_776,
        }
    }

    /// Parses the name of a unit, whatever its case: `b`, `bytes`; `k`, `kb`,
    /// `kib`; `m`, `mb`, `mib`; `g`, `gb`, `gib`; `t`, `tb`, `tib`. Any other
    /// name is an error, whose message holds the name as it was given.
    pub fn from_str(s: &str) -> (result: Result<Unit, String>)
        ensures
            parsed_as(result, lowercase_of(s@), s@),
    {
        let lowered = lowercase(s);
        Unit::from_lowercase(lowered.as_str(), s)
    }

    /// The unit that `lowered` names, one of the names that `from_str` lists,
    /// or the error that holds `given`.
    pub fn from_lowercase(lowered: &str, given: &str) -> (result: Result<Unit, String>)
        ensures
            parsed_as(result, lowered@, given@),
    {
        if same_text(lowered, "b") || same_text(lowered, "bytes") {
            Ok(Unit::Bytes)
        } else if same_text(lowered, "k") || same_text(lowered, "kb") || same_text(lowered, "kib") {
            Ok(Unit::KB)
        } else if same_text(lowered, "m") || same_text(lowered, "mb") || same_text(lowered, "mib") {
            Ok(Unit::MB)
        } else if same_text(lowered, "g") || same_text(lowered, "gb") || same_text(lowered, "gib") {
            Ok(Unit::GB)
        } else if same_text(lowered, "t") || same_text(lowered, "tb") || same_text(lowered, "tib") {
            Ok(Unit::TB)
        } else {
            let mut message = String::from_str("Invalid unit: ");
            message.append(given);
            Err(message)
        }
    }
}

impl std::str::FromStr for Unit {
    type Err = String;

    fn from_str(s: &str) -> (result: Result<Unit, String>)
        ensures
            parsed_as(result, lowercase_of(s@), s@),
    {
        Unit::from_str(s)
    }
}

/// The short name of a unit: `b`, `kib`, `mib`, `gib` or `tib`.
pub fn normalize_size_unit(unit: &Unit) -> (name: &'static str)
    ensures
        name@ == unit.suffix(),
{
    match unit {
        Unit::Bytes => "b",
        Unit::KB => "kib",
        Unit::MB => "mib",
        Unit::GB => "gib",
        Unit::TB => "tib",
    }
}

} // verus!
