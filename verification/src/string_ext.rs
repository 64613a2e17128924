//! Cutting a text to a column, with an ellipsis where something was left out.

use vstd::prelude::*;
use vstd::string::*;

verus! {

/// The mark that ends a text that was cut short.
pub open spec fn ellipsis() -> char {
    '\u{2026}'
}

/// A text cut to `max_len` characters: a text that fits is kept as it is, a
/// longer one keeps its first `max_len - 1` characters and ends in the ellipsis.
/// With a limit of zero nothing of the text is kept and the ellipsis stands alone.
pub open spec fn truncated(text: Seq<char>, max_len: nat) -> Seq<char> {
    if text.len() <= max_len {
        text
    } else if max_len == 0 {
        seq![ellipsis()]
    } else {
        text.take(max_len - 1).push(ellipsis())
    }
}

/// A text that fits its limit is not changed. A longer one comes out exactly
/// `max_len` characters long, where the limit is at least one: the first
/// `max_len - 1` characters of the text, then the ellipsis.
pub proof fn truncation_round_trip(text: Seq<char>, max_len: nat)
    ensures
        text.len() <= max_len ==> truncated(text, max_len) == text,
        text.len() > max_len && max_len >= 1 ==> {
            &&& truncated(text, max_len).len() == max_len
            &&& truncated(text, max_len).take(max_len - 1) == text.take(max_len - 1)
            &&& truncated(text, max_len).last() == ellipsis()
        },
{
    if text.len() > max_len && max_len >= 1 {
        let cut = truncated(text, max_len);
        assert(cut.take(max_len - 1) =~= text.take(max_len - 1));
    }
}

/// Cuts `text` to `max_len` characters, counted as characters and not as bytes.
pub fn truncate_text(text: &str, max_len: usize) -> (out: String)
    ensures
        out@ == truncated(text@, max_len as nat),
{
    let len: usize = text.unicode_len();
    if len > max_len {
        let keep: usize = if max_len == 0 { 0 } else { max_len - 1 };
        let mut out = String::from_str(text.substring_char(0, keep));
        out.append("\u{2026}");
        proof {
            reveal_strlit("\u{2026}");
            assert("\u{2026}"@ =~= seq![ellipsis()]);
            assert(out@ =~= truncated(text@, max_len as nat));
        }
        out
    } else {
        String::from_str(text)
    }
}

/// Truncation for an owned `String`.
pub trait StringExt {
    /// The characters of the value.
    spec fn text(&self) -> Seq<char>;

    /// The value cut to `max_len` characters, with an ellipsis if anything was cut.
    fn truncate_ellipsis(&self, max_len: usize) -> (out: String)
        ensures
            out@ == truncated(self.text(), max_len as nat),
    ;
}

/// Truncation for a string slice.
pub trait StrExt {
    /// The characters of the value.
    spec fn text(&self) -> Seq<char>;

    /// The value cut to `max_len` characters, with an ellipsis if anything was cut.
    fn truncate_ellipsis(&self, max_len: usize) -> (out: String)
        ensures
            out@ == truncated(self.text(), max_len as nat),
    ;
}

impl StringExt for String {
    open spec fn text(&self) -> Seq<char> {
        self@
    }

    fn truncate_ellipsis(&self, max_len: usize) -> (out: String) {
        truncate_text(self.as_str(), max_len)
    }
}

impl StrExt for &str {
    open spec fn text(&self) -> Seq<char> {
        self@
    }

    fn truncate_ellipsis(&self, max_len: usize) -> (out: String) {
        truncate_text(*self, max_len)
    }
}

} // verus!
