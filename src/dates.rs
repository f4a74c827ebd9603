//! Reading due dates typed by the user.

use vstd::prelude::*;
use vstd::string::StringExecFns;

verus! {

/// The fixed UTC offset that due dates typed by the user are read in.
pub const TZ: &'static str = "-0400";

/// The layout of a due date typed by the user, offset appended:
/// `9/21/2021 11:59 pm-0400`.
pub const DUE_FORMAT: &'static str = "%m/%d/%Y %I:%M %P%z";

/// What chrono's `DateTime::parse_from_str(s, fmt)` followed by `timestamp`
/// gives: the seconds since the Unix epoch, or `None` where `s` does not
/// match `fmt`.
pub uninterp spec fn parsed_timestamp(s: Seq<char>, fmt: Seq<char>) -> Option<i64>;

/// The due timestamp that the text `text` stands for, if any.
pub open spec fn due_of(text: Seq<char>) -> Option<i64> {
    parsed_timestamp(text + TZ@, DUE_FORMAT@)
}

/// Relies on chrono's `DateTime::parse_from_str`, which reads `s` by the
/// layout `fmt` (offset included), and on `DateTime::timestamp`, which gives
/// the seconds since the Unix epoch. Either depends on its arguments alone.
#[verifier::external_body]
fn parse_timestamp(s: &str, fmt: &str) -> (r: Option<i64>)
    ensures
        r == parsed_timestamp(s@, fmt@),
{
    match chrono::DateTime::parse_from_str(s, fmt) {
        Ok(d) => Some(d.timestamp()),
        Err(_) => None,
    }
}

/// Reads a due date such as `9/21/2021 11:59 pm` in the fixed offset `TZ`.
pub fn parse_due(text: &str) -> (r: Option<i64>)
    ensures
        r == due_of(text@),
{
    let mut s = String::from_str(text);
    s.append(TZ);
    parse_timestamp(s.as_str(), DUE_FORMAT)
}

} // verus!
