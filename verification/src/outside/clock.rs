//! The system clock.
use std::time::{SystemTime, UNIX_EPOCH};
use vstd::prelude::*;

verus! {

/// `SystemTime::now`, in seconds since the Unix epoch, or zero for a clock set before it: any
/// reading may come back.
#[verifier::external_body]
pub(crate) fn unix_timestamp() -> i64 {
    SystemTime::now().duration_since(UNIX_EPOCH).map(
        |duration| duration.as_secs() as i64,
    ).unwrap_or_default()
}

/// `chrono::Utc::now`, in seconds since the Unix epoch: any reading may come back.
#[verifier::external_body]
pub(crate) fn utc_timestamp() -> i64 {
    chrono::Utc::now().timestamp()
}

/// Two digits, a colon, two digits, a colon and two digits.
pub open spec fn is_time_of_day(text: Seq<char>) -> bool {
    &&& text.len() == 8
    &&& forall|i: int|
        0 <= i < 8 ==> if i == 2 || i == 5 {
            #[trigger] text[i] == ':'
        } else {
            '0' <= text[i] && text[i] <= '9'
        }
}

/// `chrono::Local::now`, formatted as hours, minutes and seconds: any reading may come back.
#[verifier::external_body]
pub(crate) fn local_time_of_day() -> (text: String)
    ensures
        is_time_of_day(text@),
{
    chrono::Local::now().format("%H:%M:%S").to_string()
}

} // verus!
