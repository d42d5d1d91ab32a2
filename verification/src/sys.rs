use crate::timefmt::{valid_time, TimeFields};
use chrono::Datelike;
use chrono::Timelike;
use vstd::prelude::*;

verus! {

/// Relies on termsize::get: the current size of the attached terminal,
/// or None when standard output is not a terminal. The result depends on
/// the environment, so nothing more is promised of it.
#[verifier::external_body]
pub fn terminal_cols() -> Option<u16> {
    termsize::get().map(|s| s.cols)
}

/// Relies on users::get_user_by_uid and User::name: the login name
/// recorded for the id in the system user database, or None when the id
/// is unknown there or its name is not valid UTF-8. The result depends
/// on the machine, so nothing more is promised of it.
#[verifier::external_body]
pub fn lookup_user_name(uid: u32) -> Option<String> {
    users::get_user_by_uid(uid).and_then(|u| u.name().to_str().map(|s| s.to_owned()))
}

/// Relies on users::get_group_by_gid and Group::name, as for
/// lookup_user_name.
#[verifier::external_body]
pub fn lookup_group_name(gid: u32) -> Option<String> {
    users::get_group_by_gid(gid).and_then(|g| g.name().to_str().map(|s| s.to_owned()))
}

/// Relies on chrono's DateTime::from_timestamp, with_timezone and the
/// Datelike/Timelike accessors: the local-time calendar fields of the
/// given Unix timestamp. Chrono documents month as 1-12, day as 1-31,
/// hour as 0-23 and minute as 0-59; None comes only for timestamps
/// outside chrono's representable range, so any timestamp from 1970
/// up to the end of year 9999, far inside that range, yields Some.
/// The fields depend on the machine's time zone, so only their ranges
/// are promised.
#[verifier::external_body]
pub fn local_time_fields(secs: i64) -> (r: Option<TimeFields>)
    ensures
        r matches Some(t) ==> valid_time(t),
        0 <= secs <= 253402300799 ==> r is Some,
{
    chrono::DateTime::from_timestamp(secs, 0).map(
        |d|
            {
                let l = d.with_timezone(&chrono::Local);
                TimeFields {
                    month: l.month() as u8,
                    day: l.day() as u8,
                    hour: l.hour() as u8,
                    minute: l.minute() as u8,
                }
            },
    )
}

} // verus!
