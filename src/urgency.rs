//! How close a due time is, for colouring.

use vstd::prelude::*;

use crate::config::Config;

verus! {

pub const DAY_SECS: i64 = 86_400;

pub const WEEK_SECS: i64 = 604_800;

/// How far away a due time is.
#[derive(Clone, Copy, Debug, PartialEq, Eq, Structural)]
pub enum Urgency {
    LessThanDay,
    LessThanWeek,
    PastDue,
    MoreThanWeek,
}

/// The urgency of due time `due` at time `now`. The tests run in this order
/// and the first that holds wins: under a day ahead, under a week ahead,
/// overdue, else further. Every overdue time is thus "under a day ahead",
/// and `PastDue` is never chosen; colouring keeps that order on purpose.
pub open spec fn urgency_of(due: int, now: int) -> Urgency {
    let delta = due - now;
    if delta < DAY_SECS {
        Urgency::LessThanDay
    } else if delta < WEEK_SECS {
        Urgency::LessThanWeek
    } else if delta < 0 {
        Urgency::PastDue
    } else {
        Urgency::MoreThanWeek
    }
}

/// Classifies due time `due` relative to `now`, both in seconds since the
/// Unix epoch.
pub fn classify(due: i64, now: i64) -> (r: Urgency)
    ensures
        r == urgency_of(due as int, now as int),
{
    let delta: i128 = due as i128 - now as i128;
    if delta < DAY_SECS as i128 {
        Urgency::LessThanDay
    } else if delta < WEEK_SECS as i128 {
        Urgency::LessThanWeek
    } else if delta < 0 {
        Urgency::PastDue
    } else {
        Urgency::MoreThanWeek
    }
}

/// The colour escape that `cfg` gives urgency `u`.
pub open spec fn color_of(cfg: &Config, u: Urgency) -> Seq<char> {
    match u {
        Urgency::LessThanDay => cfg.less_than_day_color@,
        Urgency::LessThanWeek => cfg.less_than_week_color@,
        Urgency::PastDue => cfg.past_due_color@,
        Urgency::MoreThanWeek => cfg.greater_than_week_color@,
    }
}

/// The colour escape that `cfg` gives urgency `u`.
pub fn urgency_color(cfg: &Config, u: Urgency) -> (r: &String)
    ensures
        r@ == color_of(cfg, u),
{
    match u {
        Urgency::LessThanDay => &cfg.less_than_day_color,
        Urgency::LessThanWeek => &cfg.less_than_week_color,
        Urgency::PastDue => &cfg.past_due_color,
        Urgency::MoreThanWeek => &cfg.greater_than_week_color,
    }
}

} // verus!
