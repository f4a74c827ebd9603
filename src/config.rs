//! Display settings, fixed once at startup.

use vstd::prelude::*;
use vstd::string::StringExecFns;

verus! {

/// Layout of a rendered due date, in chrono's strftime notation:
/// `Sun Sep 12 12:30 PM`.
pub const TIME_FMT: &'static str = "%a %b %d %I:%M %p";

/// Layout of a rendered entry: `%n` the id, `%t` the due date, `%s` the
/// description.
pub const PRINT_FMT: &'static str = "[%n] Due: %t, %s";

/// Relies on termion's `color::Red::fg_str`: the foreground escape of palette
/// colour 1.
#[verifier::external_body]
fn red_fg() -> (r: &'static str)
    ensures
        r@ == "\x1b[38;5;1m"@,
{
    termion::color::Red.fg_str()
}

/// Relies on termion's `color::Green::fg_str`: the foreground escape of
/// palette colour 2.
#[verifier::external_body]
fn green_fg() -> (r: &'static str)
    ensures
        r@ == "\x1b[38;5;2m"@,
{
    termion::color::Green.fg_str()
}

/// Relies on termion's `color::Yellow::fg_str`: the foreground escape of
/// palette colour 3.
#[verifier::external_body]
fn yellow_fg() -> (r: &'static str)
    ensures
        r@ == "\x1b[38;5;3m"@,
{
    termion::color::Yellow.fg_str()
}

/// Relies on termion's `color::Blue::fg_str`: the foreground escape of palette
/// colour 4.
#[verifier::external_body]
fn blue_fg() -> (r: &'static str)
    ensures
        r@ == "\x1b[38;5;4m"@,
{
    termion::color::Blue.fg_str()
}

/// Relies on termion's `color::LightWhite::fg_str`: the foreground escape of
/// palette colour 15.
#[verifier::external_body]
pub(crate) fn light_white_fg() -> (r: &'static str)
    ensures
        r@ == "\x1b[38;5;15m"@,
{
    termion::color::LightWhite.fg_str()
}

/// How entries are rendered: the date and entry layouts, whether group names
/// are folded to lower case on load, and one colour escape per urgency, for
/// today, and for group headers.
pub struct Config {
    pub time_fmt: String,
    pub print_fmt: String,
    pub ignore_group_case: bool,
    pub today_color: String,
    pub less_than_day_color: String,
    pub less_than_week_color: String,
    pub greater_than_week_color: String,
    pub past_due_color: String,
    pub group_color: String,
}

impl Config {
    /// The standard settings: red for what is due within a day or overdue,
    /// yellow within a week, light white beyond, green group headers, and
    /// group names kept as written.
    pub fn default() -> (r: Config)
        ensures
            r.time_fmt@ == TIME_FMT@,
            r.print_fmt@ == PRINT_FMT@,
            !r.ignore_group_case,
            r.today_color@ == "\x1b[38;5;4m"@,
            r.less_than_day_color@ == "\x1b[38;5;1m"@,
            r.less_than_week_color@ == "\x1b[38;5;3m"@,
            r.greater_than_week_color@ == "\x1b[38;5;15m"@,
            r.past_due_color@ == "\x1b[38;5;1m"@,
            r.group_color@ == "\x1b[38;5;2m"@,
    {
        Config {
            time_fmt: String::from_str(TIME_FMT),
            print_fmt: String::from_str(PRINT_FMT),
            ignore_group_case: false,
            today_color: String::from_str(blue_fg()),
            less_than_day_color: String::from_str(red_fg()),
            less_than_week_color: String::from_str(yellow_fg()),
            greater_than_week_color: String::from_str(light_white_fg()),
            past_due_color: String::from_str(red_fg()),
            group_color: String::from_str(green_fg()),
        }
    }
}

} // verus!
