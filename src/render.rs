//! Rendering entries by the configured template.

use std::fmt::Write;

use chrono::TimeZone;
use vstd::prelude::*;
use vstd::string::{StrSliceExecFns, StringExecFns};

use crate::config::{light_white_fg, Config};
use crate::entry::{Entry, EntryModel};
use crate::error::TaskError;
use crate::text::{nat_text, push_char, push_nat};
use crate::urgency::{classify, color_of, urgency_color, urgency_of};

verus! {

/// The escape that ends a coloured due date.
pub open spec fn reset_color() -> Seq<char> {
    "\x1b[38;5;15m"@
}

/// `p` before the text in `o`, if any.
pub open spec fn prepend(p: Seq<char>, o: Option<Seq<char>>) -> Option<Seq<char>> {
    match o {
        Some(x) => Some(p + x),
        None => None,
    }
}

/// The rendering of template `t` from position `k` on: `%n` gives the id,
/// `%t` the due date text `date` between `color` and the reset escape, `%s`
/// the description, and any other character after `%` makes the template
/// bad (`None`). A `%` that ends the template gives nothing; every other
/// character stands for itself.
pub open spec fn render_from(
    t: Seq<char>,
    k: int,
    e: EntryModel,
    date: Seq<char>,
    color: Seq<char>,
) -> Option<Seq<char>>
    decreases t.len() - k,
{
    if k < 0 || k >= t.len() {
        Some(Seq::empty())
    } else if t[k] == '%' {
        if k + 1 >= t.len() {
            Some(Seq::empty())
        } else if t[k + 1] == 'n' {
            prepend(nat_text(e.id as nat), render_from(t, k + 2, e, date, color))
        } else if t[k + 1] == 't' {
            prepend(color + date + reset_color(), render_from(t, k + 2, e, date, color))
        } else if t[k + 1] == 's' {
            prepend(e.desc, render_from(t, k + 2, e, date, color))
        } else {
            None
        }
    } else {
        prepend(seq![t[k]], render_from(t, k + 1, e, date, color))
    }
}

/// The rendered line of entry `e` by template `t`, ending in a line break.
pub open spec fn render_line(
    t: Seq<char>,
    e: EntryModel,
    date: Seq<char>,
    color: Seq<char>,
) -> Option<Seq<char>> {
    match render_from(t, 0, e, date, color) {
        Some(x) => Some(x.push('\n')),
        None => None,
    }
}

/// The text in `r`, or `None` where it is an error.
pub open spec fn ok_text(r: Result<String, TaskError>) -> Option<Seq<char>> {
    match r {
        Ok(s) => Some(s@),
        Err(_) => None,
    }
}

/// Renders `entry` by the print template of `cfg`, with `date` as the text
/// of its due date and the colour of its urgency at time `now`.
pub fn format_entry(entry: &Entry, cfg: &Config, date: &str, now: i64) -> (r: Result<
    String,
    TaskError,
>)
    ensures
        ok_text(r) == render_line(
            cfg.print_fmt@,
            entry@,
            date@,
            color_of(cfg, urgency_of(entry.date as int, now as int)),
        ),
        r is Err ==> r == Err::<String, TaskError>(TaskError::BadTemplate),
{
    let t = cfg.print_fmt.as_str();
    let n = t.unicode_len();
    let color = urgency_color(cfg, classify(entry.date, now));
    let ghost e = entry@;
    let ghost c = color@;
    let mut out = String::new();
    let mut k: usize = 0;
    while k < n
        invariant
            n == t@.len(),
            t@ == cfg.print_fmt@,
            k <= n,
            c == color_of(cfg, urgency_of(entry.date as int, now as int)),
            c == color@,
            e == entry@,
            render_from(t@, 0, e, date@, c) == prepend(out@, render_from(t@, k as int, e, date@, c)),
        decreases n - k,
    {
        let ch = t.get_char(k);
        if ch == '%' {
            if k + 1 >= n {
                k = n;
            } else {
                let d = t.get_char(k + 1);
                if d == 'n' {
                    push_nat(&mut out, entry.id as u64);
                } else if d == 't' {
                    out.append(color.as_str());
                    out.append(date);
                    out.append(light_white_fg());
                } else if d == 's' {
                    out.append(entry.desc.as_str());
                } else {
                    return Err(TaskError::BadTemplate);
                }
                k = k + 2;
            }
        } else {
            push_char(&mut out, ch);
            k = k + 1;
        }
    }
    push_char(&mut out, '\n');
    Ok(out)
}

/// Relies on chrono's `Local.timestamp_opt(secs, 0).earliest()`, the local
/// time of a timestamp, and on `DateTime::format(fmt)`, written out. Either
/// depends on the machine's time zone, so nothing is stated of the text;
/// `None` where the time cannot be had or `fmt` is not a valid layout.
#[verifier::external_body]
fn local_date_text(secs: i64, fmt: &str) -> (r: Option<String>) {
    let d = chrono::Local.timestamp_opt(secs, 0).earliest()?;
    let mut s = String::new();
    write!(s, "{}", d.format(fmt)).ok()?;
    Some(s)
}

/// Renders `entry` as `format_entry` does, its due date shown in local time
/// by the date layout of `cfg`. Fails with `BadTemplate` where either
/// template is bad.
pub fn render_entry(entry: &Entry, cfg: &Config, now: i64) -> (r: Result<String, TaskError>)
    ensures
        match r {
            Ok(s) => exists|d: Seq<char>|
                render_line(
                    cfg.print_fmt@,
                    entry@,
                    d,
                    color_of(cfg, urgency_of(entry.date as int, now as int)),
                ) == Some(s@),
            Err(e) => e == TaskError::BadTemplate,
        },
{
    match local_date_text(entry.date, cfg.time_fmt.as_str()) {
        Some(d) => format_entry(entry, cfg, d.as_str(), now),
        None => Err(TaskError::BadTemplate),
    }
}

} // verus!
