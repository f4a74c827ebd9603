use taskstore::command::{apply_command, parse_command, parse_mod_args, Command};
use taskstore::config::Config;
use taskstore::error::TaskError;
use taskstore::persist::{load_entries, store_text};
use taskstore::render::format_entry;
use taskstore::entry::Entry;
use taskstore::urgency::{classify, urgency_color, Urgency};

fn words(ws: &[&str]) -> Vec<String> {
    ws.iter().map(|w| w.to_string()).collect()
}

const FILE: &str = "1,work,1700000000,finish report\n2,home,1700500000,buy milk";

#[test]
fn delete_then_save_keeps_other_record() {
    let cfg = Config::default();
    let mut es = load_entries(FILE, &cfg).ok().unwrap();
    let cmd = parse_command(&words(&["del", "1"]), false).ok().unwrap();
    assert_eq!(apply_command(&mut es, &cmd), Ok(true));
    assert_eq!(store_text(&es), "2,home,1700500000,buy milk");
}

#[test]
fn mod_desc_changes_only_description() {
    let cfg = Config::default();
    let mut es = load_entries(FILE, &cfg).ok().unwrap();
    let cmd = parse_command(&words(&["mod", "2", "desc=buy oat milk"]), false).ok().unwrap();
    assert_eq!(apply_command(&mut es, &cmd), Ok(true));
    assert_eq!(
        store_text(&es),
        "1,work,1700000000,finish report\n2,home,1700500000,buy oat milk"
    );
}

#[test]
fn add_command_parses_date_and_appends() {
    let mut es = load_entries(FILE, &Config::default()).ok().unwrap();
    let cmd = parse_command(&words(&["a", "cs288", "9/21/2021 11:59 pm", "hw 1"]), false).ok().unwrap();
    assert_eq!(apply_command(&mut es, &cmd), Ok(true));
    assert_eq!(es.len(), 3);
    assert_eq!(es[2].as_file_line(), "3,cs288,1632283140,hw 1");
}

#[test]
fn add_command_with_bad_date_changes_nothing() {
    let mut es = load_entries(FILE, &Config::default()).ok().unwrap();
    let cmd = parse_command(&words(&["add", "g", "someday", "d"]), false).ok().unwrap();
    assert_eq!(apply_command(&mut es, &cmd), Err(TaskError::InvalidDateFormat));
    assert_eq!(store_text(&es), FILE);
}

#[test]
fn del_absent_id_reports_not_found() {
    let mut es = load_entries(FILE, &Config::default()).ok().unwrap();
    let cmd = parse_command(&words(&["rm", "9"]), false).ok().unwrap();
    assert_eq!(apply_command(&mut es, &cmd), Err(TaskError::EntryNotFound));
    assert_eq!(store_text(&es), FILE);
}

#[test]
fn reindex_and_list_commands() {
    let mut es = load_entries(FILE, &Config::default()).ok().unwrap();
    let list = parse_command(&words(&["ls"]), true).ok().unwrap();
    assert!(matches!(list, Command::List(true)));
    assert_eq!(apply_command(&mut es, &list), Ok(false));
    let re = parse_command(&words(&["reindex"]), false).ok().unwrap();
    assert_eq!(apply_command(&mut es, &re), Ok(true));
    assert_eq!(
        store_text(&es),
        "0,work,1700000000,finish report\n1,home,1700500000,buy milk"
    );
}

#[test]
fn command_words_and_their_errors() {
    assert!(matches!(parse_command(&words(&[]), false), Ok(Command::Unknown)));
    assert!(matches!(parse_command(&words(&["frobnicate"]), false), Ok(Command::Unknown)));
    assert!(matches!(parse_command(&words(&["lis"]), false), Ok(Command::List(false))));
    assert!(matches!(parse_command(&words(&["d", "4"]), false), Ok(Command::Del(4))));
    assert!(matches!(parse_command(&words(&["del"]), false), Err(TaskError::InvalidArgument)));
    assert!(matches!(parse_command(&words(&["del", "x"]), false), Err(TaskError::InvalidArgument)));
    assert!(matches!(parse_command(&words(&["add", "g", "d"]), false), Err(TaskError::InvalidArgument)));
    assert!(matches!(parse_command(&words(&["mod", "2"]), false), Err(TaskError::InvalidArgument)));
}

#[test]
fn mod_args_last_write_wins() {
    let u = parse_mod_args(&words(&["mod", "2", "group=a", "desc=x=", "group=b"]));
    assert!(matches!(u, Err(TaskError::InvalidArgument)));
    let u = parse_mod_args(&words(&["mod", "2", "group=a", "date=9/21/2021 11:59 pm", "group=b"])).ok().unwrap();
    assert_eq!(u.group, Some("b".to_string()));
    assert_eq!(u.date, Some("9/21/2021 11:59 pm".to_string()));
    assert_eq!(u.desc, None);
}

#[test]
fn mod_args_refuse_bad_words() {
    for w in ["=x", "desc=", "desc", "a=b=c", "id=3", "Desc=x"] {
        let r = parse_mod_args(&words(&["mod", "2", w]));
        assert!(matches!(r, Err(TaskError::InvalidArgument)), "{}", w);
    }
}

#[test]
fn urgency_an_hour_ahead_is_less_than_a_day() {
    assert_eq!(classify(1000 + 3600, 1000), Urgency::LessThanDay);
}

#[test]
fn urgency_an_hour_overdue_is_still_less_than_a_day() {
    assert_eq!(classify(1000 - 3600, 1000), Urgency::LessThanDay);
    assert_eq!(classify(1000 - 10 * 86_400, 1000), Urgency::LessThanDay);
}

#[test]
fn urgency_buckets_by_distance() {
    assert_eq!(classify(86_400, 0), Urgency::LessThanWeek);
    assert_eq!(classify(604_799, 0), Urgency::LessThanWeek);
    assert_eq!(classify(604_800, 0), Urgency::MoreThanWeek);
    assert_eq!(classify(i64::MAX, i64::MIN), Urgency::MoreThanWeek);
    assert_eq!(classify(i64::MIN, i64::MAX), Urgency::LessThanDay);
}

#[test]
fn default_config_colors() {
    let cfg = Config::default();
    assert_eq!(cfg.less_than_day_color, "\x1b[38;5;1m");
    assert_eq!(cfg.less_than_week_color, "\x1b[38;5;3m");
    assert_eq!(cfg.greater_than_week_color, "\x1b[38;5;15m");
    assert_eq!(cfg.group_color, "\x1b[38;5;2m");
    assert_eq!(cfg.today_color, "\x1b[38;5;4m");
    assert_eq!(urgency_color(&cfg, Urgency::PastDue), "\x1b[38;5;1m");
    assert_eq!(cfg.print_fmt, "[%n] Due: %t, %s");
    assert!(!cfg.ignore_group_case);
}

#[test]
fn format_entry_fills_the_template() {
    let cfg = Config::default();
    let e = Entry::from_elements(7, "g".to_string(), 10_000_000, "write tests".to_string());
    let s = format_entry(&e, &cfg, "Sun Sep 12 12:30 PM", 0).ok().unwrap();
    assert_eq!(s, "[7] Due: \x1b[38;5;15mSun Sep 12 12:30 PM\x1b[38;5;15m, write tests\n");
}

#[test]
fn format_entry_refuses_unknown_directive() {
    let mut cfg = Config::default();
    cfg.print_fmt = "%n %q".to_string();
    let e = Entry::from_elements(7, "g".to_string(), 0, "d".to_string());
    assert_eq!(format_entry(&e, &cfg, "date", 0), Err(TaskError::BadTemplate));
    cfg.print_fmt = "100%".to_string();
    assert_eq!(format_entry(&e, &cfg, "date", 0).ok().unwrap(), "100\n");
}
