use taskstore::config::Config;
use taskstore::dates::parse_due;
use taskstore::entry::Entry;
use taskstore::error::TaskError;
use taskstore::text::{parse_i64, parse_usize, push_int, push_nat};

fn entry(id: usize, group: &str, date: i64, desc: &str) -> Entry {
    Entry::from_elements(id, group.to_string(), date, desc.to_string())
}

#[test]
fn file_line_layout() {
    let e = entry(1, "cs288", 1631684966, "this is the 1 desc");
    assert_eq!(e.as_file_line(), "1,cs288,1631684966,this is the 1 desc");
}

#[test]
fn file_line_negative_date() {
    let e = entry(0, "g", -42, "");
    assert_eq!(e.as_file_line(), "0,g,-42,");
}

#[test]
fn round_trip_keeps_every_field() {
    let cfg = Config::default();
    let samples = vec![
        entry(1, "work", 1700000000, "finish report"),
        entry(0, "", 0, ""),
        entry(usize::MAX, "Home", i64::MIN, "x"),
        entry(42, "a b", i64::MAX, "buy oat milk"),
    ];
    for e in samples {
        let back = Entry::from_entry_line(&e.as_file_line(), &cfg).ok().unwrap();
        assert_eq!(back.id, e.id);
        assert_eq!(back.group, e.group);
        assert_eq!(back.date, e.date);
        assert_eq!(back.desc, e.desc);
    }
}

#[test]
fn decode_reads_four_fields() {
    let cfg = Config::default();
    let e = Entry::from_entry_line("2,home,1700500000,buy milk", &cfg).ok().unwrap();
    assert_eq!(e.id, 2);
    assert_eq!(e.group, "home");
    assert_eq!(e.date, 1700500000);
    assert_eq!(e.desc, "buy milk");
}

#[test]
fn decode_folds_group_case_when_configured() {
    let mut cfg = Config::default();
    cfg.ignore_group_case = true;
    let e = Entry::from_entry_line("3,WoRk-Ä,10,Desc Kept", &cfg).ok().unwrap();
    assert_eq!(e.group, "work-Ä");
    assert_eq!(e.desc, "Desc Kept");
}

#[test]
fn decode_keeps_group_case_by_default() {
    let cfg = Config::default();
    let e = Entry::from_entry_line("3,WoRk,10,d", &cfg).ok().unwrap();
    assert_eq!(e.group, "WoRk");
}

#[test]
fn decode_drops_text_after_a_fourth_delimiter() {
    let cfg = Config::default();
    let e = Entry::from_entry_line("3,g,10,first,second", &cfg).ok().unwrap();
    assert_eq!(e.desc, "first");
}

#[test]
fn decode_rejects_malformed_lines() {
    let cfg = Config::default();
    for line in ["", "1,g,10", "x,g,10,d", "1,g,ten,d", "-1,g,10,d", "1,g,,d", "18446744073709551616,g,1,d"] {
        assert!(matches!(Entry::from_entry_line(line, &cfg), Err(TaskError::MalformedRecord)), "{}", line);
    }
}

#[test]
fn numerals_parse_like_std() {
    assert_eq!(parse_usize("+17"), Some(17));
    assert_eq!(parse_usize("007"), Some(7));
    assert_eq!(parse_usize("18446744073709551615"), Some(usize::MAX));
    assert_eq!(parse_usize("+"), None);
    assert_eq!(parse_usize(""), None);
    assert_eq!(parse_usize("1 "), None);
    assert_eq!(parse_i64("-9223372036854775808"), Some(i64::MIN));
    assert_eq!(parse_i64("-9223372036854775809"), None);
    assert_eq!(parse_i64("9223372036854775807"), Some(i64::MAX));
    assert_eq!(parse_i64("-"), None);
    assert_eq!(parse_i64("+5"), Some(5));
}

#[test]
fn numerals_print_like_std() {
    let mut s = String::new();
    push_nat(&mut s, 0);
    s.push(' ');
    push_nat(&mut s, 1234567890);
    s.push(' ');
    push_int(&mut s, -305);
    s.push(' ');
    push_int(&mut s, i64::MIN);
    assert_eq!(s, format!("0 1234567890 -305 {}", i64::MIN));
}

#[test]
fn due_dates_read_in_fixed_offset() {
    assert_eq!(parse_due("9/21/2021 11:59 pm"), Some(1632283140));
    assert_eq!(parse_due("11/14/2023 12:00 pm"), Some(1699977600));
}

#[test]
fn bad_due_dates_are_refused() {
    assert_eq!(parse_due("2021-09-21"), None);
    assert_eq!(parse_due("13/40/2021 11:59 pm"), None);
    assert_eq!(parse_due(""), None);
}

#[test]
fn update_values_changes_given_fields() {
    let mut e = entry(2, "home", 1700500000, "buy milk");
    let u = taskstore::entry::FieldUpdates {
        group: Some("errands".to_string()),
        date: Some("9/21/2021 11:59 pm".to_string()),
        desc: None,
    };
    assert!(e.update_values(&u).is_ok());
    assert_eq!(e.id, 2);
    assert_eq!(e.group, "errands");
    assert_eq!(e.date, 1632283140);
    assert_eq!(e.desc, "buy milk");
}

#[test]
fn update_values_with_bad_date_changes_nothing() {
    let mut e = entry(2, "home", 1700500000, "buy milk");
    let u = taskstore::entry::FieldUpdates {
        group: Some("errands".to_string()),
        date: Some("tomorrow".to_string()),
        desc: Some("x".to_string()),
    };
    assert!(matches!(e.update_values(&u), Err(TaskError::InvalidDateFormat)));
    assert_eq!(e.group, "home");
    assert_eq!(e.date, 1700500000);
    assert_eq!(e.desc, "buy milk");
}
