use taskstore::config::Config;
use taskstore::entry::{Entry, FieldUpdates};
use taskstore::error::TaskError;
use taskstore::persist::{load_entries, store_text};
use taskstore::store::{
    add_entry, delete_entry, distinct_groups, find_by_id, highest_entry_id, reindex,
    sorted_by_due, update_entry,
};

fn entry(id: usize, group: &str, date: i64, desc: &str) -> Entry {
    Entry::from_elements(id, group.to_string(), date, desc.to_string())
}

fn ids(es: &Vec<Entry>) -> Vec<usize> {
    es.iter().map(|e| e.id).collect()
}

#[test]
fn highest_id_of_empty_store_is_zero() {
    assert_eq!(highest_entry_id(&Vec::new()), 0);
}

#[test]
fn highest_id_is_the_maximum() {
    let es = vec![entry(3, "a", 0, ""), entry(7, "b", 0, ""), entry(2, "c", 0, "")];
    assert_eq!(highest_entry_id(&es), 7);
}

#[test]
fn add_takes_next_id_and_appends() {
    let mut es = vec![entry(3, "a", 0, "x"), entry(7, "b", 0, "y"), entry(2, "c", 0, "z")];
    let id = add_entry(&mut es, "work".to_string(), 99, "new".to_string());
    assert_eq!(id, 8);
    assert_eq!(ids(&es), vec![3, 7, 2, 8]);
    assert_eq!(es[3].group, "work");
    assert_eq!(es[3].date, 99);
    assert_eq!(es[3].desc, "new");
}

#[test]
fn add_to_empty_store_takes_id_one() {
    let mut es = Vec::new();
    assert_eq!(add_entry(&mut es, "g".to_string(), 1, "d".to_string()), 1);
}

#[test]
fn delete_removes_one_and_keeps_ids() {
    let mut es = vec![entry(3, "a", 0, ""), entry(7, "b", 0, ""), entry(2, "c", 0, "")];
    let gone = delete_entry(&mut es, 7).ok().unwrap();
    assert_eq!(gone.group, "b");
    assert_eq!(ids(&es), vec![3, 2]);
}

#[test]
fn delete_removes_first_of_equal_ids() {
    let mut es = vec![entry(1, "a", 0, ""), entry(1, "b", 0, "")];
    delete_entry(&mut es, 1).ok().unwrap();
    assert_eq!(es.len(), 1);
    assert_eq!(es[0].group, "b");
}

#[test]
fn delete_absent_id_fails_and_keeps_store() {
    let mut es = vec![entry(3, "a", 0, ""), entry(7, "b", 0, "")];
    assert!(matches!(delete_entry(&mut es, 5), Err(TaskError::EntryNotFound)));
    assert_eq!(ids(&es), vec![3, 7]);
}

#[test]
fn find_by_id_gives_first_position() {
    let es = vec![entry(4, "a", 0, ""), entry(9, "b", 0, ""), entry(9, "c", 0, "")];
    assert_eq!(find_by_id(&es, 9), Some(1));
    assert_eq!(find_by_id(&es, 5), None);
}

#[test]
fn reindex_numbers_from_zero_in_order() {
    let mut es = vec![entry(5, "a", 0, ""), entry(1, "b", 0, ""), entry(9, "c", 0, "")];
    reindex(&mut es);
    assert_eq!(ids(&es), vec![0, 1, 2]);
    let groups: Vec<&str> = es.iter().map(|e| e.group.as_str()).collect();
    assert_eq!(groups, vec!["a", "b", "c"]);
}

#[test]
fn distinct_groups_in_first_seen_order() {
    let es = vec![entry(1, "work", 0, ""), entry(2, "home", 0, ""), entry(3, "work", 0, "")];
    assert_eq!(distinct_groups(&es), vec!["work".to_string(), "home".to_string()]);
    assert!(distinct_groups(&Vec::new()).is_empty());
}

#[test]
fn due_order_is_earliest_first_and_stable() {
    let es = vec![
        entry(1, "a", 300, ""),
        entry(2, "b", 100, ""),
        entry(3, "c", 300, ""),
        entry(4, "d", -5, ""),
    ];
    assert_eq!(sorted_by_due(&es), vec![3, 1, 0, 2]);
    assert!(sorted_by_due(&Vec::new()).is_empty());
}

#[test]
fn update_entry_changes_only_description() {
    let mut es = vec![entry(1, "work", 1700000000, "finish report"), entry(2, "home", 1700500000, "buy milk")];
    let u = FieldUpdates { group: None, date: None, desc: Some("buy oat milk".to_string()) };
    update_entry(&mut es, 2, &u).ok().unwrap();
    assert_eq!(es[1].id, 2);
    assert_eq!(es[1].group, "home");
    assert_eq!(es[1].date, 1700500000);
    assert_eq!(es[1].desc, "buy oat milk");
    assert_eq!(es[0].desc, "finish report");
}

#[test]
fn update_entry_absent_id_fails() {
    let mut es = vec![entry(1, "work", 1, "d")];
    let u = FieldUpdates { group: None, date: None, desc: Some("x".to_string()) };
    assert!(matches!(update_entry(&mut es, 2, &u), Err(TaskError::EntryNotFound)));
    assert_eq!(es[0].desc, "d");
}

#[test]
fn load_reads_every_line() {
    let cfg = Config::default();
    let es = load_entries("1,work,1700000000,finish report\n2,home,1700500000,buy milk", &cfg).ok().unwrap();
    assert_eq!(ids(&es), vec![1, 2]);
    assert_eq!(es[1].desc, "buy milk");
}

#[test]
fn load_skips_trailing_blank_lines_and_carriage_returns() {
    let cfg = Config::default();
    let es = load_entries("1,w,1,a\r\n2,h,2,b\n\n\r\n", &cfg).ok().unwrap();
    assert_eq!(ids(&es), vec![1, 2]);
    assert_eq!(es[0].desc, "a");
    assert!(load_entries("", &cfg).ok().unwrap().is_empty());
}

#[test]
fn load_fails_on_a_bad_line() {
    let cfg = Config::default();
    assert!(matches!(load_entries("1,w,1,a\n\n2,h,2,b", &cfg), Err(TaskError::MalformedRecord)));
    assert!(matches!(load_entries("1,w,1,a\nnonsense", &cfg), Err(TaskError::MalformedRecord)));
}

#[test]
fn store_text_joins_without_final_break() {
    let es = vec![entry(1, "work", 1700000000, "finish report"), entry(2, "home", 1700500000, "buy milk")];
    assert_eq!(store_text(&es), "1,work,1700000000,finish report\n2,home,1700500000,buy milk");
    assert_eq!(store_text(&Vec::new()), "");
}

#[test]
fn save_then_load_gives_entries_back() {
    let cfg = Config::default();
    let es = vec![
        entry(4, "work", -1, "a"),
        entry(0, "", 0, ""),
        entry(9, "x y", 1700500000, "ends with space "),
    ];
    let back = load_entries(&store_text(&es), &cfg).ok().unwrap();
    assert_eq!(back.len(), 3);
    for (a, b) in es.iter().zip(back.iter()) {
        assert_eq!(a.as_file_line(), b.as_file_line());
    }
}
