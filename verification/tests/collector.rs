use file_exchange::collector::{garbage_collect, judge, Entry, Verdict, RESERVED};

const HOUR: u128 = 3_600_000_000_000;

fn entry(name: &str, age: Option<u128>) -> Entry {
    Entry { name: name.as_bytes().to_vec(), age }
}

#[test]
fn entries_older_than_the_lifetime_are_removed() {
    assert_eq!(judge(&entry("ab12cd", Some(HOUR + 1)), HOUR), Verdict::Remove);
    assert_eq!(judge(&entry("ab12cd", Some(u128::MAX)), HOUR), Verdict::Remove);
}

#[test]
fn entries_not_older_than_the_lifetime_are_kept() {
    assert_eq!(judge(&entry("ab12cd", Some(HOUR)), HOUR), Verdict::Keep);
    assert_eq!(judge(&entry("ab12cd", Some(HOUR - 1)), HOUR), Verdict::Keep);
    assert_eq!(judge(&entry("ab12cd", Some(0)), 0), Verdict::Keep);
}

#[test]
fn reserved_entry_is_never_removed() {
    assert_eq!(RESERVED, "static");
    assert_eq!(judge(&entry("static", Some(u128::MAX)), HOUR), Verdict::Reserved);
    assert_eq!(judge(&entry("static", None), HOUR), Verdict::Reserved);
    assert_eq!(judge(&entry("Static", Some(HOUR + 1)), HOUR), Verdict::Remove);
    assert_eq!(judge(&entry("static2", Some(HOUR + 1)), HOUR), Verdict::Remove);
}

#[test]
fn entry_of_unknown_age_is_left_alone() {
    assert_eq!(judge(&entry("ab12cd", None), HOUR), Verdict::Unknown);
}

#[test]
fn sweep_removes_the_expired_and_keeps_the_rest() {
    let entries = vec![
        entry("aaaaaa", Some(HOUR * 2)),
        entry("bbbbbb", Some(HOUR / 2)),
        entry("static", Some(HOUR * 100)),
        entry("cccccc", None),
        entry("dddddd", Some(HOUR + 1)),
        entry("eeeeee", Some(HOUR)),
    ];
    assert_eq!(garbage_collect(&entries, HOUR), vec![0, 4]);
}

#[test]
fn sweep_of_nothing_removes_nothing() {
    assert_eq!(garbage_collect(&[], HOUR), Vec::<usize>::new());
    let young = vec![entry("aaaaaa", Some(1)), entry("bbbbbb", Some(2))];
    assert_eq!(garbage_collect(&young, HOUR), Vec::<usize>::new());
}
