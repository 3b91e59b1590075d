use ftl_saves::slots::age_in_seconds;
use ftl_saves::slots::identifier_le;
use ftl_saves::slots::is_identifier;
use ftl_saves::slots::list;
use ftl_saves::slots::slot_file_name;
use ftl_saves::slots::slot_identifier;
use ftl_saves::slots::DirEntry;
use ftl_saves::slots::SaveSlot;
use ftl_saves::slots::MAX_AGE_SECONDS;
use ftl_saves::update::update;
use ftl_saves::update::UpdateStatus;

fn entry(file_name: &str, modified: u64) -> DirEntry {
    DirEntry { file_name: String::from(file_name), modified: Some(modified) }
}

fn identifiers(slots: &[SaveSlot]) -> Vec<String> {
    slots.iter().map(|slot| slot.identifier.clone()).collect()
}

#[test]
fn slot_files_end_in_the_reserved_extension() {
    assert_eq!(slot_identifier("alpha.msav"), Some(String::from("alpha")));
    assert_eq!(slot_identifier("a.msav"), Some(String::from("a")));
    assert_eq!(slot_identifier("two.parts.msav"), Some(String::from("two.parts")));
    assert_eq!(slot_identifier("\u{e9}t\u{e9} \u{1F680}.msav"), Some(String::from("\u{e9}t\u{e9} \u{1F680}")));
}

#[test]
fn other_files_are_no_slots() {
    assert_eq!(slot_identifier(".msav"), None);
    assert_eq!(slot_identifier("msav"), None);
    assert_eq!(slot_identifier(""), None);
    assert_eq!(slot_identifier("continue.sav"), None);
    assert_eq!(slot_identifier("backup.sav"), None);
    assert_eq!(slot_identifier("alpha.msav.bak"), None);
    assert_eq!(slot_identifier("alpha.MSAV"), None);
    assert_eq!(slot_identifier("alphamsav"), None);
    assert_eq!(slot_identifier("alpha.msa"), None);
}

#[test]
fn file_name_appends_the_extension() {
    assert_eq!(slot_file_name("alpha"), "alpha.msav");
    assert_eq!(slot_file_name("two.parts"), "two.parts.msav");
    assert_eq!(slot_file_name(""), ".msav");
}

#[test]
fn file_name_and_identifier_undo_each_other() {
    for name in ["alpha", "x", "before sector 8", "a.b", "\u{fc}ber"] {
        assert_eq!(slot_identifier(&slot_file_name(name)), Some(String::from(name)));
    }
    assert_eq!(slot_file_name(&slot_identifier("run 3.msav").unwrap()), "run 3.msav");
}

#[test]
fn listing_is_newest_first() {
    let entries = vec![
        entry("old.msav", 100),
        entry("new.msav", 300),
        entry("mid.msav", 200),
        entry("oldest.msav", 1),
    ];
    let slots = list(&entries);
    assert_eq!(identifiers(&slots), vec!["new", "mid", "old", "oldest"]);
    assert_eq!(slots[0].last_modified, 300);
    assert_eq!(slots[0].storage_path, "new.msav");
    assert_eq!(slots[3].last_modified, 1);
}

#[test]
fn listing_leaves_out_other_files() {
    let entries = vec![
        entry("continue.sav", 900),
        entry("alpha.msav", 10),
        entry("backup.sav", 800),
        entry(".msav", 700),
        entry("notes.txt", 600),
        entry("beta.msav", 20),
    ];
    let slots = list(&entries);
    assert_eq!(identifiers(&slots), vec!["beta", "alpha"]);
}

#[test]
fn listing_orders_equal_times_by_identifier() {
    let entries = vec![
        entry("c.msav", 5),
        entry("a.msav", 5),
        entry("z.msav", 9),
        entry("b.msav", 5),
        entry("y.msav", 1),
    ];
    let slots = list(&entries);
    assert_eq!(identifiers(&slots), vec!["z", "a", "b", "c", "y"]);
    let mut turned = entries.clone();
    turned.reverse();
    assert_eq!(identifiers(&list(&turned)), identifiers(&slots));
}

#[test]
fn slot_without_a_time_is_left_out() {
    let entries = vec![
        entry("old.msav", 100),
        DirEntry { file_name: String::from("unknown.msav"), modified: None },
        entry("new.msav", 300),
    ];
    let slots = list(&entries);
    assert_eq!(identifiers(&slots), vec!["new", "old"]);
    let only = vec![DirEntry { file_name: String::from("unknown.msav"), modified: None }];
    assert!(list(&only).is_empty());
}

#[test]
fn listing_of_an_empty_directory() {
    assert!(list(&Vec::new()).is_empty());
    assert!(list(&vec![entry("continue.sav", 1)]).is_empty());
}

#[test]
fn age_in_seconds_is_signed_and_whole() {
    let second: u64 = 1_000_000_000;
    assert_eq!(age_in_seconds(100 * second, 160 * second), -60);
    assert_eq!(age_in_seconds(160 * second, 100 * second), 60);
    assert_eq!(age_in_seconds(7, 7), 0);
    assert_eq!(age_in_seconds(0, 999_999_999), 0);
    assert_eq!(age_in_seconds(0, 1_999_999_999), -1);
    assert_eq!(age_in_seconds(2_000_000_000, 0), 2);
    assert_eq!(age_in_seconds(0, u64::MAX), -18_446_744_073);
    assert_eq!(age_in_seconds(u64::MAX, 0), 18_446_744_073);
    assert!(18_446_744_073 <= MAX_AGE_SECONDS);
}

#[test]
fn age_is_put_in_words() {
    let second: u64 = 1_000_000_000;
    let now: u64 = 1_700_000_000 * second;
    let slot = |modified: u64| SaveSlot {
        identifier: String::from("alpha"),
        storage_path: String::from("alpha.msav"),
        last_modified: modified,
    };
    assert_eq!(slot(now).age(now), "now");
    assert_eq!(slot(now - 30 * second).age(now), "30 seconds ago");
    assert_eq!(slot(now - 30 * second - 999_999_999).age(now), "30 seconds ago");
    assert_eq!(slot(now - 60 * second).age(now), "a minute ago");
    assert_eq!(slot(now - 3 * 3600 * second).age(now), "3 hours ago");
    assert_eq!(slot(now - 4 * 86400 * second).age(now), "4 days ago");
    assert_eq!(slot(now + 2 * 3600 * second).age(now), "in 2 hours");
}

#[test]
fn age_of_the_furthest_moment_is_still_put_in_words() {
    let slot = |modified: u64| SaveSlot {
        identifier: String::from("alpha"),
        storage_path: String::from("alpha.msav"),
        last_modified: modified,
    };
    assert_eq!(slot(0).age(u64::MAX), "584 years ago");
    assert_eq!(slot(u64::MAX).age(0), "in 584 years");
}

#[test]
fn listing_tells_saves_within_one_second_apart() {
    let entries = vec![
        entry("a.msav", 5_000_000_001),
        entry("b.msav", 5_000_000_002),
        entry("c.msav", 5_000_000_000),
    ];
    assert_eq!(identifiers(&list(&entries)), vec!["b", "a", "c"]);
}

#[test]
fn only_a_name_that_is_not_empty_can_be_an_identifier() {
    assert!(is_identifier("alpha"));
    assert!(is_identifier(" "));
    assert!(is_identifier("\u{1F680}"));
    assert!(!is_identifier(""));
    assert_eq!(slot_identifier(&slot_file_name("")), None);
}

#[test]
fn update_lines() {
    assert_eq!(
        update(&UpdateStatus::UpToDate(String::from("0.3.1"))),
        "Welcome! You are running the latest version: 0.3.1"
    );
    assert_eq!(
        update(&UpdateStatus::Updated(String::from("0.4.0"))),
        "Welcome! You have been updated to: 0.4.0, please restart!"
    );
    assert_eq!(update(&UpdateStatus::Failed), "Can't check for a new version.");
}

#[test]
fn identifiers_are_ordered_as_in_a_dictionary() {
    assert!(identifier_le("", ""));
    assert!(identifier_le("", "a"));
    assert!(!identifier_le("a", ""));
    assert!(identifier_le("alpha", "alpha"));
    assert!(identifier_le("alpha", "alphabet"));
    assert!(!identifier_le("alphabet", "alpha"));
    assert!(identifier_le("alpha", "beta"));
    assert!(!identifier_le("beta", "alpha"));
    assert!(identifier_le("Zulu", "alpha"));
    assert!(identifier_le("run 10", "run 9"));
    assert!(identifier_le("z", "\u{e9}"));
    assert!(!identifier_le("\u{1F680}", "\u{e9}"));
}

#[test]
fn listing_orders_by_time_before_identifier() {
    let entries = vec![
        entry("a.msav", 1),
        entry("b.msav", 2),
        entry("aa.msav", 2),
        entry("c.msav", 3),
    ];
    assert_eq!(identifiers(&list(&entries)), vec!["c", "aa", "b", "a"]);
}
