use snapshot_engine::index::parse_index;
use snapshot_engine::index::snapshot_name;
use snapshot_engine::index::u64_to_string;
use snapshot_engine::note::trim;
use snapshot_engine::store::list;
use snapshot_engine::store::Entry;
use snapshot_engine::store::Store;
use snapshot_engine::tracked_file;
use snapshot_engine::SnapError;

fn store_of(names: &[&str]) -> Store {
    let mut entries = Vec::new();
    for (i, n) in names.iter().enumerate() {
        entries.push(Entry { name: n.to_string(), content: vec![i as u8] });
    }
    Store { entries }
}

#[test]
fn parse_index_reads_the_prefix() {
    assert_eq!(parse_index("3"), Some(3));
    assert_eq!(parse_index("7_foo"), Some(7));
    assert_eq!(parse_index("2_bar"), Some(2));
    assert_eq!(parse_index("abc"), None);
    assert_eq!(parse_index(""), None);
    assert_eq!(parse_index("_note"), None);
    assert_eq!(parse_index("0"), None);
    assert_eq!(parse_index("007"), Some(7));
    assert_eq!(parse_index("10_8"), Some(10));
    assert_eq!(parse_index("12x"), None);
}

#[test]
fn parse_index_rejects_overflow() {
    assert_eq!(parse_index("18446744073709551615"), Some(u64::MAX));
    assert_eq!(parse_index("18446744073709551616"), None);
    assert_eq!(parse_index("99999999999999999999999999"), None);
}

#[test]
fn next_index_is_max_parseable_plus_one() {
    let store = store_of(&["3", "7_foo", "abc", "2_bar"]);
    assert_eq!(store.next_index(), 8);
}

#[test]
fn largest_index_ignores_malformed_names() {
    let store = store_of(&["3", "7_foo", "abc", "2_bar"]);
    assert_eq!(store.largest_index(), 7);
    assert_eq!(Store::new().largest_index(), 0);
}

#[test]
fn next_index_on_empty_directory_is_one() {
    let store = Store::new();
    assert_eq!(store.next_index(), 1);
}

#[test]
fn next_index_ignores_unparseable_names() {
    let store = store_of(&["abc", "_x", "zzz"]);
    assert_eq!(store.next_index(), 1);
}

#[test]
fn list_orders_by_index_and_drops_malformed() {
    let store = store_of(&["3", "7_foo", "abc", "2_bar"]);
    let names = store.list();
    assert_eq!(names, vec!["2_bar".to_string(), "3".to_string(), "7_foo".to_string()]);
}

#[test]
fn list_of_names_alone_orders_too() {
    let sorted = list(vec![
        "10_late".to_string(),
        "junk".to_string(),
        "2".to_string(),
        "1_first".to_string(),
    ]);
    assert_eq!(
        sorted,
        vec!["1_first".to_string(), "2".to_string(), "10_late".to_string()]
    );
}

#[test]
fn list_keeps_both_entries_with_equal_indices() {
    let sorted = list(vec!["3_b".to_string(), "1".to_string(), "3_a".to_string()]);
    assert_eq!(sorted.len(), 3);
    assert_eq!(sorted[0], "1");
    let mut tail = vec![sorted[1].clone(), sorted[2].clone()];
    tail.sort();
    assert_eq!(tail, vec!["3_a".to_string(), "3_b".to_string()]);
}

#[test]
fn creates_number_snapshots_consecutively() {
    let mut store = Store::new();
    let notes = ["", "foo", "   ", "bar_baz", ""];
    for (i, note) in notes.iter().enumerate() {
        let content = vec![i as u8; 3];
        let got = store.create(Some(&content), note);
        assert_eq!(got, Ok(i as u64 + 1));
    }
    let mut seen: Vec<u64> = store
        .entries
        .iter()
        .map(|e| parse_index(&e.name).expect("created names parse"))
        .collect();
    seen.sort_unstable();
    assert_eq!(seen, vec![1, 2, 3, 4, 5]);
    assert_eq!(store.entries[0].name, "1");
    assert_eq!(store.entries[1].name, "2_foo");
    assert_eq!(store.entries[2].name, "3_");
    assert_eq!(store.entries[3].name, "4_bar_baz");
    assert_eq!(store.entries[4].name, "5");
}

#[test]
fn restore_reproduces_the_captured_bytes() {
    let mut store = store_of(&["1", "2", "3", "4"]);
    let captured = vec![0xCA, 0xFE, 0x00, 0x42];
    assert_eq!(store.create(Some(&captured), "checkpoint"), Ok(5));
    assert_eq!(store.entries[4].name, "5_checkpoint");
    // Snapshots created afterward do not disturb it.
    assert_eq!(store.create(Some(&vec![9, 9]), ""), Ok(6));
    assert_eq!(store.create(Some(&vec![7]), "more"), Ok(7));
    let name = "5_checkpoint".to_string();
    assert_eq!(store.restore(&name), Some(&captured));
}

#[test]
fn restore_of_an_unknown_name_is_none() {
    let store = store_of(&["1", "2_x"]);
    let name = "3".to_string();
    assert_eq!(store.restore(&name), None);
}

#[test]
fn create_without_source_fails_and_changes_nothing() {
    let mut store = store_of(&["3", "abc", "2_bar"]);
    let before: Vec<String> = store.entries.iter().map(|e| e.name.clone()).collect();
    assert_eq!(store.create(None, "note"), Err(SnapError::SourceMissing));
    let after: Vec<String> = store.entries.iter().map(|e| e.name.clone()).collect();
    assert_eq!(before, after);
    assert_eq!(store.next_index(), 4);
}

#[test]
fn snapshot_names_carry_index_and_trimmed_note() {
    assert_eq!(snapshot_name(12, ""), "12");
    assert_eq!(snapshot_name(3, "  note  "), "3_note");
    assert_eq!(snapshot_name(1, "a_b"), "1_a_b");
    assert_eq!(snapshot_name(7, "\t spaced out \n"), "7_spaced out");
}

#[test]
fn trim_strips_surrounding_whitespace_only() {
    assert_eq!(trim("  a b  "), "a b");
    assert_eq!(trim("x"), "x");
    assert_eq!(trim("   "), "");
    assert_eq!(trim(""), "");
}

#[test]
fn u64_to_string_renders_decimal() {
    assert_eq!(u64_to_string(0), "0");
    assert_eq!(u64_to_string(10), "10");
    assert_eq!(u64_to_string(90210), "90210");
    assert_eq!(u64_to_string(u64::MAX), "18446744073709551615");
}

#[test]
fn tracked_file_requires_configuration() {
    assert_eq!(tracked_file(None), Err(SnapError::NotConfigured));
    assert_eq!(tracked_file(Some("autosave".to_string())), Ok("autosave".to_string()));
}

#[test]
fn errors_have_readable_messages() {
    assert_eq!(SnapError::NotConfigured.message(), "no file has been set to back up");
    assert_eq!(SnapError::SourceMissing.message(), "save file not found");
    assert!(!SnapError::DirectoryUnreadable.message().is_empty());
    assert!(!SnapError::IoFailure.message().is_empty());
    assert!(!SnapError::WatchInitError.message().is_empty());
    assert!(!SnapError::WatchChannelError.message().is_empty());
}
