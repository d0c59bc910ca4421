use git_linear_branch::storage::{BranchInfo, JsonStorage, StorageError, Stored};

fn record(prefix: &str, name: &str, last_used: i64, title: &str) -> BranchInfo {
    BranchInfo {
        prefix: prefix.to_owned(),
        name: name.to_owned(),
        last_used,
        original_title: title.to_owned(),
    }
}

fn same(a: &BranchInfo, b: &BranchInfo) -> bool {
    a.prefix == b.prefix
        && a.name == b.name
        && a.last_used == b.last_used
        && a.original_title == b.original_title
}

fn prefixes(stored: &Stored) -> Vec<String> {
    stored.list_branch_info().into_iter().map(|b| b.prefix).collect()
}

#[test]
fn empty_store_lists_nothing() {
    let stored = Stored { branches: None };
    assert!(stored.list_branch_info().is_empty());
    assert!(stored.get_by_prefix("o/a-1").is_none());
    let stored = Stored { branches: Some(vec![]) };
    assert!(stored.list_branch_info().is_empty());
    assert!(stored.get_by_prefix("o/a-1").is_none());
}

#[test]
fn upsert_appends_a_new_prefix() {
    let mut stored = Stored { branches: None };
    stored.push_branch_info(&record("o/a-1", "o/a-1-x", 10, "A-1: x"));
    stored.push_branch_info(&record("o/b-2", "o/b-2-y", 20, "B-2: y"));
    stored.push_branch_info(&record("o/c-3", "o/c-3-z", 5, "C-3: z"));
    assert_eq!(prefixes(&stored), vec!["o/a-1", "o/b-2", "o/c-3"]);
}

#[test]
fn upsert_replaces_in_place() {
    let mut stored = Stored { branches: None };
    stored.push_branch_info(&record("o/a-1", "o/a-1-x", 10, "A-1: x"));
    stored.push_branch_info(&record("o/b-2", "o/b-2-y", 20, "B-2: y"));
    stored.push_branch_info(&record("o/c-3", "o/c-3-z", 5, "C-3: z"));
    let update = record("o/b-2", "o/b-2-again", 30, "B-2: other");
    stored.push_branch_info(&update);
    assert_eq!(prefixes(&stored), vec!["o/a-1", "o/b-2", "o/c-3"]);
    let listed = stored.list_branch_info();
    assert!(same(&listed[1], &update));
    assert!(same(&listed[0], &record("o/a-1", "o/a-1-x", 10, "A-1: x")));
    assert!(same(&listed[2], &record("o/c-3", "o/c-3-z", 5, "C-3: z")));
}

#[test]
fn after_upsert_one_record_has_the_prefix() {
    let mut stored = Stored { branches: None };
    for (i, prefix) in ["o/a-1", "o/b-2", "o/a-1", "o/c-3", "o/b-2", "o/a-1"].iter().enumerate() {
        let r = record(prefix, &format!("{}-n{}", prefix, i), i as i64, "t");
        stored.push_branch_info(&r);
        let count = stored.list_branch_info().iter().filter(|b| b.prefix == *prefix).count();
        assert_eq!(count, 1);
        assert!(same(&stored.get_by_prefix(prefix).unwrap(), &r));
    }
    assert_eq!(prefixes(&stored), vec!["o/a-1", "o/b-2", "o/c-3"]);
}

#[test]
fn get_compares_prefixes_exactly() {
    let mut stored = Stored { branches: None };
    stored.push_branch_info(&record("o/BAR-1", "o/BAR-1-x", 10, "BAR-1: x"));
    assert!(stored.get_by_prefix("o/bar-1").is_none());
    assert!(stored.get_by_prefix("o/BAR-1-x").is_none());
    assert!(stored.get_by_prefix("o/BAR-").is_none());
    assert!(stored.get_by_prefix("").is_none());
    assert_eq!(stored.get_by_prefix("o/BAR-1").unwrap().name, "o/BAR-1-x");
}

#[test]
fn get_finds_the_first_of_equal_prefixes() {
    let stored = Stored {
        branches: Some(vec![
            record("o/a-1", "first", 1, "t"),
            record("o/a-1", "second", 2, "t"),
        ]),
    };
    assert_eq!(stored.get_by_prefix("o/a-1").unwrap().name, "first");
}

#[test]
fn replace_puts_the_given_records() {
    let mut stored = Stored { branches: None };
    stored.push_branch_info(&record("o/a-1", "o/a-1-x", 10, "A-1: x"));
    stored.replace_branch_info(&vec![
        record("o/b-2", "o/b-2-y", 20, "B-2: y"),
        record("o/c-3", "o/c-3-z", 5, "C-3: z"),
    ]);
    assert_eq!(prefixes(&stored), vec!["o/b-2", "o/c-3"]);
    stored.replace_branch_info(&vec![]);
    assert!(stored.list_branch_info().is_empty());
    assert!(stored.branches.is_some());
}

#[test]
fn trim_keeps_the_latest() {
    let mut stored = Stored { branches: None };
    stored.push_branch_info(&record("o/a-1", "a", 30, "t"));
    stored.push_branch_info(&record("o/b-2", "b", 10, "t"));
    stored.push_branch_info(&record("o/c-3", "c", 50, "t"));
    stored.push_branch_info(&record("o/d-4", "d", 20, "t"));
    stored.push_branch_info(&record("o/e-5", "e", 40, "t"));
    assert!(stored.trim_to_latest(3));
    assert_eq!(prefixes(&stored), vec!["o/c-3", "o/e-5", "o/a-1"]);
    assert!(stored.trim_to_latest(3));
    assert_eq!(prefixes(&stored), vec!["o/c-3", "o/e-5", "o/a-1"]);
    assert!(stored.trim_to_latest(0));
    assert!(stored.list_branch_info().is_empty());
}

#[test]
fn trim_orders_a_store_that_fits() {
    let mut stored = Stored { branches: None };
    stored.push_branch_info(&record("o/a-1", "a", 1, "t"));
    stored.push_branch_info(&record("o/b-2", "b", 3, "t"));
    stored.push_branch_info(&record("o/c-3", "c", 2, "t"));
    assert!(stored.trim_to_latest(5));
    assert_eq!(prefixes(&stored), vec!["o/b-2", "o/c-3", "o/a-1"]);
}

#[test]
fn trim_keeps_the_order_of_equal_instants() {
    let mut stored = Stored { branches: None };
    stored.push_branch_info(&record("o/a-1", "a", 7, "t"));
    stored.push_branch_info(&record("o/b-2", "b", 9, "t"));
    stored.push_branch_info(&record("o/c-3", "c", 7, "t"));
    stored.push_branch_info(&record("o/d-4", "d", 9, "t"));
    stored.push_branch_info(&record("o/e-5", "e", 7, "t"));
    assert!(stored.trim_to_latest(4));
    assert_eq!(prefixes(&stored), vec!["o/b-2", "o/d-4", "o/a-1", "o/c-3"]);
}

#[test]
fn trim_takes_instants_before_the_epoch() {
    let mut stored = Stored { branches: None };
    stored.push_branch_info(&record("o/a-1", "a", i64::MIN, "t"));
    stored.push_branch_info(&record("o/b-2", "b", -1, "t"));
    stored.push_branch_info(&record("o/c-3", "c", i64::MAX, "t"));
    stored.push_branch_info(&record("o/d-4", "d", 0, "t"));
    assert!(stored.trim_to_latest(3));
    assert_eq!(prefixes(&stored), vec!["o/c-3", "o/d-4", "o/b-2"]);
}

#[test]
fn trim_leaves_a_document_without_records() {
    let mut stored = Stored { branches: None };
    assert!(!stored.trim_to_latest(5));
    assert!(stored.branches.is_none());
    let mut stored = Stored { branches: Some(vec![]) };
    assert!(stored.trim_to_latest(5));
    assert!(stored.list_branch_info().is_empty());
}

#[test]
fn six_upserts_leave_the_five_latest() {
    let mut stored = Stored { branches: None };
    for i in 1..=6 {
        let prefix = format!("o/t-{}", i);
        stored.push_branch_info(&record(&prefix, &format!("{}-x", prefix), 100 + i, "t"));
        stored.trim_to_latest(5);
    }
    assert_eq!(prefixes(&stored), vec!["o/t-6", "o/t-5", "o/t-4", "o/t-3", "o/t-2"]);
}

#[test]
fn storage_error_texts() {
    assert_eq!(String::from(StorageError::new("boom")), "boom");
    assert_eq!(String::from(StorageError::io("no such file")), "IO error: no such file");
    assert_eq!(
        String::from(StorageError::json("expected value at line 1 column 1")),
        "JSON error: expected value at line 1 column 1"
    );
    assert_eq!(String::from(StorageError::from("plain".to_owned())), "plain");
}

#[test]
fn json_storage_keeps_its_path() {
    let storage = JsonStorage::new("/repo/.git-linear-branch-meta.json");
    assert!(storage.is_ok());
    assert_eq!(storage.unwrap().filepath(), "/repo/.git-linear-branch-meta.json");
}

#[test]
fn storage_error_of_an_io_error() {
    let failure = std::io::Error::new(std::io::ErrorKind::Other, "disk full");
    assert_eq!(String::from(StorageError::from(failure)), "IO error: disk full");
}

#[test]
fn storage_error_of_a_json_error() {
    let failure = serde_json::from_str::<serde_json::Value>("{\"branches\": [").unwrap_err();
    assert_eq!(
        String::from(StorageError::from(failure)),
        "JSON error: EOF while parsing a list at line 1 column 14"
    );
}
