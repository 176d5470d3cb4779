use github_contributions::aggregate::{aggregate, is_own};
use github_contributions::model::RepoInfo;

fn record(name: &str, stars: u32, year: u16) -> RepoInfo {
    RepoInfo { name: String::from(name), stars, year, count: 1 }
}

fn entry(name: &str, stars: u32, year: u16, count: u64) -> RepoInfo {
    RepoInfo { name: String::from(name), stars, year, count }
}

fn sorted_by_name(mut entries: Vec<RepoInfo>) -> Vec<RepoInfo> {
    entries.sort_by(|a, b| a.name.cmp(&b.name));
    entries
}

#[test]
fn own_namespace_is_the_login_and_a_slash() {
    assert!(is_own("me/side-project", "me"));
    assert!(is_own("me/", "me"));
    assert!(!is_own("me", "me"));
    assert!(!is_own("mean/thing", "me"));
    assert!(!is_own("other/me/thing", "me"));
    assert!(!is_own("Me/thing", "me"));
    assert!(!is_own("", "me"));
    assert!(is_own("/x", ""));
    assert!(!is_own("x/y", ""));
    assert!(is_own("é/x", "é"));
    assert!(!is_own("e/x", "é"));
}

#[test]
fn records_of_one_repository_are_merged() {
    let records = vec![
        record("foo/bar", 50, 2022),
        record("foo/bar", 50, 2024),
        record("foo/bar", 50, 2023),
    ];
    assert_eq!(aggregate(&records, "me"), vec![entry("foo/bar", 50, 2024, 3)]);
}

#[test]
fn entries_stand_in_order_of_first_sighting() {
    let records = vec![
        record("b/b", 2, 2020),
        record("a/a", 1, 2021),
        record("b/b", 2, 2019),
        record("c/c", 3, 0),
        record("a/a", 1, 2024),
    ];
    assert_eq!(
        aggregate(&records, "me"),
        vec![entry("b/b", 2, 2020, 2), entry("a/a", 1, 2024, 2), entry("c/c", 3, 0, 1)]
    );
}

#[test]
fn stars_come_from_the_first_sighting() {
    let records = vec![record("foo/bar", 50, 2022), record("foo/bar", 70, 2023)];
    assert_eq!(aggregate(&records, "me"), vec![entry("foo/bar", 50, 2023, 2)]);
}

#[test]
fn new_entry_counts_one_whatever_the_record_says() {
    let records = vec![entry("foo/bar", 50, 2022, 7)];
    assert_eq!(aggregate(&records, "me"), vec![entry("foo/bar", 50, 2022, 1)]);
}

#[test]
fn own_namespace_never_appears() {
    let records = vec![
        record("me/side-project", 1000, 2024),
        record("foo/bar", 50, 2022),
        record("me/other", 0, 0),
        record("me/side-project", 1000, 2024),
    ];
    let entries = aggregate(&records, "me");
    assert_eq!(entries, vec![entry("foo/bar", 50, 2022, 1)]);
    assert!(entries.iter().all(|e| !e.name.starts_with("me/")));
}

#[test]
fn only_own_records_give_no_entry() {
    assert!(aggregate(&vec![record("me/a", 1, 2024), record("me/b", 1, 2024)], "me").is_empty());
    assert!(aggregate(&Vec::new(), "me").is_empty());
}

#[test]
fn aggregation_is_the_same_set_in_any_order() {
    let records = vec![
        record("a/a", 1, 2021),
        record("b/b", 2, 2020),
        record("a/a", 1, 2024),
        record("me/mine", 9, 2024),
        record("c/c", 3, 2022),
        record("b/b", 2, 2023),
        record("a/a", 1, 2019),
    ];
    let expected = sorted_by_name(aggregate(&records, "me"));
    assert_eq!(
        expected,
        vec![entry("a/a", 1, 2024, 3), entry("b/b", 2, 2023, 2), entry("c/c", 3, 2022, 1)]
    );
    let mut order: Vec<usize> = (0..records.len()).collect();
    let mut seen = 0u32;
    loop {
        let shuffled: Vec<RepoInfo> = order.iter().map(|&i| records[i].clone()).collect();
        assert_eq!(sorted_by_name(aggregate(&shuffled, "me")), expected);
        seen += 1;
        let mut i = order.len() - 1;
        while i > 0 && order[i - 1] >= order[i] {
            i -= 1;
        }
        if i == 0 {
            break;
        }
        let mut j = order.len() - 1;
        while order[j] <= order[i - 1] {
            j -= 1;
        }
        order.swap(i - 1, j);
        order[i..].reverse();
    }
    assert_eq!(seen, 5040);
}

#[test]
fn names_that_only_start_with_the_login_are_kept() {
    let records = vec![record("meow/x", 3, 2024), record("me/x", 3, 2024), record("me-too/y", 1, 2023)];
    assert_eq!(
        aggregate(&records, "me"),
        vec![entry("meow/x", 3, 2024, 1), entry("me-too/y", 1, 2023, 1)]
    );
}

#[test]
fn own_records_change_no_other_entry() {
    let without = vec![record("a/a", 1, 2021), record("b/b", 2, 2020), record("a/a", 1, 2023)];
    let mut with = without.clone();
    with.insert(1, record("me/mine", 9, 2030));
    with.push(record("me/a", 1, 2031));
    assert_eq!(aggregate(&with, "me"), aggregate(&without, "me"));
}

#[test]
fn entries_only_grow_as_records_come() {
    let records = vec![
        record("a/a", 1, 2021),
        record("b/b", 2, 2024),
        record("me/mine", 9, 2024),
        record("a/a", 1, 2019),
        record("b/b", 2, 2025),
        record("a/a", 1, 2022),
    ];
    let mut before: Vec<RepoInfo> = Vec::new();
    for n in 0..=records.len() {
        let after = aggregate(&records[..n].to_vec(), "me");
        assert!(after.len() >= before.len());
        for (i, old) in before.iter().enumerate() {
            assert_eq!(after[i].name, old.name);
            assert_eq!(after[i].stars, old.stars);
            assert!(after[i].count >= old.count);
            assert!(after[i].year >= old.year);
        }
        before = after;
    }
    assert_eq!(before, vec![entry("a/a", 1, 2022, 3), entry("b/b", 2, 2025, 2)]);
}
