use shardfetch::archive::{sort_newest_first, sort_oldest_first, ArchiveEntry};

fn entry(name: &str, updated_at: u64) -> ArchiveEntry {
    ArchiveEntry { name: name.as_bytes().to_vec(), updated_at }
}

fn names(entries: &[ArchiveEntry]) -> Vec<String> {
    entries
        .iter()
        .map(|e| String::from_utf8(e.name.clone()).unwrap())
        .collect()
}

#[test]
fn newest_first_ordering() {
    let v = vec![entry("a", 10), entry("b", 30), entry("c", 20), entry("d", 0)];
    let sorted = sort_newest_first(v);
    assert_eq!(
        names(&sorted),
        vec!["b".to_string(), "c".to_string(), "a".to_string(), "d".to_string()]
    );
}

#[test]
fn oldest_first_ordering() {
    let v = vec![entry("a", 10), entry("b", 30), entry("c", 20)];
    let sorted = sort_oldest_first(v);
    assert_eq!(
        names(&sorted),
        vec!["a".to_string(), "c".to_string(), "b".to_string()]
    );
}

#[test]
fn sorting_keeps_every_entry() {
    let v = vec![entry("a", 5), entry("b", 5), entry("c", 5)];
    let sorted = sort_newest_first(v);
    assert_eq!(sorted.len(), 3);
}
