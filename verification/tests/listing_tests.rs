use pier_core::listing::{key_le_exec, make_key, sort_order, text_le_chars};
use pier_core::search::{sort_entries, SearchCollector, SearchResult, MAX_SEARCH_DEPTH};
use pier_core::ssh::sftp::{list_dir, subsystem_name, RemoteDirEntry};

fn chars(s: &str) -> Vec<char> {
    s.chars().collect()
}

fn result(name: &str, is_dir: bool) -> SearchResult {
    SearchResult { path: format!("/root/{}", name), name: name.to_string(), is_dir, size: 7 }
}

#[test]
fn names_compare_like_strings() {
    let samples = ["", "a", "ab", "b", "B", "z", "é", "aé", "a\u{10000}"];
    for a in samples {
        for b in samples {
            assert_eq!(text_le_chars(&chars(a), &chars(b)), a <= b, "{:?} <= {:?}", a, b);
        }
    }
}

#[test]
fn directories_come_first() {
    let dir = (true, chars("z"));
    let file = (false, chars("a"));
    assert!(key_le_exec(&dir, &file));
    assert!(!key_le_exec(&file, &dir));
    assert!(key_le_exec(&file, &file));
}

#[test]
fn keys_are_in_lower_case() {
    assert_eq!(make_key(true, "ReadMe.MD"), (true, chars("readme.md")));
    assert_eq!(make_key(false, "ÄB"), (false, chars("äb")));
}

#[test]
fn order_is_stable() {
    let keys = vec![
        (false, chars("b")),
        (true, chars("y")),
        (false, chars("a")),
        (false, chars("b")),
        (true, chars("x")),
    ];
    assert_eq!(sort_order(&keys), vec![4, 1, 2, 0, 3]);
    assert_eq!(sort_order(&Vec::new()), Vec::<usize>::new());
}

#[test]
fn listing_is_sorted_without_regard_to_case() {
    let entries = vec![
        result("zeta.txt", false),
        result("Alpha", false),
        result("src", true),
        result("beta", false),
        result("Docs", true),
        result("alpha", false),
    ];
    let sorted = sort_entries(&entries);
    let names: Vec<&str> = sorted.iter().map(|e| e.name.as_str()).collect();
    assert_eq!(names, vec!["Docs", "src", "Alpha", "alpha", "beta", "zeta.txt"]);
    assert_eq!(sorted[0].path, "/root/Docs");
    assert_eq!(sorted[0].size, 7);
    assert!(sorted[0].is_dir);

    let mut expected = entries.clone();
    expected.sort_by(|a, b| {
        b.is_dir.cmp(&a.is_dir).then(a.name.to_lowercase().cmp(&b.name.to_lowercase()))
    });
    let expected_names: Vec<&str> = expected.iter().map(|e| e.name.as_str()).collect();
    assert_eq!(names, expected_names);
}

#[test]
fn search_keeps_matching_names_up_to_the_maximum() {
    let mut collector = SearchCollector::new("ReAd", 2);
    assert!(!collector.is_full());
    assert!(collector.accepts("README.md"));
    assert!(!collector.accepts("license"));
    assert!(collector.offer(result("README.md", false)));
    assert!(!collector.offer(result("LICENSE", false)));
    assert!(collector.offer(result("thread.rs", false)));
    assert!(collector.is_full());
    assert!(!collector.accepts("bread"));
    assert!(!collector.offer(result("bread", true)));
    let names: Vec<&str> = collector.results.iter().map(|e| e.name.as_str()).collect();
    assert_eq!(names, vec!["README.md", "thread.rs"]);
}

#[test]
fn search_with_room_for_nothing_keeps_nothing() {
    let mut collector = SearchCollector::new("", 0);
    assert!(collector.is_full());
    assert!(!collector.offer(result("anything", false)));
    assert!(collector.results.is_empty());
    let mut all = SearchCollector::new("", 10);
    assert!(all.offer(result("anything", false)));
    assert_eq!(MAX_SEARCH_DEPTH, 10);
}

fn raw(name: &str, is_dir: bool) -> RemoteDirEntry {
    RemoteDirEntry {
        name: name.to_string(),
        is_dir,
        size: if is_dir { None } else { Some(42) },
        mtime: Some(1700000000),
        permissions: Some(0o644),
    }
}

#[test]
fn remote_listing() {
    let raw_entries = vec![
        raw(".", true),
        raw("notes.txt", false),
        raw("..", true),
        raw("Zoo", true),
        raw("apps", true),
        raw("Makefile", false),
        raw("...", false),
        raw(".hidden", false),
    ];
    let entries = list_dir("/home/me//", &raw_entries);
    let names: Vec<&str> = entries.iter().map(|e| e.name.as_str()).collect();
    assert_eq!(names, vec!["apps", "Zoo", "...", ".hidden", "Makefile", "notes.txt"]);
    assert_eq!(entries[0].path, "/home/me/apps");
    assert_eq!(entries[0].size, 0);
    assert!(entries[0].is_dir);
    assert_eq!(entries[5].path, "/home/me/notes.txt");
    assert_eq!(entries[5].size, 42);
    assert_eq!(entries[5].modified, Some(1700000000));
    assert_eq!(entries[5].permissions, Some(0o644));
    assert!(!entries[5].is_dir);
}

#[test]
fn remote_listing_of_the_root() {
    let entries = list_dir("/", &vec![raw("etc", true)]);
    assert_eq!(entries[0].path, "/etc");
    let entries = list_dir("", &vec![raw("etc", true)]);
    assert_eq!(entries[0].path, "/etc");
    let entries = list_dir("rel", &vec![raw("f", false)]);
    assert_eq!(entries[0].path, "rel/f");
    assert!(list_dir("/x", &Vec::new()).is_empty());
    let mut no_time = raw("f", false);
    no_time.mtime = None;
    no_time.permissions = None;
    let entries = list_dir("/x", &vec![no_time]);
    assert_eq!(entries[0].modified, None);
    assert_eq!(entries[0].permissions, None);
}

#[test]
fn sftp_subsystem() {
    assert_eq!(subsystem_name(), "sftp");
}
