use pier_core::git_graph::log::{
    build_ref_decoration, commit_passes, commit_touches_paths, detect_default_branch, join,
    make_entry, sort_names, unique_sorted, BranchFacts, CommitInfo, HeadRef, LogWindow,
};
use pier_core::git_graph::{split_parents, GraphFilter};

fn strings(items: &[&str]) -> Vec<String> {
    items.iter().map(|s| s.to_string()).collect()
}

fn filter() -> GraphFilter {
    GraphFilter {
        branch: None,
        author: None,
        search_text: None,
        after_timestamp: 0,
        topo_order: true,
        first_parent_only: false,
        no_merges: false,
        paths: Vec::new(),
    }
}

fn info() -> CommitInfo {
    CommitInfo {
        hash: "ABCDEF0123456789abcdef0123456789abcdef01".to_string(),
        parents: strings(&["1111111111111111111111111111111111111111"]),
        author: "Ada Lovelace".to_string(),
        time: 1000,
        message: "Fix the Parser\n\nIt lost a token.".to_string(),
        summary: "Fix the Parser".to_string(),
    }
}

#[test]
fn an_empty_filter_lets_everything_through() {
    assert!(commit_passes(&filter(), &info()));
}

#[test]
fn merges_can_be_left_out() {
    let mut f = filter();
    f.no_merges = true;
    assert!(commit_passes(&f, &info()));
    let mut merge = info();
    merge.parents.push("2".repeat(40));
    assert!(!commit_passes(&f, &merge));
    assert!(commit_passes(&filter(), &merge));
}

#[test]
fn author_is_matched_without_regard_to_case() {
    let mut f = filter();
    f.author = Some("LOVE".to_string());
    assert!(commit_passes(&f, &info()));
    f.author = Some("grace".to_string());
    assert!(!commit_passes(&f, &info()));
}

#[test]
fn older_commits_are_left_out() {
    let mut f = filter();
    f.after_timestamp = 1000;
    assert!(commit_passes(&f, &info()));
    f.after_timestamp = 1001;
    assert!(!commit_passes(&f, &info()));
    f.after_timestamp = -5;
    assert!(commit_passes(&f, &info()));
}

#[test]
fn search_looks_at_message_and_hash() {
    let mut f = filter();
    f.search_text = Some("parser".to_string());
    assert!(commit_passes(&f, &info()));
    f.search_text = Some("LOST A".to_string());
    assert!(commit_passes(&f, &info()));
    f.search_text = Some("abcDEF01".to_string());
    assert!(commit_passes(&f, &info()));
    f.search_text = Some("bcdef".to_string());
    assert!(!commit_passes(&f, &info()));
    f.search_text = Some("lexer".to_string());
    assert!(!commit_passes(&f, &info()));
}

#[test]
fn paths_are_matched_by_prefix() {
    let deltas = vec![
        ("docs/a.md".to_string(), "docs/b.md".to_string()),
        ("".to_string(), "src/lib.rs".to_string()),
    ];
    assert!(commit_touches_paths(&deltas, &strings(&["src/"])));
    assert!(commit_touches_paths(&deltas, &strings(&["x", "docs/a"])));
    assert!(!commit_touches_paths(&deltas, &strings(&["lib.rs", "ocs"])));
    assert!(!commit_touches_paths(&deltas, &Vec::new()));
    assert!(!commit_touches_paths(&Vec::new(), &strings(&["src"])));
    assert!(commit_touches_paths(&deltas, &strings(&[""])));
}

#[test]
fn entries_of_the_log() {
    let mut commit = info();
    commit.parents = strings(&["p1", "p2"]);
    let entry = make_entry(&commit, " (HEAD)".to_string());
    assert_eq!(entry.hash, commit.hash);
    assert_eq!(entry.short_hash, "ABCDEF0");
    assert_eq!(entry.parents, "p1 p2");
    assert_eq!(split_parents(&entry.parents), commit.parents);
    assert_eq!(entry.refs, " (HEAD)");
    assert_eq!(entry.message, "Fix the Parser");
    assert_eq!(entry.author, "Ada Lovelace");
    assert_eq!(entry.date_timestamp, 1000);

    commit.hash = "abc".to_string();
    commit.parents = Vec::new();
    let entry = make_entry(&commit, String::new());
    assert_eq!(entry.short_hash, "abc");
    assert_eq!(entry.parents, "");
}

#[test]
fn joining() {
    assert_eq!(join(&Vec::new(), ", "), "");
    assert_eq!(join(&strings(&["a"]), ", "), "a");
    assert_eq!(join(&strings(&["a", "", "c"]), ", "), "a, , c");
}

#[test]
fn window_of_a_page() {
    let mut window = LogWindow::new(2, 2);
    let mut taken = Vec::new();
    for i in 0..10 {
        if window.is_skipping() {
            window.pass_over();
            continue;
        }
        let mut commit = info();
        commit.time = i;
        taken.push(i);
        if window.take(make_entry(&commit, String::new())) {
            break;
        }
    }
    assert_eq!(taken, vec![2, 3]);
    assert_eq!(window.skipped, 2);
    let times: Vec<i64> = window.results.iter().map(|e| e.date_timestamp).collect();
    assert_eq!(times, vec![2, 3]);
}

#[test]
fn decoration_names_head_branches_and_tags() {
    let head = HeadRef { is_branch: true, shorthand: Some("main".to_string()) };
    assert_eq!(
        build_ref_decoration(
            Some(&head),
            &strings(&["main", "origin/main", "dev"]),
            &strings(&["v1.0", "v1"])
        ),
        " (HEAD -> main, origin/main, dev, tag: v1.0, tag: v1)"
    );
    assert_eq!(build_ref_decoration(None, &Vec::new(), &Vec::new()), "");
    assert_eq!(build_ref_decoration(None, &strings(&["dev"]), &Vec::new()), " (dev)");
    assert_eq!(build_ref_decoration(None, &Vec::new(), &strings(&["t"])), " (tag: t)");
}

#[test]
fn decoration_of_a_detached_head() {
    let detached = HeadRef { is_branch: false, shorthand: Some("HEAD".to_string()) };
    assert_eq!(build_ref_decoration(Some(&detached), &Vec::new(), &Vec::new()), " (HEAD)");
    let unnamed = HeadRef { is_branch: true, shorthand: None };
    assert_eq!(build_ref_decoration(Some(&unnamed), &strings(&["b"]), &Vec::new()), " (HEAD, b)");
}

#[test]
fn a_branch_that_a_label_holds_is_not_named_again() {
    // "feature" is held by "feature-x", which came first.
    assert_eq!(
        build_ref_decoration(None, &strings(&["feature-x", "feature", "other"]), &Vec::new()),
        " (feature-x, other)"
    );
    assert_eq!(
        build_ref_decoration(None, &strings(&["feature", "feature-x"]), &Vec::new()),
        " (feature, feature-x)"
    );
}

fn facts() -> BranchFacts {
    BranchFacts {
        origin_head_found: false,
        origin_head_shorthand: None,
        origin_head_target: None,
        has_origin_master: false,
        has_origin_main: false,
        has_master: false,
        has_main: false,
    }
}

#[test]
fn default_branch_by_strategy() {
    assert_eq!(detect_default_branch(&facts()), "HEAD");

    let mut f = facts();
    f.has_main = true;
    assert_eq!(detect_default_branch(&f), "main");
    f.has_master = true;
    assert_eq!(detect_default_branch(&f), "master");
    f.has_origin_main = true;
    assert_eq!(detect_default_branch(&f), "origin/main");
    f.has_origin_master = true;
    assert_eq!(detect_default_branch(&f), "origin/master");

    f.origin_head_found = true;
    assert_eq!(detect_default_branch(&f), "origin/master");
    f.origin_head_target = Some("refs/remotes/origin/trunk".to_string());
    assert_eq!(detect_default_branch(&f), "origin/trunk");
    f.origin_head_target = Some("refs/remotes/refs/remotes/x".to_string());
    assert_eq!(detect_default_branch(&f), "x");
    f.origin_head_target = Some("refs/heads/other".to_string());
    assert_eq!(detect_default_branch(&f), "origin/master");
    f.origin_head_shorthand = Some("origin/develop".to_string());
    assert_eq!(detect_default_branch(&f), "origin/develop");

    // Without the remote's HEAD its short name counts for nothing.
    f.origin_head_found = false;
    assert_eq!(detect_default_branch(&f), "origin/master");
}

#[test]
fn names_are_sorted_like_strings() {
    let names = strings(&["origin/main", "main", "Zed", "dev", "a", "main"]);
    let mut expected = names.clone();
    expected.sort();
    assert_eq!(sort_names(&names), expected);
    assert_eq!(sort_names(&Vec::new()), Vec::<String>::new());
}

#[test]
fn authors_are_listed_once() {
    let names = strings(&["Bob", "alice", "Bob", "Carol", "alice", "Bob"]);
    assert_eq!(unique_sorted(&names), strings(&["Bob", "Carol", "alice"]));
    assert_eq!(unique_sorted(&Vec::new()), Vec::<String>::new());
}
