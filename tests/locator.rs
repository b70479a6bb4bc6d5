use repomgr::locate::{
    count_nesting_marks, descriptor_path, find_repo, is_repo_document, FindRepoError, MAX_NESTING_MARKS,
};

#[test]
fn search_walks_up_to_repository() {
    let r = find_repo("/a/b/c", |p: &str| p == "/a");
    assert_eq!(r.unwrap(), "/a");
}

#[test]
fn search_in_disjoint_tree_fails() {
    let r = find_repo("/x/y", |p: &str| p == "/a");
    assert!(matches!(r, Err(FindRepoError::NotFound)));
}

#[test]
fn search_takes_nearest_repository() {
    let r = find_repo("/a/b/c", |p: &str| p == "/a" || p == "/a/b");
    assert_eq!(r.unwrap(), "/a/b");
}

#[test]
fn search_from_repository_itself() {
    let r = find_repo("/a", |p: &str| p == "/a");
    assert_eq!(r.unwrap(), "/a");
}

#[test]
fn search_from_marker_starts_at_its_directory() {
    let r = find_repo("/a/b/index.toml", |p: &str| p == "/a/b" || p == "/a/b/index.toml");
    assert_eq!(r.unwrap(), "/a/b");
}

#[test]
fn search_visits_ancestors_nearest_first() {
    let seen = std::cell::RefCell::new(Vec::new());
    let r = find_repo("/a/b/c", |p: &str| {
        seen.borrow_mut().push(p.to_string());
        false
    });
    assert!(matches!(r, Err(FindRepoError::NotFound)));
    assert_eq!(*seen.borrow(), vec!["/a/b/c", "/a/b", "/a", "/"]);
}

#[test]
fn relative_search_ends_at_empty_path() {
    let seen = std::cell::RefCell::new(Vec::new());
    let r = find_repo("a/b", |p: &str| {
        seen.borrow_mut().push(p.to_string());
        p.is_empty()
    });
    assert_eq!(r.unwrap(), "");
    assert_eq!(*seen.borrow(), vec!["a/b", "a", ""]);
}

#[test]
fn marker_document_must_parse() {
    assert!(is_repo_document("[repository]\nname = \"test\"\n"));
    assert!(is_repo_document(""));
    assert!(!is_repo_document("[repository\nname = "));
    assert!(!is_repo_document("name = \"unterminated\n"));
}

#[test]
fn descriptor_lies_under_packages() {
    assert_eq!(descriptor_path("/repo", "pkg"), "/repo/packages/pkg/index.toml");
    assert_eq!(descriptor_path("/repo/", "my-tool"), "/repo/packages/my-tool/index.toml");
}

#[test]
fn nesting_marks_are_counted() {
    assert_eq!(count_nesting_marks(b""), 0);
    assert_eq!(count_nesting_marks(b"[a.b]\nc = { d = [1, 2] }\n"), 4);
    assert_eq!(count_nesting_marks("\u{e9}[".as_bytes()), 1);
}

#[test]
fn deeply_nested_marker_is_refused() {
    let deep = format!("a = {}", "[".repeat(100_000));
    assert!(!is_repo_document(&deep));
    let dotted = format!("{} = 1", vec!["a"; 100_000].join("."));
    assert!(!is_repo_document(&dotted));
}

#[test]
fn nesting_up_to_the_bound_is_parsed() {
    let n = MAX_NESTING_MARKS;
    let arrays = format!("a = {}{}", "[".repeat(n), "]".repeat(n));
    assert!(is_repo_document(&arrays));
    let tables = format!("a = {}1{}", "{ b = ".repeat(n), " }".repeat(n));
    assert_eq!(count_nesting_marks(tables.as_bytes()), n);
    assert!(is_repo_document(&tables));
    let dotted = format!("{} = 1", vec!["a"; n + 1].join("."));
    assert!(is_repo_document(&dotted));
    let over = format!("a = {}{}", "[".repeat(n + 1), "]".repeat(n + 1));
    assert!(!is_repo_document(&over));
}
