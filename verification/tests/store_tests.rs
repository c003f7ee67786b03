use ripdiff::diff::{DiffContent, DiffMode, DiffRequest};
use ripdiff::git::{FileStat, FileStatus};
use ripdiff::store::{has_file, DiffStore, PathSet};
use ripdiff::style::Line;

fn request(path: &str, mode: DiffMode) -> DiffRequest {
    DiffRequest { path: path.to_string(), panel_width: 80, mode }
}

fn content(text: &str) -> DiffContent {
    DiffContent { lines: vec![Line::raw(text)] }
}

#[test]
fn path_sets_insert_remove_and_retain() {
    let mut set = PathSet::new();
    set.insert("a".to_string());
    set.insert("b".to_string());
    set.insert("a".to_string());
    assert!(set.contains(&"a".to_string()));
    set.remove(&"a".to_string());
    assert!(!set.contains(&"a".to_string()));
    assert!(set.contains(&"b".to_string()));
    let files = vec![FileStat {
        path: "c".to_string(),
        additions: 0,
        deletions: 0,
        status: FileStatus::Added,
        has_staged_changes: true,
        has_unstaged_changes: false,
        content_signature: None,
    }];
    assert!(has_file(&files, &"c".to_string()));
    assert!(!has_file(&files, &"b".to_string()));
    set.insert("c".to_string());
    set.retain_files(&files);
    assert!(!set.contains(&"b".to_string()));
    assert!(set.contains(&"c".to_string()));
}

#[test]
fn diff_stores_keep_the_latest_diff_per_request() {
    let mut store = DiffStore::new();
    assert!(store.is_empty());
    assert!(store.is_idle());
    let inline = request("a", DiffMode::Inline);
    let side = request("a", DiffMode::SideBySide);
    store.insert(inline.clone(), content("one"));
    store.insert(inline.clone(), content("two"));
    assert_eq!(store.get(&inline).map(|c| c.lines[0].spans[0].content.clone()), Some("two".to_string()));
    assert!(store.get(&side).is_none());
    assert!(!store.contains(&side));
    store.start_loading(side.clone());
    store.start_loading(side.clone());
    assert!(store.is_loading(&side));
    store.finish_loading(&side);
    assert!(!store.is_loading(&side));
    assert!(store.is_idle());
    store.clear();
    assert!(store.is_empty());
    assert!(store.get(&inline).is_none());
}
