use ripdiff::git::{
    branch_command, command_report, commit_command, count_lines, current_branch, git_dir, has_index_change,
    has_worktree_change, head_check_command, is_status_change_char, list_changed_files, load_snapshot,
    nth_space_field, numstat_command, parse_numstat, parse_rename_status, parse_regular_status,
    parse_status_porcelain, push_command, repo_has_head, repo_root, run_git_ok, run_git_utf8, stage_all, stage_file,
    status_command, status_from_xy, unstage_all, unstage_file, DiffStats, FileContentSignature, FileStat, FileStatus,
    GitError, GitOutput, RepoSnapshot, WorktreeFacts,
};

fn ok(stdout: &[u8]) -> GitOutput {
    GitOutput { success: true, stdout: stdout.to_vec(), stderr: vec![] }
}

fn failed(stderr: &[u8]) -> GitOutput {
    GitOutput { success: false, stdout: vec![], stderr: stderr.to_vec() }
}

fn records(parts: &[&str]) -> Vec<u8> {
    let mut out = Vec::new();
    for p in parts {
        out.extend_from_slice(p.as_bytes());
        out.push(0);
    }
    out
}

fn args(c: &ripdiff::git::GitCommand) -> Vec<&str> {
    c.args.iter().map(|a| a.as_str()).collect()
}

#[test]
fn status_letters() {
    assert_eq!(FileStatus::Modified.symbol(), "M");
    assert_eq!(FileStatus::Added.symbol(), "A");
    assert_eq!(FileStatus::Deleted.symbol(), "D");
    assert_eq!(FileStatus::Renamed.symbol(), "R");
    assert_eq!(FileStatus::Untracked.symbol(), "?");
    assert_eq!(FileStatus::Unknown.symbol(), "?");
}

#[test]
fn xy_fields_decide_status_and_staging() {
    assert_eq!(status_from_xy("R."), FileStatus::Renamed);
    assert_eq!(status_from_xy(".A"), FileStatus::Added);
    assert_eq!(status_from_xy("D."), FileStatus::Deleted);
    assert_eq!(status_from_xy(".T"), FileStatus::Modified);
    assert_eq!(status_from_xy("UU"), FileStatus::Modified);
    assert_eq!(status_from_xy("RM"), FileStatus::Renamed);
    assert_eq!(status_from_xy(".."), FileStatus::Unknown);
    assert_eq!(status_from_xy(""), FileStatus::Unknown);
    assert!(has_index_change("M."));
    assert!(!has_index_change(".M"));
    assert!(has_worktree_change(".M"));
    assert!(!has_worktree_change("M"));
    assert!(!is_status_change_char('.'));
    assert!(!is_status_change_char(' '));
    assert!(is_status_change_char('M'));
}

#[test]
fn nth_space_field_keeps_the_rest() {
    assert_eq!(nth_space_field("a b c d", 2).as_deref(), Some("b c d"));
    assert_eq!(nth_space_field("a b c d", 4).as_deref(), Some("d"));
    assert_eq!(nth_space_field("a b", 3), None);
    assert_eq!(nth_space_field("a b", 1).as_deref(), Some("a b"));
}

#[test]
fn regular_and_rename_records() {
    let f = parse_regular_status("1 .M N... 100644 100644 100644 0123 0123 two words.txt").expect("ordinary record");
    assert_eq!(f.path, "two words.txt");
    assert_eq!(f.status, FileStatus::Modified);
    assert!(!f.has_staged_changes);
    assert!(f.has_unstaged_changes);

    let u = parse_regular_status("u UU N... 100644 100644 100644 100644 a b c conflict.txt").expect("unmerged record");
    assert_eq!(u.path, "conflict.txt");
    assert_eq!(u.status, FileStatus::Modified);
    assert!(u.has_staged_changes && u.has_unstaged_changes);

    assert!(parse_regular_status("1 .M N...").is_none());

    let r = parse_rename_status("2 R. N... 100644 100644 100644 abc abc R100 new name.txt").expect("rename record");
    assert_eq!(r.path, "new name.txt");
    assert_eq!(r.status, FileStatus::Renamed);
    assert!(r.has_staged_changes);
    assert!(!r.has_unstaged_changes);
}

#[test]
fn porcelain_output_lists_changed_files() {
    let out = ok(&records(&[
        "1 .M N... 100644 100644 100644 0123 0123 src/main.rs",
        "2 R. N... 100644 100644 100644 abc abc R100 new.txt",
        "old.txt",
        "? untracked file.txt",
        "! ignored.txt",
    ]));
    let files = parse_status_porcelain(&out).expect("status should parse");
    let paths: Vec<&str> = files.iter().map(|f| f.path.as_str()).collect();
    assert_eq!(paths, vec!["src/main.rs", "new.txt", "untracked file.txt"]);
    assert_eq!(files[2].status, FileStatus::Untracked);
    assert!(files[2].has_unstaged_changes);
    assert!(!files[2].has_staged_changes);
}

#[test]
fn porcelain_errors() {
    match parse_status_porcelain(&failed(b"  fatal: not a git repository\n")) {
        Err(GitError::CommandFailed(m)) => assert_eq!(m, "fatal: not a git repository"),
        other => panic!("unexpected {other:?}"),
    }
    let bad = ok(&[b'1', b' ', 0xff, 0]);
    assert!(matches!(parse_status_porcelain(&bad), Err(GitError::StatusNotUtf8)));
    assert_eq!(GitError::StatusNotUtf8.message(), "git status output not UTF-8");
}

#[test]
fn numstat_output_counts_lines() {
    let out = ok(&records(&["3\t1\tsrc/a.rs", "-\t-\timg.png", "1\t0\t", "old.txt", "new.txt", "junk"]));
    let stats = parse_numstat(&out).expect("numstat should parse");
    assert_eq!(stats.get(&"src/a.rs".to_string()), Some((3, 1)));
    assert_eq!(stats.get(&"img.png".to_string()), Some((0, 0)));
    assert_eq!(stats.get(&"new.txt".to_string()), Some((1, 0)));
    assert_eq!(stats.get(&"old.txt".to_string()), None);
    assert_eq!(stats.len(), 3);
    assert!(matches!(parse_numstat(&failed(b"bad")), Err(GitError::CommandFailed(_))));
    assert!(matches!(parse_numstat(&ok(&[0xfe, 0])), Err(GitError::NumstatNotUtf8)));
}

#[test]
fn diff_stats_behave_as_a_map() {
    let mut stats = DiffStats::new();
    stats.insert("a".to_string(), 1, 2);
    stats.insert("b".to_string(), 3, 4);
    stats.insert("a".to_string(), 5, 6);
    assert_eq!(stats.len(), 2);
    assert_eq!(stats.get(&"a".to_string()), Some((5, 6)));
    assert_eq!(stats.remove(&"a".to_string()), Some((5, 6)));
    assert_eq!(stats.remove(&"a".to_string()), None);
    assert_eq!(stats.duplicate().get(&"b".to_string()), Some((3, 4)));
}

fn stat(path: &str, status: FileStatus) -> FileStat {
    FileStat {
        path: path.to_string(),
        additions: 0,
        deletions: 0,
        status,
        has_staged_changes: true,
        has_unstaged_changes: true,
        content_signature: None,
    }
}

#[test]
fn snapshots_merge_counts_and_worktree_facts() {
    let mut staged = DiffStats::new();
    staged.insert("a.rs".to_string(), 1, 1);
    let mut unstaged = DiffStats::new();
    unstaged.insert("a.rs".to_string(), 2, 0);
    unstaged.insert("b.rs".to_string(), u32::MAX, 7);
    staged.insert("b.rs".to_string(), 9, 0);
    let sig = FileContentSignature { len: 10, modified_unix_nanos: 99 };
    let facts = vec![
        WorktreeFacts { line_count: 0, signature: Some(sig) },
        WorktreeFacts { line_count: 0, signature: None },
        WorktreeFacts { line_count: 5, signature: None },
        WorktreeFacts { line_count: 5, signature: None },
    ];
    let files = vec![
        stat("a.rs", FileStatus::Modified),
        stat("b.rs", FileStatus::Modified),
        stat("new.txt", FileStatus::Untracked),
        stat("gone.txt", FileStatus::Deleted),
    ];
    let snap = load_snapshot(Some("main".to_string()), files.clone(), &staged, &unstaged, &facts);
    assert_eq!(snap.branch.as_deref(), Some("main"));
    assert_eq!((snap.files[0].additions, snap.files[0].deletions), (3, 1));
    assert_eq!(snap.files[0].content_signature, Some(sig));
    assert_eq!((snap.files[1].additions, snap.files[1].deletions), (u32::MAX, 7));
    assert_eq!(snap.files[2].additions, 5);
    assert_eq!(snap.files[3].additions, 0);
    let listed = list_changed_files(files, &staged, &unstaged, &facts);
    assert_eq!(listed.len(), 4);
    assert!(snap.same_as(&RepoSnapshot { branch: Some("main".to_string()), files: listed }));
}

#[test]
fn line_counts_as_str_lines() {
    assert_eq!(count_lines("a\nb\n"), 2);
    assert_eq!(count_lines(""), 0);
    assert_eq!(count_lines("a\r\nb"), 2);
    assert_eq!(count_lines("\n\n"), 2);
}

#[test]
fn single_value_queries() {
    assert_eq!(run_git_utf8(&ok(b"  out \n")).expect("utf8"), "out");
    assert!(matches!(run_git_utf8(&ok(&[0xff])), Err(GitError::OutputNotUtf8)));
    assert!(run_git_ok(&ok(b"")).is_ok());
    assert!(matches!(run_git_ok(&failed(b" no \n")), Err(GitError::CommandFailed(m)) if m == "no"));
    assert_eq!(repo_root(&ok(b"/work/repo\n")).expect("root"), "/work/repo");
    let err = repo_root(&failed(b"fatal")).unwrap_err();
    assert_eq!(err.message(), "Failed to resolve repository root");
    assert_eq!(git_dir(&ok(b"/work/repo/.git\n")).expect("dir"), "/work/repo/.git");
    assert_eq!(git_dir(&failed(b"x")).unwrap_err().message(), "Failed to resolve git directory");
    assert!(repo_has_head(&ok(b"abc")));
    assert!(!repo_has_head(&failed(b"")));
}

#[test]
fn branch_labels() {
    assert_eq!(current_branch("main", None).expect("branch"), Some("main".to_string()));
    assert_eq!(current_branch("", Some(&ok(b"abc123\n"))).expect("detached"), Some("detached@abc123".to_string()));
    assert_eq!(current_branch("", Some(&failed(b"no head"))).expect("none"), None);
    assert_eq!(current_branch("", Some(&ok(b"  \n"))).expect("empty"), None);
    assert_eq!(current_branch("", None).expect("none"), None);
    assert!(matches!(current_branch("", Some(&ok(&[0xff]))), Err(GitError::OutputNotUtf8)));
}

#[test]
fn commands() {
    assert_eq!(args(&stage_file("a b.txt")), vec!["add", "--", "a b.txt"]);
    assert_eq!(stage_file("x").context, "Failed to run git add -- x");
    assert_eq!(args(&stage_all()), vec!["add", "--all"]);
    assert_eq!(args(&unstage_file(true, "x")), vec!["restore", "--staged", "--", "x"]);
    assert_eq!(args(&unstage_file(false, "x")), vec!["rm", "--cached", "--", "x"]);
    assert_eq!(args(&unstage_all(true)), vec!["restore", "--staged", "--", "."]);
    assert_eq!(args(&unstage_all(false)), vec!["rm", "-r", "--cached", "--", "."]);
    assert_eq!(args(&numstat_command(true)), vec!["diff", "--cached", "--numstat", "-z"]);
    assert_eq!(args(&numstat_command(false)), vec!["diff", "--numstat", "-z"]);
    assert_eq!(args(&status_command()), vec!["status", "--porcelain=v2", "--find-renames", "--untracked-files=all", "-z"]);
    assert_eq!(args(&branch_command()), vec!["branch", "--show-current"]);
    assert_eq!(args(&head_check_command()), vec!["rev-parse", "--verify", "HEAD"]);
    assert_eq!(args(&commit_command("fix: bug")), vec!["commit", "-m", "fix: bug"]);
    assert_eq!(args(&push_command()), vec!["push"]);
}

#[test]
fn command_reports_join_both_streams() {
    let out = GitOutput { success: true, stdout: b"[main abc] fix\n".to_vec(), stderr: b"warning\n".to_vec() };
    assert_eq!(command_report(&out), "[main abc] fix\nwarning");
    assert_eq!(command_report(&ok(&[b'a', 0xff])), "a\u{fffd}");
}
