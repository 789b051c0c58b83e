use boenmind::git::{current_branch, parse_branches, parse_commits, status_entries};

#[test]
fn commits_carry_subject_and_parents() {
    let out = "a1b2c3d|Merge branch 'dev'|1111111 2222222\n1111111|fix: a|b|0000000\n0000000|init|";
    let cs = parse_commits(out);
    assert_eq!(cs.len(), 3);
    assert_eq!(cs[0].hash, "a1b2c3d");
    assert_eq!(cs[0].subject, "Merge branch 'dev'");
    assert_eq!(cs[0].parents, vec!["1111111".to_string(), "2222222".to_string()]);
    // The subject ends at its first `|`; the rest are the parents, split at spaces.
    assert_eq!(cs[1].subject, "fix: a");
    assert_eq!(cs[1].parents, vec!["b|0000000".to_string()]);
    assert!(cs[2].parents.is_empty());
}

#[test]
fn commit_line_without_separators_is_just_a_hash() {
    let cs = parse_commits("abc\r\n");
    assert_eq!(cs.len(), 1);
    assert_eq!((cs[0].hash.as_str(), cs[0].subject.as_str()), ("abc", ""));
    assert!(cs[0].parents.is_empty());
}

#[test]
fn branch_tips_skip_lines_without_separator() {
    let bs = parse_branches("main|a1b2c3d\nbroken line\nfeature/x|1111111\n");
    let pairs: Vec<(&str, &str)> = bs.iter().map(|b| (b.name.as_str(), b.tip.as_str())).collect();
    assert_eq!(pairs, vec![("main", "a1b2c3d"), ("feature/x", "1111111")]);
}

#[test]
fn status_and_branch_lines() {
    assert_eq!(status_entries(" M src/lib.rs\n?? notes.txt\n"), vec![" M src/lib.rs", "?? notes.txt"]);
    assert!(status_entries("").is_empty());
    assert_eq!(current_branch("main\n"), "main");
}
