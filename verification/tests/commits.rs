use perf_compare::commits::{
    compare_link, next_commit, prev_commit, previous_commits, ArtifactId, Commit, MasterCommit,
    Time,
};

fn commit(sha: &str) -> ArtifactId {
    ArtifactId::Commit(Commit { sha: sha.to_string(), date: Time { seconds: 0, nanos: 0 } })
}

fn tag(name: &str) -> ArtifactId {
    ArtifactId::Tag(name.to_string())
}

/// Commits `c0` to `c{n-1}`, the newest first.
fn history(n: usize) -> Vec<MasterCommit> {
    (0..n)
        .rev()
        .map(|i| MasterCommit {
            sha: format!("c{}", i),
            parent_sha: if i == 0 { "root".to_string() } else { format!("c{}", i - 1) },
            pr: Some(i as u32),
            time: Time { seconds: i as i64, nanos: 5 },
        })
        .collect()
}

#[test]
fn previous_commit_is_the_parent() {
    let h = history(4);
    assert_eq!(prev_commit(&commit("c3"), &h).unwrap().sha, "c2");
    assert!(prev_commit(&commit("c0"), &h).is_none());
    assert!(prev_commit(&commit("other"), &h).is_none());
    assert!(prev_commit(&tag("1.50.0"), &h).is_none());
}

#[test]
fn next_commit_is_the_child() {
    let h = history(4);
    assert_eq!(next_commit(&commit("c1"), &h).unwrap().sha, "c2");
    assert_eq!(next_commit(&commit("root"), &h).unwrap().sha, "c0");
    assert!(next_commit(&commit("c3"), &h).is_none());
    assert!(next_commit(&tag("c1"), &h).is_none());
}

#[test]
fn first_match_of_the_history_counts() {
    let mut h = history(2);
    h.push(MasterCommit {
        sha: "fork".to_string(),
        parent_sha: "c0".to_string(),
        pr: None,
        time: Time { seconds: 9, nanos: 0 },
    });
    assert_eq!(next_commit(&commit("c0"), &h).unwrap().sha, "c1");
}

#[test]
fn next_and_previous_undo_each_other() {
    let h = history(5);
    let before = prev_commit(&commit("c3"), &h).unwrap();
    assert_eq!(next_commit(&commit(&before.sha), &h).unwrap().sha, "c3");
    let after = next_commit(&commit("c3"), &h).unwrap();
    assert_eq!(prev_commit(&commit(&after.sha), &h).unwrap().sha, "c3");
}

fn names(list: &[ArtifactId]) -> Vec<String> {
    list.iter().map(|a| a.name().to_string()).collect()
}

#[test]
fn previous_commits_are_the_nearest_first() {
    let h = history(6);
    assert_eq!(names(&previous_commits(commit("c5"), 3, &h)), ["c4", "c3", "c2"]);
    assert_eq!(names(&previous_commits(commit("c2"), 3, &h)), ["c1", "c0"]);
    assert!(previous_commits(commit("c5"), 0, &h).is_empty());
    assert!(previous_commits(tag("1.50.0"), 3, &h).is_empty());
    match &previous_commits(commit("c5"), 1, &h)[0] {
        ArtifactId::Commit(c) => assert_eq!(c.date, Time { seconds: 4, nanos: 5 }),
        ArtifactId::Tag(_) => panic!("a commit"),
    }
}

#[test]
fn links_name_both_artifacts() {
    assert_eq!(
        compare_link(&commit("abc"), &tag("1.50.0")),
        "https://perf.rust-lang.org/compare.html?start=abc&end=1.50.0&stat=instructions:u"
    );
    assert_eq!(
        compare_link(&tag("1.49.0"), &commit("def")),
        "https://perf.rust-lang.org/compare.html?start=1.49.0&end=def&stat=instructions:u"
    );
}
