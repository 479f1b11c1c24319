use spec_drift::sources::{bucket_of, DiscoveredFiles, FileBucket, GitHistory};

#[test]
fn git_history_narrow_keeps_only_changed_paths() {
    let mut files = DiscoveredFiles::empty();
    files.rust.push("/root/a.rs".to_string());
    files.rust.push("/root/b.rs".to_string());
    files.markdown.push("/root/README.md".to_string());

    let changed = vec!["/root/b.rs".to_string()];

    let narrowed = GitHistory::narrow(files, &changed);
    assert_eq!(narrowed.rust, vec!["/root/b.rs".to_string()]);
    assert!(narrowed.markdown.is_empty());
}

#[test]
fn git_history_narrow_sorts_each_bucket() {
    let mut files = DiscoveredFiles::empty();
    files.rust.push("/root/b.rs".to_string());
    files.rust.push("/root/a.rs".to_string());
    files.rust.push("/root/c.rs".to_string());
    files.yaml.push("/root/z-y/ci.yml".to_string());
    files.yaml.push("/root/z/ci.yml".to_string());

    let changed = vec![
        "/root/a.rs".to_string(),
        "/root/b.rs".to_string(),
        "/root/z/ci.yml".to_string(),
        "/root/z-y/ci.yml".to_string(),
    ];
    let narrowed = GitHistory::narrow(files, &changed);
    assert_eq!(narrowed.rust, vec!["/root/a.rs".to_string(), "/root/b.rs".to_string()]);
    assert_eq!(narrowed.yaml, vec!["/root/z/ci.yml".to_string(), "/root/z-y/ci.yml".to_string()]);
}

#[test]
fn walks_tempdir_and_buckets_by_extension() {
    let paths: Vec<String> = ["a.rs", "README.md", "ci.yml", "Makefile", "justfile", "ignore.txt"]
        .iter()
        .map(|p| format!("/tmp/proj/{p}"))
        .collect();
    let found = DiscoveredFiles::from_paths(&paths);
    assert_eq!(found.rust.len(), 1);
    assert_eq!(found.markdown.len(), 1);
    assert_eq!(found.yaml.len(), 1);
    assert_eq!(found.makefiles.len(), 2);
}

#[test]
fn buckets_come_out_in_path_order() {
    let paths: Vec<String> = ["/p/b.rs", "/p/justfile", "/p/a-b.rs", "/p/Makefile", "/p/a/x.rs"]
        .iter()
        .map(|p| p.to_string())
        .collect();
    let found = DiscoveredFiles::from_paths(&paths);
    assert_eq!(found.rust, vec!["/p/a/x.rs", "/p/a-b.rs", "/p/b.rs"]);
    assert_eq!(found.makefiles, vec!["/p/Makefile", "/p/justfile"]);
}

#[test]
fn buckets_follow_names_then_extensions() {
    assert_eq!(bucket_of("/p/GNUmakefile"), FileBucket::Makefile);
    assert_eq!(bucket_of("/p/rules.mk"), FileBucket::Makefile);
    assert_eq!(bucket_of("/p/notes.markdown"), FileBucket::Markdown);
    assert_eq!(bucket_of("/p/deploy.yaml"), FileBucket::Yaml);
    assert_eq!(bucket_of("/p/lib.rs"), FileBucket::Rust);
    assert_eq!(bucket_of("/p/LICENSE"), FileBucket::Ignored);
}

#[test]
fn changed_paths_trims_and_joins() {
    let out = GitHistory::changed_paths("/repo", "src/lib.rs\n\n  README.md  \n");
    assert_eq!(out, vec!["/repo/src/lib.rs".to_string(), "/repo/README.md".to_string()]);
    assert!(GitHistory::changed_paths("/repo", "").is_empty());
}
