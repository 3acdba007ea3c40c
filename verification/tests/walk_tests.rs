use cargo_cleans::tree::{classify_dir, dir_size_checked, walk_dir, DirStep, FsDir, FsEntry};

fn file(name: &str, size: u64) -> FsEntry {
    FsEntry::File { name: String::from(name), size }
}

fn dir(name: &str, path: &str, modified_secs: u64, entries: Vec<FsEntry>) -> FsDir {
    FsDir { name: String::from(name), path: String::from(path), modified_secs, entries }
}

#[test]
fn size_of_flat_directory() {
    let d = dir("root", "/root", 0, vec![file("a", 10), file("b", 32)]);
    assert_eq!(dir_size_checked(&d), Some(42));
}

#[test]
fn size_of_nested_directories() {
    let inner = dir("inner", "/root/inner", 0, vec![file("x", 5), file("y", 7)]);
    let d = dir("root", "/root", 0, vec![file("a", 1), FsEntry::Dir(inner), file("b", 2)]);
    assert_eq!(dir_size_checked(&d), Some(15));
}

#[test]
fn size_of_empty_directory_is_zero() {
    let d = dir("root", "/root", 0, vec![]);
    assert_eq!(dir_size_checked(&d), Some(0));
}

#[test]
fn size_overflow_is_reported() {
    let d = dir("root", "/root", 0, vec![file("a", u64::MAX), file("b", 1)]);
    assert_eq!(dir_size_checked(&d), None);
}

#[test]
fn target_with_manifest_emits_one_record() {
    let target = dir("target", "/w/proj/target", 77, vec![file("bin", 100), file("obj", 200)]);
    let proj = dir(
        "proj",
        "/w/proj",
        0,
        vec![file("Cargo.toml", 12), FsEntry::Dir(target)],
    );
    let root = dir("w", "/w", 0, vec![FsEntry::Dir(proj)]);
    let recs = walk_dir(&root, &String::from(""), false).unwrap();
    assert_eq!(recs.len(), 1);
    assert_eq!(recs[0].path, "/w/proj/target");
    assert_eq!(recs[0].project, "proj");
    assert_eq!(recs[0].last_modified_secs, 77);
    assert_eq!(recs[0].size, 300);
}

#[test]
fn target_without_manifest_is_ordinary() {
    // The outer directory is named like the marker but has no manifest
    // beside it, so the walk descends into it and finds the genuine
    // artifact root nested below.
    let inner_target = dir("target", "/w/target/p/target", 5, vec![file("bin", 9)]);
    let p = dir(
        "p",
        "/w/target/p",
        0,
        vec![file("Cargo.toml", 1), FsEntry::Dir(inner_target)],
    );
    let outer_target = dir("target", "/w/target", 0, vec![FsEntry::Dir(p)]);
    let root = dir("w", "/w", 0, vec![FsEntry::Dir(outer_target)]);
    let recs = walk_dir(&root, &String::from(""), false).unwrap();
    assert_eq!(recs.len(), 1);
    assert_eq!(recs[0].path, "/w/target/p/target");
}

#[test]
fn artifact_root_is_not_descended() {
    // A nested project inside a genuine artifact root is never visited.
    let nested_target = dir("target", "/w/proj/target/dep/target", 5, vec![file("bin", 9)]);
    let dep = dir(
        "dep",
        "/w/proj/target/dep",
        0,
        vec![file("Cargo.toml", 1), FsEntry::Dir(nested_target)],
    );
    let target = dir("target", "/w/proj/target", 3, vec![FsEntry::Dir(dep), file("f", 4)]);
    let proj = dir(
        "proj",
        "/w/proj",
        0,
        vec![file("Cargo.toml", 2), FsEntry::Dir(target)],
    );
    let root = dir("w", "/w", 0, vec![FsEntry::Dir(proj)]);
    let recs = walk_dir(&root, &String::from(""), false).unwrap();
    assert_eq!(recs.len(), 1);
    assert_eq!(recs[0].path, "/w/proj/target");
    // The size covers everything under the artifact root, nested files
    // included.
    assert_eq!(recs[0].size, 1 + 9 + 4);
}

#[test]
fn git_subtree_is_pruned_entirely() {
    // A would-be artifact root below a version-control directory is never
    // reached.
    let target = dir(
        "target",
        "/w/node_modules/.git/target",
        5,
        vec![file("Cargo.toml", 1), file("bin", 9)],
    );
    let git = dir(
        ".git",
        "/w/node_modules/.git",
        0,
        vec![file("Cargo.toml", 1), FsEntry::Dir(target)],
    );
    let node_modules = dir("node_modules", "/w/node_modules", 0, vec![FsEntry::Dir(git)]);
    let root = dir("w", "/w", 0, vec![FsEntry::Dir(node_modules)]);
    let recs = walk_dir(&root, &String::from(""), false).unwrap();
    assert_eq!(recs.len(), 0);
}

#[test]
fn walk_records_come_in_recursion_order() {
    let t1 = dir("target", "/w/a/target", 1, vec![file("x", 10)]);
    let a = dir("a", "/w/a", 0, vec![file("Cargo.toml", 1), FsEntry::Dir(t1)]);
    let t2 = dir("target", "/w/b/target", 2, vec![file("y", 20)]);
    let b = dir("b", "/w/b", 0, vec![file("Cargo.toml", 1), FsEntry::Dir(t2)]);
    let root = dir("w", "/w", 0, vec![FsEntry::Dir(a), FsEntry::Dir(b)]);
    let recs = walk_dir(&root, &String::from(""), false).unwrap();
    assert_eq!(recs.len(), 2);
    assert_eq!(recs[0].path, "/w/a/target");
    assert_eq!(recs[1].path, "/w/b/target");
}

#[test]
fn walk_overflowing_artifact_size_is_reported() {
    let target = dir(
        "target",
        "/w/proj/target",
        0,
        vec![file("a", u64::MAX), file("b", 1)],
    );
    let proj = dir(
        "proj",
        "/w/proj",
        0,
        vec![file("Cargo.toml", 1), FsEntry::Dir(target)],
    );
    let root = dir("w", "/w", 0, vec![FsEntry::Dir(proj)]);
    assert!(walk_dir(&root, &String::from(""), false).is_none());
}

#[test]
fn classify_dir_follows_the_walk_branches() {
    assert!(matches!(classify_dir(&String::from(".git"), true), DirStep::Prune));
    assert!(matches!(classify_dir(&String::from(".git"), false), DirStep::Prune));
    assert!(matches!(
        classify_dir(&String::from("target"), true),
        DirStep::ArtifactRoot
    ));
    assert!(matches!(classify_dir(&String::from("target"), false), DirStep::Ordinary));
    assert!(matches!(classify_dir(&String::from("src"), true), DirStep::Ordinary));
    assert!(matches!(classify_dir(&String::from(""), true), DirStep::Ordinary));
}

#[test]
fn root_itself_can_be_an_artifact_root() {
    let target = dir("target", "/w/proj/target", 9, vec![file("bin", 50)]);
    let recs = walk_dir(&target, &String::from("proj"), true).unwrap();
    assert_eq!(recs.len(), 1);
    assert_eq!(recs[0].path, "/w/proj/target");
    assert_eq!(recs[0].project, "proj");
    assert_eq!(recs[0].size, 50);
}
