use hpmq::change::{sort_changes, Change, ChangeKind, ChangeSet};
use hpmq::tar_file::{tar_action, TarAction, TarEntryType};
use std::collections::BTreeSet;
use hpmq::layer::{EntryRole, LayerEntry};
use hpmq::snapshot::{
    diff_entries, file_name, Entries, FileKind, Snapshot, SnapshotEntry, SnapshotEntryMetadata,
};

fn meta() -> Option<SnapshotEntryMetadata> {
    Some(SnapshotEntryMetadata { uid: 1000, gid: 1000, readonly: false })
}

fn file(bytes: &[u8]) -> SnapshotEntry {
    SnapshotEntry::new(FileKind::File, meta(), Some(bytes), None)
}

fn entries(items: &[(&str, &[u8])]) -> Entries {
    let mut e = Entries::new();
    for (p, b) in items {
        e.insert(p.to_string(), file(b));
    }
    e
}

fn described(changes: &[Change]) -> Vec<(ChangeKind, String)> {
    let mut v: Vec<(ChangeKind, String)> = changes.iter().map(|c| (c.kind(), c.path().clone())).collect();
    v.sort_by(|a, b| a.1.cmp(&b.1));
    v
}

#[test]
fn entry_fingerprint_is_the_seahash_of_the_content() {
    let e = file(b"hello");
    assert_eq!(e.fingerprint, Some(seahash::hash(b"hello")));
    assert_ne!(e.fingerprint, file(b"hellp").fingerprint);
    let dir = SnapshotEntry::new(FileKind::Directory, meta(), Some(b"x"), Some("t".to_string()));
    assert_eq!(dir.fingerprint, None);
    assert_eq!(dir.target, None);
    let link = SnapshotEntry::new(FileKind::Symlink, meta(), None, Some("target".to_string()));
    assert_eq!(link.fingerprint, None);
    assert_eq!(link.target.as_deref(), Some("target"));
}

#[test]
fn entries_insert_overrides() {
    let mut e = entries(&[("a", b"1"), ("b", b"2")]);
    assert_eq!(e.len(), 2);
    e.insert("a".to_string(), file(b"3"));
    assert_eq!(e.len(), 2);
    assert!(e.get(&"a".to_string()).unwrap().same(&file(b"3")));
    assert!(e.get(&"c".to_string()).is_none());
}

#[test]
fn diff_of_a_snapshot_with_itself_is_empty() {
    let a = entries(&[("a", b"1"), ("dir/b", b"2")]);
    assert!(diff_entries(&a, &a).is_empty());
    let s = Snapshot::init("/tmp/s".to_string()).unwrap();
    let cs = s.diff(&s, &a, &a);
    assert!(cs.items.is_empty());
    assert_eq!(cs.dest_dir, "");
    assert_eq!(cs.source_dir, "/tmp/s");
}

#[test]
fn diff_reports_added_modified_removed() {
    let a = entries(&[("keep", b"1"), ("change", b"2"), ("gone", b"3")]);
    let b = entries(&[("keep", b"1"), ("change", b"x"), ("new", b"4")]);
    let d = described(&diff_entries(&a, &b));
    assert_eq!(
        d,
        vec![
            (ChangeKind::Modified, "change".to_string()),
            (ChangeKind::Removed, "gone".to_string()),
            (ChangeKind::Added, "new".to_string()),
        ]
    );
}

#[test]
fn diff_swapped_swaps_added_and_removed() {
    let a = entries(&[("keep", b"1"), ("change", b"2"), ("gone", b"3")]);
    let b = entries(&[("keep", b"1"), ("change", b"x"), ("new", b"4")]);
    let d = described(&diff_entries(&b, &a));
    assert_eq!(
        d,
        vec![
            (ChangeKind::Modified, "change".to_string()),
            (ChangeKind::Added, "gone".to_string()),
            (ChangeKind::Removed, "new".to_string()),
        ]
    );
}

#[test]
fn changes_sort_by_kind_then_path() {
    let items = vec![
        Change::Removed("b".to_string()),
        Change::Added("z".to_string()),
        Change::Modified("m".to_string()),
        Change::Added("a".to_string()),
        Change::Removed("a".to_string()),
    ];
    let sorted: Vec<(ChangeKind, String)> =
        sort_changes(items).iter().map(|c| (c.kind(), c.path().clone())).collect();
    assert_eq!(
        sorted,
        vec![
            (ChangeKind::Added, "a".to_string()),
            (ChangeKind::Added, "z".to_string()),
            (ChangeKind::Modified, "m".to_string()),
            (ChangeKind::Removed, "a".to_string()),
            (ChangeKind::Removed, "b".to_string()),
        ]
    );
}

#[test]
fn change_set_strips_leading_slashes() {
    let cs = ChangeSet::new("/src".to_string(), "//app/bin".to_string(), vec![]);
    assert_eq!(cs.dest_dir, "app/bin");
    assert_eq!(cs.source_dir, "/src");
}

fn plan(cs: ChangeSet) -> Vec<(EntryRole, String, String)> {
    cs.layer_entries()
        .into_iter()
        .map(|e: LayerEntry| (e.role, e.source, e.name))
        .collect()
}

#[test]
fn second_layer_holds_only_the_new_file() {
    let s1 = entries(&[("a", b"a")]);
    let s2 = entries(&[("a", b"a"), ("b", b"b")]);
    let base = Snapshot::init("/s1".to_string()).unwrap();
    let next = Snapshot::init("/s2".to_string()).unwrap();
    let p = plan(base.diff(&next, &s1, &s2));
    assert_eq!(p, vec![(EntryRole::Content, "/s2/b".to_string(), "b".to_string())]);
}

#[test]
fn removed_path_becomes_a_whiteout_at_its_parent() {
    let s1 = entries(&[("a", b"a"), ("dir/f", b"f")]);
    let s2 = entries(&[]);
    let base = Snapshot::init("/s1".to_string()).unwrap();
    let next = Snapshot::init("/s2".to_string()).unwrap();
    let p = plan(base.diff(&next, &s1, &s2));
    assert_eq!(
        p,
        vec![
            (EntryRole::Whiteout, "".to_string(), ".wh.a".to_string()),
            (EntryRole::Whiteout, "".to_string(), "dir/.wh.f".to_string()),
        ]
    );
}

#[test]
fn layer_starts_with_the_destination_and_its_parents() {
    let cs = ChangeSet::new(
        "/src".to_string(),
        "/usr/local/".to_string(),
        vec![Change::Modified("x".to_string()), Change::Added("y".to_string())],
    );
    let p = plan(cs);
    assert_eq!(
        p,
        vec![
            (EntryRole::Directory, "/src".to_string(), "usr".to_string()),
            (EntryRole::Directory, "/src".to_string(), "usr/local".to_string()),
            (EntryRole::Content, "/src/y".to_string(), "usr/local/y".to_string()),
            (EntryRole::Content, "/src/x".to_string(), "usr/local/x".to_string()),
        ]
    );
}

#[test]
fn file_names_of_paths() {
    assert_eq!(file_name("./bin/hello").as_deref(), Some("hello"));
    assert_eq!(file_name("a/b/").as_deref(), Some("b"));
    assert_eq!(file_name("hello").as_deref(), Some("hello"));
    assert_eq!(file_name("/"), None);
    assert_eq!(file_name(""), None);
    assert_eq!(file_name("a/.."), None);
}

#[test]
fn generate_path_joins_below_the_root() {
    let s = Snapshot::init("/tmp/s".to_string()).unwrap();
    assert_eq!(s.generate_path(&"a/b".to_string()), "/tmp/s/a/b");
    assert_eq!(s.generate_path(&"/abs".to_string()), "/abs");
}

#[test]
fn entries_compare_by_all_fields() {
    assert!(file(b"x") == file(b"x"));
    assert!(file(b"x") != file(b"y"));
    let other_owner = SnapshotEntry::new(
        FileKind::File,
        Some(SnapshotEntryMetadata { uid: 0, gid: 1000, readonly: false }),
        Some(b"x"),
        None,
    );
    assert!(file(b"x") != other_owner);
    assert!(SnapshotEntry::default() == SnapshotEntry::new(FileKind::Directory, None, None, None));
}

#[test]
fn replaying_a_layer_over_the_old_paths_gives_the_new_paths() {
    let a = entries(&[("keep", b"1"), ("change", b"2"), ("gone", b"3"), ("dir/old", b"4")]);
    let b = entries(&[("keep", b"1"), ("change", b"x"), ("new", b"5"), ("dir/new", b"6")]);
    let base = Snapshot::init("/s1".to_string()).unwrap();
    let next = Snapshot::init("/s2".to_string()).unwrap();
    let mut paths: BTreeSet<String> = ["keep", "change", "gone", "dir/old"].iter().map(|s| s.to_string()).collect();
    for e in base.diff(&next, &a, &b).layer_entries() {
        let ty = if e.role == EntryRole::Directory { TarEntryType::Directory } else { TarEntryType::File };
        match tar_action(e.name, "", ty) {
            TarAction::Remove(p) => {
                paths.remove(&p);
            }
            TarAction::WriteFile(p) | TarAction::CreateDir(p) | TarAction::CreateSymlink(p) => {
                paths.insert(p);
            }
            TarAction::Skip => {}
        }
    }
    let expected: BTreeSet<String> = ["keep", "change", "new", "dir/new"].iter().map(|s| s.to_string()).collect();
    assert_eq!(paths, expected);
}

#[test]
fn directory_entries_hold_nothing() {
    let d = SnapshotEntry::new(FileKind::Directory, meta(), None, None);
    assert_eq!(d.metadata, None);
    assert_eq!(d.fingerprint, None);
    assert_eq!(d.target, None);
    assert!(d == SnapshotEntry::default());
    let f = SnapshotEntry::new(FileKind::File, meta(), None, None);
    assert_eq!(f.metadata, meta());
}

#[test]
fn replaying_all_layers_of_a_build_over_an_empty_tree_gives_the_last_snapshot() {
    let states = vec![
        entries(&[]),
        entries(&[("a", b"1"), ("d/x", b"2")]),
        entries(&[("a", b"3"), ("b", b"4")]),
    ];
    let mut paths: BTreeSet<String> = BTreeSet::new();
    for i in 0..2 {
        let prev = Snapshot::init(format!("/s{}", i)).unwrap();
        let next = Snapshot::init(format!("/s{}", i + 1)).unwrap();
        for e in prev.diff(&next, &states[i], &states[i + 1]).layer_entries() {
            let ty = if e.role == EntryRole::Directory { TarEntryType::Directory } else { TarEntryType::File };
            match tar_action(e.name, "", ty) {
                TarAction::Remove(p) => {
                    paths.remove(&p);
                }
                TarAction::WriteFile(p) | TarAction::CreateDir(p) | TarAction::CreateSymlink(p) => {
                    paths.insert(p);
                }
                TarAction::Skip => {}
            }
        }
    }
    let expected: BTreeSet<String> = ["a", "b"].iter().map(|s| s.to_string()).collect();
    assert_eq!(paths, expected);
}
