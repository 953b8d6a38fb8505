use ignite_server::index::{
    apply_paths, build_tree, event_json, event_text, tree_to_value, ChangeKind, Meta, NodeType,
    PathState, Tree, TreeEntry, VaultIndex,
};
use ignite_server::json::to_value;
use serde_json::Value;
use std::time::{Duration, Instant};

fn file(rel: &str, len: u64) -> PathState {
    PathState {
        rel: Some(rel.to_string()),
        meta: Some(Meta { is_dir: false, len, modified: Some(1000), created: Some(2000) }),
    }
}

fn dir(rel: &str) -> PathState {
    PathState {
        rel: Some(rel.to_string()),
        meta: Some(Meta { is_dir: true, len: 4096, modified: Some(1), created: None }),
    }
}

fn gone(rel: &str) -> PathState {
    PathState { rel: Some(rel.to_string()), meta: None }
}

fn names(t: &Tree) -> Vec<String> {
    t.keys()
}

#[test]
fn builds_tree_in_ignis_shape() {
    let root = PathState { rel: Some(String::new()), meta: dir("x").meta };
    let outside = PathState { rel: None, meta: dir("x").meta };
    let tree = build_tree(&vec![
        root,
        outside,
        file("a.md", 5),
        dir("sub"),
        file("sub\\b.md", 7),
        gone("vanished.md"),
    ]);

    let sub = tree.get("sub").expect("sub dir present");
    assert_eq!(sub.node_type, NodeType::Directory);
    assert_eq!(sub.size, None);

    let a = tree.get("a.md").expect("a.md present");
    assert_eq!(a.node_type, NodeType::File);
    assert_eq!(a.size, Some(5));
    assert!(a.mtime.is_some() && a.ctime.is_some());

    let b = tree.get("sub/b.md").expect("nested file present with posix key");
    assert_eq!(b.node_type, NodeType::File);
    assert_eq!(b.size, Some(7));

    assert!(names(&tree).iter().all(|k| !k.starts_with('/') && !k.contains('\\')));
    assert_eq!(tree.len(), 3);
}

#[test]
fn a_file_without_time_of_creation_takes_that_of_modification() {
    let mut p = file("a", 1);
    p.meta = Some(Meta { is_dir: false, len: 1, modified: Some(7), created: None });
    assert_eq!(build_tree(&vec![p]).get("a").unwrap().ctime, Some(7));
}

#[test]
fn serializes_tree_in_ignis_json_shape() {
    let mut tree = Tree::new();
    tree.insert(
        "sub".into(),
        TreeEntry { node_type: NodeType::Directory, size: None, mtime: None, ctime: None },
    );
    tree.insert(
        "a.md".into(),
        TreeEntry {
            node_type: NodeType::File,
            size: Some(5),
            mtime: Some(1000),
            ctime: Some(2000),
        },
    );

    let v = tree_to_value(&tree);

    let mut expected = serde_json::Map::new();
    expected.insert("type".to_string(), Value::from("directory"));
    assert_eq!(v["sub"], Value::Object(expected));
    assert_eq!(v["sub"].as_object().unwrap().len(), 1);
    let mut expected = serde_json::Map::new();
    expected.insert("type".to_string(), Value::from("file"));
    expected.insert("size".to_string(), Value::from(5));
    expected.insert("mtime".to_string(), Value::from(1000.0));
    expected.insert("ctime".to_string(), Value::from(2000.0));
    assert_eq!(v["a.md"], Value::Object(expected));
    assert_eq!(v["a.md"]["mtime"].to_string(), "1000.0");
}

#[test]
fn vault_index_snapshot_matches_a_direct_build() {
    let found = vec![file("a.md", 2), dir("sub")];
    let idx = VaultIndex::build("/vaults/Games", &found);
    assert_eq!(idx.tree().len(), build_tree(&found).len());
    assert!(idx.tree().contains_key("a.md"));
    assert_eq!(idx.root(), "/vaults/Games");
}

#[test]
fn live_index_reflects_a_created_file() {
    let mut idx = VaultIndex::build_live("/v", &vec![file("a.md", 2)]);
    assert_eq!(idx.tree().len(), 1);
    assert!(idx.tree().contains_key("a.md"));
    let events = idx.apply(&vec![file("b.md", 3)]);
    assert!(idx.tree().contains_key("b.md"));
    assert_eq!(events.len(), 1);
    assert_eq!(events[0].kind, ChangeKind::Created);
}

#[test]
fn live_index_reflects_a_modified_file() {
    let mut idx = VaultIndex::build("/v", &vec![file("a.md", 2)]);
    assert_eq!(idx.tree().get("a.md").unwrap().size, Some(2));
    let events = idx.apply(&vec![file("a.md", 19)]);
    assert_eq!(idx.tree().get("a.md").unwrap().size, Some(19));
    assert_eq!(events[0].kind, ChangeKind::Modified);
}

#[test]
fn live_index_reflects_a_deleted_file() {
    let mut idx = VaultIndex::build("/v", &vec![file("a.md", 2)]);
    let events = idx.apply(&vec![gone("a.md"), gone("a.md")]);
    assert!(!idx.tree().contains_key("a.md"));
    assert_eq!(events.len(), 1);
    assert_eq!(events[0].kind, ChangeKind::Deleted);
}

#[test]
fn live_index_reflects_a_rename() {
    let mut idx = VaultIndex::build("/v", &vec![file("old.md", 2)]);
    idx.apply(&vec![gone("old.md"), file("new.md", 2)]);
    assert!(!idx.tree().contains_key("old.md") && idx.tree().contains_key("new.md"));
}

#[test]
fn live_index_reflects_a_created_directory() {
    let mut idx = VaultIndex::build_live("/v", &vec![]);
    let events = idx.apply(&vec![dir("folder"), dir("folder")]);
    assert_eq!(idx.tree().get("folder").map(|e| e.node_type), Some(NodeType::Directory));
    assert_eq!(events.len(), 1);
    assert_eq!(events[0].kind, ChangeKind::FolderCreated);
}

#[test]
fn a_deleted_folder_takes_what_is_below_it() {
    let mut tree = build_tree(&vec![
        dir("sub"),
        file("sub/a", 1),
        dir("sub/deep"),
        file("sub/deep/b", 1),
        file("sub.md", 1),
        file("subway/c", 1),
    ]);
    apply_paths(&mut tree, &vec![gone("sub")]);
    assert_eq!(names(&tree), vec!["sub.md".to_string(), "subway/c".to_string()]);
}

#[test]
fn reconcile_resyncs_after_a_missed_change() {
    let mut idx = VaultIndex::build("/v", &vec![file("a.md", 2)]);
    assert!(idx.tree().contains_key("a.md"));
    assert!(!idx.tree().contains_key("c.md"), "static index must not silently auto-update");
    idx.reconcile(&vec![file("a.md", 2), file("c.md", 24)]);
    assert!(
        idx.tree().contains_key("c.md"),
        "reconcile must re-sync the index to disk (no silent divergence)"
    );
}

#[test]
fn ws_streams_a_created_event() {
    let mut idx = VaultIndex::build("/v", &vec![file("a.md", 5)]);
    let events = idx.apply(&vec![file("z.md", 5)]);
    let ev: Value = serde_json::from_str(&event_text(&events[0])).unwrap();
    assert_eq!(ev["type"], "created");
    assert_eq!(ev["path"], "z.md");
    assert_eq!(ev["stat"]["size"], 5);
    assert!(ev["stat"]["mtime"].is_number());
    assert!(ev["stat"]["ctime"].is_number());
}

#[test]
fn ws_streams_a_modified_event() {
    let mut idx = VaultIndex::build("/v", &vec![file("a.md", 5)]);
    let ev = to_value(&event_json(&idx.apply(&vec![file("a.md", 19)])[0]));
    assert_eq!(ev["type"], "modified");
    assert_eq!(ev["path"], "a.md");
    assert_eq!(ev["stat"]["size"], 19);
}

#[test]
fn ws_streams_a_deleted_event() {
    let mut idx = VaultIndex::build("/v", &vec![file("a.md", 5)]);
    let ev = to_value(&event_json(&idx.apply(&vec![gone("a.md")])[0]));
    assert_eq!(ev["type"], "deleted");
    assert_eq!(ev["path"], "a.md");
    assert!(ev.get("stat").is_none(), "deleted carries no stat");
}

#[test]
fn ws_streams_a_folder_created_event() {
    let mut idx = VaultIndex::build("/v", &vec![file("a.md", 5)]);
    let ev = to_value(&event_json(&idx.apply(&vec![dir("newdir")])[0]));
    assert_eq!(ev["type"], "folder-created");
    assert_eq!(ev["path"], "newdir");
    assert!(ev.get("stat").is_none(), "folder-created carries no stat");
}

#[test]
fn changes_without_a_key_are_passed_over() {
    let mut tree = build_tree(&vec![file("a", 1)]);
    let root = PathState { rel: Some(String::new()), meta: None };
    let outside = PathState { rel: None, meta: None };
    assert!(apply_paths(&mut tree, &vec![root, outside]).is_empty());
    assert_eq!(tree.len(), 1);
}

/// What a walk meets in `dirs` directories of `files_per_dir` notes each.
fn synthetic_vault(dirs: usize, files_per_dir: usize) -> Vec<PathState> {
    let mut found = Vec::new();
    for d in 0..dirs {
        found.push(dir(&format!("dir{d:04}")));
        for f in 0..files_per_dir {
            found.push(file(&format!("dir{d:04}/note{f}.md"), 20));
        }
    }
    found
}

#[test]
fn cold_build_under_1s_for_2500_file_vault() {
    let found = synthetic_vault(400, 6);
    let start = Instant::now();
    let idx = VaultIndex::build("/v", &found);
    let elapsed = start.elapsed();
    let entries = idx.tree().len();
    assert!(entries >= 2400, "expected ~2,400+ entries, got {entries}");
    assert!(elapsed < Duration::from_secs(1), "cold build took {elapsed:?}");
}

#[test]
fn warm_serve_under_50ms_for_2500_file_vault() {
    let idx = VaultIndex::build("/v", &synthetic_vault(400, 6));
    let tree = idx.tree();
    let start = Instant::now();
    let json = tree_to_value(tree);
    let elapsed = start.elapsed();
    assert!(json.as_object().unwrap().len() >= 2400);
    assert!(elapsed < Duration::from_millis(50), "warm serve took {elapsed:?}");
}

#[test]
fn vault_index_serves_cached_snapshot_not_live_disk() {
    let mut found = vec![file("a.md", 2)];
    let idx = VaultIndex::build("/v", &found);
    found.push(file("b.md", 3));
    assert!(idx.tree().contains_key("a.md"));
    assert!(!idx.tree().contains_key("b.md"));
}
