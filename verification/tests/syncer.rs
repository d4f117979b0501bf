use phaneros::blob_repository::{BlobRepository, InMemoryBlobRepository, WritableBlobRepository};
use phaneros::model::{Blob, BlobRef, Entry, Node};
use phaneros::node_repository::{InMemoryNodeRepository, NodeRepository, WritableNodeRepository};
use phaneros::telemetry::SyncPhase;
use phaneros::syncer::{
    bootstrap_pull, local_push, next_root_after_rescan, pass_phases, plan_sync, reconcile, remote_pull, SyncError,
    SyncPlan, SyncerActivity, SyncerStatus,
};

fn hash_of(text: &str) -> String {
    blake3::hash(text.as_bytes()).to_hex().to_string()
}

/// One side of a sync: a node store and a blob store.
struct Side {
    nodes: InMemoryNodeRepository,
    blobs: InMemoryBlobRepository,
}

impl Side {
    fn new() -> Side {
        Side { nodes: InMemoryNodeRepository::new(), blobs: InMemoryBlobRepository::new() }
    }

    fn add_file(&mut self, name: &str, content: &[u8]) -> Entry {
        let blob_hash = blake3::hash(content).to_hex().to_string();
        self.blobs
            .insert(blob_hash.clone(), Blob { bytes: content.to_vec() })
            .unwrap();
        let hash = hash_of(&format!("file:{}", blob_hash));
        let node = Node::file(vec![BlobRef { hash: blob_hash, size: content.len() as u64 }]);
        self.nodes.insert(hash.clone(), node).unwrap();
        Entry::new(name, hash)
    }

    fn add_folder(&mut self, name: &str, folders: Vec<Entry>, files: Vec<Entry>) -> Entry {
        let mut text = String::from("folder:");
        for e in folders.iter().chain(files.iter()) {
            text.push_str(&e.name);
            text.push('=');
            text.push_str(&e.hash);
            text.push(';');
        }
        let hash = hash_of(&text);
        self.nodes.insert(hash.clone(), Node::folder(folders, files)).unwrap();
        Entry::new(name, hash)
    }
}

fn blob_hash(content: &[u8]) -> String {
    blake3::hash(content).to_hex().to_string()
}

#[test]
fn local_push_copies_missing_nodes_and_blobs_and_sets_root() {
    let mut local = Side::new();
    let file = local.add_file("a.txt", b"payload");
    let root = local.add_folder("root", vec![], vec![file.clone()]);
    let mut remote = Side::new();

    let moved = local_push(&local.nodes, &mut remote.nodes, &local.blobs, &mut remote.blobs, &root.hash).unwrap();

    assert_eq!(moved, 2);
    assert_eq!(remote.nodes.root_hash().unwrap(), Some(root.hash.clone()));
    assert!(remote.nodes.get_node(&root.hash).unwrap().is_some());
    assert!(remote.nodes.get_node(&file.hash).unwrap().is_some());
    assert!(remote.blobs.contains(&blob_hash(b"payload")).unwrap());
}

#[test]
fn local_push_identical_stores_transfers_nothing_but_updates_root() {
    let mut local = Side::new();
    let file = local.add_file("a.txt", b"same");
    let root = local.add_folder("root", vec![], vec![file]);

    let mut remote = Side::new();
    let old_file = remote.add_file("a.txt", b"older");
    let old = remote.add_folder("root", vec![], vec![old_file]);
    let r_file = remote.add_file("a.txt", b"same");
    let r_root = remote.add_folder("root", vec![], vec![r_file]);
    assert_eq!(r_root.hash, root.hash);
    remote.nodes.set_root(old.hash.clone()).unwrap();

    let moved = local_push(&local.nodes, &mut remote.nodes, &local.blobs, &mut remote.blobs, &root.hash).unwrap();

    assert_eq!(moved, 0);
    assert_eq!(remote.nodes.root_hash().unwrap(), Some(root.hash.clone()));
}

#[test]
fn local_push_preserves_previous_version_nodes() {
    let mut v1 = Side::new();
    let file_v1 = v1.add_file("doc.txt", b"v1");
    let root_v1 = v1.add_folder("root", vec![], vec![file_v1.clone()]);
    let mut remote = Side::new();
    local_push(&v1.nodes, &mut remote.nodes, &v1.blobs, &mut remote.blobs, &root_v1.hash).unwrap();

    let mut v2 = Side::new();
    let file_v2 = v2.add_file("doc.txt", b"v2");
    let root_v2 = v2.add_folder("root", vec![], vec![file_v2]);
    local_push(&v2.nodes, &mut remote.nodes, &v2.blobs, &mut remote.blobs, &root_v2.hash).unwrap();

    assert_eq!(remote.nodes.root_hash().unwrap(), Some(root_v2.hash.clone()));
    assert!(remote.nodes.get_node(&root_v1.hash).unwrap().is_some());
    assert!(remote.nodes.get_node(&file_v1.hash).unwrap().is_some());
}

#[test]
fn remote_pull_copies_missing_nodes_and_blobs_and_sets_root() {
    let mut remote = Side::new();
    let file = remote.add_file("from-remote.txt", b"payload");
    let root = remote.add_folder("root", vec![], vec![file.clone()]);
    let mut local = Side::new();

    let moved = remote_pull(&mut local.nodes, &remote.nodes, &mut local.blobs, &remote.blobs, &root.hash).unwrap();

    assert_eq!(moved, 2);
    assert_eq!(local.nodes.root_hash().unwrap(), Some(root.hash.clone()));
    assert!(local.nodes.get_node(&file.hash).unwrap().is_some());
    assert!(local.blobs.contains(&blob_hash(b"payload")).unwrap());
}

#[test]
fn remote_pull_identical_stores_transfers_nothing_but_updates_root() {
    let mut remote = Side::new();
    let file = remote.add_file("doc.txt", b"same");
    let root = remote.add_folder("root", vec![], vec![file]);

    let mut local = Side::new();
    let old_file = local.add_file("doc.txt", b"old");
    let old = local.add_folder("root", vec![], vec![old_file]);
    let l_file = local.add_file("doc.txt", b"same");
    let l_root = local.add_folder("root", vec![], vec![l_file]);
    assert_eq!(l_root.hash, root.hash);
    local.nodes.set_root(old.hash).unwrap();

    let moved = remote_pull(&mut local.nodes, &remote.nodes, &mut local.blobs, &remote.blobs, &root.hash).unwrap();

    assert_eq!(moved, 0);
    assert_eq!(local.nodes.root_hash().unwrap(), Some(root.hash.clone()));
}

#[test]
fn bootstrap_pull_copies_remote_state_into_local() {
    let mut remote = Side::new();
    let file = remote.add_file("from-remote.txt", b"payload");
    let root = remote.add_folder("root", vec![], vec![file.clone()]);

    let mut local = Side::new();
    let stale = local.add_file("stale.txt", b"stale");
    let stale_root = local.add_folder("root", vec![], vec![stale]);
    local.nodes.set_root(stale_root.hash).unwrap();

    bootstrap_pull(&mut local.nodes, &remote.nodes, &mut local.blobs, &remote.blobs, &root.hash).unwrap();

    assert_eq!(local.nodes.root_hash().unwrap(), Some(root.hash.clone()));
    assert!(local.nodes.get_node(&file.hash).unwrap().is_some());
}

#[test]
fn local_push_missing_source_blob_aborts_before_root_flip() {
    let mut remote = Side::new();
    let old_file = remote.add_file("doc.txt", b"old");
    let old_root = remote.add_folder("root", vec![], vec![old_file]);
    remote.nodes.set_root(old_root.hash.clone()).unwrap();

    let mut local = Side::new();
    let file = local.add_file("doc.txt", b"new bytes");
    let root = local.add_folder("root", vec![], vec![file.clone()]);
    local.blobs = InMemoryBlobRepository::new();

    let result = local_push(&local.nodes, &mut remote.nodes, &local.blobs, &mut remote.blobs, &root.hash);

    assert!(matches!(result, Err(SyncError::MissingSourceBlob { .. })));
    assert_eq!(remote.nodes.root_hash().unwrap(), Some(old_root.hash.clone()));
    assert!(remote.nodes.get_node(&root.hash).unwrap().is_none());
    assert!(remote.nodes.get_node(&file.hash).unwrap().is_none());
}

#[test]
fn remote_pull_missing_source_blob_aborts_before_root_flip() {
    let mut local = Side::new();
    let old_file = local.add_file("doc.txt", b"old");
    let old_root = local.add_folder("root", vec![], vec![old_file]);
    local.nodes.set_root(old_root.hash.clone()).unwrap();

    let mut remote = Side::new();
    let file = remote.add_file("doc.txt", b"new bytes");
    let root = remote.add_folder("root", vec![], vec![file.clone()]);
    remote.blobs = InMemoryBlobRepository::new();

    let result = remote_pull(&mut local.nodes, &remote.nodes, &mut local.blobs, &remote.blobs, &root.hash);

    assert!(matches!(result, Err(SyncError::MissingSourceBlob { .. })));
    assert_eq!(local.nodes.root_hash().unwrap(), Some(old_root.hash.clone()));
    assert!(local.nodes.get_node(&root.hash).unwrap().is_none());
    assert!(local.nodes.get_node(&file.hash).unwrap().is_none());
}

#[test]
fn local_push_of_a_missing_root_node_fails_and_keeps_the_root() {
    let local = Side::new();
    let mut remote = Side::new();
    let kept = remote.add_folder("root", vec![], vec![]);
    remote.nodes.set_root(kept.hash.clone()).unwrap();
    let absent = hash_of("never stored");

    let result = local_push(&local.nodes, &mut remote.nodes, &local.blobs, &mut remote.blobs, &absent);

    assert!(matches!(result, Err(SyncError::MissingSourceNode { .. })));
    assert_eq!(remote.nodes.root_hash().unwrap(), Some(kept.hash));
}

#[test]
fn nested_folders_move_whole() {
    let mut local = Side::new();
    let a = local.add_file("a.txt", b"a");
    let b = local.add_file("b.txt", b"b");
    let inner = local.add_folder("inner", vec![], vec![b.clone()]);
    let root = local.add_folder("root", vec![inner.clone()], vec![a.clone()]);
    let mut remote = Side::new();

    let moved = local_push(&local.nodes, &mut remote.nodes, &local.blobs, &mut remote.blobs, &root.hash).unwrap();

    assert_eq!(moved, 4);
    for h in [&root.hash, &inner.hash, &a.hash, &b.hash] {
        assert!(remote.nodes.get_node(h).unwrap().is_some());
    }
    assert_eq!(remote.blobs.len(), 2);
}

#[test]
fn plan_follows_the_three_roots() {
    let a = String::from("a");
    let b = String::from("b");
    let c = String::from("c");
    assert_eq!(plan_sync(None, &a, None), SyncPlan::LocalPush);
    assert_eq!(plan_sync(None, &a, Some(&b)), SyncPlan::RemoteBootstrapPull);
    assert_eq!(plan_sync(Some(&a), &b, Some(&b)), SyncPlan::Converged);
    assert_eq!(plan_sync(Some(&a), &a, None), SyncPlan::LocalPush);
    assert_eq!(plan_sync(Some(&a), &a, Some(&b)), SyncPlan::RemotePull);
    assert_eq!(plan_sync(Some(&a), &b, Some(&a)), SyncPlan::LocalPush);
    assert_eq!(plan_sync(Some(&a), &b, Some(&c)), SyncPlan::Merge);
}

#[test]
fn plan_is_symmetric_in_local_and_remote_when_both_moved() {
    let a = String::from("a");
    let b = String::from("b");
    let c = String::from("c");
    assert_eq!(plan_sync(Some(&a), &b, Some(&c)), plan_sync(Some(&a), &c, Some(&b)));
}

#[test]
fn reconcile_pushes_a_local_change() {
    let mut local = Side::new();
    let base_file = local.add_file("doc.txt", b"v1");
    let base = local.add_folder("root", vec![], vec![base_file]);
    let file = local.add_file("doc.txt", b"v2");
    let root = local.add_folder("root", vec![], vec![file]);
    let mut remote = Side::new();
    local_push(&local.nodes, &mut remote.nodes, &local.blobs, &mut remote.blobs, &base.hash).unwrap();

    let (plan, converged) = reconcile(
        &mut local.nodes,
        &mut remote.nodes,
        &mut local.blobs,
        &mut remote.blobs,
        Some(&base.hash),
        &root.hash,
        Some(&base.hash),
    );

    assert_eq!(plan, SyncPlan::LocalPush);
    assert_eq!(converged, Some(root.hash.clone()));
    assert_eq!(remote.nodes.root_hash().unwrap(), Some(root.hash));
}

#[test]
fn reconcile_leaves_diverged_sides_alone() {
    let mut local = Side::new();
    let mut remote = Side::new();
    let base = String::from("base");
    let l = local.add_folder("root", vec![], vec![]);
    let x = remote.add_folder("x", vec![], vec![]);
    let r = remote.add_folder("other", vec![x], vec![]);
    remote.nodes.set_root(r.hash.clone()).unwrap();

    let (plan, converged) = reconcile(
        &mut local.nodes,
        &mut remote.nodes,
        &mut local.blobs,
        &mut remote.blobs,
        Some(&base),
        &l.hash,
        Some(&r.hash),
    );

    assert_eq!(plan, SyncPlan::Merge);
    assert_eq!(converged, None);
    assert_eq!(remote.nodes.root_hash().unwrap(), Some(r.hash));
    assert_eq!(local.nodes.root_hash().unwrap(), None);
}

#[test]
fn a_rescan_that_matches_needs_no_new_pass() {
    let root = String::from("root");
    assert_eq!(next_root_after_rescan(&root, Some(String::from("root"))), None);
    assert_eq!(next_root_after_rescan(&root, Some(String::from("edited"))), Some(String::from("edited")));
    assert_eq!(next_root_after_rescan(&root, None), None);
}

#[test]
fn a_busy_syncer_remembers_changes() {
    let mut status = SyncerStatus::new();
    assert!(status.try_begin());
    assert_eq!(status.value, SyncerActivity::Reconciling);
    assert!(!status.try_begin());
    assert!(status.is_dirty);
    status.finish();
    assert_eq!(status.value, SyncerActivity::Idle);
    assert!(!status.is_dirty);
}

#[test]
fn reconcile_pulls_the_whole_remote_tree() {
    let mut remote = Side::new();
    let base_file = remote.add_file("doc.txt", b"v1");
    let base = remote.add_folder("root", vec![], vec![base_file]);
    let file = remote.add_file("notes.md", b"fresh notes");
    let sub = remote.add_folder("sub", vec![], vec![file.clone()]);
    let root = remote.add_folder("root", vec![sub.clone()], vec![]);
    remote.nodes.set_root(root.hash.clone()).unwrap();
    let mut local = Side::new();
    remote_pull(&mut local.nodes, &remote.nodes, &mut local.blobs, &remote.blobs, &base.hash).unwrap();
    let remote_nodes_before = remote.nodes.len();

    let (plan, converged) = reconcile(
        &mut local.nodes,
        &mut remote.nodes,
        &mut local.blobs,
        &mut remote.blobs,
        Some(&base.hash),
        &base.hash,
        Some(&root.hash),
    );

    assert_eq!(plan, SyncPlan::RemotePull);
    assert_eq!(converged, Some(root.hash.clone()));
    assert_eq!(local.nodes.root_hash().unwrap(), Some(root.hash.clone()));
    assert!(local.nodes.get_node(&sub.hash).unwrap().is_some());
    assert!(local.nodes.get_node(&file.hash).unwrap().is_some());
    assert!(local.blobs.contains(&blob_hash(b"fresh notes")).unwrap());
    assert_eq!(remote.nodes.len(), remote_nodes_before);
}

#[test]
fn reconcile_does_not_converge_when_a_pushed_blob_is_missing() {
    let mut remote = Side::new();
    let old_file = remote.add_file("doc.txt", b"old");
    let base = remote.add_folder("root", vec![], vec![old_file]);
    remote.nodes.set_root(base.hash.clone()).unwrap();
    let mut local = Side::new();
    let file = local.add_file("doc.txt", b"new bytes");
    let root = local.add_folder("root", vec![], vec![file]);
    local.blobs = InMemoryBlobRepository::new();

    let (plan, converged) = reconcile(
        &mut local.nodes,
        &mut remote.nodes,
        &mut local.blobs,
        &mut remote.blobs,
        Some(&base.hash),
        &root.hash,
        Some(&base.hash),
    );

    assert_eq!(plan, SyncPlan::LocalPush);
    assert_eq!(converged, None);
    assert_eq!(remote.nodes.root_hash().unwrap(), Some(base.hash));
    assert!(remote.nodes.get_node(&root.hash).unwrap().is_none());
}

#[test]
fn a_blob_store_keeps_the_first_blob_under_a_hash() {
    let mut blobs = InMemoryBlobRepository::new();
    blobs.insert_internal("h".to_string(), Blob { bytes: b"first".to_vec() }).unwrap();
    assert_eq!(blobs.len(), 1);
    blobs.insert_internal("h".to_string(), Blob { bytes: b"second".to_vec() }).unwrap();
    assert_eq!(blobs.len(), 1);
    assert_eq!(blobs.get_blob(&"h".to_string()).unwrap().unwrap().bytes, b"first".to_vec());
    blobs.insert_internal("g".to_string(), Blob { bytes: b"other".to_vec() }).unwrap();
    assert_eq!(blobs.len(), 2);
}

#[test]
fn reconcile_pulls_the_root_the_remote_reports_now() {
    let mut remote = Side::new();
    let base = remote.add_folder("root", vec![], vec![]);
    let older = remote.add_file("a.txt", b"older");
    let planned = remote.add_folder("root", vec![], vec![older]);
    let newer = remote.add_file("a.txt", b"newer");
    let current = remote.add_folder("root", vec![], vec![newer]);
    remote.nodes.set_root(current.hash.clone()).unwrap();
    let mut local = Side::new();

    let (plan, converged) = reconcile(
        &mut local.nodes,
        &mut remote.nodes,
        &mut local.blobs,
        &mut remote.blobs,
        Some(&base.hash),
        &base.hash,
        Some(&planned.hash),
    );

    assert_eq!(plan, SyncPlan::RemotePull);
    assert_eq!(converged, Some(current.hash.clone()));
    assert_eq!(local.nodes.root_hash().unwrap(), Some(current.hash));
    assert!(local.nodes.get_node(&planned.hash).unwrap().is_none());
}

#[test]
fn reconcile_without_a_remote_root_does_not_pull() {
    let mut remote = Side::new();
    let planned = remote.add_folder("root", vec![], vec![]);
    let mut local = Side::new();
    let l = local.add_folder("local", vec![], vec![]);

    let (plan, converged) = reconcile(
        &mut local.nodes,
        &mut remote.nodes,
        &mut local.blobs,
        &mut remote.blobs,
        None,
        &l.hash,
        Some(&planned.hash),
    );

    assert_eq!(plan, SyncPlan::RemoteBootstrapPull);
    assert_eq!(converged, None);
    assert_eq!(local.nodes.root_hash().unwrap(), None);
}

#[test]
fn a_pass_reports_its_phases() {
    assert_eq!(
        pass_phases(SyncPlan::LocalPush, true),
        vec![SyncPhase::Diffing, SyncPhase::UploadingPayloads, SyncPhase::Materializing, SyncPhase::Converged]
    );
    assert_eq!(pass_phases(SyncPlan::RemotePull, false), vec![SyncPhase::Diffing, SyncPhase::Failed]);
    assert_eq!(
        pass_phases(SyncPlan::Converged, true),
        vec![SyncPhase::Diffing, SyncPhase::Materializing, SyncPhase::Converged]
    );
}
