//! Sync planning and the transfer of trees between stores.
use vstd::prelude::*;

use crate::blob_repository::{BlobRepository, BlobRepositoryError, WritableBlobRepository};
use crate::model::{
    contains_hash, hashes_view, is_missing_list, node_blobs, node_children, option_view, BlobRef,
    Entry, Node, NodeView,
};
use crate::node_repository::{
    stored_if_absent, NodeRepository, NodeRepositoryError, WritableNodeRepository,
};
use crate::telemetry::SyncPhase;

verus! {

/// Why a sync step failed.
#[derive(Debug, Clone, PartialEq)]
pub enum SyncError {
    /// The source lacks a blob that one of its file nodes refers to. The data
    /// is gone: retrying will not help.
    MissingSourceBlob { hash: String },
    /// The source lacks a node that it was asked to hand over.
    MissingSourceNode { hash: String },
    MergeNotImplemented,
    /// A node store could not be reached, read or written.
    NodeRepository(NodeRepositoryError),
    /// A blob store could not be reached, read or written.
    BlobRepository(BlobRepositoryError),
}

/// High-level sync decision derived from the base, local and remote roots.
#[derive(Debug, Clone, Copy, PartialEq, Eq, Structural)]
pub enum SyncPlan {
    /// No base root is known yet and the remote has one: take the remote.
    RemoteBootstrapPull,
    /// Local and remote already match.
    Converged,
    /// The remote changed while the local side stayed at the base.
    RemotePull,
    /// The local side changed while the remote stayed at the base, or there
    /// is no remote root to pull.
    LocalPush,
    /// Both sides moved away from the base.
    Merge,
}

/// The plan for base root `base`, local root `local` and remote root `remote`.
pub open spec fn planned(base: Option<Seq<char>>, local: Seq<char>, remote: Option<Seq<char>>) -> SyncPlan {
    if base is None {
        if remote is None {
            SyncPlan::LocalPush
        } else {
            SyncPlan::RemoteBootstrapPull
        }
    } else if remote == Some(local) {
        SyncPlan::Converged
    } else if remote is None {
        SyncPlan::LocalPush
    } else if base == Some(local) && base != remote {
        SyncPlan::RemotePull
    } else if base != Some(local) && base == remote {
        SyncPlan::LocalPush
    } else {
        SyncPlan::Merge
    }
}

/// Computes the next sync action from the last converged root `base_root`,
/// the current local root `local_root` and the remote store's root
/// `remote_root` (`None` if never set).
pub fn plan_sync(base_root: Option<&String>, local_root: &String, remote_root: Option<&String>) -> (r:
    SyncPlan)
    ensures
        r == planned(
            match base_root {
                Some(b) => Some(b@),
                None => None,
            },
            local_root@,
            match remote_root {
                Some(x) => Some(x@),
                None => None,
            },
        ),
{
    if base_root.is_none() {
        return if remote_root.is_none() {
            SyncPlan::LocalPush
        } else {
            SyncPlan::RemoteBootstrapPull
        };
    }
    let base = base_root.unwrap();
    let remote = match remote_root {
        Some(x) => x,
        None => {
            return SyncPlan::LocalPush;
        },
    };
    if *remote == *local_root {
        return SyncPlan::Converged;
    }
    let base_eq_local = *base == *local_root;
    let base_eq_remote = *base == *remote;
    if base_eq_local && !base_eq_remote {
        SyncPlan::RemotePull
    } else if !base_eq_local && base_eq_remote {
        SyncPlan::LocalPush
    } else {
        SyncPlan::Merge
    }
}

/// Once a base root is known, matching local and remote roots mean there is
/// nothing to do.
pub proof fn lemma_plan_converges(base: Seq<char>, root: Seq<char>)
    ensures
        planned(Some(base), root, Some(root)) == SyncPlan::Converged,
{
}

/// The plan is symmetric: exchanging the local and remote roots exchanges a
/// pull for a push, and leaves a merge or a convergence as it is.
pub proof fn lemma_plan_symmetric(base: Seq<char>, local: Seq<char>, remote: Seq<char>)
    ensures
        planned(Some(base), local, Some(remote)) == SyncPlan::RemotePull <==> planned(
            Some(base),
            remote,
            Some(local),
        ) == SyncPlan::LocalPush,
        planned(Some(base), local, Some(remote)) == SyncPlan::Merge <==> planned(
            Some(base),
            remote,
            Some(local),
        ) == SyncPlan::Merge,
        planned(Some(base), local, Some(remote)) == SyncPlan::Converged <==> planned(
            Some(base),
            remote,
            Some(local),
        ) == SyncPlan::Converged,
{
}

/// Without a remote root there is nothing to pull: the local tree is pushed.
pub proof fn lemma_plan_without_remote_pushes(base: Option<Seq<char>>, local: Seq<char>)
    ensures
        planned(base, local, None) == SyncPlan::LocalPush,
{
}

/// A store is closed when every node it holds has its child nodes in the
/// store and its blobs in the companion blob store: its trees are complete.
pub open spec fn closed_store(nodes: Map<Seq<char>, NodeView>, blobs: Set<Seq<char>>) -> bool {
    &&& forall|h: Seq<char>, c: Seq<char>|
        nodes.contains_key(h) && #[trigger] node_children(nodes[h]).contains(c) ==> nodes.contains_key(c)
    &&& forall|h: Seq<char>, b: Seq<char>|
        nodes.contains_key(h) && #[trigger] node_blobs(nodes[h]).contains(b) ==> blobs.contains(b)
}

/// What must move from a source to a target so that the target holds the
/// tree under `root`: the nodes `nodes` that the target lacks (each held by
/// the source, each once), and the blobs `blobs` that the target's blob
/// store lacks. Every child of a moved node is moved or already held, every
/// blob of a moved file node is moved or already held, and every moved blob
/// belongs to a moved node.
pub open spec fn is_transfer_set(
    nodes: Seq<Seq<char>>,
    blobs: Seq<Seq<char>>,
    src: Map<Seq<char>, NodeView>,
    tgt: Set<Seq<char>>,
    tgt_blobs: Set<Seq<char>>,
    root: Seq<char>,
) -> bool {
    &&& nodes.no_duplicates()
    &&& blobs.no_duplicates()
    &&& forall|h: Seq<char>| #[trigger] nodes.contains(h) ==> src.contains_key(h) && !tgt.contains(h)
    &&& tgt.contains(root) || nodes.contains(root)
    &&& forall|h: Seq<char>, c: Seq<char>|
        nodes.contains(h) && #[trigger] node_children(src[h]).contains(c) ==> nodes.contains(c)
            || tgt.contains(c)
    &&& forall|h: Seq<char>, b: Seq<char>|
        nodes.contains(h) && #[trigger] node_blobs(src[h]).contains(b) ==> blobs.contains(b)
            || tgt_blobs.contains(b)
    &&& forall|b: Seq<char>| #[trigger] blobs.contains(b) ==> !tgt_blobs.contains(b)
    &&& forall|b: Seq<char>| #[trigger]
        blobs.contains(b) ==> exists|h: Seq<char>| nodes.contains(h) && #[trigger] node_blobs(src[h]).contains(b)
}

/// `s` covers the tree under `root` as far as the target lacks it: it holds
/// `root`, and for each of its nodes the target lacks, the source holds that
/// node and `s` holds its children.
pub open spec fn covering_set(
    s: Set<Seq<char>>,
    src: Map<Seq<char>, NodeView>,
    tgt: Set<Seq<char>>,
    root: Seq<char>,
) -> bool {
    &&& s.contains(root)
    &&& forall|h: Seq<char>| #[trigger] s.contains(h) && !tgt.contains(h) ==> src.contains_key(h)
    &&& forall|h: Seq<char>, c: Seq<char>|
        s.contains(h) && !tgt.contains(h) && #[trigger] node_children(src[h]).contains(c) ==> s.contains(c)
}

/// Every blob of a node of `s` that the target lacks is held by the source
/// or already by the target.
pub open spec fn covering_blobs(
    s: Set<Seq<char>>,
    src: Map<Seq<char>, NodeView>,
    tgt: Set<Seq<char>>,
    src_blobs: Set<Seq<char>>,
    tgt_blobs: Set<Seq<char>>,
) -> bool {
    forall|h: Seq<char>, b: Seq<char>|
        s.contains(h) && !tgt.contains(h) && #[trigger] node_blobs(src[h]).contains(b) ==> src_blobs.contains(b)
            || tgt_blobs.contains(b)
}

/// The source holds every node and blob of the tree under `root` that the
/// target lacks: walking down from `root` and stopping at the nodes the
/// target holds meets nothing the source is missing.
pub open spec fn source_covers(
    src: Map<Seq<char>, NodeView>,
    src_blobs: Set<Seq<char>>,
    tgt: Set<Seq<char>>,
    tgt_blobs: Set<Seq<char>>,
    root: Seq<char>,
) -> bool {
    exists|s: Set<Seq<char>>| covering_set(s, src, tgt, root) && covering_blobs(s, src, tgt, src_blobs, tgt_blobs)
}

/// A target that already holds the root needs nothing from the source.
pub proof fn lemma_held_root_is_covered(
    src: Map<Seq<char>, NodeView>,
    src_blobs: Set<Seq<char>>,
    tgt: Set<Seq<char>>,
    tgt_blobs: Set<Seq<char>>,
    root: Seq<char>,
)
    requires
        tgt.contains(root),
    ensures
        source_covers(src, src_blobs, tgt, tgt_blobs, root),
{
    let s = Set::<Seq<char>>::empty().insert(root);
    assert(covering_set(s, src, tgt, root));
    assert(covering_blobs(s, src, tgt, src_blobs, tgt_blobs));
}

/// A closed source that holds the root holds all a target can lack of it.
pub proof fn lemma_closed_source_covers(
    src: Map<Seq<char>, NodeView>,
    src_blobs: Set<Seq<char>>,
    tgt: Set<Seq<char>>,
    tgt_blobs: Set<Seq<char>>,
    root: Seq<char>,
)
    requires
        closed_store(src, src_blobs),
        src.contains_key(root),
    ensures
        source_covers(src, src_blobs, tgt, tgt_blobs, root),
{
    let s = src.dom();
    assert(covering_set(s, src, tgt, root));
    assert(covering_blobs(s, src, tgt, src_blobs, tgt_blobs));
}

/// The source holds every node of the tree under `root` that the target
/// lacks (its blobs aside).
pub open spec fn source_covers_nodes(
    src: Map<Seq<char>, NodeView>,
    tgt: Set<Seq<char>>,
    root: Seq<char>,
) -> bool {
    exists|s: Set<Seq<char>>| covering_set(s, src, tgt, root)
}

/// What a diff owes when the stores it reads all answer: it succeeds
/// exactly when the source holds every node the target lacks of the tree,
/// and otherwise fails naming a node the source is missing.
pub open spec fn diff_owed<V>(
    answers: bool,
    src: Map<Seq<char>, NodeView>,
    tgt: Set<Seq<char>>,
    root: Seq<char>,
    r: Result<V, SyncError>,
) -> bool {
    answers ==> (r is Ok <==> source_covers_nodes(src, tgt, root)) && (r matches Err(e) ==> e is MissingSourceNode)
}

/// The nodes a transfer set moves, with those the target holds, cover the
/// tree.
proof fn lemma_transfer_set_covers(
    nodes: Seq<Seq<char>>,
    blobs: Seq<Seq<char>>,
    src: Map<Seq<char>, NodeView>,
    tgt: Set<Seq<char>>,
    tgt_blobs: Set<Seq<char>>,
    root: Seq<char>,
)
    requires
        is_transfer_set(nodes, blobs, src, tgt, tgt_blobs, root),
    ensures
        source_covers_nodes(src, tgt, root),
{
    let ws = nodes.to_set() + tgt;
    assert forall|h: Seq<char>| #[trigger] ws.contains(h) && !tgt.contains(h) implies src.contains_key(h) by {
        assert(nodes.contains(h));
    }
    assert forall|h: Seq<char>, c: Seq<char>|
        ws.contains(h) && !tgt.contains(h) && #[trigger] node_children(src[h]).contains(c) implies ws.contains(c) by {
        assert(nodes.contains(h));
        if nodes.contains(c) {
            assert(nodes.to_set().contains(c));
        }
    }
    if nodes.contains(root) {
        assert(nodes.to_set().contains(root));
    }
    assert(covering_set(ws, src, tgt, root));
}

/// The nodes and blobs to move, and the moved nodes themselves.
pub struct TransferSet {
    pub nodes: Vec<String>,
    pub blobs: Vec<String>,
    pub node_cache: Vec<(String, Node)>,
}

/// The node cache holds each moved node once, as the source holds it.
pub open spec fn is_node_cache(cache: Seq<(String, Node)>, nodes: Seq<String>, src: Map<Seq<char>, NodeView>) -> bool {
    &&& cache.len() == nodes.len()
    &&& forall|i: int|
        0 <= i < cache.len() ==> (#[trigger] cache[i]).0@ == nodes[i]@ && cache[i].1@ == src[nodes[i]@]
}

/// Appends to `pending` the hash of every entry that is not in `seen` and
/// not already pending.
fn push_unseen_entries(entries: &Vec<Entry>, seen: &Vec<String>, pending: &mut Vec<String>)
    ensures
        forall|k: int|
            0 <= k < entries@.len() ==> hashes_view(seen@).contains((#[trigger] entries@[k]).hash@)
                || hashes_view(final(pending)@).contains(entries@[k].hash@),
        forall|x: Seq<char>| #[trigger]
            hashes_view(old(pending)@).contains(x) ==> hashes_view(final(pending)@).contains(x),
        forall|x: Seq<char>| #[trigger]
            hashes_view(final(pending)@).contains(x) ==> hashes_view(old(pending)@).contains(x) || exists|k: int|
                0 <= k < entries@.len() && (#[trigger] entries@[k]).hash@ == x,
        final(pending)@.len() >= old(pending)@.len(),
{
    let mut i: usize = 0;
    while i < entries.len()
        invariant
            0 <= i <= entries@.len(),
            forall|x: Seq<char>| #[trigger]
                hashes_view(pending@).contains(x) ==> hashes_view(old(pending)@).contains(x) || exists|k: int|
                    0 <= k < entries@.len() && (#[trigger] entries@[k]).hash@ == x,
            forall|k: int|
                0 <= k < i ==> hashes_view(seen@).contains((#[trigger] entries@[k]).hash@)
                    || hashes_view(pending@).contains(entries@[k].hash@),
            forall|x: Seq<char>| #[trigger]
                hashes_view(old(pending)@).contains(x) ==> hashes_view(pending@).contains(x),
            pending@.len() >= old(pending)@.len(),
        decreases entries@.len() - i,
    {
        let h = &entries[i].hash;
        if !contains_hash(seen, h) && !contains_hash(pending, h) {
            let ghost pre = pending@;
            pending.push(h.clone());
            proof {
                assert(hashes_view(pending@) =~= hashes_view(pre).push(h@));
                assert(hashes_view(pending@)[pre.len() as int] == h@);
                assert forall|x: Seq<char>| #[trigger] hashes_view(pre).contains(x) implies hashes_view(
                    pending@,
                ).contains(x) by {
                    let j = choose|j: int| 0 <= j < hashes_view(pre).len() && hashes_view(pre)[j] == x;
                    assert(hashes_view(pending@)[j] == x);
                }
                assert forall|x: Seq<char>| #[trigger] hashes_view(pending@).contains(x) implies hashes_view(
                    old(pending)@,
                ).contains(x) || exists|k: int| 0 <= k < entries@.len() && (#[trigger] entries@[k]).hash@ == x by {
                    if x != h@ {
                        let j = choose|j: int| 0 <= j < hashes_view(pending@).len() && hashes_view(pending@)[j] == x;
                        assert(hashes_view(pre)[j] == x);
                        assert(hashes_view(pre).contains(x));
                    } else {
                        assert(entries@[i as int].hash@ == x);
                    }
                }
            }
        }
        i = i + 1;
    }
}

/// Adds to `blobs` the hash of every blob reference not already there.
fn add_unseen_blobs(refs: &Vec<BlobRef>, blobs: &mut Vec<String>)
    requires
        hashes_view(old(blobs)@).no_duplicates(),
    ensures
        hashes_view(final(blobs)@).no_duplicates(),
        forall|k: int| 0 <= k < refs@.len() ==> hashes_view(final(blobs)@).contains((#[trigger] refs@[k]).hash@),
        forall|x: Seq<char>| #[trigger]
            hashes_view(final(blobs)@).contains(x) ==> hashes_view(old(blobs)@).contains(x) || exists|k: int|
                0 <= k < refs@.len() && (#[trigger] refs@[k]).hash@ == x,
        forall|x: Seq<char>| #[trigger]
            hashes_view(old(blobs)@).contains(x) ==> hashes_view(final(blobs)@).contains(x),
{
    let mut i: usize = 0;
    while i < refs.len()
        invariant
            0 <= i <= refs@.len(),
            hashes_view(blobs@).no_duplicates(),
            forall|k: int| 0 <= k < i ==> hashes_view(blobs@).contains((#[trigger] refs@[k]).hash@),
            forall|x: Seq<char>| #[trigger]
                hashes_view(blobs@).contains(x) ==> hashes_view(old(blobs)@).contains(x) || exists|k: int|
                    0 <= k < refs@.len() && (#[trigger] refs@[k]).hash@ == x,
            forall|x: Seq<char>| #[trigger]
                hashes_view(old(blobs)@).contains(x) ==> hashes_view(blobs@).contains(x),
        decreases refs@.len() - i,
    {
        let h = &refs[i].hash;
        let ghost pre = blobs@;
        if !contains_hash(blobs, h) {
            blobs.push(h.clone());
            proof {
                assert(hashes_view(blobs@) =~= hashes_view(pre).push(h@));
                assert(hashes_view(blobs@)[pre.len() as int] == h@);
                assert forall|a: int, b: int|
                    0 <= a < hashes_view(blobs@).len() && 0 <= b < hashes_view(blobs@).len() && a
                        != b implies hashes_view(blobs@)[a] != hashes_view(blobs@)[b] by {
                    if a < pre.len() && b < pre.len() {
                        assert(hashes_view(pre)[a] != hashes_view(pre)[b]);
                    } else if a == pre.len() {
                        assert(hashes_view(pre).contains(hashes_view(pre)[b]));
                    } else {
                        assert(hashes_view(pre).contains(hashes_view(pre)[a]));
                    }
                }
                assert forall|x: Seq<char>| #[trigger] hashes_view(pre).contains(x) implies hashes_view(
                    blobs@,
                ).contains(x) by {
                    let j = choose|j: int| 0 <= j < hashes_view(pre).len() && hashes_view(pre)[j] == x;
                    assert(hashes_view(blobs@)[j] == x);
                }
                assert forall|x: Seq<char>| #[trigger]
                    hashes_view(blobs@).contains(x) implies hashes_view(old(blobs)@).contains(x) || exists|k: int|
                        0 <= k < refs@.len() && (#[trigger] refs@[k]).hash@ == x by {
                    if x == h@ {
                        assert(refs@[i as int].hash@ == x);
                    } else {
                        let j = choose|j: int| 0 <= j < hashes_view(blobs@).len() && hashes_view(blobs@)[j] == x;
                        assert(hashes_view(pre)[j] == x);
                        assert(hashes_view(pre).contains(x));
                    }
                }
            }
        }
        proof {
            assert forall|k: int| 0 <= k < i + 1 implies hashes_view(blobs@).contains((#[trigger] refs@[k]).hash@) by {
                if k < i {
                    assert(hashes_view(pre).contains(refs@[k].hash@));
                }
            }
        }
        i = i + 1;
    }
}

/// Where in `batch` the pair for `hash` stands, if anywhere.
fn find_in_batch(batch: &Vec<(String, Node)>, hash: &String) -> (r: Option<usize>)
    ensures
        r matches Some(k) ==> k < batch@.len() && batch@[k as int].0@ == hash@,
        r is None ==> forall|k: int| 0 <= k < batch@.len() ==> (#[trigger] batch@[k]).0@ != hash@,
{
    let mut k: usize = 0;
    while k < batch.len()
        invariant
            0 <= k <= batch@.len(),
            forall|j: int| 0 <= j < k ==> (#[trigger] batch@[j]).0@ != hash@,
        decreases batch@.len() - k,
    {
        if batch[k].0 == *hash {
            return Some(k);
        }
        k = k + 1;
    }
    None
}

/// A list of distinct hashes drawn from a finite set is no longer than the set.
proof fn lemma_distinct_within(s: Seq<Seq<char>>, m: Set<Seq<char>>)
    requires
        s.no_duplicates(),
        m.finite(),
        forall|x: Seq<char>| #[trigger] s.contains(x) ==> m.contains(x),
    ensures
        s.len() <= m.len(),
{
    s.unique_seq_to_set();
    assert(s.to_set().subset_of(m));
    vstd::set_lib::lemma_len_subset(s.to_set(), m);
}

/// The children of a folder node are the hashes of its entries.
/// An entry of a folder names one of its children.
proof fn lemma_entry_is_child(folders: Seq<Entry>, files: Seq<Entry>, c: Seq<char>)
    requires
        (exists|k: int| 0 <= k < folders.len() && (#[trigger] folders[k]).hash@ == c) || (exists|k: int|
            0 <= k < files.len() && (#[trigger] files[k]).hash@ == c),
    ensures
        node_children(NodeView::Folder { folders: crate::model::entries_view(folders), files: crate::model::entries_view(files) }).contains(c),
{
    let fs = crate::model::entries_view(folders).map_values(|e: crate::model::EntryView| e.hash);
    let gs = crate::model::entries_view(files).map_values(|e: crate::model::EntryView| e.hash);
    let all = fs + gs;
    if exists|k: int| 0 <= k < folders.len() && (#[trigger] folders[k]).hash@ == c {
        let k = choose|k: int| 0 <= k < folders.len() && (#[trigger] folders[k]).hash@ == c;
        assert(all[k] == c);
    } else {
        let k = choose|k: int| 0 <= k < files.len() && (#[trigger] files[k]).hash@ == c;
        assert(all[fs.len() + k] == c);
    }
}

proof fn lemma_folder_children(folders: Seq<Entry>, files: Seq<Entry>, c: Seq<char>)
    requires
        node_children(NodeView::Folder { folders: crate::model::entries_view(folders), files: crate::model::entries_view(files) }).contains(c),
    ensures
        (exists|k: int| 0 <= k < folders.len() && (#[trigger] folders[k]).hash@ == c) || (exists|k: int|
            0 <= k < files.len() && (#[trigger] files[k]).hash@ == c),
{
    let fs = crate::model::entries_view(folders).map_values(|e: crate::model::EntryView| e.hash);
    let gs = crate::model::entries_view(files).map_values(|e: crate::model::EntryView| e.hash);
    let all = fs + gs;
    let i = choose|i: int| 0 <= i < all.len() && all[i] == c;
    if i < fs.len() {
        assert(folders[i].hash@ == c);
    } else {
        assert(files[i - fs.len()].hash@ == c);
    }
}

/// The blobs of a file node are the hashes of its blob references.
proof fn lemma_file_blobs(blobs: Seq<BlobRef>, b: Seq<char>)
    ensures
        node_blobs(NodeView::File { blobs: crate::model::blob_refs_view(blobs) }).contains(b) <==> exists|k: int|
            0 <= k < blobs.len() && (#[trigger] blobs[k]).hash@ == b,
{
    let bs = crate::model::blob_refs_view(blobs).map_values(|r: crate::model::BlobRefView| r.hash);
    if bs.contains(b) {
        let i = choose|i: int| 0 <= i < bs.len() && bs[i] == b;
        assert(blobs[i].hash@ == b);
    }
    if exists|k: int| 0 <= k < blobs.len() && (#[trigger] blobs[k]).hash@ == b {
        let k = choose|k: int| 0 <= k < blobs.len() && (#[trigger] blobs[k]).hash@ == b;
        assert(bs[k] == b);
    }
}

/// Pushing a hash keeps every hash already listed.
proof fn lemma_push_keeps(s: Seq<String>, h: String)
    ensures
        hashes_view(s.push(h)) == hashes_view(s).push(h@),
        forall|x: Seq<char>| #[trigger] hashes_view(s).contains(x) ==> hashes_view(s.push(h)).contains(x),
        hashes_view(s.push(h)).contains(h@),
{
    assert(hashes_view(s.push(h)) =~= hashes_view(s).push(h@));
    assert(hashes_view(s.push(h))[s.len() as int] == h@);
    assert forall|x: Seq<char>| #[trigger] hashes_view(s).contains(x) implies hashes_view(s.push(h)).contains(x) by {
        let j = choose|j: int| 0 <= j < hashes_view(s).len() && hashes_view(s)[j] == x;
        assert(hashes_view(s.push(h))[j] == x);
    }
}

/// How a diff can fail: a node it must move is not in the source, or a store
/// could not be read.
pub open spec fn is_diff_error(e: SyncError, src: Map<Seq<char>, NodeView>) -> bool {
    match e {
        SyncError::MissingSourceNode { hash } => !src.contains_key(hash@),
        SyncError::NodeRepository(_) => true,
        SyncError::BlobRepository(_) => true,
        _ => false,
    }
}

/// Walks the tree under `root_hash` in `source` breadth first, skipping every
/// subtree whose root the target already holds, and returns what the target
/// lacks.
fn compute_directional_diff<S: NodeRepository, T: NodeRepository, TB: BlobRepository>(
    source_node_repository: &S,
    target_node_repository: &T,
    target_blob_repository: &TB,
    root_hash: &String,
    Ghost(cover): Ghost<Set<Seq<char>>>,
) -> (r: Result<TransferSet, SyncError>)
    ensures
        source_node_repository.answers() && target_node_repository.answers() && target_blob_repository.answers()
            && covering_set(cover, source_node_repository.node_map(), target_node_repository.node_map().dom(), root_hash@)
            ==> r is Ok,
        covering_set(cover, source_node_repository.node_map(), target_node_repository.node_map().dom(), root_hash@)
            ==> (r matches Ok(ts) ==> forall|h: Seq<char>| #[trigger] hashes_view(ts.nodes@).contains(h) ==> cover.contains(h)),
        source_node_repository.answers() && target_node_repository.answers() && target_blob_repository.answers()
            ==> (r matches Err(e) ==> e is MissingSourceNode),
        r matches Ok(ts) ==> is_transfer_set(
            hashes_view(ts.nodes@),
            hashes_view(ts.blobs@),
            source_node_repository.node_map(),
            target_node_repository.node_map().dom(),
            target_blob_repository.blob_map().dom(),
            root_hash@,
        ) && is_node_cache(ts.node_cache@, ts.nodes@, source_node_repository.node_map()),
        target_node_repository.node_map().contains_key(root_hash@) ==> (r matches Ok(ts) ==> ts.nodes@.len()
            == 0 && ts.blobs@.len() == 0),
        r matches Err(e) ==> is_diff_error(e, source_node_repository.node_map()),
{
    let ghost src = source_node_repository.node_map();
    let ghost tgt = target_node_repository.node_map().dom();
    let ghost cov = covering_set(cover, src, tgt, root_hash@);
    proof {
        source_node_repository.lemma_node_map_finite();
    }
    let mut nodes: Vec<String> = Vec::new();
    let mut cache: Vec<(String, Node)> = Vec::new();
    let mut pending: Vec<String> = Vec::new();
    let mut pblobs: Vec<String> = Vec::new();
    pending.push(root_hash.clone());
    proof {
        lemma_push_keeps(Seq::<String>::empty(), *root_hash);
        assert(Seq::<String>::empty().push(*root_hash) =~= pending@);
        assert(hashes_view(nodes@) =~= Seq::<Seq<char>>::empty());
        assert(hashes_view(pblobs@) =~= Seq::<Seq<char>>::empty());
    }
    while pending.len() > 0
        invariant
            src == source_node_repository.node_map(),
            tgt == target_node_repository.node_map().dom(),
            src.dom().finite(),
            nodes@.len() <= src.dom().len(),
            hashes_view(nodes@).no_duplicates(),
            hashes_view(pblobs@).no_duplicates(),
            forall|h: Seq<char>|
                #[trigger] hashes_view(nodes@).contains(h) ==> src.contains_key(h) && !tgt.contains(h),
            tgt.contains(root_hash@) || hashes_view(nodes@).contains(root_hash@) || hashes_view(
                pending@,
            ).contains(root_hash@),
            forall|h: Seq<char>, c: Seq<char>|
                hashes_view(nodes@).contains(h) && #[trigger] node_children(src[h]).contains(c)
                    ==> hashes_view(nodes@).contains(c) || hashes_view(pending@).contains(c)
                    || tgt.contains(c),
            forall|h: Seq<char>, b: Seq<char>|
                hashes_view(nodes@).contains(h) && #[trigger] node_blobs(src[h]).contains(b)
                    ==> hashes_view(pblobs@).contains(b),
            forall|b: Seq<char>| #[trigger]
                hashes_view(pblobs@).contains(b) ==> exists|h: Seq<char>|
                    hashes_view(nodes@).contains(h) && #[trigger] node_blobs(src[h]).contains(b),
            is_node_cache(cache@, nodes@, src),
            tgt.contains(root_hash@) ==> nodes@.len() == 0 && forall|x: Seq<char>| #[trigger]
                hashes_view(pending@).contains(x) ==> tgt.contains(x),
            cov == covering_set(cover, src, tgt, root_hash@),
            cov ==> forall|x: Seq<char>| #[trigger] hashes_view(pending@).contains(x) ==> cover.contains(x),
            cov ==> forall|x: Seq<char>| #[trigger] hashes_view(nodes@).contains(x) ==> cover.contains(x),
        decreases src.dom().len() - nodes@.len(), pending@.len(),
    {
        let batch = pending;
        pending = Vec::new();
        proof {
            assert(hashes_view(pending@) =~= Seq::<Seq<char>>::empty());
        }
        let missing = match target_node_repository.get_missing(batch.as_slice()) {
            Ok(m) => m,
            Err(e) => {
                return Err(SyncError::NodeRepository(e));
            },
        };
        proof {
            if tgt.contains(root_hash@) && missing@.len() > 0 {
                let x = hashes_view(missing@)[0];
                assert(hashes_view(missing@).contains(x));
                assert(hashes_view(batch@).contains(x));
            }
        }
        if missing.len() == 0 {
            proof {
                assert forall|x: Seq<char>| #[trigger] hashes_view(batch@).contains(x) implies tgt.contains(x) by {
                    if !tgt.contains(x) {
                        assert(hashes_view(missing@).contains(x));
                    }
                }
            }
            continue;
        }
        let fetched = match source_node_repository.get_nodes_batch(missing.as_slice()) {
            Ok(v) => v,
            Err(e) => {
                return Err(SyncError::NodeRepository(e));
            },
        };
        let ghost nodes_start = nodes@.len();
        let mut j: usize = 0;
        while j < missing.len()
            invariant
                src == source_node_repository.node_map(),
                tgt == target_node_repository.node_map().dom(),
                src.dom().finite(),
                nodes@.len() <= src.dom().len(),
                nodes_start <= nodes@.len(),
                0 <= j <= missing@.len(),
                pending@.len() > 0 ==> nodes@.len() > nodes_start,
                is_missing_list(hashes_view(missing@), hashes_view(batch@), tgt),
                crate::node_repository::is_node_batch(fetched@, hashes_view(missing@), src),
                forall|k: int| 0 <= k < j ==> hashes_view(nodes@).contains(#[trigger] hashes_view(missing@)[k]),
                hashes_view(nodes@).no_duplicates(),
                hashes_view(pblobs@).no_duplicates(),
                forall|h: Seq<char>|
                    #[trigger] hashes_view(nodes@).contains(h) ==> src.contains_key(h) && !tgt.contains(h),
                tgt.contains(root_hash@) || hashes_view(nodes@).contains(root_hash@) || hashes_view(
                    pending@,
                ).contains(root_hash@) || hashes_view(batch@).contains(root_hash@),
                forall|h: Seq<char>, c: Seq<char>|
                    hashes_view(nodes@).contains(h) && #[trigger] node_children(src[h]).contains(c)
                        ==> hashes_view(nodes@).contains(c) || hashes_view(pending@).contains(c)
                        || tgt.contains(c) || hashes_view(batch@).contains(c),
                forall|h: Seq<char>, b: Seq<char>|
                    hashes_view(nodes@).contains(h) && #[trigger] node_blobs(src[h]).contains(b)
                        ==> hashes_view(pblobs@).contains(b),
                forall|b: Seq<char>| #[trigger]
                    hashes_view(pblobs@).contains(b) ==> exists|h: Seq<char>|
                        hashes_view(nodes@).contains(h) && #[trigger] node_blobs(src[h]).contains(b),
                is_node_cache(cache@, nodes@, src),
                tgt.contains(root_hash@) ==> missing@.len() == 0,
                cov == covering_set(cover, src, tgt, root_hash@),
                cov ==> forall|x: Seq<char>| #[trigger] hashes_view(batch@).contains(x) ==> cover.contains(x),
                cov ==> forall|x: Seq<char>| #[trigger] hashes_view(pending@).contains(x) ==> cover.contains(x),
                cov ==> forall|x: Seq<char>| #[trigger] hashes_view(nodes@).contains(x) ==> cover.contains(x),
            decreases missing@.len() - j,
        {
            let hash = &missing[j];
            proof {
                assert(hashes_view(missing@)[j as int] == hash@);
                assert(hashes_view(missing@).contains(hash@));
            }
            let k = match find_in_batch(&fetched, hash) {
                Some(k) => k,
                None => {
                    proof {
                        if src.contains_key(hash@) {
                            let i = choose|i: int| 0 <= i < fetched@.len() && (#[trigger] fetched@[i]).0@ == hash@;
                        }
                    }
                    return Err(SyncError::MissingSourceNode { hash: hash.clone() });
                },
            };
            let node = &fetched[k].1;
            proof {
                assert(node@ == src[hash@]);
                assert(src.contains_key(hash@));
            }
            if !contains_hash(&nodes, hash) {
                let ghost nodes_pre = nodes@;
                let ghost pending_pre = pending@;
                let ghost pblobs_pre = pblobs@;
                nodes.push(hash.clone());
                cache.push((hash.clone(), node.duplicate()));
                proof {
                    if cov {
                        assert(hashes_view(batch@).contains(hash@));
                        assert forall|x: Seq<char>| #[trigger] hashes_view(nodes@).contains(x) implies cover.contains(x) by {
                            if x != hash@ {
                                let i = choose|i: int| 0 <= i < hashes_view(nodes@).len() && hashes_view(nodes@)[i] == x;
                                assert(hashes_view(nodes_pre)[i] == x);
                                assert(hashes_view(nodes_pre).contains(x));
                            }
                        }
                    }
                    lemma_push_keeps(nodes_pre, *hash);
                    assert forall|a: int, b: int|
                        0 <= a < hashes_view(nodes@).len() && 0 <= b < hashes_view(nodes@).len() && a != b
                            implies hashes_view(nodes@)[a] != hashes_view(nodes@)[b] by {
                        if a < nodes_pre.len() && b < nodes_pre.len() {
                            assert(hashes_view(nodes_pre)[a] != hashes_view(nodes_pre)[b]);
                        } else if a == nodes_pre.len() {
                            assert(hashes_view(nodes_pre).contains(hashes_view(nodes_pre)[b]));
                        } else {
                            assert(hashes_view(nodes_pre).contains(hashes_view(nodes_pre)[a]));
                        }
                    }
                    assert forall|h: Seq<char>|
                        #[trigger] hashes_view(nodes@).contains(h) implies src.contains_key(h) && !tgt.contains(h) by {
                        if h != hash@ {
                            let i = choose|i: int| 0 <= i < hashes_view(nodes@).len() && hashes_view(nodes@)[i] == h;
                            assert(hashes_view(nodes_pre)[i] == h);
                            assert(hashes_view(nodes_pre).contains(h));
                        }
                    }
                    lemma_distinct_within(hashes_view(nodes@), src.dom());
                    assert forall|i: int| 0 <= i < cache@.len() implies (#[trigger] cache@[i]).0@ == nodes@[i]@
                        && cache@[i].1@ == src[nodes@[i]@] by {
                    }
                }
                match node {
                    Node::Folder { folders, files } => {
                        let ghost pending_mid0 = pending@;
                        push_unseen_entries(folders, &nodes, &mut pending);
                        let ghost pending_mid = pending@;
                        push_unseen_entries(files, &nodes, &mut pending);
                        proof {
                            if cov {
                                assert(hashes_view(batch@).contains(hash@));
                                assert(cover.contains(hash@));
                                assert forall|x: Seq<char>| #[trigger] hashes_view(pending@).contains(x)
                                    implies cover.contains(x) by {
                                    if !hashes_view(pending_mid).contains(x) {
                                        let k = choose|k: int| 0 <= k < files@.len() && (#[trigger] files@[k]).hash@ == x;
                                        lemma_entry_is_child(folders@, files@, x);
                                    } else if !hashes_view(pending_mid0).contains(x) {
                                        let k = choose|k: int| 0 <= k < folders@.len() && (#[trigger] folders@[k]).hash@ == x;
                                        lemma_entry_is_child(folders@, files@, x);
                                    }
                                }
                            }
                            assert forall|c: Seq<char>| #[trigger] node_children(src[hash@]).contains(c)
                                implies hashes_view(nodes@).contains(c) || hashes_view(pending@).contains(c) by {
                                lemma_folder_children(folders@, files@, c);
                                if exists|k: int| 0 <= k < folders@.len() && (#[trigger] folders@[k]).hash@ == c {
                                    let k = choose|k: int| 0 <= k < folders@.len() && (#[trigger] folders@[k]).hash@ == c;
                                    assert(folders@[k].hash@ == c);
                                } else {
                                    let k = choose|k: int| 0 <= k < files@.len() && (#[trigger] files@[k]).hash@ == c;
                                    assert(files@[k].hash@ == c);
                                }
                            }
                            assert forall|b: Seq<char>| !(#[trigger] node_blobs(src[hash@]).contains(b)) by {
                            }
                        }
                    },
                    Node::File { blobs } => {
                        add_unseen_blobs(blobs, &mut pblobs);
                        proof {
                            assert forall|b: Seq<char>| #[trigger] node_blobs(src[hash@]).contains(b)
                                implies hashes_view(pblobs@).contains(b) by {
                                lemma_file_blobs(blobs@, b);
                                let k = choose|k: int| 0 <= k < blobs@.len() && (#[trigger] blobs@[k]).hash@ == b;
                                assert(hashes_view(pblobs@).contains(blobs@[k].hash@));
                            }
                            assert forall|b: Seq<char>| #[trigger] hashes_view(pblobs@).contains(b)
                                implies exists|h: Seq<char>| hashes_view(nodes@).contains(h) && #[trigger] node_blobs(src[h]).contains(b) by {
                                if !hashes_view(pblobs_pre).contains(b) {
                                    let k = choose|k: int| 0 <= k < blobs@.len() && (#[trigger] blobs@[k]).hash@ == b;
                                    lemma_file_blobs(blobs@, b);
                                    assert(node_blobs(src[hash@]).contains(b));
                                    assert(hashes_view(nodes@).contains(hash@));
                                } else {
                                    let h = choose|h: Seq<char>| hashes_view(nodes_pre).contains(h) && #[trigger] node_blobs(src[h]).contains(b);
                                    assert(hashes_view(nodes@).contains(h));
                                }
                            }
                            assert forall|c: Seq<char>| !(#[trigger] node_children(src[hash@]).contains(c)) by {
                            }
                        }
                    },
                }
                proof {
                    assert forall|h: Seq<char>, c: Seq<char>|
                        hashes_view(nodes@).contains(h) && #[trigger] node_children(src[h]).contains(c)
                            implies hashes_view(nodes@).contains(c) || hashes_view(pending@).contains(c)
                            || tgt.contains(c) || hashes_view(batch@).contains(c) by {
                        if h != hash@ {
                            let i = choose|i: int| 0 <= i < hashes_view(nodes@).len() && hashes_view(nodes@)[i] == h;
                            assert(hashes_view(nodes_pre)[i] == h);
                            assert(hashes_view(nodes_pre).contains(h));
                            if hashes_view(nodes_pre).contains(c) {
                                assert(hashes_view(nodes@).contains(c));
                            }
                            if hashes_view(pending_pre).contains(c) {
                                assert(hashes_view(pending@).contains(c));
                            }
                        }
                    }
                    assert forall|h: Seq<char>, b: Seq<char>|
                        hashes_view(nodes@).contains(h) && #[trigger] node_blobs(src[h]).contains(b)
                            implies hashes_view(pblobs@).contains(b) by {
                        if h != hash@ {
                            let i = choose|i: int| 0 <= i < hashes_view(nodes@).len() && hashes_view(nodes@)[i] == h;
                            assert(hashes_view(nodes_pre)[i] == h);
                            assert(hashes_view(nodes_pre).contains(h));
                            assert(hashes_view(pblobs_pre).contains(b));
                        }
                    }
                    assert forall|b: Seq<char>| #[trigger] hashes_view(pblobs@).contains(b)
                        implies exists|h: Seq<char>| hashes_view(nodes@).contains(h) && #[trigger] node_blobs(src[h]).contains(b) by {
                        if hashes_view(pblobs@) == hashes_view(pblobs_pre) {
                            let h = choose|h: Seq<char>| hashes_view(nodes_pre).contains(h) && #[trigger] node_blobs(src[h]).contains(b);
                            assert(hashes_view(nodes@).contains(h));
                        }
                    }
                    if hashes_view(pending_pre).contains(root_hash@) {
                        assert(hashes_view(pending@).contains(root_hash@));
                    }
                    if hashes_view(nodes_pre).contains(root_hash@) {
                        assert(hashes_view(nodes@).contains(root_hash@));
                    }
                    assert forall|kk: int| 0 <= kk < j + 1 implies hashes_view(nodes@).contains(
                        #[trigger] hashes_view(missing@)[kk]) by {
                        if kk < j {
                            assert(hashes_view(nodes_pre).contains(hashes_view(missing@)[kk]));
                        }
                    }
                }
            }
            j = j + 1;
        }
        proof {
            assert forall|x: Seq<char>| #[trigger] hashes_view(batch@).contains(x) implies tgt.contains(x)
                || hashes_view(nodes@).contains(x) by {
                if !tgt.contains(x) {
                    assert(hashes_view(missing@).contains(x));
                    let k = choose|k: int| 0 <= k < hashes_view(missing@).len() && hashes_view(missing@)[k] == x;
                    assert(hashes_view(nodes@).contains(hashes_view(missing@)[k]));
                }
            }
        }
    }
    proof {
        if tgt.contains(root_hash@) && pblobs@.len() > 0 {
            let b = hashes_view(pblobs@)[0];
            assert(hashes_view(pblobs@).contains(b));
        }
    }
    let blob_set = match target_blob_repository.get_missing(pblobs.as_slice()) {
        Ok(m) => m,
        Err(e) => {
            return Err(SyncError::BlobRepository(e));
        },
    };
    proof {
        assert forall|b: Seq<char>| #[trigger] hashes_view(blob_set@).contains(b)
            implies exists|h: Seq<char>| hashes_view(nodes@).contains(h) && #[trigger] node_blobs(src[h]).contains(b) by {
            assert(hashes_view(pblobs@).contains(b));
        }
        if tgt.contains(root_hash@) && blob_set@.len() > 0 {
            let b = hashes_view(blob_set@)[0];
            assert(hashes_view(blob_set@).contains(b));
        }
    }
    Ok(TransferSet { nodes, blobs: blob_set, node_cache: cache })
}

/// What the `source` side holds that the target lacks under `root_hash`.
pub fn compute_unidirectional_diff<S: NodeRepository, T: NodeRepository, TB: BlobRepository>(
    source_node_repository: &S,
    target_node_repository: &T,
    target_blob_repository: &TB,
    root_hash: &String,
) -> (r: Result<TransferSet, SyncError>)
    ensures
        r matches Ok(ts) ==> is_transfer_set(
            hashes_view(ts.nodes@),
            hashes_view(ts.blobs@),
            source_node_repository.node_map(),
            target_node_repository.node_map().dom(),
            target_blob_repository.blob_map().dom(),
            root_hash@,
        ) && is_node_cache(ts.node_cache@, ts.nodes@, source_node_repository.node_map()),
        r matches Err(e) ==> is_diff_error(e, source_node_repository.node_map()),
        diff_owed(
            source_node_repository.answers() && target_node_repository.answers()
                && target_blob_repository.answers(),
            source_node_repository.node_map(),
            target_node_repository.node_map().dom(),
            root_hash@,
            r,
        ),
{
    let ghost cover = choose_cover(source_node_repository.node_map(), target_node_repository.node_map().dom(), root_hash@);
    let r = compute_directional_diff(
        source_node_repository,
        target_node_repository,
        target_blob_repository,
        root_hash,
        Ghost(cover),
    );
    proof {
        lemma_diff_result(
            source_node_repository.node_map(),
            target_node_repository.node_map().dom(),
            target_blob_repository.blob_map().dom(),
            root_hash@,
            r,
        );
    }
    r
}

/// A covering set for the tree under `root`, when there is one.
pub open spec fn choose_cover(src: Map<Seq<char>, NodeView>, tgt: Set<Seq<char>>, root: Seq<char>) -> Set<Seq<char>> {
    if source_covers_nodes(src, tgt, root) {
        choose|c: Set<Seq<char>>| covering_set(c, src, tgt, root)
    } else {
        Set::empty()
    }
}

/// A successful diff shows that the source covers the tree's nodes.
proof fn lemma_diff_result(
    src: Map<Seq<char>, NodeView>,
    tgt: Set<Seq<char>>,
    tgt_blobs: Set<Seq<char>>,
    root: Seq<char>,
    r: Result<TransferSet, SyncError>,
)
    requires
        r matches Ok(ts) ==> is_transfer_set(hashes_view(ts.nodes@), hashes_view(ts.blobs@), src, tgt, tgt_blobs, root),
    ensures
        r is Ok ==> source_covers_nodes(src, tgt, root),
        source_covers_nodes(src, tgt, root) ==> covering_set(choose_cover(src, tgt, root), src, tgt, root),
{
    if let Ok(ts) = r {
        lemma_transfer_set_covers(hashes_view(ts.nodes@), hashes_view(ts.blobs@), src, tgt, tgt_blobs, root);
    }
}

/// `fin` is `old` with nodes of `src` added under `n` new hashes.
pub open spec fn grew_from<V>(old: Map<Seq<char>, V>, fin: Map<Seq<char>, V>, src: Map<Seq<char>, V>, n: nat) -> bool {
    &&& forall|h: Seq<char>| #[trigger] old.contains_key(h) ==> fin.contains_key(h) && fin[h] == old[h]
    &&& forall|h: Seq<char>|
        #[trigger] fin.contains_key(h) && !old.contains_key(h) ==> src.contains_key(h) && fin[h] == src[h]
    &&& fin.dom().finite()
    &&& fin.dom().len() == old.dom().len() + n
}

/// `after` keeps every entry of `before` as it was, and each entry it adds
/// is one of `src`.
pub open spec fn only_added_from<V>(before: Map<Seq<char>, V>, after: Map<Seq<char>, V>, src: Map<Seq<char>, V>) -> bool {
    &&& forall|h: Seq<char>| #[trigger] before.contains_key(h) ==> after.contains_key(h) && after[h] == before[h]
    &&& forall|h: Seq<char>|
        #[trigger] after.contains_key(h) && !before.contains_key(h) ==> src.contains_key(h) && after[h] == src[h]
}

/// How a transfer can fail.
pub open spec fn is_transfer_error(e: SyncError, src: Map<Seq<char>, NodeView>, src_blobs: Map<Seq<char>, Seq<u8>>) -> bool {
    match e {
        SyncError::MissingSourceNode { hash } => !src.contains_key(hash@),
        SyncError::MissingSourceBlob { hash } => !src_blobs.contains_key(hash@),
        SyncError::NodeRepository(_) => true,
        SyncError::BlobRepository(_) => true,
        SyncError::MergeNotImplemented => false,
    }
}

/// After a failed step the target's root is where it was, unless the target
/// reported that another client moved it, in which case it is that root.
pub open spec fn root_kept_on_error(e: SyncError, before: Option<Seq<char>>, after: Option<Seq<char>>) -> bool {
    after == before || (e matches SyncError::NodeRepository(NodeRepositoryError::RootConflict { actual })
        && after == option_view(actual))
}

/// Copies every blob, then every node, that the target lacks under
/// `root_hash` from the source, then points the target's root at
/// `root_hash`. Any failure comes before the root moves.
fn transfer_tree<
    S: NodeRepository,
    T: WritableNodeRepository,
    SB: BlobRepository,
    TB: WritableBlobRepository,
>(
    source_node_repository: &S,
    target_node_repository: &mut T,
    source_blob_repository: &SB,
    target_blob_repository: &mut TB,
    root_hash: &String,
) -> (r: Result<usize, SyncError>)
    ensures
        r matches Err(e) ==> is_transfer_error(
            e,
            source_node_repository.node_map(),
            source_blob_repository.blob_map(),
        ) && root_kept_on_error(
            e,
            old(target_node_repository).root_view(),
            final(target_node_repository).root_view(),
        ),
        r is Ok ==> final(target_node_repository).root_view() == Some(root_hash@),
        r is Ok ==> final(target_node_repository).node_map().contains_key(root_hash@),
        old(target_node_repository).node_map().contains_key(root_hash@) ==> (r matches Ok(n) ==> n == 0
            && final(target_node_repository).node_map() == old(target_node_repository).node_map()
            && final(target_blob_repository).blob_map() == old(target_blob_repository).blob_map()),
        r matches Ok(n) ==> grew_from(
            old(target_node_repository).node_map(),
            final(target_node_repository).node_map(),
            source_node_repository.node_map(),
            n as nat,
        ),
        r is Ok ==> forall|b: Seq<char>| #[trigger]
            final(target_blob_repository).blob_map().contains_key(b) ==> old(target_blob_repository).blob_map().contains_key(b) || source_blob_repository.blob_map().contains_key(b),
        r is Ok ==> forall|b: Seq<char>| #[trigger]
            old(target_blob_repository).blob_map().contains_key(b) ==> final(target_blob_repository).blob_map().contains_key(b) && final(target_blob_repository).blob_map()[b] == old(target_blob_repository).blob_map()[b],
        r is Ok ==> forall|b: Seq<char>| #[trigger]
            final(target_blob_repository).blob_map().contains_key(b) && !old(target_blob_repository).blob_map().contains_key(b) ==> final(target_blob_repository).blob_map()[b]
                == source_blob_repository.blob_map()[b],
        r is Ok && closed_store(
            old(target_node_repository).node_map(),
            old(target_blob_repository).blob_map().dom(),
        ) ==> closed_store(
            final(target_node_repository).node_map(),
            final(target_blob_repository).blob_map().dom(),
        ),
        only_added_from(
            old(target_node_repository).node_map(),
            final(target_node_repository).node_map(),
            source_node_repository.node_map(),
        ),
        only_added_from(
            old(target_blob_repository).blob_map(),
            final(target_blob_repository).blob_map(),
            source_blob_repository.blob_map(),
        ),
        r matches Err(SyncError::MissingSourceBlob { .. }) ==> final(target_node_repository).node_map()
            == old(target_node_repository).node_map(),
        source_node_repository.answers() && old(target_node_repository).answers()
            && source_blob_repository.answers() && old(target_blob_repository).answers() ==> (r is Ok
            <== source_covers(
            source_node_repository.node_map(),
            source_blob_repository.blob_map().dom(),
            old(target_node_repository).node_map().dom(),
            old(target_blob_repository).blob_map().dom(),
            root_hash@,
        )) && (r matches Err(e) ==> e is MissingSourceNode || e is MissingSourceBlob) && (source_covers_nodes(
            source_node_repository.node_map(),
            old(target_node_repository).node_map().dom(),
            root_hash@,
        ) && !source_covers(
            source_node_repository.node_map(),
            source_blob_repository.blob_map().dom(),
            old(target_node_repository).node_map().dom(),
            old(target_blob_repository).blob_map().dom(),
            root_hash@,
        ) ==> r matches Err(SyncError::MissingSourceBlob { .. })),
        r is Ok ==> source_covers(
            source_node_repository.node_map(),
            source_blob_repository.blob_map().dom(),
            old(target_node_repository).node_map().dom(),
            old(target_blob_repository).blob_map().dom(),
            root_hash@,
        ),
        final(target_node_repository).answers() == old(target_node_repository).answers(),
        final(target_blob_repository).answers() == old(target_blob_repository).answers(),
{
    let ghost src = source_node_repository.node_map();
    let ghost src_blobs = source_blob_repository.blob_map();
    let ghost tgt0 = target_node_repository.node_map();
    let ghost tblobs0 = target_blob_repository.blob_map();
    let ghost root0 = target_node_repository.root_view();
    let ghost covers = source_covers(src, src_blobs.dom(), tgt0.dom(), tblobs0.dom(), root_hash@);
    let ghost nodes_cov = source_covers_nodes(src, tgt0.dom(), root_hash@);
    let ghost cover = if covers {
        choose|c: Set<Seq<char>>|
            covering_set(c, src, tgt0.dom(), root_hash@) && covering_blobs(c, src, tgt0.dom(), src_blobs.dom(), tblobs0.dom())
    } else if nodes_cov {
        choose|c: Set<Seq<char>>| covering_set(c, src, tgt0.dom(), root_hash@)
    } else {
        Set::<Seq<char>>::empty()
    };
    let ts = match compute_directional_diff(
        source_node_repository,
        &*target_node_repository,
        &*target_blob_repository,
        root_hash,
        Ghost(cover),
    ) {
        Ok(ts) => ts,
        Err(e) => {
            proof {
                if covers || nodes_cov {
                    assert(covering_set(cover, src, tgt0.dom(), root_hash@));
                }
            }
            return Err(e);
        },
    };
    let ghost tv = hashes_view(ts.nodes@);
    let ghost bv = hashes_view(ts.blobs@);
    let mut i: usize = 0;
    while i < ts.blobs.len()
        invariant
            src_blobs == source_blob_repository.blob_map(),
            src == source_node_repository.node_map(),
            bv == hashes_view(ts.blobs@),
            tv == hashes_view(ts.nodes@),
            root0 == old(target_node_repository).root_view(),
            target_node_repository.root_view() == root0,
            target_node_repository.node_map() == tgt0,
            tblobs0 == old(target_blob_repository).blob_map(),
            is_transfer_set(tv, bv, src, tgt0.dom(), tblobs0.dom(), root_hash@),
            0 <= i <= ts.blobs@.len(),
            forall|b: Seq<char>| #[trigger]
                target_blob_repository.blob_map().contains_key(b) <==> tblobs0.contains_key(b)
                    || bv.subrange(0, i as int).contains(b),
            forall|b: Seq<char>| #[trigger]
                tblobs0.contains_key(b) ==> target_blob_repository.blob_map()[b] == tblobs0[b],
            forall|b: Seq<char>| #[trigger]
                target_blob_repository.blob_map().contains_key(b) && !tblobs0.contains_key(b) ==> src_blobs.contains_key(b)
                    && target_blob_repository.blob_map()[b] == src_blobs[b],
            target_blob_repository.answers() == old(target_blob_repository).answers(),
            target_node_repository.answers() == old(target_node_repository).answers(),
            covers ==> covering_set(cover, src, tgt0.dom(), root_hash@) && covering_blobs(
                cover,
                src,
                tgt0.dom(),
                src_blobs.dom(),
                tblobs0.dom(),
            ),
            covers ==> forall|h: Seq<char>| #[trigger] tv.contains(h) ==> cover.contains(h),
            covers == source_covers(src, src_blobs.dom(), tgt0.dom(), tblobs0.dom(), root_hash@),
        decreases ts.blobs@.len() - i,
    {
        let hash = &ts.blobs[i];
        let blob = match source_blob_repository.get_blob(hash) {
            Err(e) => {
                return Err(SyncError::BlobRepository(e));
            },
            Ok(None) => {
                proof {
                    assert(bv[i as int] == hash@);
                    assert(bv.contains(hash@));
                    assert(!tblobs0.contains_key(hash@));
                    if covers {
                        let h = choose|h: Seq<char>| tv.contains(h) && #[trigger] node_blobs(src[h]).contains(hash@);
                        assert(cover.contains(h));
                        assert(!tgt0.dom().contains(h));
                        assert(src_blobs.dom().contains(hash@) || tblobs0.dom().contains(hash@));
                        assert(src_blobs.contains_key(hash@));
                    }
                }
                return Err(SyncError::MissingSourceBlob { hash: hash.clone() });
            },
            Ok(Some(b)) => b,
        };
        let ghost cur = target_blob_repository.blob_map();
        proof {
            assert(bv[i as int] == hash@);
            assert(bv.contains(hash@));
            assert(!tblobs0.contains_key(hash@));
            if bv.subrange(0, i as int).contains(hash@) {
                let s0 = bv.subrange(0, i as int);
                let k = choose|k: int| 0 <= k < s0.len() && s0[k] == hash@;
                assert(bv[k] == bv[i as int]);
            }
        }
        match target_blob_repository.insert(hash.clone(), blob) {
            Err(e) => {
                proof {
                    if target_blob_repository.blob_map() != cur {
                        assert(!cur.contains_key(hash@));
                    }
                }
                return Err(SyncError::BlobRepository(e));
            },
            Ok(()) => {},
        }
        proof {
            let s0 = bv.subrange(0, i as int);
            let s1 = bv.subrange(0, i + 1);
            assert(s1 =~= s0.push(hash@));
            assert(s1[i as int] == hash@);
            assert forall|b: Seq<char>| #[trigger]
                target_blob_repository.blob_map().contains_key(b) <==> tblobs0.contains_key(b)
                    || s1.contains(b) by {
                if s0.contains(b) {
                    let k = choose|k: int| 0 <= k < s0.len() && s0[k] == b;
                    assert(s1[k] == b);
                }
                if s1.contains(b) && b != hash@ {
                    let k = choose|k: int| 0 <= k < s1.len() && s1[k] == b;
                    assert(s0[k] == b);
                }
            }
        }
        i = i + 1;
    }
    proof {
        assert(bv.subrange(0, bv.len() as int) =~= bv);
    }
    let ghost tblobs1 = target_blob_repository.blob_map();
    let mut j: usize = 0;
    while j < ts.nodes.len()
        invariant
            src == source_node_repository.node_map(),
            src_blobs == source_blob_repository.blob_map(),
            tv == hashes_view(ts.nodes@),
            is_transfer_set(tv, bv, src, tgt0.dom(), tblobs0.dom(), root_hash@),
            0 <= j <= ts.nodes@.len(),
            root0 == old(target_node_repository).root_view(),
            tgt0 == old(target_node_repository).node_map(),
            tblobs0 == old(target_blob_repository).blob_map(),
            target_blob_repository.blob_map() == tblobs1,
            forall|b: Seq<char>| #[trigger]
                tblobs1.contains_key(b) <==> tblobs0.contains_key(b) || bv.contains(b),
            forall|b: Seq<char>| #[trigger]
                tblobs0.contains_key(b) ==> tblobs1[b] == tblobs0[b],
            forall|b: Seq<char>| #[trigger]
                tblobs1.contains_key(b) && !tblobs0.contains_key(b) ==> src_blobs.contains_key(b)
                    && tblobs1[b] == src_blobs[b],
            target_node_repository.root_view() == root0,
            forall|h: Seq<char>| #[trigger]
                target_node_repository.node_map().contains_key(h) <==> tgt0.contains_key(h)
                    || tv.subrange(0, j as int).contains(h),
            forall|h: Seq<char>| #[trigger]
                tgt0.contains_key(h) ==> target_node_repository.node_map()[h] == tgt0[h],
            forall|h: Seq<char>| #[trigger]
                target_node_repository.node_map().contains_key(h) && !tgt0.contains_key(h) ==> src.contains_key(h)
                    && target_node_repository.node_map()[h] == src[h],
            target_blob_repository.answers() == old(target_blob_repository).answers(),
            target_node_repository.answers() == old(target_node_repository).answers(),
        decreases ts.nodes@.len() - j,
    {
        let hash = &ts.nodes[j];
        let node = match source_node_repository.get_node(hash) {
            Err(e) => {
                return Err(SyncError::NodeRepository(e));
            },
            Ok(None) => {
                proof {
                    assert(tv[j as int] == hash@);
                    assert(tv.contains(hash@));
                }
                return Err(SyncError::MissingSourceNode { hash: hash.clone() });
            },
            Ok(Some(n)) => n,
        };
        proof {
            assert(tv[j as int] == hash@);
            assert(tv.contains(hash@));
            assert(!tgt0.contains_key(hash@));
            if tv.subrange(0, j as int).contains(hash@) {
                let s0 = tv.subrange(0, j as int);
                let k = choose|k: int| 0 <= k < s0.len() && s0[k] == hash@;
                assert(tv[k] == tv[j as int]);
            }
        }
        let ghost curn = target_node_repository.node_map();
        match target_node_repository.insert(hash.clone(), node) {
            Err(e) => {
                proof {
                    if target_node_repository.node_map() != curn {
                        assert(!curn.contains_key(hash@));
                    }
                }
                return Err(SyncError::NodeRepository(e));
            },
            Ok(()) => {},
        }
        proof {
            let s0 = tv.subrange(0, j as int);
            let s1 = tv.subrange(0, j + 1);
            assert(s1 =~= s0.push(hash@));
            assert(s1[j as int] == hash@);
            assert forall|h: Seq<char>| #[trigger]
                target_node_repository.node_map().contains_key(h) <==> tgt0.contains_key(h)
                    || s1.contains(h) by {
                if s0.contains(h) {
                    let k = choose|k: int| 0 <= k < s0.len() && s0[k] == h;
                    assert(s1[k] == h);
                }
                if s1.contains(h) && h != hash@ {
                    let k = choose|k: int| 0 <= k < s1.len() && s1[k] == h;
                    assert(s0[k] == h);
                }
            }
        }
        j = j + 1;
    }
    proof {
        assert(tv.subrange(0, tv.len() as int) =~= tv);
    }
    let ghost tgt1 = target_node_repository.node_map();
    match target_node_repository.set_root(root_hash.clone()) {
        Err(e) => {
            return Err(SyncError::NodeRepository(e));
        },
        Ok(()) => {},
    }
    let n = ts.nodes.len();
    proof {
        let fin = target_node_repository.node_map();
        assert(fin == tgt1);
        target_node_repository.lemma_node_map_finite();
        assert(fin.dom() =~= tgt0.dom() + tv.to_set());
        tv.unique_seq_to_set();
        assert(tgt0.dom().disjoint(tv.to_set()));
        assert(tgt0.dom().finite()) by {
            vstd::set_lib::lemma_len_subset(tgt0.dom(), fin.dom());
        }
        vstd::set_lib::lemma_set_disjoint_lens(tgt0.dom(), tv.to_set());
        if tgt0.contains_key(root_hash@) {
        } else {
            assert(tv.contains(root_hash@));
        }
        let fb = target_blob_repository.blob_map();
        if tgt0.contains_key(root_hash@) {
            assert(fin =~= tgt0);
            assert(fb =~= tblobs0);
        }
        if closed_store(tgt0, tblobs0.dom()) {
            assert forall|h: Seq<char>, c: Seq<char>|
                fin.contains_key(h) && #[trigger] node_children(fin[h]).contains(c) implies fin.contains_key(c) by {
                if tgt0.contains_key(h) {
                    assert(node_children(tgt0[h]).contains(c));
                } else {
                    assert(tv.contains(h));
                    assert(node_children(src[h]).contains(c));
                }
            }
            assert forall|h: Seq<char>, b: Seq<char>|
                fin.contains_key(h) && #[trigger] node_blobs(fin[h]).contains(b) implies fb.dom().contains(b) by {
                if tgt0.contains_key(h) {
                    assert(node_blobs(tgt0[h]).contains(b));
                    assert(tblobs0.contains_key(b));
                } else {
                    assert(tv.contains(h));
                    assert(node_blobs(src[h]).contains(b));
                    if bv.contains(b) {
                    } else {
                        assert(tblobs0.contains_key(b));
                    }
                }
            }
        }
    }
    proof {
        let ws = tv.to_set() + tgt0.dom();
        assert forall|b: Seq<char>| #[trigger] bv.contains(b) implies src_blobs.dom().contains(b) by {
            assert(tblobs1.contains_key(b));
        }
        assert(ws.contains(root_hash@));
        assert forall|h: Seq<char>| #[trigger] ws.contains(h) && !tgt0.dom().contains(h) implies src.contains_key(h) by {
            assert(tv.contains(h));
        }
        assert forall|h: Seq<char>, c: Seq<char>|
            ws.contains(h) && !tgt0.dom().contains(h) && #[trigger] node_children(src[h]).contains(c) implies ws.contains(c) by {
            assert(tv.contains(h));
            if tv.contains(c) {
                assert(tv.to_set().contains(c));
            }
        }
        assert(covering_set(ws, src, tgt0.dom(), root_hash@));
        assert forall|h: Seq<char>, b: Seq<char>|
            ws.contains(h) && !tgt0.dom().contains(h) && #[trigger] node_blobs(src[h]).contains(b) implies src_blobs.dom().contains(b)
                || tblobs0.dom().contains(b) by {
            assert(tv.contains(h));
        }
        assert(covering_blobs(ws, src, tgt0.dom(), src_blobs.dom(), tblobs0.dom()));
    }
    Ok(n)
}

/// Pushes the local tree under `local_root_hash` to the target stores:
/// copies every missing blob, then every missing node, then points the
/// target's root at `local_root_hash`.
///
/// A missing source blob or node aborts with an error before the root
/// moves: the target may keep blobs or nodes that nothing points to yet, but
/// its visible tree is never broken. Returns the number of nodes moved.
///
/// The target only ever gains entries, each as the source holds it, on
/// failure too. When every store answers, the transfer succeeds exactly when
/// the source holds all the target lacks of the tree, and otherwise fails
/// for a node or blob the source is missing; when only blobs are missing it
/// fails with `MissingSourceBlob` before any node is written.
pub fn local_push<
    S: NodeRepository,
    T: WritableNodeRepository,
    SB: BlobRepository,
    TB: WritableBlobRepository,
>(
    source_node_repository: &S,
    target_node_repository: &mut T,
    source_blob_repository: &SB,
    target_blob_repository: &mut TB,
    local_root_hash: &String,
) -> (r: Result<usize, SyncError>)
    ensures
        r matches Err(e) ==> is_transfer_error(
            e,
            source_node_repository.node_map(),
            source_blob_repository.blob_map(),
        ) && root_kept_on_error(
            e,
            old(target_node_repository).root_view(),
            final(target_node_repository).root_view(),
        ),
        r is Ok ==> final(target_node_repository).root_view() == Some(local_root_hash@),
        r is Ok ==> final(target_node_repository).node_map().contains_key(local_root_hash@),
        old(target_node_repository).node_map().contains_key(local_root_hash@) ==> (r matches Ok(n) ==> n == 0
            && final(target_node_repository).node_map() == old(target_node_repository).node_map()
            && final(target_blob_repository).blob_map() == old(target_blob_repository).blob_map()),
        r matches Ok(n) ==> grew_from(
            old(target_node_repository).node_map(),
            final(target_node_repository).node_map(),
            source_node_repository.node_map(),
            n as nat,
        ),
        r is Ok ==> forall|b: Seq<char>| #[trigger]
            final(target_blob_repository).blob_map().contains_key(b) ==> old(target_blob_repository).blob_map().contains_key(b) || source_blob_repository.blob_map().contains_key(b),
        r is Ok ==> forall|b: Seq<char>| #[trigger]
            old(target_blob_repository).blob_map().contains_key(b) ==> final(target_blob_repository).blob_map().contains_key(b) && final(target_blob_repository).blob_map()[b] == old(target_blob_repository).blob_map()[b],
        r is Ok ==> forall|b: Seq<char>| #[trigger]
            final(target_blob_repository).blob_map().contains_key(b) && !old(target_blob_repository).blob_map().contains_key(b) ==> final(target_blob_repository).blob_map()[b]
                == source_blob_repository.blob_map()[b],
        r is Ok && closed_store(
            old(target_node_repository).node_map(),
            old(target_blob_repository).blob_map().dom(),
        ) ==> closed_store(
            final(target_node_repository).node_map(),
            final(target_blob_repository).blob_map().dom(),
        ),
        only_added_from(
            old(target_node_repository).node_map(),
            final(target_node_repository).node_map(),
            source_node_repository.node_map(),
        ),
        only_added_from(
            old(target_blob_repository).blob_map(),
            final(target_blob_repository).blob_map(),
            source_blob_repository.blob_map(),
        ),
        r matches Err(SyncError::MissingSourceBlob { .. }) ==> final(target_node_repository).node_map()
            == old(target_node_repository).node_map(),
        source_node_repository.answers() && old(target_node_repository).answers() && source_blob_repository.answers()
            && old(target_blob_repository).answers() ==> (r is Ok <==> source_covers(
            source_node_repository.node_map(),
            source_blob_repository.blob_map().dom(),
            old(target_node_repository).node_map().dom(),
            old(target_blob_repository).blob_map().dom(),
            local_root_hash@,
        )) && (r matches Err(e) ==> e is MissingSourceNode
            || e is MissingSourceBlob) && (source_covers_nodes(
            source_node_repository.node_map(),
            old(target_node_repository).node_map().dom(),
            local_root_hash@,
        ) && !source_covers(
            source_node_repository.node_map(),
            source_blob_repository.blob_map().dom(),
            old(target_node_repository).node_map().dom(),
            old(target_blob_repository).blob_map().dom(),
            local_root_hash@,
        ) ==> r matches Err(SyncError::MissingSourceBlob { .. })),
        final(target_node_repository).answers() == old(target_node_repository).answers(),
        final(target_blob_repository).answers() == old(target_blob_repository).answers(),
{
    transfer_tree(
        source_node_repository,
        target_node_repository,
        source_blob_repository,
        target_blob_repository,
        local_root_hash,
    )
}
/// Pulls the remote tree under `remote_root_hash` into the local stores,
/// in the same way as [`local_push`] with the roles exchanged: the local
/// root only moves once every node and blob has arrived. Returns the
/// number of nodes moved.
///
/// The target only ever gains entries, each as the source holds it, on
/// failure too. When every store answers, the transfer succeeds exactly when
/// the source holds all the target lacks of the tree, and otherwise fails
/// for a node or blob the source is missing; when only blobs are missing it
/// fails with `MissingSourceBlob` before any node is written.
pub fn remote_pull<
    S: NodeRepository,
    T: WritableNodeRepository,
    SB: BlobRepository,
    TB: WritableBlobRepository,
>(
    local_node_repository: &mut T,
    remote_node_repository: &S,
    local_blob_repository: &mut TB,
    remote_blob_repository: &SB,
    remote_root_hash: &String,
) -> (r: Result<usize, SyncError>)
    ensures
        r matches Err(e) ==> is_transfer_error(
            e,
            remote_node_repository.node_map(),
            remote_blob_repository.blob_map(),
        ) && root_kept_on_error(
            e,
            old(local_node_repository).root_view(),
            final(local_node_repository).root_view(),
        ),
        r is Ok ==> final(local_node_repository).root_view() == Some(remote_root_hash@),
        r is Ok ==> final(local_node_repository).node_map().contains_key(remote_root_hash@),
        old(local_node_repository).node_map().contains_key(remote_root_hash@) ==> (r matches Ok(n) ==> n == 0
            && final(local_node_repository).node_map() == old(local_node_repository).node_map()
            && final(local_blob_repository).blob_map() == old(local_blob_repository).blob_map()),
        r matches Ok(n) ==> grew_from(
            old(local_node_repository).node_map(),
            final(local_node_repository).node_map(),
            remote_node_repository.node_map(),
            n as nat,
        ),
        r is Ok ==> forall|b: Seq<char>| #[trigger]
            final(local_blob_repository).blob_map().contains_key(b) ==> old(local_blob_repository).blob_map().contains_key(b) || remote_blob_repository.blob_map().contains_key(b),
        r is Ok ==> forall|b: Seq<char>| #[trigger]
            old(local_blob_repository).blob_map().contains_key(b) ==> final(local_blob_repository).blob_map().contains_key(b) && final(local_blob_repository).blob_map()[b] == old(local_blob_repository).blob_map()[b],
        r is Ok ==> forall|b: Seq<char>| #[trigger]
            final(local_blob_repository).blob_map().contains_key(b) && !old(local_blob_repository).blob_map().contains_key(b) ==> final(local_blob_repository).blob_map()[b]
                == remote_blob_repository.blob_map()[b],
        r is Ok && closed_store(
            old(local_node_repository).node_map(),
            old(local_blob_repository).blob_map().dom(),
        ) ==> closed_store(
            final(local_node_repository).node_map(),
            final(local_blob_repository).blob_map().dom(),
        ),
        only_added_from(
            old(local_node_repository).node_map(),
            final(local_node_repository).node_map(),
            remote_node_repository.node_map(),
        ),
        only_added_from(
            old(local_blob_repository).blob_map(),
            final(local_blob_repository).blob_map(),
            remote_blob_repository.blob_map(),
        ),
        r matches Err(SyncError::MissingSourceBlob { .. }) ==> final(local_node_repository).node_map()
            == old(local_node_repository).node_map(),
        remote_node_repository.answers() && old(local_node_repository).answers() && remote_blob_repository.answers()
            && old(local_blob_repository).answers() ==> (r is Ok <==> source_covers(
            remote_node_repository.node_map(),
            remote_blob_repository.blob_map().dom(),
            old(local_node_repository).node_map().dom(),
            old(local_blob_repository).blob_map().dom(),
            remote_root_hash@,
        )) && (r matches Err(e) ==> e is MissingSourceNode
            || e is MissingSourceBlob) && (source_covers_nodes(
            remote_node_repository.node_map(),
            old(local_node_repository).node_map().dom(),
            remote_root_hash@,
        ) && !source_covers(
            remote_node_repository.node_map(),
            remote_blob_repository.blob_map().dom(),
            old(local_node_repository).node_map().dom(),
            old(local_blob_repository).blob_map().dom(),
            remote_root_hash@,
        ) ==> r matches Err(SyncError::MissingSourceBlob { .. })),
        final(local_node_repository).answers() == old(local_node_repository).answers(),
        final(local_blob_repository).answers() == old(local_blob_repository).answers(),
{
    transfer_tree(
        remote_node_repository,
        local_node_repository,
        remote_blob_repository,
        local_blob_repository,
        remote_root_hash,
    )
}
/// The first pull of a drive that has no base root yet: copies the remote
/// tree under `remote_root_hash` into the local stores as [`remote_pull`]
/// does. Returns the number of nodes moved.
///
/// The target only ever gains entries, each as the source holds it, on
/// failure too. When every store answers, the transfer succeeds exactly when
/// the source holds all the target lacks of the tree, and otherwise fails
/// for a node or blob the source is missing; when only blobs are missing it
/// fails with `MissingSourceBlob` before any node is written.
pub fn bootstrap_pull<
    S: NodeRepository,
    T: WritableNodeRepository,
    SB: BlobRepository,
    TB: WritableBlobRepository,
>(
    local_node_repository: &mut T,
    remote_node_repository: &S,
    local_blob_repository: &mut TB,
    remote_blob_repository: &SB,
    remote_root_hash: &String,
) -> (r: Result<usize, SyncError>)
    ensures
        r matches Err(e) ==> is_transfer_error(
            e,
            remote_node_repository.node_map(),
            remote_blob_repository.blob_map(),
        ) && root_kept_on_error(
            e,
            old(local_node_repository).root_view(),
            final(local_node_repository).root_view(),
        ),
        r is Ok ==> final(local_node_repository).root_view() == Some(remote_root_hash@),
        r is Ok ==> final(local_node_repository).node_map().contains_key(remote_root_hash@),
        old(local_node_repository).node_map().contains_key(remote_root_hash@) ==> (r matches Ok(n) ==> n == 0
            && final(local_node_repository).node_map() == old(local_node_repository).node_map()
            && final(local_blob_repository).blob_map() == old(local_blob_repository).blob_map()),
        r matches Ok(n) ==> grew_from(
            old(local_node_repository).node_map(),
            final(local_node_repository).node_map(),
            remote_node_repository.node_map(),
            n as nat,
        ),
        r is Ok ==> forall|b: Seq<char>| #[trigger]
            final(local_blob_repository).blob_map().contains_key(b) ==> old(local_blob_repository).blob_map().contains_key(b) || remote_blob_repository.blob_map().contains_key(b),
        r is Ok ==> forall|b: Seq<char>| #[trigger]
            old(local_blob_repository).blob_map().contains_key(b) ==> final(local_blob_repository).blob_map().contains_key(b) && final(local_blob_repository).blob_map()[b] == old(local_blob_repository).blob_map()[b],
        r is Ok ==> forall|b: Seq<char>| #[trigger]
            final(local_blob_repository).blob_map().contains_key(b) && !old(local_blob_repository).blob_map().contains_key(b) ==> final(local_blob_repository).blob_map()[b]
                == remote_blob_repository.blob_map()[b],
        r is Ok && closed_store(
            old(local_node_repository).node_map(),
            old(local_blob_repository).blob_map().dom(),
        ) ==> closed_store(
            final(local_node_repository).node_map(),
            final(local_blob_repository).blob_map().dom(),
        ),
        only_added_from(
            old(local_node_repository).node_map(),
            final(local_node_repository).node_map(),
            remote_node_repository.node_map(),
        ),
        only_added_from(
            old(local_blob_repository).blob_map(),
            final(local_blob_repository).blob_map(),
            remote_blob_repository.blob_map(),
        ),
        r matches Err(SyncError::MissingSourceBlob { .. }) ==> final(local_node_repository).node_map()
            == old(local_node_repository).node_map(),
        remote_node_repository.answers() && old(local_node_repository).answers() && remote_blob_repository.answers()
            && old(local_blob_repository).answers() ==> (r is Ok <==> source_covers(
            remote_node_repository.node_map(),
            remote_blob_repository.blob_map().dom(),
            old(local_node_repository).node_map().dom(),
            old(local_blob_repository).blob_map().dom(),
            remote_root_hash@,
        )) && (r matches Err(e) ==> e is MissingSourceNode
            || e is MissingSourceBlob) && (source_covers_nodes(
            remote_node_repository.node_map(),
            old(local_node_repository).node_map().dom(),
            remote_root_hash@,
        ) && !source_covers(
            remote_node_repository.node_map(),
            remote_blob_repository.blob_map().dom(),
            old(local_node_repository).node_map().dom(),
            old(local_blob_repository).blob_map().dom(),
            remote_root_hash@,
        ) ==> r matches Err(SyncError::MissingSourceBlob { .. })),
        final(local_node_repository).answers() == old(local_node_repository).answers(),
        final(local_blob_repository).answers() == old(local_blob_repository).answers(),
{
    transfer_tree(
        remote_node_repository,
        local_node_repository,
        remote_blob_repository,
        local_blob_repository,
        remote_root_hash,
    )
}

/// The transfer sets in both directions between two sides: what the target
/// lacks of the source's tree, and what the source lacks of the target's.
pub fn compute_bidirectional_diff<
    S: NodeRepository,
    SB: BlobRepository,
    T: NodeRepository,
    TB: BlobRepository,
>(
    source_node_repository: &S,
    source_blob_repository: &SB,
    source_root_hash: &String,
    target_node_repository: &T,
    target_blob_repository: &TB,
    target_root_hash: &String,
) -> (r: Result<(TransferSet, TransferSet), SyncError>)
    ensures
        r matches Ok((to_target, to_source)) ==> is_transfer_set(
            hashes_view(to_target.nodes@),
            hashes_view(to_target.blobs@),
            source_node_repository.node_map(),
            target_node_repository.node_map().dom(),
            target_blob_repository.blob_map().dom(),
            source_root_hash@,
        ) && is_transfer_set(
            hashes_view(to_source.nodes@),
            hashes_view(to_source.blobs@),
            target_node_repository.node_map(),
            source_node_repository.node_map().dom(),
            source_blob_repository.blob_map().dom(),
            target_root_hash@,
        ),
        r matches Err(e) ==> is_diff_error(e, source_node_repository.node_map()) || is_diff_error(
            e,
            target_node_repository.node_map(),
        ),
        source_node_repository.answers() && source_blob_repository.answers() && target_node_repository.answers()
            && target_blob_repository.answers() ==> (r is Ok <==> source_covers_nodes(
            source_node_repository.node_map(),
            target_node_repository.node_map().dom(),
            source_root_hash@,
        ) && source_covers_nodes(
            target_node_repository.node_map(),
            source_node_repository.node_map().dom(),
            target_root_hash@,
        )) && (r matches Err(e) ==> e is MissingSourceNode),
{
    let ghost to_target_cover = choose_cover(
        source_node_repository.node_map(),
        target_node_repository.node_map().dom(),
        source_root_hash@,
    );
    let ghost to_source_cover = choose_cover(
        target_node_repository.node_map(),
        source_node_repository.node_map().dom(),
        target_root_hash@,
    );
    let first = compute_directional_diff(
        source_node_repository,
        target_node_repository,
        target_blob_repository,
        source_root_hash,
        Ghost(to_target_cover),
    );
    proof {
        lemma_diff_result(
            source_node_repository.node_map(),
            target_node_repository.node_map().dom(),
            target_blob_repository.blob_map().dom(),
            source_root_hash@,
            first,
        );
    }
    let source_to_target = first?;
    let second = compute_directional_diff(
        target_node_repository,
        source_node_repository,
        source_blob_repository,
        target_root_hash,
        Ghost(to_source_cover),
    );
    proof {
        lemma_diff_result(
            target_node_repository.node_map(),
            source_node_repository.node_map().dom(),
            source_blob_repository.blob_map().dom(),
            target_root_hash@,
            second,
        );
    }
    let target_to_source = second?;
    Ok((source_to_target, target_to_source))
}

/// Adds to `dst` every hash of `src` that it does not hold yet.
fn extend_unique(dst: &mut Vec<String>, src: &Vec<String>)
    requires
        hashes_view(old(dst)@).no_duplicates(),
    ensures
        hashes_view(final(dst)@).no_duplicates(),
        forall|x: Seq<char>| #[trigger]
            hashes_view(final(dst)@).contains(x) <==> hashes_view(old(dst)@).contains(x) || hashes_view(
                src@,
            ).contains(x),
{
    let mut i: usize = 0;
    while i < src.len()
        invariant
            0 <= i <= src@.len(),
            hashes_view(dst@).no_duplicates(),
            forall|x: Seq<char>| #[trigger]
                hashes_view(dst@).contains(x) <==> hashes_view(old(dst)@).contains(x) || hashes_view(
                    src@,
                ).subrange(0, i as int).contains(x),
        decreases src@.len() - i,
    {
        let h = &src[i];
        let ghost pre = dst@;
        let ghost s0 = hashes_view(src@).subrange(0, i as int);
        let ghost s1 = hashes_view(src@).subrange(0, i + 1);
        if !contains_hash(dst, h) {
            dst.push(h.clone());
            proof {
                lemma_push_keeps(pre, *h);
                assert forall|a: int, b: int|
                    0 <= a < hashes_view(dst@).len() && 0 <= b < hashes_view(dst@).len() && a != b
                        implies hashes_view(dst@)[a] != hashes_view(dst@)[b] by {
                    if a < pre.len() && b < pre.len() {
                        assert(hashes_view(pre)[a] != hashes_view(pre)[b]);
                    } else if a == pre.len() {
                        assert(hashes_view(pre).contains(hashes_view(pre)[b]));
                    } else {
                        assert(hashes_view(pre).contains(hashes_view(pre)[a]));
                    }
                }
            }
        }
        proof {
            assert(s1 =~= s0.push(h@));
            assert(s1[i as int] == h@);
            assert forall|x: Seq<char>| #[trigger]
                hashes_view(dst@).contains(x) <==> hashes_view(old(dst)@).contains(x) || s1.contains(x) by {
                if s0.contains(x) {
                    let k = choose|k: int| 0 <= k < s0.len() && s0[k] == x;
                    assert(s1[k] == x);
                }
                if s1.contains(x) && x != h@ {
                    let k = choose|k: int| 0 <= k < s1.len() && s1[k] == x;
                    assert(s0[k] == x);
                }
                if hashes_view(dst@).contains(x) && x != h@ {
                    let k = choose|k: int| 0 <= k < hashes_view(dst@).len() && hashes_view(dst@)[k] == x;
                    assert(hashes_view(pre)[k] == x);
                    assert(hashes_view(pre).contains(x));
                }
                if hashes_view(pre).contains(x) {
                    let k = choose|k: int| 0 <= k < hashes_view(pre).len() && hashes_view(pre)[k] == x;
                    assert(hashes_view(dst@)[k] == x);
                }
            }
        }
        i = i + 1;
    }
    proof {
        assert(hashes_view(src@).subrange(0, src@.len() as int) =~= hashes_view(src@));
    }
}

/// Adds the nodes and blobs that the target lacks under `root_hash` (a
/// folder) to the given sets.
pub fn compute_folder_diff<S: NodeRepository, T: NodeRepository, TB: BlobRepository>(
    source_node_repository: &S,
    target_node_repository: &T,
    target_blob_repository: &TB,
    root_hash: &String,
    node_transfer_set: &mut Vec<String>,
    blob_transfer_set: &mut Vec<String>,
) -> (r: Result<(), SyncError>)
    requires
        hashes_view(old(node_transfer_set)@).no_duplicates(),
        hashes_view(old(blob_transfer_set)@).no_duplicates(),
    ensures
        r is Err ==> final(node_transfer_set)@ == old(node_transfer_set)@ && final(blob_transfer_set)@
            == old(blob_transfer_set)@,
        r matches Err(e) ==> is_diff_error(e, source_node_repository.node_map()),
        diff_owed(
            source_node_repository.answers() && target_node_repository.answers()
                && target_blob_repository.answers(),
            source_node_repository.node_map(),
            target_node_repository.node_map().dom(),
            root_hash@,
            r,
        ),
        r is Ok ==> hashes_view(final(node_transfer_set)@).no_duplicates() && hashes_view(
            final(blob_transfer_set)@,
        ).no_duplicates() && exists|ts_nodes: Seq<Seq<char>>, ts_blobs: Seq<Seq<char>>|
            is_transfer_set(
                ts_nodes,
                ts_blobs,
                source_node_repository.node_map(),
                target_node_repository.node_map().dom(),
                target_blob_repository.blob_map().dom(),
                root_hash@,
            ) && (forall|x: Seq<char>| #[trigger]
                hashes_view(final(node_transfer_set)@).contains(x) <==> hashes_view(
                    old(node_transfer_set)@,
                ).contains(x) || ts_nodes.contains(x)) && (forall|x: Seq<char>| #[trigger]
                hashes_view(final(blob_transfer_set)@).contains(x) <==> hashes_view(
                    old(blob_transfer_set)@,
                ).contains(x) || ts_blobs.contains(x)),
{
    let ghost cover = choose_cover(source_node_repository.node_map(), target_node_repository.node_map().dom(), root_hash@);
    let found = compute_directional_diff(
        source_node_repository,
        target_node_repository,
        target_blob_repository,
        root_hash,
        Ghost(cover),
    );
    proof {
        lemma_diff_result(
            source_node_repository.node_map(),
            target_node_repository.node_map().dom(),
            target_blob_repository.blob_map().dom(),
            root_hash@,
            found,
        );
    }
    let ts = found?;
    extend_unique(node_transfer_set, &ts.nodes);
    extend_unique(blob_transfer_set, &ts.blobs);
    Ok(())
}
/// Adds the nodes and blobs that the target lacks under `root_hash` (a
/// file) to the given sets.
pub fn compute_file_diff<S: NodeRepository, T: NodeRepository, TB: BlobRepository>(
    source_node_repository: &S,
    target_node_repository: &T,
    target_blob_repository: &TB,
    root_hash: &String,
    node_transfer_set: &mut Vec<String>,
    blob_transfer_set: &mut Vec<String>,
) -> (r: Result<(), SyncError>)
    requires
        hashes_view(old(node_transfer_set)@).no_duplicates(),
        hashes_view(old(blob_transfer_set)@).no_duplicates(),
    ensures
        r is Err ==> final(node_transfer_set)@ == old(node_transfer_set)@ && final(blob_transfer_set)@
            == old(blob_transfer_set)@,
        r matches Err(e) ==> is_diff_error(e, source_node_repository.node_map()),
        diff_owed(
            source_node_repository.answers() && target_node_repository.answers()
                && target_blob_repository.answers(),
            source_node_repository.node_map(),
            target_node_repository.node_map().dom(),
            root_hash@,
            r,
        ),
        r is Ok ==> hashes_view(final(node_transfer_set)@).no_duplicates() && hashes_view(
            final(blob_transfer_set)@,
        ).no_duplicates() && exists|ts_nodes: Seq<Seq<char>>, ts_blobs: Seq<Seq<char>>|
            is_transfer_set(
                ts_nodes,
                ts_blobs,
                source_node_repository.node_map(),
                target_node_repository.node_map().dom(),
                target_blob_repository.blob_map().dom(),
                root_hash@,
            ) && (forall|x: Seq<char>| #[trigger]
                hashes_view(final(node_transfer_set)@).contains(x) <==> hashes_view(
                    old(node_transfer_set)@,
                ).contains(x) || ts_nodes.contains(x)) && (forall|x: Seq<char>| #[trigger]
                hashes_view(final(blob_transfer_set)@).contains(x) <==> hashes_view(
                    old(blob_transfer_set)@,
                ).contains(x) || ts_blobs.contains(x)),
{
    let ghost cover = choose_cover(source_node_repository.node_map(), target_node_repository.node_map().dom(), root_hash@);
    let found = compute_directional_diff(
        source_node_repository,
        target_node_repository,
        target_blob_repository,
        root_hash,
        Ghost(cover),
    );
    proof {
        lemma_diff_result(
            source_node_repository.node_map(),
            target_node_repository.node_map().dom(),
            target_blob_repository.blob_map().dom(),
            root_hash@,
            found,
        );
    }
    let ts = found?;
    extend_unique(node_transfer_set, &ts.nodes);
    extend_unique(blob_transfer_set, &ts.blobs);
    Ok(())
}

/// What the syncer is doing.
#[derive(Debug, Clone, Copy, PartialEq, Eq, Structural)]
pub enum SyncerActivity {
    Idle,
    Reconciling,
    Materializing,
}

/// The syncer's activity, and whether the vault changed while it was busy.
/// Several watcher events are coalesced into one reconcile, but a change
/// seen while busy is remembered.
#[derive(Debug, Clone, Copy, PartialEq, Eq, Structural)]
pub struct SyncerStatus {
    pub value: SyncerActivity,
    pub is_dirty: bool,
}

impl SyncerStatus {
    /// An idle syncer with nothing pending.
    pub fn new() -> (r: Self)
        ensures
            r.value == SyncerActivity::Idle,
            !r.is_dirty,
    {
        SyncerStatus { value: SyncerActivity::Idle, is_dirty: false }
    }

    /// Starts a pass if the syncer is idle; otherwise notes that the vault
    /// changed meanwhile and refuses. Returns whether the pass starts.
    pub fn try_begin(&mut self) -> (r: bool)
        ensures
            r == (old(self).value == SyncerActivity::Idle),
            r ==> final(self).value == SyncerActivity::Reconciling && !final(self).is_dirty,
            !r ==> final(self).value == old(self).value && final(self).is_dirty,
    {
        if self.value != SyncerActivity::Idle {
            self.is_dirty = true;
            false
        } else {
            self.value = SyncerActivity::Reconciling;
            self.is_dirty = false;
            true
        }
    }

    /// Ends a pass: the syncer is idle again and nothing is pending.
    pub fn finish(&mut self)
        ensures
            final(self).value == SyncerActivity::Idle,
            !final(self).is_dirty,
    {
        self.value = SyncerActivity::Idle;
        self.is_dirty = false;
    }
}

/// The phases a sync pass reports, in order: diffing; uploading payloads
/// when the plan pushes; materializing and then converged when the pass
/// converged, failed otherwise.
pub open spec fn pass_phase_seq(plan: SyncPlan, converged: bool) -> Seq<SyncPhase> {
    seq![SyncPhase::Diffing] + (if plan == SyncPlan::LocalPush {
        seq![SyncPhase::UploadingPayloads]
    } else {
        Seq::empty()
    }) + (if converged {
        seq![SyncPhase::Materializing, SyncPhase::Converged]
    } else {
        seq![SyncPhase::Failed]
    })
}

/// The phases a sync pass with `plan` reports to its progress tracker.
pub fn pass_phases(plan: SyncPlan, converged: bool) -> (r: Vec<SyncPhase>)
    ensures
        r@ == pass_phase_seq(plan, converged),
{
    let mut r: Vec<SyncPhase> = Vec::new();
    r.push(SyncPhase::Diffing);
    if plan == SyncPlan::LocalPush {
        r.push(SyncPhase::UploadingPayloads);
    }
    if converged {
        r.push(SyncPhase::Materializing);
        r.push(SyncPhase::Converged);
    } else {
        r.push(SyncPhase::Failed);
    }
    proof {
        assert(r@ =~= pass_phase_seq(plan, converged));
    }
    r
}

/// After writing `converged_root` into the vault and scanning it again: the
/// root to sync next, if the vault no longer matches what was written.
pub fn next_root_after_rescan(converged_root: &String, fresh_root: Option<String>) -> (r: Option<String>)
    ensures
        r == (match fresh_root {
            Some(f) => if f@ != converged_root@ {
                Some(f)
            } else {
                None
            },
            None => None,
        }),
{
    match fresh_root {
        Some(f) => if f != *converged_root {
            Some(f)
        } else {
            None
        },
        None => None,
    }
}

/// One reconcile pass between the local and remote stores: plans from the
/// base, local and remote roots, runs the strategy that the plan names, and
/// returns the plan with the root both sides now agree on (`None` when the
/// pass did not converge). A pull asks the remote store for its root again
/// and copies the tree under that root, which may be newer than the one
/// the plan was made with; with no remote root to be had it does not
/// converge. A three-way merge is not carried out here: a
/// pass that plans one does not converge and moves neither root. When every
/// store answers and the side being copied holds all the other lacks of its
/// tree, a push or pull converges. The side being written only gains nodes
/// and blobs, each as the other side holds it, while the side being read is
/// left as it was; a closed store that a converged pass writes stays
/// closed, so it then holds the whole tree under the agreed root.
pub fn reconcile<
    L: WritableNodeRepository,
    R: WritableNodeRepository,
    LB: WritableBlobRepository,
    RB: WritableBlobRepository,
>(
    local_node_repository: &mut L,
    remote_node_repository: &mut R,
    local_blob_repository: &mut LB,
    remote_blob_repository: &mut RB,
    base_root: Option<&String>,
    local_root: &String,
    remote_root: Option<&String>,
) -> (r: (SyncPlan, Option<String>))
    ensures
        r.0 == planned(
            match base_root {
                Some(b) => Some(b@),
                None => None,
            },
            local_root@,
            match remote_root {
                Some(x) => Some(x@),
                None => None,
            },
        ),
        r.0 == SyncPlan::Converged ==> r.1 == Some(*local_root),
        r.0 == SyncPlan::LocalPush ==> (r.1 is Some ==> r.1 == Some(*local_root) && final(remote_node_repository).root_view() == Some(local_root@) && final(remote_node_repository).node_map().contains_key(
            local_root@,
        )),
        (r.0 == SyncPlan::RemotePull || r.0 == SyncPlan::RemoteBootstrapPull) ==> (r.1 matches Some(h)
            ==> old(remote_node_repository).root_view() == Some(h@) && final(local_node_repository).root_view()
            == Some(h@) && final(local_node_repository).node_map().contains_key(h@)),
        r.0 == SyncPlan::Merge ==> r.1 is None,
        old(local_node_repository).answers() && old(remote_node_repository).answers() && old(
            local_blob_repository,
        ).answers() && old(remote_blob_repository).answers() ==> {
            &&& r.0 == SyncPlan::LocalPush && source_covers(
                old(local_node_repository).node_map(),
                old(local_blob_repository).blob_map().dom(),
                old(remote_node_repository).node_map().dom(),
                old(remote_blob_repository).blob_map().dom(),
                local_root@,
            ) ==> r.1 == Some(*local_root)
            &&& (r.0 == SyncPlan::RemotePull || r.0 == SyncPlan::RemoteBootstrapPull) && (old(
                remote_node_repository,
            ).root_view() matches Some(fresh) && source_covers(
                old(remote_node_repository).node_map(),
                old(remote_blob_repository).blob_map().dom(),
                old(local_node_repository).node_map().dom(),
                old(local_blob_repository).blob_map().dom(),
                fresh,
            )) ==> r.1 is Some
        },
        r.0 != SyncPlan::LocalPush ==> final(remote_node_repository).root_view() == old(remote_node_repository).root_view(),
        (r.0 != SyncPlan::RemotePull && r.0 != SyncPlan::RemoteBootstrapPull) ==> final(local_node_repository).root_view() == old(local_node_repository).root_view(),
        r.0 == SyncPlan::LocalPush ==> only_added_from(
            old(remote_node_repository).node_map(),
            final(remote_node_repository).node_map(),
            old(local_node_repository).node_map(),
        ) && only_added_from(
            old(remote_blob_repository).blob_map(),
            final(remote_blob_repository).blob_map(),
            old(local_blob_repository).blob_map(),
        ) && final(local_node_repository).node_map() == old(local_node_repository).node_map()
            && final(local_blob_repository).blob_map() == old(local_blob_repository).blob_map(),
        r.0 == SyncPlan::LocalPush && r.1 is Some && closed_store(
            old(remote_node_repository).node_map(),
            old(remote_blob_repository).blob_map().dom(),
        ) ==> closed_store(
            final(remote_node_repository).node_map(),
            final(remote_blob_repository).blob_map().dom(),
        ),
        (r.0 == SyncPlan::RemotePull || r.0 == SyncPlan::RemoteBootstrapPull) ==> only_added_from(
            old(local_node_repository).node_map(),
            final(local_node_repository).node_map(),
            old(remote_node_repository).node_map(),
        ) && only_added_from(
            old(local_blob_repository).blob_map(),
            final(local_blob_repository).blob_map(),
            old(remote_blob_repository).blob_map(),
        ) && final(remote_node_repository).node_map() == old(remote_node_repository).node_map()
            && final(remote_blob_repository).blob_map() == old(remote_blob_repository).blob_map(),
        (r.0 == SyncPlan::RemotePull || r.0 == SyncPlan::RemoteBootstrapPull) && r.1 is Some && closed_store(
            old(local_node_repository).node_map(),
            old(local_blob_repository).blob_map().dom(),
        ) ==> closed_store(
            final(local_node_repository).node_map(),
            final(local_blob_repository).blob_map().dom(),
        ),
        (r.0 == SyncPlan::Converged || r.0 == SyncPlan::Merge) ==> final(local_node_repository).node_map()
            == old(local_node_repository).node_map() && final(remote_node_repository).node_map() == old(
            remote_node_repository,
        ).node_map() && final(local_blob_repository).blob_map() == old(local_blob_repository).blob_map()
            && final(remote_blob_repository).blob_map() == old(remote_blob_repository).blob_map(),
        final(local_node_repository).answers() == old(local_node_repository).answers(),
        final(remote_node_repository).answers() == old(remote_node_repository).answers(),
        final(local_blob_repository).answers() == old(local_blob_repository).answers(),
        final(remote_blob_repository).answers() == old(remote_blob_repository).answers(),
{
    let plan = plan_sync(base_root, local_root, remote_root);
    match plan {
        SyncPlan::Converged => (plan, Some(local_root.clone())),
        SyncPlan::LocalPush => {
            match local_push(
                &*local_node_repository,
                remote_node_repository,
                &*local_blob_repository,
                remote_blob_repository,
                local_root,
            ) {
                Ok(_) => (plan, Some(local_root.clone())),
                Err(_) => (plan, None),
            }
        },
        SyncPlan::RemoteBootstrapPull => {
            let root = match remote_node_repository.root_hash() {
                Ok(Some(h)) => h,
                _ => return (plan, None),
            };
            match bootstrap_pull(
                local_node_repository,
                &*remote_node_repository,
                local_blob_repository,
                &*remote_blob_repository,
                &root,
            ) {
                Ok(_) => (plan, Some(root)),
                Err(_) => (plan, None),
            }
        },
        SyncPlan::RemotePull => {
            let root = match remote_node_repository.root_hash() {
                Ok(Some(h)) => h,
                _ => return (plan, None),
            };
            match remote_pull(
                local_node_repository,
                &*remote_node_repository,
                local_blob_repository,
                &*remote_blob_repository,
                &root,
            ) {
                Ok(_) => (plan, Some(root)),
                Err(_) => (plan, None),
            }
        },
        SyncPlan::Merge => (plan, None),
    }
}

} // verus!
