//! Stores of tree nodes, addressed by hash, with a current root.
use vstd::prelude::*;

use crate::model::{contains_hash, hashes_view, is_missing_list, option_view, Node, NodeView};
use crate::store::{keys_distinct, HashStore};

verus! {

/// Why a node store could not do what was asked.
#[derive(Debug, Clone, PartialEq)]
pub enum NodeRepositoryError {
    InsertFailed(String),
    SetRootFailed(String),
    NodeRetrieveFailed(String),
    RootRetrieveFailed,
    /// The store refused to move its root because another client moved it
    /// first; `actual` is the store's root now, if any.
    RootConflict { actual: Option<String> },
}

/// `r` lists, once each, the pairs of a hash from `hashes` that the store
/// `m` holds and the node it holds under it.
pub open spec fn is_node_batch(r: Seq<(String, Node)>, hashes: Seq<Seq<char>>, m: Map<Seq<char>, NodeView>) -> bool {
    &&& keys_distinct(r)
    &&& forall|i: int|
        0 <= i < r.len() ==> hashes.contains((#[trigger] r[i]).0@) && m.contains_key(r[i].0@)
            && r[i].1@ == m[r[i].0@]
    &&& forall|x: Seq<char>|
        hashes.contains(x) && #[trigger] m.contains_key(x) ==> exists|i: int|
            0 <= i < r.len() && (#[trigger] r[i]).0@ == x
}

/// The contents of a node store after `node` was offered under `hash`: a
/// hash that is already held keeps its node.
pub open spec fn stored_if_absent<V>(m: Map<Seq<char>, V>, k: Seq<char>, v: V) -> Map<Seq<char>, V> {
    if m.contains_key(k) {
        m
    } else {
        m.insert(k, v)
    }
}

/// Read access to a node store.
pub trait NodeRepository {
    /// The nodes held, by hash.
    spec fn node_map(&self) -> Map<Seq<char>, NodeView>;

    /// The root the store points at, if any.
    spec fn root_view(&self) -> Option<Seq<char>>;

    /// Every request to this store is answered: no read or write of it
    /// fails (a store kept in memory; one reached over a network need not
    /// be).
    spec fn answers(&self) -> bool;

    proof fn lemma_node_map_finite(&self)
        ensures
            self.node_map().dom().finite(),
    ;

    fn root_hash(&self) -> (r: Result<Option<String>, NodeRepositoryError>)
        ensures
            self.answers() ==> r is Ok,
            r matches Ok(h) ==> option_view(h) == self.root_view(),
    ;

    fn get_node(&self, hash: &String) -> (r: Result<Option<Node>, NodeRepositoryError>)
        ensures
            self.answers() ==> r is Ok,
            r matches Ok(o) ==> (o is Some <==> self.node_map().contains_key(hash@)),
            r matches Ok(Some(n)) ==> n@ == self.node_map()[hash@],
    ;

    /// The hashes among `hashes` that this store does not hold.
    fn get_missing(&self, hashes: &[String]) -> (r: Result<Vec<String>, NodeRepositoryError>)
        ensures
            self.answers() ==> r is Ok,
            r matches Ok(m) ==> is_missing_list(
                hashes_view(m@),
                hashes_view(hashes@),
                self.node_map().dom(),
            ),
    {
        let mut missing: Vec<String> = Vec::new();
        let mut i: usize = 0;
        while i < hashes.len()
            invariant
                0 <= i <= hashes.len(),
                is_missing_list(
                    hashes_view(missing@),
                    hashes_view(hashes@).subrange(0, i as int),
                    self.node_map().dom(),
                ),
            decreases hashes.len() - i,
        {
            let h = &hashes[i];
            let found = self.get_node(h)?;
            let ghost pre = missing@;
            let ghost prev = hashes_view(hashes@).subrange(0, i as int);
            let ghost next = hashes_view(hashes@).subrange(0, i + 1);
            let absent = found.is_none();
            let in_pre = contains_hash(&missing, h);
            if absent && !in_pre {
                missing.push(h.clone());
            }
            proof {
                assert(next =~= prev.push(h@));
                assert(absent <==> !self.node_map().dom().contains(h@));
                if absent && !in_pre {
                    assert(hashes_view(missing@) =~= hashes_view(pre).push(h@));
                    assert forall|a: int, b: int|
                        0 <= a < hashes_view(missing@).len() && 0 <= b < hashes_view(missing@).len()
                            && a != b implies hashes_view(missing@)[a] != hashes_view(missing@)[b] by {
                        if a < pre.len() && b < pre.len() {
                            assert(hashes_view(pre)[a] != hashes_view(pre)[b]);
                        } else if a == pre.len() {
                            assert(hashes_view(pre).contains(hashes_view(pre)[b]));
                        } else {
                            assert(hashes_view(pre).contains(hashes_view(pre)[a]));
                        }
                    }
                } else {
                    assert(missing@ == pre);
                }
                assert forall|x: Seq<char>|
                    #[trigger] hashes_view(missing@).contains(x) <==> (next.contains(x)
                        && !self.node_map().dom().contains(x)) by {
                    if x == h@ {
                        assert(next[i as int] == x);
                        if hashes_view(pre).contains(x) {
                            assert(prev.contains(x) && !self.node_map().dom().contains(x));
                        }
                        if absent && !in_pre {
                            assert(hashes_view(missing@)[pre.len() as int] == x);
                        }
                    } else {
                        if next.contains(x) {
                            let k = choose|k: int| 0 <= k < next.len() && next[k] == x;
                            assert(prev[k] == x);
                        }
                        if prev.contains(x) {
                            let k = choose|k: int| 0 <= k < prev.len() && prev[k] == x;
                            assert(next[k] == x);
                        }
                        if hashes_view(missing@).contains(x) {
                            let k = choose|k: int| 0 <= k < hashes_view(missing@).len() && hashes_view(missing@)[k] == x;
                            assert(k < pre.len());
                            assert(hashes_view(pre)[k] == x);
                            assert(hashes_view(pre).contains(x));
                        }
                        if hashes_view(pre).contains(x) {
                            let k = choose|k: int| 0 <= k < hashes_view(pre).len() && hashes_view(pre)[k] == x;
                            assert(hashes_view(missing@)[k] == x);
                        }
                    }
                }
            }
            i = i + 1;
        }
        proof {
            assert(hashes_view(hashes@).subrange(0, hashes@.len() as int) =~= hashes_view(hashes@));
        }
        Ok(missing)
    }

    /// The nodes this store holds under the hashes in `hashes`.
    fn get_nodes_batch(&self, hashes: &[String]) -> (r: Result<Vec<(String, Node)>, NodeRepositoryError>)
        ensures
            self.answers() ==> r is Ok,
            r matches Ok(v) ==> is_node_batch(v@, hashes_view(hashes@), self.node_map()),
    {
        let mut out: Vec<(String, Node)> = Vec::new();
        let mut keys: Vec<String> = Vec::new();
        let mut i: usize = 0;
        while i < hashes.len()
            invariant
                0 <= i <= hashes.len(),
                keys@.len() == out@.len(),
                forall|k: int| 0 <= k < out@.len() ==> (#[trigger] keys@[k])@ == out@[k].0@,
                is_node_batch(out@, hashes_view(hashes@).subrange(0, i as int), self.node_map()),
            decreases hashes.len() - i,
        {
            let h = &hashes[i];
            let found = self.get_node(h)?;
            let ghost pre = out@;
            let ghost prev = hashes_view(hashes@).subrange(0, i as int);
            let ghost next = hashes_view(hashes@).subrange(0, i + 1);
            proof {
                assert(next =~= prev.push(h@));
                assert(hashes_view(keys@) =~= pre.map_values(|p: (String, Node)| p.0@));
            }
            let seen = contains_hash(&keys, h);
            let ghost kpre = keys@;
            match found {
                Some(node) => {
                    if !seen {
                        keys.push(h.clone());
                        out.push((h.clone(), node));
                        proof {
                            assert(out@.drop_last() =~= pre);
                            assert forall|a: int, b: int| 0 <= a < b < out@.len() implies (
                            #[trigger] out@[a]).0@ != (#[trigger] out@[b]).0@ by {
                                if b == out@.len() - 1 {
                                    assert(out@[a] == pre[a]);
                                    assert(hashes_view(kpre)[a] == pre[a].0@);
                                    assert(out@[b].0@ == h@);
                                } else {
                                    assert(out@[a] == pre[a] && out@[b] == pre[b]);
                                }
                            }
                        }
                    }
                },
                None => {},
            }
            proof {
                assert forall|k: int| 0 <= k < out@.len() implies hashes_view(hashes@).subrange(0, i + 1).contains(
                (#[trigger] out@[k]).0@) && self.node_map().contains_key(out@[k].0@) && out@[k].1@
                    == self.node_map()[out@[k].0@] by {
                    if k < pre.len() {
                        assert(out@[k] == pre[k]);
                        let j = choose|j: int| 0 <= j < prev.len() && prev[j] == pre[k].0@;
                        assert(next[j] == prev[j]);
                    } else {
                        assert(next[i as int] == h@);
                    }
                }
                assert forall|x: Seq<char>|
                    next.contains(x) && #[trigger] self.node_map().contains_key(x) implies exists|k: int|
                        0 <= k < out@.len() && (#[trigger] out@[k]).0@ == x by {
                    if x == h@ {
                        if seen {
                            let j = choose|j: int| 0 <= j < hashes_view(kpre).len() && hashes_view(kpre)[j] == x;
                            assert(out@[j] == pre[j]);
                            assert(out@[j].0@ == x);
                        } else {
                            assert(out@[out@.len() - 1].0@ == x);
                        }
                    } else {
                        let j = choose|j: int| 0 <= j < next.len() && next[j] == x;
                        assert(prev[j] == x);
                        let k = choose|k: int| 0 <= k < pre.len() && (#[trigger] pre[k]).0@ == x;
                        assert(out@[k] == pre[k]);
                    }
                }
            }
            i = i + 1;
        }
        proof {
            assert(hashes_view(hashes@).subrange(0, hashes@.len() as int) =~= hashes_view(hashes@));
        }
        Ok(out)
    }
}

/// A node store that can also be written.
pub trait WritableNodeRepository: NodeRepository {
    /// Offers `node` under `hash`; a hash already held keeps its node. A
    /// failed offer may or may not have landed.
    fn insert(&mut self, hash: String, node: Node) -> (r: Result<(), NodeRepositoryError>)
        ensures
            old(self).answers() ==> r is Ok,
            final(self).answers() == old(self).answers(),
            final(self).root_view() == old(self).root_view(),
            r is Ok ==> final(self).node_map() == stored_if_absent(old(self).node_map(), hash@, node@),
            r is Err ==> final(self).node_map() == old(self).node_map() || final(self).node_map()
                == stored_if_absent(old(self).node_map(), hash@, node@),
    ;

    /// Points the store's root at `hash`.
    fn set_root(&mut self, hash: String) -> (r: Result<(), NodeRepositoryError>)
        ensures
            old(self).answers() ==> r is Ok,
            final(self).answers() == old(self).answers(),
            final(self).node_map() == old(self).node_map(),
            r is Ok ==> final(self).root_view() == Some(hash@),
            r matches Err(e) ==> final(self).root_view() == old(self).root_view() || (
            e matches NodeRepositoryError::RootConflict { actual } && final(self).root_view()
                == option_view(actual)),
    ;
}

/// A node store held in memory.
pub struct InMemoryNodeRepository {
    root: Option<String>,
    nodes: HashStore<Node>,
}

impl InMemoryNodeRepository {
    /// An empty store with no root.
    pub fn new() -> (r: Self)
        ensures
            r.node_map() == Map::<Seq<char>, NodeView>::empty(),
            r.root_view() is None,
    {
        InMemoryNodeRepository { root: None, nodes: HashStore::new() }
    }

    /// Stores `node` under `hash` unless the hash is already held.
    pub fn insert_internal(&mut self, hash: String, node: Node) -> (r: Result<(), NodeRepositoryError>)
        ensures
            r is Ok,
            final(self).node_map() == stored_if_absent(old(self).node_map(), hash@, node@),
            final(self).root_view() == old(self).root_view(),
            final(self).node_map().dom().finite(),
            final(self).node_map().dom().len() == old(self).node_map().dom().len() + if old(
                self,
            ).node_map().contains_key(hash@) {
                0int
            } else {
                1int
            },
    {
        proof {
            self.nodes.lemma_finite();
        }
        self.nodes.insert_if_absent(hash, node);
        proof {
            self.nodes.lemma_finite();
        }
        Ok(())
    }

    /// Points the root at `hash`.
    pub fn set_root_internal(&mut self, hash: String) -> (r: Result<(), NodeRepositoryError>)
        ensures
            r is Ok,
            final(self).root_view() == Some(hash@),
            final(self).node_map() == old(self).node_map(),
    {
        self.root = Some(hash);
        Ok(())
    }

    /// The node held under `hash`, if any.
    pub fn get_node_internal(&self, hash: &String) -> (r: Result<Option<Node>, NodeRepositoryError>)
        ensures
            r matches Ok(o) && (o is Some <==> self.node_map().contains_key(hash@)),
            r matches Ok(Some(n)) ==> n@ == self.node_map()[hash@],
    {
        match self.nodes.get(hash) {
            Some(node) => Ok(Some(node.duplicate())),
            None => Ok(None),
        }
    }

    /// The number of nodes held.
    pub fn len(&self) -> (r: usize)
        ensures
            r == self.node_map().dom().len(),
    {
        self.nodes.len()
    }

    /// Whether no node is held.
    pub fn is_empty(&self) -> (r: bool)
        ensures
            r == (self.node_map().dom().len() == 0),
    {
        self.nodes.len() == 0
    }
}

impl NodeRepository for InMemoryNodeRepository {
    closed spec fn node_map(&self) -> Map<Seq<char>, NodeView> {
        self.nodes.map()
    }

    closed spec fn root_view(&self) -> Option<Seq<char>> {
        option_view(self.root)
    }

    open spec fn answers(&self) -> bool {
        true
    }

    proof fn lemma_node_map_finite(&self) {
        self.nodes.lemma_finite();
    }

    fn root_hash(&self) -> (r: Result<Option<String>, NodeRepositoryError>)
        ensures
            r is Ok,
    {
        match &self.root {
            Some(h) => Ok(Some(h.clone())),
            None => Ok(None),
        }
    }

    fn get_node(&self, hash: &String) -> (r: Result<Option<Node>, NodeRepositoryError>)
        ensures
            r is Ok,
    {
        self.get_node_internal(hash)
    }
}

impl WritableNodeRepository for InMemoryNodeRepository {
    fn insert(&mut self, hash: String, node: Node) -> (r: Result<(), NodeRepositoryError>)
        ensures
            r is Ok,
    {
        self.insert_internal(hash, node)
    }

    fn set_root(&mut self, hash: String) -> (r: Result<(), NodeRepositoryError>)
        ensures
            r is Ok,
    {
        self.set_root_internal(hash)
    }
}

} // verus!
