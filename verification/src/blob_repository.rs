//! Stores of blobs (chunks of file content), addressed by hash.
use vstd::prelude::*;

use crate::model::{contains_hash, hashes_view, is_missing_list, Blob};
use crate::node_repository::stored_if_absent;
use crate::store::{keys_distinct, HashStore};

verus! {

/// Why a blob store could not do what was asked.
#[derive(Debug, Clone, PartialEq)]
pub enum BlobRepositoryError {
    InsertFailed(String),
    RetrieveFailed(String),
    ExistenceCheckFailed(String),
    /// The store refused the upload, for the given reason.
    UploadRejected { hash: String, reason: String },
}

/// `r` lists, once each, the pairs of a hash from `hashes` that the store
/// `m` holds and the blob it holds under it.
pub open spec fn is_blob_batch(r: Seq<(String, Blob)>, hashes: Seq<Seq<char>>, m: Map<Seq<char>, Seq<u8>>) -> bool {
    &&& keys_distinct(r)
    &&& forall|i: int|
        0 <= i < r.len() ==> hashes.contains((#[trigger] r[i]).0@) && m.contains_key(r[i].0@)
            && r[i].1@ == m[r[i].0@]
    &&& forall|x: Seq<char>|
        hashes.contains(x) && #[trigger] m.contains_key(x) ==> exists|i: int|
            0 <= i < r.len() && (#[trigger] r[i]).0@ == x
}

/// Read access to a blob store.
pub trait BlobRepository {
    /// The blobs held, by hash.
    spec fn blob_map(&self) -> Map<Seq<char>, Seq<u8>>;

    /// Every request to this store is answered: no read or write of it
    /// fails (a store kept in memory; one reached over a network need not
    /// be).
    spec fn answers(&self) -> bool;

    /// A store holds finitely many blobs.
    proof fn lemma_blob_map_finite(&self)
        ensures
            self.blob_map().dom().finite(),
    ;

    fn get_blob(&self, hash: &String) -> (r: Result<Option<Blob>, BlobRepositoryError>)
        ensures
            self.answers() ==> r is Ok,
            r matches Ok(o) ==> (o is Some <==> self.blob_map().contains_key(hash@)),
            r matches Ok(Some(b)) ==> b@ == self.blob_map()[hash@],
    ;

    fn contains(&self, hash: &String) -> (r: Result<bool, BlobRepositoryError>)
        ensures
            self.answers() ==> r is Ok,
            r matches Ok(b) ==> b == self.blob_map().contains_key(hash@),
    ;

    /// The blobs this store holds under the hashes in `hashes`.
    fn get_blobs_batch(&self, hashes: &[String]) -> (r: Result<Vec<(String, Blob)>, BlobRepositoryError>)
        ensures
            self.answers() ==> r is Ok,
            r matches Ok(v) ==> is_blob_batch(v@, hashes_view(hashes@), self.blob_map()),
    {
        let mut out: Vec<(String, Blob)> = Vec::new();
        let mut keys: Vec<String> = Vec::new();
        let mut i: usize = 0;
        while i < hashes.len()
            invariant
                0 <= i <= hashes.len(),
                keys@.len() == out@.len(),
                forall|k: int| 0 <= k < out@.len() ==> (#[trigger] keys@[k])@ == out@[k].0@,
                is_blob_batch(out@, hashes_view(hashes@).subrange(0, i as int), self.blob_map()),
            decreases hashes.len() - i,
        {
            let h = &hashes[i];
            let found = self.get_blob(h)?;
            let ghost pre = out@;
            let ghost prev = hashes_view(hashes@).subrange(0, i as int);
            let ghost next = hashes_view(hashes@).subrange(0, i + 1);
            proof {
                assert(next =~= prev.push(h@));
                assert(hashes_view(keys@) =~= pre.map_values(|p: (String, Blob)| p.0@));
            }
            let seen = contains_hash(&keys, h);
            let ghost kpre = keys@;
            match found {
                Some(blob) => {
                    if !seen {
                        keys.push(h.clone());
                        out.push((h.clone(), blob));
                        proof {
                            assert(out@.drop_last() =~= pre);
                            assert forall|a: int, b: int| 0 <= a < b < out@.len() implies (
                            #[trigger] out@[a]).0@ != (#[trigger] out@[b]).0@ by {
                                if b == out@.len() - 1 {
                                    assert(out@[a] == pre[a]);
                                    assert(hashes_view(kpre)[a] == pre[a].0@);
                                    assert(out@[b].0@ == h@);
                                } else {
                                    assert(out@[a] == pre[a] && out@[b] == pre[b]);
                                }
                            }
                        }
                    }
                },
                None => {},
            }
            proof {
                assert forall|k: int| 0 <= k < out@.len() implies hashes_view(hashes@).subrange(0, i + 1).contains(
                (#[trigger] out@[k]).0@) && self.blob_map().contains_key(out@[k].0@) && out@[k].1@
                    == self.blob_map()[out@[k].0@] by {
                    if k < pre.len() {
                        assert(out@[k] == pre[k]);
                        let j = choose|j: int| 0 <= j < prev.len() && prev[j] == pre[k].0@;
                        assert(next[j] == prev[j]);
                    } else {
                        assert(next[i as int] == h@);
                    }
                }
                assert forall|x: Seq<char>|
                    next.contains(x) && #[trigger] self.blob_map().contains_key(x) implies exists|k: int|
                        0 <= k < out@.len() && (#[trigger] out@[k]).0@ == x by {
                    if x == h@ {
                        if seen {
                            let j = choose|j: int| 0 <= j < hashes_view(kpre).len() && hashes_view(kpre)[j] == x;
                            assert(out@[j] == pre[j]);
                            assert(out@[j].0@ == x);
                        } else {
                            assert(out@[out@.len() - 1].0@ == x);
                        }
                    } else {
                        let j = choose|j: int| 0 <= j < next.len() && next[j] == x;
                        assert(prev[j] == x);
                        let k = choose|k: int| 0 <= k < pre.len() && (#[trigger] pre[k]).0@ == x;
                        assert(out@[k] == pre[k]);
                    }
                }
            }
            i = i + 1;
        }
        proof {
            assert(hashes_view(hashes@).subrange(0, hashes@.len() as int) =~= hashes_view(hashes@));
        }
        Ok(out)
    }

    /// The hashes among `hashes` that this store does not hold.
    fn get_missing(&self, hashes: &[String]) -> (r: Result<Vec<String>, BlobRepositoryError>)
        ensures
            self.answers() ==> r is Ok,
            r matches Ok(m) ==> is_missing_list(
                hashes_view(m@),
                hashes_view(hashes@),
                self.blob_map().dom(),
            ),
    {
        let mut missing: Vec<String> = Vec::new();
        let mut i: usize = 0;
        while i < hashes.len()
            invariant
                0 <= i <= hashes.len(),
                is_missing_list(
                    hashes_view(missing@),
                    hashes_view(hashes@).subrange(0, i as int),
                    self.blob_map().dom(),
                ),
            decreases hashes.len() - i,
        {
            let h = &hashes[i];
            let held = self.contains(h)?;
            let ghost pre = missing@;
            let ghost prev = hashes_view(hashes@).subrange(0, i as int);
            let ghost next = hashes_view(hashes@).subrange(0, i + 1);
            let absent = !held;
            let in_pre = contains_hash(&missing, h);
            if absent && !in_pre {
                missing.push(h.clone());
            }
            proof {
                assert(next =~= prev.push(h@));
                assert(absent <==> !self.blob_map().dom().contains(h@));
                if absent && !in_pre {
                    assert(hashes_view(missing@) =~= hashes_view(pre).push(h@));
                    assert forall|a: int, b: int|
                        0 <= a < hashes_view(missing@).len() && 0 <= b < hashes_view(missing@).len()
                            && a != b implies hashes_view(missing@)[a] != hashes_view(missing@)[b] by {
                        if a < pre.len() && b < pre.len() {
                            assert(hashes_view(pre)[a] != hashes_view(pre)[b]);
                        } else if a == pre.len() {
                            assert(hashes_view(pre).contains(hashes_view(pre)[b]));
                        } else {
                            assert(hashes_view(pre).contains(hashes_view(pre)[a]));
                        }
                    }
                } else {
                    assert(missing@ == pre);
                }
                assert forall|x: Seq<char>|
                    #[trigger] hashes_view(missing@).contains(x) <==> (next.contains(x)
                        && !self.blob_map().dom().contains(x)) by {
                    if x == h@ {
                        assert(next[i as int] == x);
                        if hashes_view(pre).contains(x) {
                            assert(prev.contains(x) && !self.blob_map().dom().contains(x));
                        }
                        if absent && !in_pre {
                            assert(hashes_view(missing@)[pre.len() as int] == x);
                        }
                    } else {
                        if next.contains(x) {
                            let k = choose|k: int| 0 <= k < next.len() && next[k] == x;
                            assert(prev[k] == x);
                        }
                        if prev.contains(x) {
                            let k = choose|k: int| 0 <= k < prev.len() && prev[k] == x;
                            assert(next[k] == x);
                        }
                        if hashes_view(missing@).contains(x) {
                            let k = choose|k: int| 0 <= k < hashes_view(missing@).len() && hashes_view(missing@)[k] == x;
                            assert(k < pre.len());
                            assert(hashes_view(pre)[k] == x);
                            assert(hashes_view(pre).contains(x));
                        }
                        if hashes_view(pre).contains(x) {
                            let k = choose|k: int| 0 <= k < hashes_view(pre).len() && hashes_view(pre)[k] == x;
                            assert(hashes_view(missing@)[k] == x);
                        }
                    }
                }
            }
            i = i + 1;
        }
        proof {
            assert(hashes_view(hashes@).subrange(0, hashes@.len() as int) =~= hashes_view(hashes@));
        }
        Ok(missing)
    }

}

/// A blob store that can also be written.
pub trait WritableBlobRepository: BlobRepository {
    /// Offers `blob` under `hash`; a hash already held keeps its blob. A
    /// failed offer may or may not have landed.
    fn insert(&mut self, hash: String, blob: Blob) -> (r: Result<(), BlobRepositoryError>)
        ensures
            old(self).answers() ==> r is Ok,
            final(self).answers() == old(self).answers(),
            r is Ok ==> final(self).blob_map() == stored_if_absent(old(self).blob_map(), hash@, blob@),
            r is Err ==> final(self).blob_map() == old(self).blob_map() || final(self).blob_map()
                == stored_if_absent(old(self).blob_map(), hash@, blob@),
    ;
}

/// A blob store held in memory.
pub struct InMemoryBlobRepository {
    blobs: HashStore<Blob>,
}

impl InMemoryBlobRepository {
    /// An empty store.
    pub fn new() -> (r: Self)
        ensures
            r.blob_map() == Map::<Seq<char>, Seq<u8>>::empty(),
    {
        InMemoryBlobRepository { blobs: HashStore::new() }
    }

    /// Stores `blob` under `hash` unless the hash is already held.
    pub fn insert_internal(&mut self, hash: String, blob: Blob) -> (r: Result<(), BlobRepositoryError>)
        ensures
            r is Ok,
            final(self).blob_map() == stored_if_absent(old(self).blob_map(), hash@, blob@),
            final(self).blob_map().dom().finite(),
            final(self).blob_map().dom().len() == old(self).blob_map().dom().len() + if old(
                self,
            ).blob_map().contains_key(hash@) {
                0int
            } else {
                1int
            },
    {
        proof {
            self.blobs.lemma_finite();
        }
        self.blobs.insert_if_absent(hash, blob);
        proof {
            self.blobs.lemma_finite();
        }
        Ok(())
    }

    /// The number of blobs held.
    pub fn len(&self) -> (r: usize)
        ensures
            r == self.blob_map().dom().len(),
    {
        self.blobs.len()
    }

    /// Whether no blob is held.
    pub fn is_empty(&self) -> (r: bool)
        ensures
            r == (self.blob_map().dom().len() == 0),
    {
        self.blobs.len() == 0
    }
}

impl BlobRepository for InMemoryBlobRepository {
    closed spec fn blob_map(&self) -> Map<Seq<char>, Seq<u8>> {
        self.blobs.map()
    }

    open spec fn answers(&self) -> bool {
        true
    }

    proof fn lemma_blob_map_finite(&self) {
        self.blobs.lemma_finite();
    }

    fn get_blob(&self, hash: &String) -> (r: Result<Option<Blob>, BlobRepositoryError>) {
        match self.blobs.get(hash) {
            Some(blob) => Ok(Some(blob.duplicate())),
            None => Ok(None),
        }
    }

    fn contains(&self, hash: &String) -> (r: Result<bool, BlobRepositoryError>)
        ensures
            r is Ok,
    {
        Ok(self.blobs.contains_key(hash))
    }
}

impl WritableBlobRepository for InMemoryBlobRepository {
    fn insert(&mut self, hash: String, blob: Blob) -> (r: Result<(), BlobRepositoryError>)
        ensures
            r is Ok,
    {
        self.insert_internal(hash, blob)
    }
}

} // verus!
