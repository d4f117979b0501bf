//! Cutting file content into blobs at content-defined boundaries (FastCDC),
//! so that an edit only changes the blobs around it.
use vstd::prelude::*;

use crate::blob_repository::{BlobRepository, InMemoryBlobRepository};
use crate::digest::{blake3_digest, blake3_hex, hex_text};
use crate::model::{blob_refs_view, Blob, BlobRef, BlobRefView};
use crate::node_repository::stored_if_absent;
use crate::text::push_str;

verus! {

pub const DEFAULT_MIN_CHUNK_SIZE: usize = 262144;

pub const DEFAULT_AVG_CHUNK_SIZE: usize = 1048576;

pub const DEFAULT_MAX_CHUNK_SIZE: usize = 4194304;

/// The smallest, average and largest chunk that FastCDC aims at.
#[derive(Debug, Clone, Copy, PartialEq, Eq, Structural)]
pub struct FileChunkerConfig {
    pub min_size: usize,
    pub avg_size: usize,
    pub max_size: usize,
}

impl Default for FileChunkerConfig {
    /// Chunks of 256 KiB to 4 MiB, 1 MiB on average.
    fn default() -> (r: Self)
        ensures
            r.min_size == DEFAULT_MIN_CHUNK_SIZE,
            r.avg_size == DEFAULT_AVG_CHUNK_SIZE,
            r.max_size == DEFAULT_MAX_CHUNK_SIZE,
    {
        FileChunkerConfig {
            min_size: DEFAULT_MIN_CHUNK_SIZE,
            avg_size: DEFAULT_AVG_CHUNK_SIZE,
            max_size: DEFAULT_MAX_CHUNK_SIZE,
        }
    }
}

/// The limits FastCDC accepts, as the chunker hands them over (truncated
/// to 32 bits).
pub open spec fn accepted_limits(config: FileChunkerConfig) -> bool {
    &&& 64 <= (config.min_size as u32) <= 1048576
    &&& 256 <= (config.avg_size as u32) <= 4194304
    &&& 1024 <= (config.max_size as u32) <= 16777216
}

/// FastCDC can cut `len` bytes with these limits: an average above the
/// largest chunk makes it read past the end of a source longer than the
/// largest chunk.
pub open spec fn cuttable(len: int, avg_size: u32, max_size: u32) -> bool {
    avg_size <= max_size || len <= max_size
}

/// The longest chunk FastCDC cuts: the largest size, or the smallest when
/// that is larger (a rest no longer than it is taken whole).
pub open spec fn longest_chunk(min_size: u32, max_size: u32) -> int {
    if min_size > max_size {
        min_size as int
    } else {
        max_size as int
    }
}

/// Why a file could not be chunked.
#[derive(Debug, Clone)]
pub enum FileChunkerError {
    ReadFileFailed { path: String, source: String },
}

impl FileChunkerError {
    /// The error as text.
    pub fn message(&self) -> (r: String)
        ensures
            self matches FileChunkerError::ReadFileFailed { path, .. } ==> r@ == "Error reading file: "@ + path@,
    {
        match self {
            FileChunkerError::ReadFileFailed { path, .. } => {
                let mut r = String::from_str("Error reading file: ");
                push_str(&mut r, path.as_str());
                r
            },
        }
    }
}

/// The chunks, as (offset, length), that `fastcdc::v2020::FastCDC` cuts
/// `source` into with the given limits.
pub uninterp spec fn cdc_chunks(source: Seq<u8>, min_size: u32, avg_size: u32, max_size: u32) -> Seq<(usize, usize)>;

/// `cuts` cover `0..n` in order, without gaps or overlaps, each at least
/// one byte long.
pub open spec fn tiles(cuts: Seq<(usize, usize)>, n: int) -> bool {
    &&& cuts.len() == 0 <==> n == 0
    &&& cuts.len() > 0 ==> cuts[0].0 == 0 && cuts.last().0 + cuts.last().1 == n
    &&& forall|i: int| 0 <= i < cuts.len() ==> (#[trigger] cuts[i]).1 > 0
    &&& forall|i: int| 0 <= i < cuts.len() - 1 ==> #[trigger] cuts[i + 1].0 == cuts[i].0 + cuts[i].1
}

/// `FastCDC::new(source, min, avg, max)`, each chunk taken as its offset
/// and length. The iterator hands out chunks one after another from the
/// start of the source until none is left, each of at least one byte (the
/// crate's `next`), none longer than the larger of the smallest and the
/// largest size (`cut_gear`). It panics on limits outside the ranges it
/// accepts, and may index past the end of a source longer than the largest
/// size when the average is above the largest size.
#[verifier::external_body]
fn fastcdc_cuts(source: &[u8], min_size: u32, avg_size: u32, max_size: u32) -> (r: Vec<(usize, usize)>)
    requires
        64 <= min_size <= 1048576,
        256 <= avg_size <= 4194304,
        1024 <= max_size <= 16777216,
        cuttable(source@.len() as int, avg_size, max_size),
    ensures
        r@ == cdc_chunks(source@, min_size, avg_size, max_size) && tiles(r@, source@.len() as int),
        forall|i: int| 0 <= i < r@.len() ==> (#[trigger] r@[i]).1 <= longest_chunk(min_size, max_size),
{
    fastcdc::v2020::FastCDC::new(source, min_size, avg_size, max_size).map(|c| (c.offset, c.length)).collect()
}

/// The reference to a chunk: the first hexadecimal digest of its bytes, and
/// its length.
pub open spec fn chunk_ref(bytes: Seq<u8>) -> BlobRefView {
    BlobRefView { hash: hex_text(blake3_digest(bytes)), size: bytes.len() as u64 }
}

/// The references to the chunks of `source`.
pub open spec fn chunk_refs(source: Seq<u8>, cuts: Seq<(usize, usize)>) -> Seq<BlobRefView> {
    Seq::new(cuts.len(), |i: int| chunk_ref(source.subrange(cuts[i].0 as int, cuts[i].0 + cuts[i].1)))
}

/// The blob store after the chunks of `source` up to the `k`-th were offered
/// to it in order.
pub open spec fn stored_chunks(
    m: Map<Seq<char>, Seq<u8>>,
    source: Seq<u8>,
    cuts: Seq<(usize, usize)>,
    k: int,
) -> Map<Seq<char>, Seq<u8>>
    decreases k,
{
    if k <= 0 {
        m
    } else {
        let bytes = source.subrange(cuts[k - 1].0 as int, cuts[k - 1].0 + cuts[k - 1].1);
        stored_if_absent(stored_chunks(m, source, cuts, k - 1), chunk_ref(bytes).hash, bytes)
    }
}

/// Cuts file contents into chunks and keeps their bytes in a blob store.
pub struct FileChunker {
    config: FileChunkerConfig,
    pub blob_repository: InMemoryBlobRepository,
}

impl FileChunker {
    /// The limits the chunker cuts with.
    pub closed spec fn limits(&self) -> FileChunkerConfig {
        self.config
    }

    /// The blobs its store holds.
    pub closed spec fn blobs(&self) -> Map<Seq<char>, Seq<u8>> {
        self.blob_repository.blob_map()
    }

    /// A chunker with these limits, storing into `blob_repository`.
    pub fn new(config: FileChunkerConfig, blob_repository: InMemoryBlobRepository) -> (r: Self)
        ensures
            r.limits() == config,
            r.blobs() == blob_repository.blob_map(),
    {
        FileChunker { config, blob_repository }
    }

    /// Whether FastCDC can cut `len` bytes with this chunker's limits, so
    /// that [`FileChunker::chunk_file`] may be called on them.
    pub fn can_chunk(&self, len: usize) -> (r: bool)
        ensures
            r == (accepted_limits(self.limits()) && cuttable(
                len as int,
                self.limits().avg_size as u32,
                self.limits().max_size as u32,
            )),
    {
        let min_size = self.config.min_size as u32;
        let avg_size = self.config.avg_size as u32;
        let max_size = self.config.max_size as u32;
        64 <= min_size && min_size <= 1048576 && 256 <= avg_size && avg_size <= 4194304 && 1024 <= max_size
            && max_size <= 16777216 && (avg_size <= max_size || len <= max_size as usize)
    }

    /// Cuts a file's contents into chunks: returns a reference to each, in
    /// order, and stores each chunk's bytes under its hash (a hash already
    /// held keeps its bytes). The chunks put back together give the contents.
    pub fn chunk_file(&mut self, file_bytes: &[u8]) -> (r: Vec<BlobRef>)
        requires
            accepted_limits(old(self).limits()),
            cuttable(file_bytes@.len() as int, old(self).limits().avg_size as u32, old(self).limits().max_size as u32),
        ensures
            final(self).limits() == old(self).limits(),
            forall|i: int|
                0 <= i < r@.len() ==> (#[trigger] r@[i]).size <= longest_chunk(
                    old(self).limits().min_size as u32,
                    old(self).limits().max_size as u32,
                ),
            ({
                let cuts = cdc_chunks(
                    file_bytes@,
                    old(self).limits().min_size as u32,
                    old(self).limits().avg_size as u32,
                    old(self).limits().max_size as u32,
                );
                &&& tiles(cuts, file_bytes@.len() as int)
                &&& blob_refs_view(r@) == chunk_refs(file_bytes@, cuts)
                &&& final(self).blobs() == stored_chunks(
                    old(self).blobs(),
                    file_bytes@,
                    cuts,
                    cuts.len() as int,
                )
            }),
    {
        let cuts = fastcdc_cuts(
            file_bytes,
            self.config.min_size as u32,
            self.config.avg_size as u32,
            self.config.max_size as u32,
        );
        let ghost m0 = self.blob_repository.blob_map();
        let mut refs: Vec<BlobRef> = Vec::new();
        let mut i: usize = 0;
        while i < cuts.len()
            invariant
                tiles(cuts@, file_bytes@.len() as int),
                0 <= i <= cuts@.len(),
                self.config == old(self).config,
                blob_refs_view(refs@) == chunk_refs(file_bytes@, cuts@).subrange(0, i as int),
                self.blob_repository.blob_map() == stored_chunks(m0, file_bytes@, cuts@, i as int),
            decreases cuts@.len() - i,
        {
            let (offset, length) = cuts[i];
            proof {
                lemma_cut_in_bounds(cuts@, file_bytes@.len() as int, i as int);
                assert(offset == cuts@[i as int].0 && length == cuts@[i as int].1);
                assert(file_bytes@.len() == file_bytes.len());
            }
            let chunk = vstd::slice::slice_subrange(file_bytes, offset, offset + length);
            let hash = blake3_hex(chunk);
            let bytes = vstd::slice::slice_to_vec(chunk);
            let ghost pre = refs@;
            refs.push(BlobRef { hash: hash.clone(), size: length as u64 });
            self.blob_repository.insert_internal(hash, Blob { bytes });
            proof {
                assert(blob_refs_view(refs@) =~= blob_refs_view(pre).push(refs@.last()@));
                assert(chunk_refs(file_bytes@, cuts@).subrange(0, i + 1) =~= chunk_refs(file_bytes@, cuts@).subrange(
                    0,
                    i as int,
                ).push(chunk_refs(file_bytes@, cuts@)[i as int]));
            }
            i = i + 1;
        }
        proof {
            assert(chunk_refs(file_bytes@, cuts@).subrange(0, cuts@.len() as int) =~= chunk_refs(file_bytes@, cuts@));
            assert forall|k: int| 0 <= k < refs@.len() implies (#[trigger] refs@[k]).size <= longest_chunk(
                self.config.min_size as u32,
                self.config.max_size as u32,
            ) by {
                lemma_cut_in_bounds(cuts@, file_bytes@.len() as int, k);
                assert(blob_refs_view(refs@)[k] == refs@[k]@);
                assert(cuts@[k].1 <= longest_chunk(self.config.min_size as u32, self.config.max_size as u32));
            }
        }
        refs
    }
}

/// Each cut lies inside the source.
proof fn lemma_cut_in_bounds(cuts: Seq<(usize, usize)>, n: int, i: int)
    requires
        tiles(cuts, n),
        0 <= i < cuts.len(),
    ensures
        cuts[i].0 + cuts[i].1 <= n,
    decreases cuts.len() - i,
{
    if i < cuts.len() - 1 {
        lemma_cut_in_bounds(cuts, n, i + 1);
        assert(cuts[i + 1].0 == cuts[i].0 + cuts[i].1);
        assert(cuts[i + 1].1 > 0);
    } else {
        assert(cuts[i] == cuts.last());
    }
}

/// The chunks of a source, put back together in order.
pub open spec fn joined_chunks(source: Seq<u8>, cuts: Seq<(usize, usize)>, k: int) -> Seq<u8>
    decreases k,
{
    if k <= 0 {
        Seq::empty()
    } else {
        joined_chunks(source, cuts, k - 1) + source.subrange(cuts[k - 1].0 as int, cuts[k - 1].0 + cuts[k - 1].1)
    }
}

/// Chunks that tile a source put back together give the source: no byte
/// is lost, repeated or moved.
pub proof fn lemma_chunks_rebuild_source(source: Seq<u8>, cuts: Seq<(usize, usize)>)
    requires
        tiles(cuts, source.len() as int),
    ensures
        joined_chunks(source, cuts, cuts.len() as int) == source,
{
    if cuts.len() > 0 {
        lemma_joined_prefix(source, cuts, cuts.len() as int);
        assert(source.subrange(0, source.len() as int) =~= source);
    } else {
        assert(source =~= Seq::<u8>::empty());
    }
}

proof fn lemma_joined_prefix(source: Seq<u8>, cuts: Seq<(usize, usize)>, k: int)
    requires
        tiles(cuts, source.len() as int),
        0 < k <= cuts.len(),
    ensures
        cuts[k - 1].0 + cuts[k - 1].1 <= source.len(),
        joined_chunks(source, cuts, k) == source.subrange(0, cuts[k - 1].0 + cuts[k - 1].1),
    decreases k,
{
    lemma_cut_in_bounds(cuts, source.len() as int, k - 1);
    if k == 1 {
        assert(joined_chunks(source, cuts, 0) =~= Seq::<u8>::empty());
        assert(joined_chunks(source, cuts, 1) =~= source.subrange(0, cuts[0].0 + cuts[0].1));
    } else {
        lemma_joined_prefix(source, cuts, k - 1);
        let j = k - 2;
        assert(cuts[j + 1].0 == cuts[j].0 + cuts[j].1);
        assert(joined_chunks(source, cuts, k) =~= source.subrange(0, cuts[k - 1].0 + cuts[k - 1].1));
    }
}

} // verus!
