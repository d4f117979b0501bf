use phaneros::blob_repository::{BlobRepository, InMemoryBlobRepository};
use phaneros::file_chunker::{FileChunker, FileChunkerConfig};

fn pseudo_random_bytes(n: usize) -> Vec<u8> {
    let mut state: u64 = 0x9e3779b97f4a7c15;
    let mut out = Vec::with_capacity(n);
    for _ in 0..n {
        state = state.wrapping_mul(6364136223846793005).wrapping_add(1442695040888963407);
        out.push((state >> 33) as u8);
    }
    out
}

fn small_config() -> FileChunkerConfig {
    FileChunkerConfig { min_size: 64, avg_size: 256, max_size: 1024 }
}

#[test]
fn default_limits() {
    let c = FileChunkerConfig::default();
    assert_eq!((c.min_size, c.avg_size, c.max_size), (262144, 1048576, 4194304));
}

#[test]
fn chunks_put_back_together_give_the_file() {
    let data = pseudo_random_bytes(200_000);
    let mut chunker = FileChunker::new(small_config(), InMemoryBlobRepository::new());
    let refs = chunker.chunk_file(&data);
    assert!(refs.len() > 1);
    let mut joined = Vec::new();
    for r in &refs {
        assert!(r.size >= 1 && r.size <= 1024);
        assert_eq!(r.hash.len(), 64);
        let blob = chunker.blob_repository.get_blob(&r.hash).unwrap().expect("chunk stored");
        assert_eq!(blob.bytes.len() as u64, r.size);
        assert_eq!(r.hash, blake3::hash(&blob.bytes).to_hex().to_string());
        joined.extend_from_slice(&blob.bytes);
    }
    assert_eq!(joined, data);
}

#[test]
fn empty_file_has_no_chunks() {
    let mut chunker = FileChunker::new(small_config(), InMemoryBlobRepository::new());
    assert!(chunker.chunk_file(&[]).is_empty());
    assert!(chunker.blob_repository.is_empty());
}

#[test]
fn repeated_content_is_stored_once() {
    let data = pseudo_random_bytes(50_000);
    let mut chunker = FileChunker::new(small_config(), InMemoryBlobRepository::new());
    let first = chunker.chunk_file(&data);
    let stored = chunker.blob_repository.len();
    let second = chunker.chunk_file(&data);
    assert_eq!(first.len(), second.len());
    for (a, b) in first.iter().zip(second.iter()) {
        assert_eq!(a.hash, b.hash);
    }
    assert_eq!(chunker.blob_repository.len(), stored);
}

#[test]
fn limits_fastcdc_takes_are_checked_before_cutting() {
    let chunker = FileChunker::new(small_config(), InMemoryBlobRepository::new());
    assert!(chunker.can_chunk(0));
    assert!(chunker.can_chunk(1_000_000));
    let too_small = FileChunker::new(
        FileChunkerConfig { min_size: 32, avg_size: 256, max_size: 1024 },
        InMemoryBlobRepository::new(),
    );
    assert!(!too_small.can_chunk(10));
    let avg_above_max = FileChunker::new(
        FileChunkerConfig { min_size: 64, avg_size: 2048, max_size: 1024 },
        InMemoryBlobRepository::new(),
    );
    assert!(avg_above_max.can_chunk(1024));
    assert!(!avg_above_max.can_chunk(1025));
}
