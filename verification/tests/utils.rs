use phaneros::utils::{
    compress_blob, decompress_blob, is_internal_entry, temp_path_for, trash_batch_path_at, trash_candidate,
    DecompressError,
};

#[test]
fn temp_path_appends_instead_of_replacing_the_extension() {
    assert_eq!(temp_path_for("/vault/notes.tar.gz"), "/vault/notes.tar.gz.phaneros-tmp");
    assert_eq!(temp_path_for("/vault/notes.tar.bz2"), "/vault/notes.tar.bz2.phaneros-tmp");
}

#[test]
fn internal_entries_are_the_state_dir_and_temp_files() {
    assert!(is_internal_entry(".phaneros"));
    assert!(is_internal_entry("notes.txt.phaneros-tmp"));
    assert!(!is_internal_entry("notes.txt"));
    assert!(!is_internal_entry(".phaneros-notes"));
    assert!(!is_internal_entry("phaneros"));
}

#[test]
fn trash_batches_live_in_the_state_dir() {
    assert_eq!(trash_batch_path_at("/vault", 1234), "/vault/.phaneros/trash/1234");
    assert_eq!(trash_candidate("/vault/.phaneros/trash/1/hello.txt", 1), "/vault/.phaneros/trash/1/hello.txt-1");
}

#[test]
fn test_compress_and_decompress_compressible_data() {
    let input = "hello world ".repeat(100).into_bytes();
    let (compressed, algo) = compress_blob(&input);
    assert_eq!(algo, "zstd");
    assert!(compressed.len() < input.len());
    assert_eq!(decompress_blob(&compressed, &algo).unwrap(), input);
}

#[test]
fn test_uncompressible_fallback() {
    let input: Vec<u8> = vec![1, 2, 3, 4, 5];
    let (stored, algo) = compress_blob(&input);
    assert_eq!(algo, "none");
    assert_eq!(stored, input);
    assert_eq!(decompress_blob(&stored, &algo).unwrap(), input);
}

#[test]
fn empty_blobs_are_stored_as_they_are() {
    let (stored, algo) = compress_blob(&[]);
    assert!(stored.is_empty());
    assert_eq!(algo, "none");
    assert_eq!(decompress_blob(b"abc", "").unwrap(), b"abc".to_vec());
}

#[test]
fn unknown_algorithms_are_refused() {
    match decompress_blob(b"abc", "lz4") {
        Err(e @ DecompressError::Unsupported(_)) => {
            assert_eq!(e.message(), "Unsupported compression algorithm: lz4")
        },
        other => panic!("unexpected {:?}", other),
    }
    assert!(matches!(decompress_blob(b"not a frame", "zstd"), Err(DecompressError::Corrupt(_))));
}
