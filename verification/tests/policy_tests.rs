use rolypoly::archive::{ArchiveManager, InputItem, InputKind, SilentSink};
use rolypoly::entropy::is_incompressible;

fn repeated_byte_file(len: usize) -> Vec<u8> {
    vec![b'a'; len]
}

fn uniform_bytes(len: usize) -> Vec<u8> {
    (0..len).map(|i| (i % 256) as u8).collect()
}

#[test]
fn test_classifier_repeated_byte_is_compressible() {
    assert!(!is_incompressible(&repeated_byte_file(100_000), 78));
}

#[test]
fn test_classifier_uniform_bytes_are_incompressible() {
    assert!(is_incompressible(&uniform_bytes(262_144), 78));
}

#[test]
fn test_classifier_empty_is_compressible() {
    assert!(!is_incompressible(&Vec::new(), 78));
}

#[test]
fn test_classifier_samples_only_the_prefix() {
    // A dense prefix decides, whatever follows it.
    let mut data = uniform_bytes(262_144);
    data.extend(std::iter::repeat(b'a').take(500_000));
    assert!(is_incompressible(&data, 78));
}

#[test]
fn test_entropy_policy_compresses_repetitive_file() {
    let manager = ArchiveManager::new();
    let content = repeated_byte_file(100_000);
    let input = InputItem { name: "same.bin".to_string(), kind: InputKind::File(content) };
    let archive = manager.create_archive(&vec![input], &mut SilentSink).unwrap();

    let stats = manager.get_archive_stats(&archive).unwrap();
    assert_eq!(stats.total_uncompressed_size, 100_000);
    assert!(stats.total_compressed_size < stats.total_uncompressed_size);
    // The whole container stays well under the input.
    assert!(archive.len() < 100_000);
}

#[test]
fn test_entropy_policy_stores_dense_file() {
    let manager = ArchiveManager::new();
    let content = uniform_bytes(262_144);
    let input = InputItem { name: "dense.bin".to_string(), kind: InputKind::File(content) };
    let archive = manager.create_archive(&vec![input], &mut SilentSink).unwrap();

    let stats = manager.get_archive_stats(&archive).unwrap();
    assert_eq!(stats.total_uncompressed_size, 262_144);
    // Stored, not compressed: the entry occupies exactly its own size,
    // and the container adds only bounded overhead around it.
    assert_eq!(stats.total_compressed_size, stats.total_uncompressed_size);
    assert!(archive.len() >= 262_144);
    assert!(archive.len() < 262_144 + 2_048);
}

#[test]
fn test_auto_store_off_always_compresses() {
    let mut options = rolypoly::archive::ArchiveOptions::default();
    options.auto_store = false;
    let manager = ArchiveManager::with_options(options);
    let content = uniform_bytes(262_144);
    let input = InputItem { name: "dense.bin".to_string(), kind: InputKind::File(content) };
    let archive = manager.create_archive(&vec![input], &mut SilentSink).unwrap();

    let stats = manager.get_archive_stats(&archive).unwrap();
    // Deflate on dense data: recorded compressed size differs from the
    // stored-method identity.
    assert_ne!(stats.total_compressed_size, 0);
    assert_ne!(stats.total_compressed_size, stats.total_uncompressed_size);
}
