use rolypoly::archive::{ArchiveManager, InputItem, InputKind, SilentSink, WalkedEntry, WalkedKind};
use rolypoly::errors::ArchiveError;

fn file_input(name: &str, content: &[u8]) -> InputItem {
    InputItem { name: name.to_string(), kind: InputKind::File(content.to_vec()) }
}

#[test]
fn test_create_archive_single_file() {
    let manager = ArchiveManager::new();
    let archive = manager
        .create_archive(&vec![file_input("test.txt", b"Hello, World!")], &mut SilentSink)
        .unwrap();
    assert!(archive.len() > 0);
}

#[test]
fn test_create_archive_multiple_files() {
    let manager = ArchiveManager::new();
    let archive = manager
        .create_archive(
            &vec![
                file_input("test1.txt", b"Hello, World!"),
                file_input("test2.txt", b"Goodbye, World!"),
            ],
            &mut SilentSink,
        )
        .unwrap();

    let contents = manager.list_archive(&archive).unwrap();
    assert_eq!(contents.len(), 2);
    assert!(contents.contains(&"test1.txt".to_string()));
    assert!(contents.contains(&"test2.txt".to_string()));
}

#[test]
fn test_create_archive_directory() {
    let manager = ArchiveManager::new();
    let dir = InputItem {
        name: "test_dir".to_string(),
        kind: InputKind::Dir(vec![
            WalkedEntry {
                relative: "file1.txt".to_string(),
                kind: WalkedKind::File(b"Content 1".to_vec()),
            },
            WalkedEntry {
                relative: "file2.txt".to_string(),
                kind: WalkedKind::File(b"Content 2".to_vec()),
            },
        ]),
    };
    let archive = manager.create_archive(&vec![dir], &mut SilentSink).unwrap();

    let contents = manager.list_archive(&archive).unwrap();
    assert!(!contents.is_empty());
    assert!(contents.contains(&"test_dir/file1.txt".to_string()));
    assert!(contents.contains(&"test_dir/file2.txt".to_string()));
}

#[test]
fn test_extract_archive() {
    let manager = ArchiveManager::new();
    let archive = manager
        .create_archive(&vec![file_input("test.txt", b"Hello, World!")], &mut SilentSink)
        .unwrap();

    let items = manager.extract_archive(&archive, &mut SilentSink).unwrap();
    assert_eq!(items.len(), 1);
    assert_eq!(items[0].path, "test.txt");
    assert!(!items[0].is_dir);
    assert_eq!(items[0].data, b"Hello, World!".to_vec());
}

#[test]
fn test_list_archive() {
    let manager = ArchiveManager::new();
    let archive = manager
        .create_archive(
            &vec![
                file_input("test1.txt", b"Hello, World!"),
                file_input("test2.txt", b"Goodbye, World!"),
            ],
            &mut SilentSink,
        )
        .unwrap();

    let contents = manager.list_archive(&archive).unwrap();
    assert_eq!(contents.len(), 2);
    assert!(contents.contains(&"test1.txt".to_string()));
    assert!(contents.contains(&"test2.txt".to_string()));
}

#[test]
fn test_archive_nonexistent_file() {
    let manager = ArchiveManager::new();
    let missing = InputItem { name: "nonexistent.txt".to_string(), kind: InputKind::Missing };
    let result = manager.create_archive(&vec![missing], &mut SilentSink);
    assert!(result.is_err());
    assert_eq!(result.unwrap_err(), ArchiveError::NotFound);
}

#[test]
fn test_validate_archive() {
    let manager = ArchiveManager::new();
    let archive = manager
        .create_archive(&vec![file_input("test.txt", b"Hello, World!")], &mut SilentSink)
        .unwrap();

    let is_valid = manager.validate_archive(&archive, &mut SilentSink).unwrap();
    assert!(is_valid);
}

#[test]
fn test_calculate_file_hash() {
    let manager = ArchiveManager::new();
    let hash = manager.calculate_file_hash(&b"Hello, World!".to_vec());

    assert!(!hash.is_empty());
    assert_eq!(hash.len(), 64);
    assert_eq!(hash, "dffd6021bb2bd5b0af676290809ec3a53191dd81c7f70a4b28688a362182986f");
}

#[test]
fn test_hash_determinism() {
    let manager = ArchiveManager::new();
    let data = b"some file content".to_vec();
    let first = manager.calculate_file_hash(&data);
    let second = manager.calculate_file_hash(&data);
    assert_eq!(first, second);
    assert_eq!(first.len(), 64);
    assert!(first.chars().all(|c| c.is_ascii_hexdigit() && !c.is_ascii_uppercase()));
}

#[test]
fn test_hash_empty_input() {
    let manager = ArchiveManager::new();
    let hash = manager.calculate_file_hash(&Vec::new());
    assert_eq!(hash, "e3b0c44298fc1c149afbf4c8996fb92427ae41e4649b934ca495991b7852b855");
}

#[test]
fn test_get_archive_stats() {
    let manager = ArchiveManager::new();
    let archive = manager
        .create_archive(
            &vec![
                file_input("test1.txt", b"Hello, World!"),
                file_input("test2.txt", b"Goodbye, World!"),
            ],
            &mut SilentSink,
        )
        .unwrap();

    let stats = manager.get_archive_stats(&archive).unwrap();
    assert_eq!(stats.file_count, 2);
    assert!(stats.total_uncompressed_size > 0);
    assert!(stats.total_compressed_size > 0);
    assert!(stats.compression_ratio > 0);
}

#[test]
fn test_create_list_stats_example() {
    let manager = ArchiveManager::new();
    let archive = manager
        .create_archive(
            &vec![file_input("a.txt", b"hello"), file_input("b.txt", b"world")],
            &mut SilentSink,
        )
        .unwrap();

    let contents = manager.list_archive(&archive).unwrap();
    assert_eq!(contents, vec!["a.txt".to_string(), "b.txt".to_string()]);

    let stats = manager.get_archive_stats(&archive).unwrap();
    assert_eq!(stats.file_count, 2);
    assert_eq!(stats.dir_count, 0);
    assert_eq!(stats.total_uncompressed_size, 10);
}

#[test]
fn test_round_trip_files() {
    let manager = ArchiveManager::new();
    let inputs = vec![
        file_input("alpha.txt", b"first content"),
        file_input("beta.bin", &[0u8, 1, 2, 3, 255, 254]),
        file_input("gamma.txt", b""),
    ];
    let archive = manager.create_archive(&inputs, &mut SilentSink).unwrap();
    let items = manager.extract_archive(&archive, &mut SilentSink).unwrap();

    assert_eq!(items.len(), 3);
    assert_eq!(items[0].path, "alpha.txt");
    assert_eq!(items[0].data, b"first content".to_vec());
    assert_eq!(items[1].path, "beta.bin");
    assert_eq!(items[1].data, vec![0u8, 1, 2, 3, 255, 254]);
    assert_eq!(items[2].path, "gamma.txt");
    assert_eq!(items[2].data, Vec::<u8>::new());
}

#[test]
fn test_round_trip_directory_tree() {
    let manager = ArchiveManager::new();
    let dir = InputItem {
        name: "root".to_string(),
        kind: InputKind::Dir(vec![
            WalkedEntry { relative: "sub".to_string(), kind: WalkedKind::Dir },
            WalkedEntry {
                relative: "sub/inner.txt".to_string(),
                kind: WalkedKind::File(b"inner".to_vec()),
            },
        ]),
    };
    let archive = manager.create_archive(&vec![dir], &mut SilentSink).unwrap();
    let items = manager.extract_archive(&archive, &mut SilentSink).unwrap();

    assert_eq!(items.len(), 2);
    assert!(items[0].is_dir);
    assert_eq!(items[0].path, "root/sub");
    assert!(!items[1].is_dir);
    assert_eq!(items[1].path, "root/sub/inner.txt");
    assert_eq!(items[1].data, b"inner".to_vec());
}

#[test]
fn test_list_and_stats_idempotent() {
    let manager = ArchiveManager::new();
    let archive = manager
        .create_archive(&vec![file_input("again.txt", b"same bytes")], &mut SilentSink)
        .unwrap();

    let first_list = manager.list_archive(&archive).unwrap();
    let second_list = manager.list_archive(&archive).unwrap();
    assert_eq!(first_list, second_list);

    let first_stats = manager.get_archive_stats(&archive).unwrap();
    let second_stats = manager.get_archive_stats(&archive).unwrap();
    assert_eq!(first_stats, second_stats);
}

#[test]
fn test_list_rejects_garbage() {
    let manager = ArchiveManager::new();
    let garbage = b"PK\x03\x04This is not a valid zip file structure but looks like one maybe"
        .to_vec();
    assert!(manager.list_archive(&garbage).is_err());
}

#[test]
fn test_validate_rejects_garbage() {
    let manager = ArchiveManager::new();
    let garbage = b"not even close to an archive".to_vec();
    let result = manager.validate_archive(&garbage, &mut SilentSink);
    assert!(result.is_err());
    assert_eq!(result.unwrap_err(), ArchiveError::CodecError);
}

#[test]
fn test_create_rejects_bad_names() {
    let manager = ArchiveManager::new();
    let bad = InputItem { name: "trailing/".to_string(), kind: InputKind::File(b"x".to_vec()) };
    let result = manager.create_archive(&vec![bad], &mut SilentSink);
    assert_eq!(result.unwrap_err(), ArchiveError::InputValidation);

    let empty = InputItem { name: String::new(), kind: InputKind::File(b"x".to_vec()) };
    let result = manager.create_archive(&vec![empty], &mut SilentSink);
    assert_eq!(result.unwrap_err(), ArchiveError::InputValidation);
}

#[test]
fn test_create_rejects_overlong_names() {
    // The codec records the name length in a two-byte field, so names
    // past 65 535 UTF-8 bytes are refused up front, before any work.
    let manager = ArchiveManager::new();
    let long_name = "a".repeat(65_536);
    let result =
        manager.create_archive(&vec![file_input(&long_name, b"x")], &mut SilentSink);
    assert_eq!(result.unwrap_err(), ArchiveError::InputValidation);

    // A composed directory record can overflow the same field.
    let dir = InputItem {
        name: "d".repeat(40_000),
        kind: InputKind::Dir(vec![WalkedEntry {
            relative: "r".repeat(30_000),
            kind: WalkedKind::File(b"x".to_vec()),
        }]),
    };
    let result = manager.create_archive(&vec![dir], &mut SilentSink);
    assert_eq!(result.unwrap_err(), ArchiveError::InputValidation);
}

#[test]
fn test_create_accepts_name_at_field_limit() {
    // Exactly 65 535 bytes still fits the codec's name-length field.
    let manager = ArchiveManager::new();
    let name = "a".repeat(65_535);
    let archive = manager
        .create_archive(&vec![file_input(&name, b"content")], &mut SilentSink)
        .unwrap();
    let contents = manager.list_archive(&archive).unwrap();
    assert_eq!(contents, vec![name]);
}

#[test]
fn test_create_rejects_duplicate_names() {
    // Two planned entries under one name: the codec refuses the second,
    // which is where create's success promise ends.
    let manager = ArchiveManager::new();
    let result = manager.create_archive(
        &vec![file_input("same.txt", b"one"), file_input("same.txt", b"two")],
        &mut SilentSink,
    );
    assert_eq!(result.unwrap_err(), ArchiveError::CodecError);
}

struct CountingSink {
    calls: u64,
    last_current: u64,
    last_total: u64,
    last_label: String,
}

impl rolypoly::archive::ProgressSink for CountingSink {
    fn report(&mut self, current: u64, total: u64, label: &str) {
        self.calls += 1;
        self.last_current = current;
        self.last_total = total;
        self.last_label = label.to_string();
    }
}

#[test]
fn test_progress_sink_sees_every_entry() {
    let manager = ArchiveManager::new();
    let archive = manager
        .create_archive(
            &vec![file_input("one.txt", b"1"), file_input("two.txt", b"22")],
            &mut SilentSink,
        )
        .unwrap();

    let mut sink = CountingSink {
        calls: 0,
        last_current: 0,
        last_total: 0,
        last_label: String::new(),
    };
    manager.validate_archive(&archive, &mut sink).unwrap();
    assert_eq!(sink.calls, 2);
    assert_eq!(sink.last_current, 2);
    assert_eq!(sink.last_total, 2);
    assert_eq!(sink.last_label, "validate");
}
