use rolypoly::archive::{ArchiveManager, SilentSink};
use rolypoly::errors::ArchiveError;
use rolypoly::path_safety::{join_path, sanitize_entry_name};
use std::io::Write;

/// An archive whose entries carry exactly the given names, built with
/// the codec directly so nothing sanitizes them on the way in.
fn archive_with_entry_names(names: &[&str]) -> Vec<u8> {
    let mut writer = zip::ZipWriter::new(std::io::Cursor::new(Vec::new()));
    let options = zip::write::SimpleFileOptions::default();
    for name in names {
        writer.start_file(*name, options).unwrap();
        writer.write_all(b"I am evil").unwrap();
    }
    writer.finish().unwrap().into_inner()
}

#[test]
fn test_zip_slip_vulnerability() {
    let manager = ArchiveManager::new();
    let malicious = archive_with_entry_names(&["../evil.txt"]);

    let result = manager.extract_archive(&malicious, &mut SilentSink);
    assert!(result.is_err(), "Extraction should fail for malicious archives");
    assert_eq!(result.unwrap_err(), ArchiveError::PathTraversal);
}

#[test]
fn test_absolute_entry_rejected() {
    let manager = ArchiveManager::new();
    let malicious = archive_with_entry_names(&["/etc/evil.txt"]);
    let result = manager.extract_archive(&malicious, &mut SilentSink);
    assert_eq!(result.unwrap_err(), ArchiveError::PathTraversal);
}

#[test]
fn test_traversal_below_root_rejected() {
    let manager = ArchiveManager::new();
    let malicious = archive_with_entry_names(&["a/../../evil.txt"]);
    let result = manager.extract_archive(&malicious, &mut SilentSink);
    assert_eq!(result.unwrap_err(), ArchiveError::PathTraversal);
}

#[test]
fn test_safe_entry_beside_unsafe_aborts_whole_extract() {
    // Fail-fast policy: one unsafe entry aborts the whole operation,
    // even when other entries are harmless.
    let manager = ArchiveManager::new();
    let malicious = archive_with_entry_names(&["fine.txt", "../evil.txt"]);
    let result = manager.extract_archive(&malicious, &mut SilentSink);
    assert_eq!(result.unwrap_err(), ArchiveError::PathTraversal);
}

#[test]
fn test_sanitize_plain_names() {
    assert_eq!(sanitize_entry_name("a.txt").unwrap(), vec!["a.txt".to_string()]);
    assert_eq!(
        sanitize_entry_name("dir/sub/file").unwrap(),
        vec!["dir".to_string(), "sub".to_string(), "file".to_string()]
    );
    // A trailing separator marks a directory and adds no component.
    assert_eq!(sanitize_entry_name("dir/").unwrap(), vec!["dir".to_string()]);
    // Empty and `.` components disappear.
    assert_eq!(
        sanitize_entry_name("a//./b").unwrap(),
        vec!["a".to_string(), "b".to_string()]
    );
    // `..` resolves against what came before it.
    assert_eq!(sanitize_entry_name("a/../b").unwrap(), vec!["b".to_string()]);
    // Backslashes separate just as slashes do.
    assert_eq!(
        sanitize_entry_name("a\\b").unwrap(),
        vec!["a".to_string(), "b".to_string()]
    );
}

#[test]
fn test_sanitize_rejections() {
    assert_eq!(sanitize_entry_name("../evil.txt").unwrap_err(), ArchiveError::PathTraversal);
    assert_eq!(sanitize_entry_name("/absolute").unwrap_err(), ArchiveError::PathTraversal);
    assert_eq!(sanitize_entry_name("\\absolute").unwrap_err(), ArchiveError::PathTraversal);
    assert_eq!(sanitize_entry_name("a/../../b").unwrap_err(), ArchiveError::PathTraversal);
    assert_eq!(sanitize_entry_name("bad\0name").unwrap_err(), ArchiveError::PathTraversal);
    assert_eq!(sanitize_entry_name("c:stream").unwrap_err(), ArchiveError::PathTraversal);
}

#[test]
fn test_sanitize_reserved_device_names() {
    assert_eq!(sanitize_entry_name("CON").unwrap_err(), ArchiveError::PathTraversal);
    assert_eq!(sanitize_entry_name("con.txt").unwrap_err(), ArchiveError::PathTraversal);
    assert_eq!(sanitize_entry_name("dir/NUL.log").unwrap_err(), ArchiveError::PathTraversal);
    assert_eq!(sanitize_entry_name("Com1").unwrap_err(), ArchiveError::PathTraversal);
    assert_eq!(sanitize_entry_name("lpt9.dat").unwrap_err(), ArchiveError::PathTraversal);
    // Longer stems are ordinary names.
    assert_eq!(sanitize_entry_name("con5").unwrap(), vec!["con5".to_string()]);
    assert_eq!(sanitize_entry_name("console.txt").unwrap(), vec!["console.txt".to_string()]);
}

#[test]
fn test_join_path_uses_forward_slashes() {
    let comps = sanitize_entry_name("dir/sub/file.txt").unwrap();
    assert_eq!(join_path(&comps), "dir/sub/file.txt");
    let single = sanitize_entry_name("file.txt").unwrap();
    assert_eq!(join_path(&single), "file.txt");
    assert_eq!(join_path(&Vec::new()), "");
}
