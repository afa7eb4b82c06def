use bevy_vach_assets::codec::{decode_index, encode_index, is_index_safe_path};
use bevy_vach_assets::ids::format_entry_id;
use bevy_vach_assets::paths::{get_meta_path, has_extension};
use bevy_vach_assets::setup::{
    archive_preconditions, check_preconditions, generate_preconditions, resolve_archive_source,
    ArchiveSource, PreconditionIssue,
};
use bevy_vach_assets::skip::{is_hidden, should_skip};

#[test]
fn encode_then_decode_two_paths() {
    let paths: Vec<Vec<u8>> = vec![b"a.txt".to_vec(), b"sub/b.png".to_vec()];
    let blob = encode_index(&paths);
    assert_eq!(blob, b"a.txt|BVA|sub/b.png".to_vec());
    let back = decode_index(&blob);
    assert_eq!(back, paths);
}

#[test]
fn encode_then_decode_many_paths() {
    let paths: Vec<Vec<u8>> = vec![
        b"one".to_vec(),
        b"two/three.png".to_vec(),
        b"four/five/six.dat".to_vec(),
        b"seven".to_vec(),
    ];
    let back = decode_index(&encode_index(&paths));
    assert_eq!(back, paths);
}

#[test]
fn decode_single_path() {
    let back = decode_index(&b"a.txt".to_vec());
    assert_eq!(back, vec![b"a.txt".to_vec()]);
}

#[test]
fn decode_of_empty_blob_is_one_empty_path() {
    let back = decode_index(&Vec::new());
    assert_eq!(back, vec![Vec::<u8>::new()]);
}

#[test]
fn unsafe_paths_are_recognized() {
    assert!(!is_index_safe_path(&b"bad|BVA|path".to_vec()));
    assert!(!is_index_safe_path(&b"tail|BVA".to_vec()));
    assert!(is_index_safe_path(&b"normal/path.png".to_vec()));
    assert!(is_index_safe_path(&b"pipe|and|bars".to_vec()));
}

#[test]
fn entry_ids_are_decimal_strings() {
    assert_eq!(format_entry_id(0), b"0".to_vec());
    assert_eq!(format_entry_id(7), b"7".to_vec());
    assert_eq!(format_entry_id(10), b"10".to_vec());
    assert_eq!(format_entry_id(12345), b"12345".to_vec());
}

#[test]
fn meta_path_appends_suffix_to_extension() {
    assert_eq!(get_meta_path(&b"a.txt".to_vec()), b"a.txt.meta".to_vec());
    assert_eq!(get_meta_path(&b"dir/a.tar.gz".to_vec()), b"dir/a.tar.gz.meta".to_vec());
}

#[test]
fn extension_detection() {
    assert!(has_extension(&b"a.txt".to_vec()));
    assert!(has_extension(&b"a.".to_vec()));
    assert!(has_extension(&b"dir/x.b".to_vec()));
    assert!(!has_extension(&b"noext".to_vec()));
    assert!(!has_extension(&b".gitignore".to_vec()));
    assert!(!has_extension(&b"dir/.hidden".to_vec()));
    assert!(!has_extension(&b"dotted.dir/plain".to_vec()));
}

#[test]
fn hidden_names() {
    assert!(is_hidden(&b".git".to_vec()));
    assert!(is_hidden(&b".env".to_vec()));
    assert!(!is_hidden(&b"git".to_vec()));
    assert!(!is_hidden(&Vec::new()));
}

#[test]
fn skip_policy() {
    assert!(should_skip(&b"anything".to_vec(), true));
    assert!(should_skip(&b".git".to_vec(), false));
    assert!(should_skip(&b"node_modules".to_vec(), false));
    assert!(should_skip(&b"target".to_vec(), false));
    assert!(should_skip(&b"drawing.xcf".to_vec(), false));
    assert!(!should_skip(&b"image.png".to_vec(), false));
    assert!(!should_skip(&b"targets".to_vec(), false));
}

#[test]
fn preconditions_are_collected_together() {
    assert_eq!(
        archive_preconditions(false, false),
        vec![PreconditionIssue::MissingAssetsDir, PreconditionIssue::MissingKeyPair]
    );
    assert_eq!(archive_preconditions(true, false), vec![PreconditionIssue::MissingKeyPair]);
    assert_eq!(archive_preconditions(true, true), Vec::<PreconditionIssue>::new());
    assert_eq!(
        check_preconditions(false, false),
        vec![PreconditionIssue::MissingArchive, PreconditionIssue::MissingPublicKey]
    );
    assert_eq!(generate_preconditions(true), vec![PreconditionIssue::SecretsDirExists]);
    assert_eq!(generate_preconditions(false), Vec::<PreconditionIssue>::new());
}

#[test]
fn archive_source_resolution() {
    assert_eq!(resolve_archive_source(true, true), ArchiveSource::UseBuffer);
    assert_eq!(resolve_archive_source(true, false), ArchiveSource::UseBuffer);
    assert_eq!(resolve_archive_source(false, true), ArchiveSource::OpenWellKnownFile);
    assert_eq!(resolve_archive_source(false, false), ArchiveSource::FatalNoSource);
}
