use bevy_vach_assets::builder::{build_archive, EntryPolicy, SourceFile};
use bevy_vach_assets::check::check_archive;
use bevy_vach_assets::errors::{BuildError, CheckError, OpenError, ReadError};
use bevy_vach_assets::reader::{ArchiveReader, ReadRoute};

fn keypair() -> ([u8; 64], [u8; 32]) {
    let kp = vach::crypto_utils::gen_keypair();
    (kp.to_keypair_bytes(), kp.verifying_key().to_bytes())
}

fn sample_files() -> Vec<SourceFile> {
    vec![
        SourceFile { path: b"a.txt".to_vec(), content: b"hello archive".to_vec() },
        SourceFile { path: b"sub/b.png".to_vec(), content: vec![1, 2, 3, 4, 5, 6, 7, 8, 9] },
    ]
}

fn build_sample(policy: &EntryPolicy) -> (Vec<u8>, [u8; 64], [u8; 32]) {
    let (kpb, pk) = keypair();
    let bytes = build_archive(&sample_files(), policy, &kpb).expect("build");
    (bytes, kpb, pk)
}

#[test]
fn scenario_two_files() {
    let (bytes, _kpb, pk) = build_sample(&EntryPolicy::default());
    let reader = ArchiveReader::open(bytes, Some(&pk)).expect("open");
    assert!(reader.has_file(&b"a.txt".to_vec()));
    assert!(reader.has_file(&b"sub/b.png".to_vec()));
    assert!(!reader.has_file(&b"sub".to_vec()));
    assert!(reader.is_directory(&b"sub".to_vec()));
    assert!(!reader.is_directory(&b"a.txt".to_vec()));
    let listing = reader.read_directory(&b"sub".to_vec()).expect("listing");
    assert_eq!(listing, vec![b"sub/b.png".to_vec()]);
    match reader.read(&b"missing.txt".to_vec()) {
        Err(ReadError::NotFound(p)) => assert_eq!(p, b"missing.txt".to_vec()),
        other => panic!("expected a miss, got {:?}", other),
    }
}

#[test]
fn read_returns_original_bytes() {
    let (bytes, _kpb, pk) = build_sample(&EntryPolicy::default());
    let reader = ArchiveReader::open(bytes, Some(&pk)).expect("open");
    assert_eq!(reader.read(&b"a.txt".to_vec()).expect("read"), b"hello archive".to_vec());
    assert_eq!(
        reader.read(&b"sub/b.png".to_vec()).expect("read"),
        vec![1, 2, 3, 4, 5, 6, 7, 8, 9]
    );
}

#[test]
fn partial_prefix_is_not_a_directory() {
    let (kpb, pk) = keypair();
    let files = vec![SourceFile {
        path: b"imagesextra/foo.png".to_vec(),
        content: b"x".to_vec(),
    }];
    let bytes = build_archive(&files, &EntryPolicy::default(), &kpb).expect("build");
    let reader = ArchiveReader::open(bytes, Some(&pk)).expect("open");
    assert!(!reader.is_directory(&b"images".to_vec()));
    assert!(reader.is_directory(&b"imagesextra".to_vec()));
}

#[test]
fn meta_reads_use_the_companion_path() {
    let (kpb, pk) = keypair();
    let files = vec![
        SourceFile { path: b"a.txt".to_vec(), content: b"content".to_vec() },
        SourceFile { path: b"a.txt.meta".to_vec(), content: b"sidecar".to_vec() },
    ];
    let bytes = build_archive(&files, &EntryPolicy::default(), &kpb).expect("build");
    let reader = ArchiveReader::open(bytes, Some(&pk)).expect("open");
    assert_eq!(reader.read_meta(&b"a.txt".to_vec()).expect("meta"), b"sidecar".to_vec());
    match reader.read_meta(&b"sub/b.png".to_vec()) {
        Err(ReadError::NotFound(p)) => assert_eq!(p, b"sub/b.png.meta".to_vec()),
        other => panic!("expected a miss on the companion path, got {:?}", other),
    }
}

#[test]
fn fallback_routing() {
    let (bytes, _kpb, pk) = build_sample(&EntryPolicy::default());
    let reader = ArchiveReader::open(bytes, Some(&pk)).expect("open");
    assert_eq!(reader.route_read(&b"a.txt".to_vec(), true), ReadRoute::Primary);
    assert_eq!(reader.route_read(&b"a.txt".to_vec(), false), ReadRoute::Primary);
    assert_eq!(reader.route_read(&b"missing.txt".to_vec(), true), ReadRoute::Fallback);
    assert_eq!(reader.route_read(&b"missing.txt".to_vec(), false), ReadRoute::Missing);
    assert_eq!(reader.route_meta(&b"a.txt".to_vec(), true), ReadRoute::Fallback);
}

#[test]
fn check_reports_every_entry() {
    let (bytes, _kpb, pk) = build_sample(&EntryPolicy::default());
    let report = check_archive(&bytes, &pk).expect("check");
    assert_eq!(report.len(), 2);
    assert_eq!(report[0].path, b"a.txt".to_vec());
    assert_eq!(report[0].size, b"hello archive".len());
    assert_eq!(report[1].path, b"sub/b.png".to_vec());
    assert_eq!(report[1].size, 9);
}

#[test]
fn check_rejects_garbage() {
    let (_kpb, pk) = keypair();
    match check_archive(&b"not an archive at all".to_vec(), &pk) {
        Err(CheckError::Open(_)) => {},
        other => panic!("expected an open failure, got {:?}", other),
    }
}

#[test]
fn build_rejects_separator_paths() {
    let (kpb, _pk) = keypair();
    let files = vec![SourceFile { path: b"bad|BVA|path".to_vec(), content: b"x".to_vec() }];
    match build_archive(&files, &EntryPolicy::default(), &kpb) {
        Err(BuildError::UnsafePath(p)) => assert_eq!(p, b"bad|BVA|path".to_vec()),
        other => panic!("expected a rejected path, got {:?}", other),
    }
}

#[test]
fn unsigned_unencrypted_archive_reads_without_key() {
    let (kpb, _pk) = keypair();
    let policy = EntryPolicy { compression_level: 9, encrypt: false, sign: true, content_version: 1 };
    let bytes = build_archive(&sample_files(), &policy, &kpb).expect("build");
    let reader = ArchiveReader::open(bytes, None).expect("open without key");
    assert_eq!(reader.read(&b"a.txt".to_vec()).expect("read"), b"hello archive".to_vec());
}

#[test]
fn encrypted_archive_needs_the_key() {
    let (bytes, _kpb, _pk) = build_sample(&EntryPolicy::default());
    assert!(ArchiveReader::open(bytes, None).is_err());
}

#[test]
fn wrong_magic_is_refused() {
    let (_kpb, pk) = keypair();
    let plain = vec![0u8; 64];
    assert_eq!(ArchiveReader::open(plain, Some(&pk)).err(), Some(OpenError::BadContainer));
}

#[test]
fn container_without_index_entry_is_refused() {
    let (kpb, pk) = keypair();
    let key = vach::prelude::SigningKey::from_keypair_bytes(&kpb).expect("keypair");
    let config = vach::builder::BuilderConfig::default().magic(*b"BVA42").keypair(key);
    let mut builder = vach::builder::Builder::new();
    builder.add(b"payload".as_slice(), "stray").expect("add");
    let mut cursor = std::io::Cursor::new(Vec::new());
    builder.dump(&mut cursor, &config).expect("dump");
    assert_eq!(
        ArchiveReader::open(cursor.into_inner(), Some(&pk)).err(),
        Some(OpenError::MissingIndex)
    );
}

#[test]
fn unsigned_index_is_refused_under_a_key() {
    let (kpb, pk) = keypair();
    let policy =
        EntryPolicy { compression_level: 9, encrypt: false, sign: false, content_version: 1 };
    let bytes = build_archive(&sample_files(), &policy, &kpb).expect("build");
    assert_eq!(ArchiveReader::open(bytes, Some(&pk)).err(), Some(OpenError::UnverifiedIndex));
}

#[test]
fn inconsistent_keypair_bytes_abort_the_build() {
    let bad = [0u8; 64];
    match build_archive(&sample_files(), &EntryPolicy::default(), &bad) {
        Err(BuildError::ArchiveFailure) => {},
        other => panic!("expected the serialization to be refused, got {:?}", other),
    }
}

#[test]
fn tampered_entry_reads_as_integrity_failure() {
    let (bytes, _kpb, pk) = build_sample(&EntryPolicy::default());
    // The first entry glob starts right after the header and registry; see
    // the layout note in the exhaustive tampering test.
    let mut tampered = bytes.clone();
    tampered[280] ^= 0x5a;
    let reader = ArchiveReader::open(tampered, Some(&pk)).expect("open");
    match reader.read(&b"a.txt".to_vec()) {
        Err(ReadError::Integrity) => {},
        other => panic!("expected an integrity failure, got {:?}", other),
    }
    let mut tampered2 = bytes.clone();
    tampered2[280] ^= 0x5a;
    match check_archive(&tampered2, &pk) {
        Err(CheckError::BadEntry(0)) => {},
        other => panic!("expected the check to name entry 0, got {:?}", other),
    }
}

#[test]
fn tampering_any_byte_never_yields_altered_bytes() {
    let (bytes, _kpb, pk) = build_sample(&EntryPolicy::default());
    let originals: Vec<(Vec<u8>, Vec<u8>)> = vec![
        (b"a.txt".to_vec(), b"hello archive".to_vec()),
        (b"sub/b.png".to_vec(), vec![1, 2, 3, 4, 5, 6, 7, 8, 9]),
    ];
    // Flip every byte of the 13-byte header and of the signed entry globs.
    // Between them sits the registry, whose raw length fields the container
    // library trusts before any signature check: flipping one of those can
    // abort on a huge allocation instead of failing cleanly, and a registry
    // byte is not a byte of a signed entry.  With two 1-byte identifiers and
    // the 4-byte index identifier, each registry row is 23 fixed bytes plus a
    // 64-byte signature plus its identifier, so the entry globs start at
    // 13 + 88 + 88 + 91 = 280.
    let data_start = 280;
    assert!(bytes.len() > data_start);
    let positions: Vec<usize> = (0..13).chain(data_start..bytes.len()).collect();
    for i in positions {
        let mut tampered = bytes.clone();
        tampered[i] ^= 0x5a;
        if let Ok(reader) = ArchiveReader::open(tampered, Some(&pk)) {
            for (path, content) in &originals {
                if let Ok(served) = reader.read(path) {
                    assert_eq!(
                        &served, content,
                        "altered bytes served for {:?} after flipping byte {}",
                        String::from_utf8_lossy(path),
                        i
                    );
                }
            }
        }
    }
}

#[test]
fn empty_source_set_still_builds_a_container() {
    let (kpb, pk) = keypair();
    let bytes = build_archive(&Vec::new(), &EntryPolicy::default(), &kpb).expect("build");
    let reader = ArchiveReader::open(bytes, Some(&pk)).expect("open");
    // An empty path list serializes to an empty blob, which decodes as one
    // empty path; no file entry backs it.
    assert!(reader.has_file(&Vec::new()));
    assert!(!reader.has_file(&b"a.txt".to_vec()));
}

#[test]
fn fallback_answer_is_returned_verbatim() {
    let (bytes, _kpb, pk) = build_sample(&EntryPolicy::default());
    let reader = ArchiveReader::open(bytes, Some(&pk)).expect("open");
    let missing = b"missing.txt".to_vec();
    assert_eq!(
        reader.read_with_fallback(&missing, Some(Ok(b"from the fallback".to_vec()))),
        Ok(b"from the fallback".to_vec())
    );
    assert_eq!(
        reader.read_with_fallback(&missing, Some(Err(ReadError::Integrity))),
        Err(ReadError::Integrity)
    );
    assert_eq!(
        reader.read_with_fallback(&missing, None),
        Err(ReadError::NotFound(missing.clone()))
    );
    assert_eq!(
        reader.read_with_fallback(&b"a.txt".to_vec(), Some(Ok(b"shadowed".to_vec()))),
        Ok(b"hello archive".to_vec())
    );
}
