use portage_repo::{Manifest, ManifestEntry, RepoError};

#[test]
fn parse_dist_entry() {
    let input = "DIST foo-1.0.tar.gz 12345 SHA256 abcd1234 SHA512 ef567890\n";
    let manifest = Manifest::parse(input).unwrap();
    assert_eq!(manifest.entries.len(), 1);
    match &manifest.entries[0] {
        ManifestEntry::Dist { filename, size, hashes } => {
            assert_eq!(filename, "foo-1.0.tar.gz");
            assert_eq!(*size, 12345);
            assert_eq!(
                hashes,
                &[("SHA256".to_string(), "abcd1234".to_string()), ("SHA512".to_string(), "ef567890".to_string())]
            );
        }
        _ => panic!("expected Dist"),
    }
}

#[test]
fn parse_ignore_entry() {
    let input = "IGNORE some/path\n";
    let manifest = Manifest::parse(input).unwrap();
    assert_eq!(manifest.entries.len(), 1);
    match &manifest.entries[0] {
        ManifestEntry::Ignore { path } => assert_eq!(path, "some/path"),
        _ => panic!("expected Ignore"),
    }
}

#[test]
fn parse_timestamp_entry() {
    let input = "TIMESTAMP 2024-01-15T12:00:00Z\n";
    let manifest = Manifest::parse(input).unwrap();
    assert_eq!(manifest.entries.len(), 1);
    match &manifest.entries[0] {
        ManifestEntry::Timestamp { value } => assert_eq!(value, "2024-01-15T12:00:00Z"),
        _ => panic!("expected Timestamp"),
    }
}

#[test]
fn parse_data_aliases() {
    for tag in &["DATA", "EBUILD", "MISC", "AUX"] {
        let input = format!("{} files/foo.patch 42 SHA256 deadbeef\n", tag);
        let manifest = Manifest::parse(&input).unwrap();
        assert_eq!(manifest.entries.len(), 1);
        assert!(matches!(manifest.entries[0], ManifestEntry::Data { .. }));
    }
}

#[test]
fn parse_sub_manifest() {
    let input = "MANIFEST sub/Manifest 99 SHA256 cafebabe\n";
    let manifest = Manifest::parse(input).unwrap();
    assert_eq!(manifest.entries.len(), 1);
    assert!(matches!(manifest.entries[0], ManifestEntry::SubManifest { .. }));
}

#[test]
fn parse_empty_file() {
    let manifest = Manifest::parse("").unwrap();
    assert!(manifest.entries.is_empty());
}

#[test]
fn parse_blank_lines_and_comments() {
    let input = "# This is a comment\n\nDIST bar-2.0.tar.xz 99 SHA256 ff00\n\n# end\n";
    let manifest = Manifest::parse(input).unwrap();
    assert_eq!(manifest.entries.len(), 1);
}

#[test]
fn parse_unknown_type_skipped() {
    let input = "FUTURE somepath 0 SHA256 aabbcc\nDIST foo.tar.gz 1 SHA256 001122\n";
    let manifest = Manifest::parse(input).unwrap();
    assert_eq!(manifest.entries.len(), 1);
    assert!(matches!(manifest.entries[0], ManifestEntry::Dist { .. }));
}

#[test]
fn parse_multiple_entries() {
    let input = "\
DIST a.tar.gz 100 SHA256 aa
DIST b.tar.bz2 200 SHA256 bb
IGNORE obsolete/
TIMESTAMP 2024-06-01T00:00:00Z
";
    let manifest = Manifest::parse(input).unwrap();
    assert_eq!(manifest.entries.len(), 4);
    assert_eq!(manifest.dist_entries().len(), 2);
}

#[test]
fn parse_dist_no_hashes() {
    let input = "DIST foo.tar.gz 42\n";
    let manifest = Manifest::parse(input).unwrap();
    match &manifest.entries[0] {
        ManifestEntry::Dist { hashes, .. } => assert!(hashes.is_empty()),
        _ => panic!("expected Dist"),
    }
}

#[test]
fn parse_error_dist_missing_size() {
    let input = "DIST foo.tar.gz\n";
    assert!(Manifest::parse(input).is_err());
}

#[test]
fn parse_error_dist_bad_size() {
    let input = "DIST foo.tar.gz notanumber SHA256 aabb\n";
    assert!(Manifest::parse(input).is_err());
}

#[test]
fn parse_error_orphan_hash_algo() {
    let input = "DIST foo.tar.gz 42 SHA256\n";
    assert!(Manifest::parse(input).is_err());
}

fn manifest_message(input: &str) -> String {
    match Manifest::parse(input) {
        Err(RepoError::InvalidManifest(m)) => m,
        other => panic!("expected InvalidManifest, got {:?}", other),
    }
}

#[test]
fn manifest_error_messages_name_the_line() {
    assert_eq!(manifest_message("DIST foo.tar.gz\n"), "line 1: DIST requires a size");
    assert_eq!(manifest_message("# c\nAUX\n"), "line 2: AUX requires a path");
    assert_eq!(
        manifest_message("\n\nMANIFEST m x1\n"),
        "line 3: MANIFEST size \"x1\" is not a valid integer"
    );
    assert_eq!(
        manifest_message("DIST a 1 SHA256 aa BLAKE2B\n"),
        "line 1: hash algo \"BLAKE2B\" has no corresponding hex value"
    );
    assert_eq!(manifest_message("IGNORE\n"), "line 1: IGNORE requires a path");
    assert_eq!(manifest_message("TIMESTAMP\n"), "line 1: TIMESTAMP requires a value");
}

#[test]
fn manifest_first_error_wins_and_sizes_parse_like_u64() {
    assert_eq!(manifest_message("DIST a\nDIST b\n"), "line 1: DIST requires a size");
    let m = Manifest::parse("DIST a +7\r\n  EBUILD b 18446744073709551615  \n").unwrap();
    assert_eq!(
        m.entries,
        vec![
            ManifestEntry::Dist { filename: "a".into(), size: 7, hashes: vec![] },
            ManifestEntry::Data { path: "b".into(), size: u64::MAX, hashes: vec![] },
        ]
    );
    assert!(Manifest::parse("DIST a 18446744073709551616\n").is_err());
    assert!(Manifest::parse("DIST a -1\n").is_err());
    assert!(Manifest::parse("DIST a +\n").is_err());
}

#[test]
fn concatenated_manifests_concatenate_entries() {
    let a = "DIST a.tar.gz 1 SHA256 aa\n# note\n";
    let b = "TIMESTAMP 2024-01-01T00:00:00Z\nDIST b.tar.gz 2 SHA256 bb\n";
    let both = Manifest::parse(&format!("{a}{b}")).unwrap();
    let first = Manifest::parse(a).unwrap();
    let second = Manifest::parse(b).unwrap();
    let mut expected = first.entries.clone();
    expected.extend(second.entries.iter().cloned());
    assert_eq!(both.entries, expected);
    assert_eq!(both.entries.len(), 3);
}
