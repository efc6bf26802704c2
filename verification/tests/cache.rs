use portage_repo::cache::{
    cache_entry_text, eclass_digest, entry_paths, hex_lower, md5_hex, unique_categories, RegenOpts, RegenStats,
};
use portage_repo::eapi::Eapi;
use portage_repo::shell::{ebuild_metadata, metadata_pairs};
use portage_repo::{RepoError, Repository};

#[test]
fn md5_checksums_in_hex() {
    assert_eq!(md5_hex(b""), "d41d8cd98f00b204e9800998ecf8427e");
    assert_eq!(md5_hex(b"abc"), "900150983cd24fb0d6963f7d28e17f72");
    assert_eq!(hex_lower(&[0, 15, 16, 255]), "000f10ff");
}

#[test]
fn cache_entry_locations() {
    assert_eq!(
        entry_paths("/out", "dev-lang", "rust", "1.75.0-r1"),
        ("/out/dev-lang/rust-1.75.0-r1.tmp".to_string(), "/out/dev-lang/rust-1.75.0-r1".to_string())
    );
}

#[test]
fn categories_made_once() {
    let cats: Vec<String> = ["a", "b", "a", "c", "b"].iter().map(|s| s.to_string()).collect();
    assert_eq!(unique_categories(&cats), vec!["a", "b", "c"]);
}

#[test]
fn regen_counters() {
    let stats = RegenStats::tally(&vec![false, true, false, true, true]);
    assert_eq!(stats.total, 5);
    assert_eq!(stats.errors, 3);
    assert!(RegenOpts::new().output_dir.is_none());
}

#[test]
fn eclass_digest_is_the_md5_bytes() {
    assert_eq!(
        eclass_digest(b"abc"),
        vec![0x90, 0x01, 0x50, 0x98, 0x3c, 0xd2, 0x4f, 0xb0, 0xd6, 0x96, 0x3f, 0x7d, 0x28, 0xe1, 0x7f, 0x72]
    );
    assert_eq!(eclass_digest(b"").len(), 16);
}

fn metadata_values() -> Vec<Option<String>> {
    let mut values: Vec<Option<String>> = vec![None; 17];
    values[0] = Some("An\texample\npackage".to_string());
    values[1] = Some(String::new());
    values[4] = Some("0".to_string());
    values
}

#[test]
fn metadata_pairs_keep_recorded_values() {
    let pairs = metadata_pairs(&metadata_values());
    assert_eq!(
        pairs,
        vec![
            ("DESCRIPTION".to_string(), "An example package".to_string()),
            ("SLOT".to_string(), "0".to_string()),
        ]
    );
    assert!(metadata_pairs(&vec![None; 17]).is_empty());
}

#[test]
fn ebuild_metadata_builds_the_entry() {
    let mut defined = vec![false; 15];
    defined[0] = true;
    defined[4] = true;
    let entry = ebuild_metadata(&metadata_values(), &defined, Eapi::Eight, "foo bar").unwrap();
    assert_eq!(entry.entry.metadata.description, "An example package");
    assert_eq!(entry.entry.metadata.defined_phases.len(), 2);
    assert_eq!(entry.entry.metadata.inherited.len(), 2);
    assert_eq!(entry.entry.metadata.eapi.to_string(), "8");
    let mut missing = metadata_values();
    missing[0] = None;
    assert!(matches!(
        ebuild_metadata(&missing, &defined, Eapi::Eight, ""),
        Err(RepoError::MetadataParse(_))
    ));
}

#[test]
fn cache_entry_text_records_checksums() {
    let mut defined = vec![false; 15];
    defined[0] = true;
    defined[4] = true;
    let entry = ebuild_metadata(&metadata_values(), &defined, Eapi::Eight, "foo").unwrap();
    let text = cache_entry_text(entry, md5_hex(b""), &vec![("foo".to_string(), eclass_digest(b"abc"))]);
    assert_eq!(
        text,
        "DEFINED_PHASES=compile install\nDESCRIPTION=An example package\nEAPI=8\nSLOT=0\n\
         _eclasses_=foo\t900150983cd24fb0d6963f7d28e17f72\n_md5_=d41d8cd98f00b204e9800998ecf8427e\n"
    );
}

#[test]
fn cache_entry_parses_the_file_text() {
    let repo = Repository::open("/tmp/test-repo", true, Some(""), None).unwrap();
    let entry = repo
        .cache_entry("EAPI=7\nDESCRIPTION=Example package\nSLOT=0\nDEFINED_PHASES=compile install\nKEYWORDS=~amd64\n")
        .unwrap();
    assert_eq!(entry.entry.metadata.description, "Example package");
    assert!(matches!(repo.cache_entry("SLOT=0\n"), Err(RepoError::MetadataParse(_))));
}
