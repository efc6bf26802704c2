use portage_repo::category::Package;
use portage_repo::eapi::Eapi;
use portage_repo::ebuild::{detect_eapi, ebuild_stem, sort_ebuilds, Cpv, Ebuild};
use portage_repo::Repository;

#[test]
fn cpv_fields_from_portage_atom() {
    let repo = Repository::open("/r", true, Some(""), None).unwrap();
    let pkg = repo.category("dev-lang", true).unwrap().package("rust", true).unwrap();
    let e = pkg.ebuild("1.75.0-r1", true).unwrap().unwrap();
    let c = e.cpv();
    assert_eq!(c.category, "dev-lang");
    assert_eq!(c.package, "rust");
    assert_eq!(c.version, "1.75.0-r1");
    assert_eq!(c.revision, 1);
    assert_eq!(e.revision(), 1);
    assert_eq!(c.to_string(), "dev-lang/rust-1.75.0-r1");
    assert!(pkg.ebuild("not a version", true).is_err());
}

#[test]
fn ebuild_files_of_a_package() {
    assert_eq!(ebuild_stem("rust-1.75.0.ebuild").as_deref(), Some("rust-1.75.0"));
    assert_eq!(ebuild_stem("metadata.xml"), None);
    let repo = Repository::open("/r", true, Some(""), None).unwrap();
    let cat = repo.category("dev-lang", true).unwrap();
    let pkg: Package = cat.package("rust", true).unwrap();
    let entries = vec![
        ("rust-1.75.0.ebuild".to_string(), "/r/dev-lang/rust/rust-1.75.0.ebuild".to_string()),
        ("Manifest".to_string(), "/r/dev-lang/rust/Manifest".to_string()),
        ("rust-9999.ebuild".to_string(), "/r/dev-lang/rust/rust-9999.ebuild".to_string()),
        ("bad.ebuild".to_string(), "/r/dev-lang/rust/bad.ebuild".to_string()),
    ];
    let ebuilds = pkg.ebuilds(&entries);
    let versions: Vec<&str> = ebuilds.iter().map(|e| e.version()).collect();
    assert_eq!(versions, vec!["1.75.0", "9999"]);
    assert_eq!(ebuilds[1].path(), "/r/dev-lang/rust/rust-9999.ebuild");
    let one = pkg.ebuild("1.75.0", true).unwrap().unwrap();
    assert_eq!(one.path(), "/r/dev-lang/rust/rust-1.75.0.ebuild");
    assert!(pkg.ebuild("1.75.0", false).unwrap().is_none());
    assert!(pkg.ebuild("not-a-version", true).is_err());
    assert!(repo.ebuild_walk_keeps(0, "dev-lang", &vec!["dev-lang".to_string()]));
    assert!(!repo.ebuild_walk_keeps(1, ".git", &Vec::new()));
    assert!(repo.ebuild_walk_keeps(2, "x-1.ebuild", &Vec::new()));
    assert_eq!(
        repo.cache_entry_path(one.cpv()),
        "/r/metadata/md5-cache/dev-lang/rust-1.75.0"
    );
}

#[test]
fn eapi_declared_on_first_content_line() {
    assert_eq!(detect_eapi("# Copyright\n\nEAPI=8\ninherit foo\n").unwrap(), Eapi::Eight);
    assert_eq!(detect_eapi("EAPI=\"7\" # seven\n").unwrap(), Eapi::Seven);
    assert_eq!(detect_eapi("\t EAPI='6'\t\n").unwrap(), Eapi::Six);
    assert_eq!(detect_eapi("inherit foo\nEAPI=8\n").unwrap(), Eapi::Zero);
    assert_eq!(detect_eapi("").unwrap(), Eapi::Zero);
    assert_eq!(detect_eapi("EAPI=5#x\n").unwrap(), Eapi::Zero);
    assert_eq!(detect_eapi("EAPI=\"8\n").unwrap(), Eapi::Zero);
    assert_eq!(detect_eapi("EAPI=\"8'\n").unwrap(), Eapi::Zero);
    assert!(matches!(
        detect_eapi("EAPI=10\n"),
        Err(portage_repo::RepoError::Metadata(m)) if m == "invalid EAPI: 10"
    ));
}

#[test]
fn ebuilds_sorted_by_version() {
    let repo = Repository::open("/r", true, Some(""), None).unwrap();
    let pkg: Package = repo.category("dev-lang", true).unwrap().package("rust", true).unwrap();
    let entries = vec![
        ("rust-1.10.0.ebuild".to_string(), "/r/dev-lang/rust/rust-1.10.0.ebuild".to_string()),
        ("rust-1.9.0-r2.ebuild".to_string(), "/r/dev-lang/rust/rust-1.9.0-r2.ebuild".to_string()),
        ("rust-1.9.0.ebuild".to_string(), "/r/dev-lang/rust/rust-1.9.0.ebuild".to_string()),
        ("rust-1.9.0_rc1.ebuild".to_string(), "/r/dev-lang/rust/rust-1.9.0_rc1.ebuild".to_string()),
    ];
    let versions: Vec<String> = pkg.ebuilds(&entries).iter().map(|e| e.version().to_string()).collect();
    assert_eq!(versions, vec!["1.9.0_rc1", "1.9.0", "1.9.0-r2", "1.10.0"]);
}

fn ebuild_of(category: &str, package: &str, version: &str) -> Ebuild {
    let cpv = Cpv {
        category: category.to_string(),
        package: package.to_string(),
        version: version.to_string(),
        revision: 0,
    };
    Ebuild::new(cpv, format!("/r/{category}/{package}/{package}-{version}.ebuild"))
}

#[test]
fn repository_ebuilds_sorted_by_name_then_version() {
    let v = vec![
        ebuild_of("dev-lang", "rust", "2"),
        ebuild_of("app-misc", "foo", "10"),
        ebuild_of("dev-lang", "python", "3.12"),
        ebuild_of("app-misc", "foo", "9"),
    ];
    let names: Vec<String> = sort_ebuilds(v).iter().map(|e| e.cpv().to_string()).collect();
    assert_eq!(
        names,
        vec!["app-misc/foo-9", "app-misc/foo-10", "dev-lang/python-3.12", "dev-lang/rust-2"]
    );
}
