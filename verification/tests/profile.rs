use portage_repo::eapi::Eapi;
use portage_repo::{Profile, ProfileDesc, ProfileStatus, RepoError};

#[test]
fn parse_profile_desc_line() {
    let desc = ProfileDesc::parse("amd64 default/linux/amd64/23.0 stable").unwrap();
    assert_eq!(desc.arch, "amd64");
    assert_eq!(desc.path, "default/linux/amd64/23.0");
    assert_eq!(desc.status, ProfileStatus::Stable);
}

#[test]
fn parse_profile_desc_dev() {
    let desc = ProfileDesc::parse("arm64 default/linux/arm64/23.0 dev").unwrap();
    assert_eq!(desc.status, ProfileStatus::Dev);
}

#[test]
fn parse_profile_desc_exp() {
    let desc = ProfileDesc::parse("riscv default/linux/riscv/23.0 exp").unwrap();
    assert_eq!(desc.status, ProfileStatus::Exp);
}

#[test]
fn parse_profile_desc_other_status() {
    let desc = ProfileDesc::parse("x86 some/path testing").unwrap();
    assert_eq!(desc.status, ProfileStatus::Other("testing".to_string()));
}

#[test]
fn parse_profile_desc_too_few_fields() {
    assert!(ProfileDesc::parse("amd64 some/path").is_err());
}

#[test]
fn profile_desc_error_message_and_extra_fields() {
    match ProfileDesc::parse("amd64 some/path") {
        Err(RepoError::InvalidProfile(m)) => {
            assert_eq!(m, "expected 'arch path status', got: amd64 some/path")
        }
        _ => panic!("expected InvalidProfile"),
    }
    let d = ProfileDesc::parse("  x86\tp  stable extra ").unwrap();
    assert_eq!(d.arch, "x86");
    assert_eq!(d.path, "p");
    assert_eq!(d.status, ProfileStatus::Stable);
}

#[test]
fn profile_open_reads_eapi() {
    let p = Profile::open("/r/profiles/base".to_string(), None).unwrap();
    assert_eq!(p.eapi(), Eapi::Zero);
    assert_eq!(p.path(), "/r/profiles/base");
    let p = Profile::open("/r/p".to_string(), Some("# c\n\n 8 \n")).unwrap();
    assert_eq!(p.eapi(), Eapi::Eight);
    match Profile::open("/r/p".to_string(), Some("10\n")) {
        Err(RepoError::InvalidProfile(m)) => assert_eq!(m, "bad EAPI: invalid EAPI: 10"),
        _ => panic!("expected InvalidProfile"),
    }
}

#[test]
fn profile_files() {
    let p = Profile::open("/r/profiles/a".to_string(), None).unwrap();
    assert_eq!(
        p.parents(Some("..\n# x\n/abs/base\n")),
        vec!["/r/profiles/a/..".to_string(), "/abs/base".to_string()]
    );
    assert!(p.parents(None).is_empty());
    let pk = p.packages(Some("*sys-apps/baselayout\n>=dev-lang/perl-5\n")).unwrap();
    assert_eq!(pk.len(), 2);
    assert!(pk[0].0);
    assert!(!pk[1].0);
    assert!(matches!(p.packages(Some("not an atom!\n")), Err(RepoError::Atom(_))));
    let pu = p.package_use(Some("dev-libs/foo bar -baz\n")).unwrap();
    assert_eq!(pu.len(), 1);
    assert_eq!(pu[0].1, vec!["bar".to_string(), "-baz".to_string()]);
    assert_eq!(p.package_mask(Some("dev-libs/a\n# m\ndev-libs/b\n")).unwrap().len(), 2);
    assert_eq!(p.use_force(Some("a\n\nb\n")), vec!["a".to_string(), "b".to_string()]);
}

#[test]
fn profile_atoms_keep_their_lines() {
    let p = Profile::open("/r/profiles/a".to_string(), None).unwrap();
    let pk = p.packages(Some("*sys-apps/baselayout\n>=dev-lang/perl-5\n")).unwrap();
    assert_eq!(pk[0].1.as_str(), "sys-apps/baselayout");
    assert_eq!(pk[1].1.as_str(), ">=dev-lang/perl-5");
    assert_eq!(pk[1].1.dep().to_string(), ">=dev-lang/perl-5");
    let pm = p.package_mask(Some("dev-libs/a\n# m\n=dev-libs/b-2\n")).unwrap();
    assert_eq!(pm[0].as_str(), "dev-libs/a");
    assert_eq!(pm[1].as_str(), "=dev-libs/b-2");
    let pu = p.package_use_mask(Some("dev-libs/x ssl\n>=dev-libs/y-1 -gtk\n")).unwrap();
    assert_eq!(pu[0].0.as_str(), "dev-libs/x");
    assert_eq!(pu[1].0.as_str(), ">=dev-libs/y-1");
    assert_eq!(pu[1].1, vec!["-gtk".to_string()]);
}
