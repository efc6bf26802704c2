use portage_repo::eapi::Eapi;
use portage_repo::{MasterStep, ProfileUpdate, RepoError, Repository};

/// The minimal repository: an empty `layout.conf` and no `repo_name`.
fn make_test_repo() -> Repository {
    Repository::open("/tmp/test-repo", true, Some(""), None).unwrap()
}

#[test]
fn profiles_eapi_absent_returns_none() {
    let repo = make_test_repo();
    assert!(repo.profiles_eapi(None).unwrap().is_none());
}

#[test]
fn profiles_eapi_returns_parsed_eapi() {
    let repo = make_test_repo();
    assert_eq!(repo.profiles_eapi(Some("5\n")).unwrap(), Some(Eapi::Five));
}

#[test]
fn repo_package_mask_absent_returns_empty() {
    let repo = make_test_repo();
    assert!(repo.repo_package_mask(None).unwrap().is_empty());
}

#[test]
fn repo_package_mask_parses_atoms() {
    let repo = make_test_repo();
    let masks = repo
        .repo_package_mask(Some("# comment\ndev-libs/foo\ndev-libs/bar\n"))
        .unwrap();
    assert_eq!(masks.len(), 2);
}

#[test]
fn repo_package_mask_keeps_each_line_atom() {
    let repo = make_test_repo();
    let masks = repo
        .repo_package_mask(Some("# comment\ndev-libs/foo\n<dev-libs/bar-3:2\n"))
        .unwrap();
    assert_eq!(masks[0].as_str(), "dev-libs/foo");
    assert_eq!(masks[1].as_str(), "<dev-libs/bar-3:2");
    assert!(matches!(repo.repo_package_mask(Some("dev-libs/foo\n!!!\n")), Err(RepoError::Atom(_))));
}

#[test]
fn slotmove_keeps_its_atom() {
    let repo = make_test_repo();
    let files = vec!["slotmove >=dev-libs/baz-1.0 0 1\n".to_string()];
    let updates = repo.profile_updates(&files);
    assert!(matches!(&updates[0], ProfileUpdate::SlotMove { dep, .. } if dep.as_str() == ">=dev-libs/baz-1.0"));
}

#[test]
fn use_expand_names_absent_returns_empty() {
    let repo = make_test_repo();
    assert!(repo.use_expand_names(&Vec::new()).is_empty());
}

#[test]
fn use_expand_names_and_desc() {
    let repo = make_test_repo();
    let names = repo.use_expand_names(&vec!["cpu_flags_x86.desc".to_string()]);
    assert_eq!(names, vec!["cpu_flags_x86"]);

    let descs =
        repo.use_expand_desc(Some("mmx - MMX instruction support\nsse2 - SSE2 support\n"));
    assert_eq!(descs.len(), 2);
    assert_eq!(
        descs[0],
        ("mmx".to_string(), "MMX instruction support".to_string())
    );
    assert_eq!(descs[1], ("sse2".to_string(), "SSE2 support".to_string()));
}

#[test]
fn use_expand_desc_absent_returns_empty() {
    let repo = make_test_repo();
    assert!(repo.use_expand_desc(None).is_empty());
    assert!(repo
        .use_expand_desc_path("nonexistent")
        .ends_with("profiles/desc/nonexistent.desc"));
}

#[test]
fn profile_updates_absent_returns_empty() {
    let repo = make_test_repo();
    assert!(repo.profile_updates(&Vec::new()).is_empty());
}

#[test]
fn profile_updates_parses_move_and_slotmove() {
    let repo = make_test_repo();
    let files = vec![
        "# comment\nmove dev-libs/foo dev-libs/bar\nslotmove >=dev-libs/baz-1.0 0 1\n".to_string(),
    ];
    let updates = repo.profile_updates(&files);
    assert_eq!(updates.len(), 2);
    assert!(matches!(&updates[0], ProfileUpdate::Move { old, new }
        if old.to_string() == "dev-libs/foo" && new.to_string() == "dev-libs/bar"));
    assert!(
        matches!(&updates[1], ProfileUpdate::SlotMove { old_slot, new_slot, .. }
        if old_slot == "0" && new_slot == "1")
    );
}

#[test]
fn profile_updates_skips_unknown_tags() {
    let repo = make_test_repo();
    let files = vec!["unknown_tag foo bar\nmove dev-libs/a dev-libs/b\n".to_string()];
    let updates = repo.profile_updates(&files);
    assert_eq!(updates.len(), 1);
    assert!(matches!(&updates[0], ProfileUpdate::Move { .. }));
}

#[test]
fn open_rejects_non_directory_and_missing_layout() {
    assert!(matches!(
        Repository::open("/nope", false, None, None),
        Err(RepoError::InvalidRepository(p)) if p == "/nope"
    ));
    assert!(matches!(
        Repository::open("/repo", true, None, None),
        Err(RepoError::MissingLayout(p)) if p == "/repo/metadata/layout.conf"
    ));
}

#[test]
fn open_reads_masters_and_name() {
    let repo = Repository::open(
        "/var/db/repos/overlay",
        true,
        Some("masters = gentoo other\n"),
        Some("my-overlay\n"),
    )
    .unwrap();
    assert_eq!(repo.name(), "my-overlay");
    assert_eq!(repo.layout().masters, vec!["gentoo", "other"]);
    let unnamed = Repository::open("/var/db/repos/overlay", true, Some(""), None).unwrap();
    assert_eq!(unnamed.name(), "overlay");
}

#[test]
fn masters_resolve_depth_first_once_each() {
    // overlay -> [a, b]; a -> [base]; b -> [base]
    let root = Repository::open("/r/overlay", true, Some("masters = a b\n"), Some("overlay")).unwrap();
    let mut res = root.open_with_masters("/r");
    let mut opened: Vec<String> = Vec::new();
    let mut next: Option<Repository> = None;
    loop {
        match res.step(next.take()) {
            MasterStep::Open(p) => {
                opened.push(p.clone());
                let masters = match p.as_str() {
                    "/r/a" => "masters = base\n",
                    "/r/b" => "masters = base\n",
                    _ => "",
                };
                let name = p.rsplit('/').next().unwrap().to_string();
                next = Some(Repository::open(&p, true, Some(masters), Some(&name)).unwrap());
            }
            MasterStep::Done => break,
        }
    }
    assert_eq!(opened, vec!["/r/a", "/r/base", "/r/b"]);
    let (repo, masters) = res.finish();
    assert_eq!(repo.name(), "overlay");
    let names: Vec<&str> = masters.iter().map(|m| m.name()).collect();
    assert_eq!(names, vec!["base", "a", "b"]);
}

#[test]
fn profile_reads_its_eapi() {
    let repo = make_test_repo();
    let p = repo.profile("default/linux", Some("7\n")).unwrap();
    assert_eq!(p.eapi(), Eapi::Seven);
    assert_eq!(p.path(), "/tmp/test-repo/profiles/default/linux");
    assert_eq!(repo.profile("x", None).unwrap().eapi(), Eapi::Zero);
    assert!(matches!(
        repo.profile("x", Some("nine\n")),
        Err(RepoError::InvalidProfile(m)) if m == "bad EAPI: invalid EAPI: nine"
    ));
}

#[test]
fn masters_cycle_terminates() {
    // overlay -> [a]; a -> [b]; b -> [a, overlay]
    let root = Repository::open("/r/overlay", true, Some("masters = a\n"), Some("overlay")).unwrap();
    let mut res = root.open_with_masters("/r");
    let mut next: Option<Repository> = None;
    loop {
        match res.step(next.take()) {
            MasterStep::Open(p) => {
                let masters = match p.as_str() {
                    "/r/a" => "masters = b\n",
                    "/r/b" => "masters = a overlay\n",
                    _ => "",
                };
                let name = p.rsplit('/').next().unwrap().to_string();
                next = Some(Repository::open(&p, true, Some(masters), Some(&name)).unwrap());
            }
            MasterStep::Done => break,
        }
    }
    let (_, masters) = res.finish();
    let names: Vec<&str> = masters.iter().map(|m| m.name()).collect();
    assert_eq!(names, vec!["b", "a"]);
}
