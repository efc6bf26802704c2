use portage_repo::eapi::Eapi;
use portage_repo::shell::{
    accumulate, build_dirs, build_distdir, build_path, defined_phases, depend_vars, ebuild_vars,
    failglob_command, metadata_value, metadata_vars, package_vars, phase_funcs_call,
    phase_missing_message, phase_names, phase_vars, pick_portage_bin, reset_vars, version_parts,
    EclassDirs,
};
use portage_repo::useflags::UseFlags;

fn strings(v: &[&str]) -> Vec<String> {
    v.iter().map(|s| s.to_string()).collect()
}

fn pairs(v: &[(&str, &str)]) -> Vec<(String, String)> {
    v.iter().map(|(a, b)| (a.to_string(), b.to_string())).collect()
}

#[test]
fn test_use_flags() {
    let mut flags = UseFlags::new();
    flags.set_use_flags(&strings(&["ssl", "gtk", "-doc"]));
    assert_eq!(flags.use_flags_string(), "gtk ssl");
    let use_env = flags.use_flags_string();
    assert!(use_env.contains("ssl"));
    assert!(use_env.contains("gtk"));
    assert!(!use_env.contains("doc"));
}

#[test]
fn use_flags_later_entries_win() {
    let mut flags = UseFlags::new();
    flags.set_use_flags(&strings(&[" +b ", "a", "-b", "", "c", "a", "+b"]));
    assert_eq!(flags.use_flags_string(), "a b c");
    assert!(flags.contains("c"));
    flags.set_use_flags(&strings(&["x", "-x"]));
    assert_eq!(flags.use_flags_string(), "");
}

#[test]
fn version_variables() {
    assert_eq!(version_parts("1.2.3-r4", 4), ("1.2.3".to_string(), "r4".to_string()));
    assert_eq!(version_parts("1.2.3", 0), ("1.2.3".to_string(), "r0".to_string()));
    assert_eq!(version_parts("26.04.0-r10", 10), ("26.04.0".to_string(), "r10".to_string()));
}

#[test]
fn package_variables() {
    assert_eq!(
        package_vars("dev-lang", "rust", "1.75.0-r1", 1, "/repo"),
        pairs(&[
            ("CATEGORY", "dev-lang"),
            ("PN", "rust"),
            ("PV", "1.75.0"),
            ("PR", "r1"),
            ("PVR", "1.75.0-r1"),
            ("P", "rust-1.75.0"),
            ("PF", "rust-1.75.0-r1"),
            ("FILESDIR", "/repo/dev-lang/rust/files"),
        ])
    );
    assert_eq!(
        ebuild_vars(Eapi::Eight, "/repo/x.ebuild"),
        pairs(&[("EAPI", "8"), ("EBUILD", "/repo/x.ebuild")])
    );
}

#[test]
fn depend_phase_variables() {
    let v = depend_vars("dev-lang", "rust-1.75.0", "rust-1.75.0-r1", Eapi::Seven);
    let base = "/var/tmp/portage/dev-lang/rust-1.75.0-r1";
    assert_eq!(
        v,
        pairs(&[
            ("WORKDIR", &format!("{base}/work")),
            ("S", &format!("{base}/work/rust-1.75.0")),
            ("T", &format!("{base}/temp")),
            ("TMPDIR", &format!("{base}/temp")),
            ("HOME", "/tmp"),
            ("D", &format!("{base}/image/")),
            ("DISTDIR", "/var/cache/distfiles"),
            ("EBUILD_PHASE", "depend"),
            ("EBUILD_PHASE_FUNC", ""),
            ("ROOT", "/"),
            ("MERGE_TYPE", "source"),
            ("EPREFIX", ""),
            ("ED", &format!("{base}/image/")),
            ("EROOT", "/"),
            ("SYSROOT", "/"),
            ("ESYSROOT", "/"),
            ("BROOT", "/"),
        ])
    );
    assert_eq!(depend_vars("c", "p", "pf", Eapi::Two).len(), 11);
    assert_eq!(depend_vars("c", "p", "pf", Eapi::Three).len(), 14);
}

#[test]
fn phase_run_variables() {
    let v = phase_vars("/w", "foo-1", "compile", Eapi::Six);
    assert_eq!(
        v,
        pairs(&[
            ("WORKDIR", "/w/work"),
            ("S", "/w/work/foo-1"),
            ("T", "/w/temp"),
            ("TMPDIR", "/w/temp"),
            ("HOME", "/w/homedir"),
            ("D", "/w/image/"),
            ("DISTDIR", "/var/cache/distfiles"),
            ("EBUILD_PHASE", "compile"),
            ("EBUILD_PHASE_FUNC", "src_compile"),
            ("ROOT", "/"),
            ("MERGE_TYPE", "source"),
            ("EPREFIX", ""),
            ("ED", "/w/image/"),
            ("EROOT", "/"),
        ])
    );
    assert_eq!(build_dirs("/w"), strings(&["/w/work", "/w/temp", "/w/image", "/w/homedir"]));
}

#[test]
fn accumulating_variables_are_reset_and_combined() {
    assert_eq!(
        reset_vars(Eapi::Seven),
        strings(&[
            "IUSE", "__ECLASS_IUSE", "REQUIRED_USE", "__ECLASS_REQUIRED_USE", "DEPEND",
            "__ECLASS_DEPEND", "BDEPEND", "__ECLASS_BDEPEND", "RDEPEND", "__ECLASS_RDEPEND",
            "PDEPEND", "__ECLASS_PDEPEND", "IDEPEND", "__ECLASS_IDEPEND", "INHERIT", "INHERITED",
        ])
    );
    assert_eq!(reset_vars(Eapi::Eight).len(), 20);
    assert_eq!(accumulate(Some("a"), Some("  b c ")), "a b c");
    assert_eq!(accumulate(None, Some("  b ")), "b");
    assert_eq!(accumulate(Some(""), Some("   ")), "");
    assert_eq!(accumulate(Some("a"), None), "a");
    assert_eq!(accumulate(None, None), "");
    assert_eq!(failglob_command(Eapi::Six), "shopt -s failglob");
    assert_eq!(failglob_command(Eapi::Five), "shopt -u failglob");
}

#[test]
fn metadata_values() {
    assert_eq!(metadata_vars().len(), 17);
    assert_eq!(metadata_value("DESCRIPTION", Some("  A  tool\n")), Some("A tool".to_string()));
    assert_eq!(metadata_value("DEPEND", Some("a\n\tb")), Some("a b".to_string()));
    assert_eq!(metadata_value("DEPEND", Some(" a  b ")), Some(" a  b ".to_string()));
    assert_eq!(metadata_value("DEPEND", Some("")), None);
    assert_eq!(metadata_value("DEPEND", None), None);
    assert_eq!(metadata_value("DEPEND", Some("\n\t")), None);
}

#[test]
fn defined_phases_sorted_by_name() {
    let table = phase_names();
    assert_eq!(table.len(), 15);
    let defined: Vec<bool> = table
        .iter()
        .map(|(_, f)| *f == "src_unpack" || *f == "src_compile" || *f == "pkg_setup")
        .collect();
    assert_eq!(defined_phases(&defined), strings(&["compile", "setup", "unpack"]));
}

#[test]
fn eclass_directories() {
    let mut dirs = EclassDirs::new("/repo", true);
    assert_eq!(dirs.value(), "/repo/eclass");
    dirs.add_eclass_dir("/extra");
    dirs.prepend_masters(&strings(&["/m1/eclass", "/m2/eclass"]));
    assert_eq!(dirs.value(), "/m1/eclass:/m2/eclass:/repo/eclass:/extra");
    dirs.prepend_eclass_dir("/first");
    assert_eq!(dirs.dirs()[0], "/first");
    assert_eq!(dirs.eclass_files("foo")[1], "/m1/eclass/foo.eclass");
    assert!(EclassDirs::new("/repo", false).dirs().is_empty());
}

#[test]
fn build_environment() {
    assert_eq!(build_path("/usr/lib/portage/python3.12", Some("/bin")), "/usr/lib/portage/python3.12/ebuild-helpers:/bin");
    assert_eq!(build_path("/p", None), "/p/ebuild-helpers:/usr/bin:/bin");
    assert_eq!(build_distdir(Some("/d"), Some("/h")), "/d");
    assert_eq!(build_distdir(None, Some("/h")), "/h/.cache/distfiles");
    assert_eq!(build_distdir(None, None), "/tmp/.cache/distfiles");
    assert_eq!(
        pick_portage_bin(&strings(&["/u/python3.11", "/u/python3.13", "/u/python3.12"])),
        Some("/u/python3.13".to_string())
    );
    assert_eq!(pick_portage_bin(&Vec::new()), None);
    assert_eq!(phase_funcs_call(Eapi::Eight, "src_compile"), "__ebuild_phase_funcs 8 src_compile");
    assert_eq!(phase_missing_message("src_test"), "warning: src_test not defined, nothing to do");
}

#[test]
fn use_answers_what_was_enabled() {
    let mut flags = UseFlags::new();
    flags.set_use_flags(&strings(&["ssl", "gtk", "-doc", "+X"]));
    let use_var = flags.use_flags_string();
    for f in ["ssl", "gtk", "X"] {
        assert!(portage_repo::pms::use_flag_enabled(Some(&use_var), f));
        assert!(flags.contains(f));
    }
    for f in ["doc", "gt", ""] {
        assert!(!portage_repo::pms::use_flag_enabled(Some(&use_var), f));
        assert!(!flags.contains(f));
    }
}
