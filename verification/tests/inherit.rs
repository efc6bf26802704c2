use portage_repo::inherit::{
    accum_vars, already_inherited, append_inherited, combine, eclass_candidates,
    eclass_dirs_value, eclass_total_var, InheritRun,
};

fn strings(v: &[&str]) -> Vec<String> {
    v.iter().map(|s| s.to_string()).collect()
}

#[test]
fn accumulating_variables_by_eapi() {
    assert_eq!(
        accum_vars(7),
        vec!["IUSE", "REQUIRED_USE", "DEPEND", "BDEPEND", "RDEPEND", "PDEPEND", "IDEPEND"]
    );
    assert_eq!(accum_vars(8).len(), 9);
    assert_eq!(accum_vars(8)[7], "PROPERTIES");
    assert_eq!(accum_vars(8)[8], "RESTRICT");
    assert_eq!(eclass_total_var("IUSE"), "__ECLASS_IUSE");
}

#[test]
fn combining_contributions() {
    assert_eq!(combine("", ""), "");
    assert_eq!(combine("", "b"), "b");
    assert_eq!(combine("a", ""), "a");
    assert_eq!(combine("a", "b"), "a b");
}

#[test]
fn inherited_words() {
    assert!(already_inherited("foo bar", "bar"));
    assert!(!already_inherited("foo bar", "ba"));
    assert!(!already_inherited("", "foo"));
    assert_eq!(append_inherited("", "foo"), "foo");
    assert_eq!(append_inherited("foo", "bar"), "foo bar");
    assert!(already_inherited(&append_inherited("foo", "bar"), "bar"));
}

#[test]
fn a_run_sources_each_new_eclass_once() {
    let mut run = InheritRun::start(Some("1"), Some("toolchain"), strings(&["a", "toolchain", "b", "a"]));
    assert_eq!(run.depth(), 2);
    assert_eq!(run.next_eclass(), Some("a".to_string()));
    assert_eq!(run.inherited(), "toolchain a");
    assert_eq!(run.next_eclass(), Some("b".to_string()));
    assert_eq!(run.next_eclass(), None);
    assert_eq!(run.inherited(), "toolchain a b");
    assert_eq!(run.finish(), (1, false));
}

#[test]
fn outermost_run_moves_totals() {
    let mut run = InheritRun::start(None, None, strings(&["x"]));
    assert_eq!(run.depth(), 1);
    assert_eq!(run.next_eclass(), Some("x".to_string()));
    assert_eq!(run.next_eclass(), None);
    assert_eq!(run.finish(), (0, true));
    let bad = InheritRun::start(Some("deep"), None, Vec::new());
    assert_eq!(bad.depth(), 1);
}

#[test]
fn eclass_lookup_paths() {
    assert_eq!(
        eclass_candidates(Some("/r/a/eclass:/r/b/eclass"), "foo"),
        strings(&["/r/a/eclass/foo.eclass", "/r/b/eclass/foo.eclass"])
    );
    assert_eq!(eclass_candidates(Some(""), "foo"), strings(&["foo.eclass"]));
    assert!(eclass_candidates(None, "foo").is_empty());
    let dirs = strings(&["/r/a/eclass", "/r/b/eclass/"]);
    let value = eclass_dirs_value(&dirs);
    assert_eq!(value, "/r/a/eclass:/r/b/eclass/");
    assert_eq!(
        eclass_candidates(Some(&value), "foo"),
        strings(&["/r/a/eclass/foo.eclass", "/r/b/eclass/foo.eclass"])
    );
}
