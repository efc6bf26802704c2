use portage_repo::stack::{parent_paths, ProfileStackBuilder};
use portage_repo::walk::WalkStep;
use portage_repo::Repository;

#[test]
fn parents_resolve_against_the_profile() {
    assert_eq!(
        parent_paths("/p/default/linux", Some("# c\n..\n../../base\n")),
        vec!["/p/default/linux/..", "/p/default/linux/../../base"]
    );
    assert!(parent_paths("/p/x", None).is_empty());
}

#[test]
fn stack_lists_ancestors_first() {
    // top -> [mid, other]; mid -> [base]; other -> [base]
    let mut b = ProfileStackBuilder::new("/p/top", Some("/p/mid\n/p/other\n"));
    let mut next: Option<Option<&str>> = None;
    let mut asked = Vec::new();
    loop {
        match b.step(next.take()) {
            WalkStep::Open(p) => {
                asked.push(p.clone());
                next = Some(match p.as_str() {
                    "/p/mid" => Some("/p/base\n"),
                    "/p/other" => Some("/p/base\n"),
                    _ => None,
                });
            }
            WalkStep::Done => break,
        }
    }
    assert_eq!(asked, vec!["/p/mid", "/p/base", "/p/other"]);
    let stack = b.finish();
    assert_eq!(stack.profiles(), &vec!["/p/base", "/p/mid", "/p/other", "/p/top"]);
}

#[test]
fn repository_profile_stack_root() {
    let repo = Repository::open("/r", true, Some(""), None).unwrap();
    let mut b = repo.profile_stack("default/linux", None);
    assert!(matches!(b.step(None), WalkStep::Done));
    assert_eq!(b.finish().profiles(), &vec!["/r/profiles/default/linux"]);
}
