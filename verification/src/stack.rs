//! The profile stack (PMS 5.1): a profile and all its ancestors through
//! their `parent` files, each ancestor before the profiles that inherit it.
use vstd::prelude::*;

use crate::repository::Repository;
use crate::util::{file_lines, file_lines_of, join, join_path, opt_view, strings_view};
use crate::walk::{PostOrderWalk, WalkStep};

verus! {

/// The parents a `parent` file lists for the profile at `path`, each
/// resolved against that directory.
pub open spec fn parent_paths_spec(path: Seq<char>, parent_file: Option<Seq<char>>) -> Seq<Seq<char>> {
    file_lines(parent_file).map_values(|l: Seq<char>| join_path(path, l))
}

/// The parents of the profile at `path`, given the text of its `parent`
/// file (`None` when there is none).
pub fn parent_paths(path: &str, parent_file: Option<&str>) -> (r: Vec<String>)
    ensures
        strings_view(r@) == parent_paths_spec(path@, opt_view(parent_file)),
{
    let ls = file_lines_of(parent_file);
    let ghost want = parent_paths_spec(path@, opt_view(parent_file));
    let mut r: Vec<String> = Vec::new();
    let mut i: usize = 0;
    while i < ls.len()
        invariant
            want == parent_paths_spec(path@, opt_view(parent_file)),
            strings_view(ls@) == file_lines(opt_view(parent_file)),
            i <= ls@.len(),
            strings_view(r@) == want.take(i as int),
        decreases ls@.len() - i,
    {
        let ghost pre = r@;
        assert(strings_view(ls@)[i as int] == ls@[i as int]@);
        r.push(join(path, ls[i].as_str()));
        proof {
            assert(strings_view(r@) =~= strings_view(pre).push(want[i as int]));
            assert(want.take(i + 1) =~= want.take(i as int).push(want[i as int]));
        }
        i += 1;
    }
    assert(want.take(i as int) =~= want);
    r
}

/// The profiles of a stack, in resolution order: every ancestor comes
/// before the profiles that list it, and the profile itself comes last.
pub struct ProfileStack {
    profiles: Vec<String>,
}

impl ProfileStack {
    /// The profile directories, in resolution order.
    pub fn profiles(&self) -> (r: &Vec<String>)
        ensures
            strings_view(r@) == self.spec_profiles(),
    {
        &self.profiles
    }

    /// The profile directories as plain values.
    pub closed spec fn spec_profiles(&self) -> Seq<Seq<char>> {
        strings_view(self.profiles@)
    }
}

/// Building a profile stack: a depth-first walk over `parent` files. Each
/// step asks for the `parent` file of one more profile.
pub struct ProfileStackBuilder {
    walk: PostOrderWalk,
}

impl ProfileStackBuilder {
    /// The walk's consistency; the profile itself is part of the stack.
    pub closed spec fn wf(&self) -> bool {
        &&& self.walk.wf()
        &&& self.walk.model().include_root
    }

    /// The walk behind the builder.
    pub closed spec fn spec_walk(&self) -> crate::walk::WalkModel {
        self.walk.model()
    }

    /// Whether every profile has been read.
    pub closed spec fn spec_done(&self) -> bool {
        self.walk.spec_done()
    }

    /// Start at the profile at `path`, given the text of its `parent` file.
    pub fn new(path: &str, parent_file: Option<&str>) -> (r: ProfileStackBuilder)
        ensures
            r.wf(),
            !r.spec_done(),
            r.spec_walk().root == path@,
            r.spec_walk().pending is None,
            r.spec_walk().graph == map![path@ => parent_paths_spec(path@, opt_view(parent_file))],
    {
        let parents = parent_paths(path, parent_file);
        ProfileStackBuilder { walk: PostOrderWalk::new(path, parents, true) }
    }

    /// Take the next step. `parent_file` is `Some` with the text of the
    /// `parent` file of the profile the previous step asked for (its inner
    /// value `None` when that profile has none), and `None` on the first step.
    /// `Open(path)` asks for the `parent` file of the profile at `path`.
    pub fn step(&mut self, parent_file: Option<Option<&str>>) -> (r: WalkStep)
        requires
            old(self).wf(),
            !old(self).spec_done(),
            old(self).spec_walk().pending is Some <==> parent_file is Some,
        ensures
            final(self).wf(),
            final(self).spec_walk().root == old(self).spec_walk().root,
            match r {
                WalkStep::Open(p) => {
                    &&& final(self).spec_walk().pending == Some(p@)
                    &&& !old(self).spec_walk().seen.contains(p@)
                    &&& !final(self).spec_done()
                },
                WalkStep::Done => final(self).spec_done(),
            },
            match (old(self).spec_walk().pending, parent_file) {
                (Some(p), Some(f)) => final(self).spec_walk().graph == old(self).spec_walk().graph.insert(
                    p,
                    parent_paths_spec(p, opt_view(f)),
                ),
                _ => final(self).spec_walk().graph == old(self).spec_walk().graph,
            },
            // depth-first: the walk goes on from the profile just read
            final(self).spec_walk() == crate::walk::settle(
                if parent_file is Some {
                    crate::walk::opened_state(
                        old(self).spec_walk(),
                        parent_paths_spec(old(self).spec_walk().pending->0, opt_view(parent_file->0)),
                    )
                } else {
                    old(self).spec_walk()
                },
            ).0,
    {
        let children = match parent_file {
            Some(f) => {
                let p = self.walk.pending_name();
                Some(parent_paths(p.as_str(), f))
            },
            None => None,
        };
        self.walk.advance(children)
    }

    /// The stack, once every profile has been read: the profiles in the
    /// order the walk resolved them.
    pub fn finish(self) -> (r: ProfileStack)
        requires
            self.wf(),
            self.spec_done(),
        ensures
            r.spec_profiles() == self.spec_walk().out,
    {
        ProfileStack { profiles: self.walk.resolved() }
    }
}

/// A finished stack holds each profile once, holds the profile itself, and
/// holds every parent of every profile in it, each parent before the profile
/// unless the two lie on a cycle of parents.
pub proof fn lemma_stack_closed(b: ProfileStackBuilder)
    requires
        b.wf(),
        b.spec_done(),
    ensures
        b.spec_walk().out.no_duplicates(),
        b.spec_walk().out.contains(b.spec_walk().root),
        forall|n: Seq<char>, j: int|
            b.spec_walk().out.contains(n) && 0 <= j < b.spec_walk().graph[n].len()
                ==> #[trigger] b.spec_walk().out.contains(b.spec_walk().graph[n][j]),
        crate::walk::post_ordered(b.spec_walk().out, b.spec_walk().graph),
{
    crate::walk::lemma_walk_done_closed(b.walk);
}

impl Repository {
    /// Start building the stack of the profile at `relative_path` under
    /// `profiles/`, given the text of its `parent` file.
    pub fn profile_stack(&self, relative_path: &str, parent_file: Option<&str>) -> (r: ProfileStackBuilder)
        ensures
            r.wf(),
            !r.spec_done(),
            r.spec_walk().root == self.spec_profiles_file(relative_path@),
    {
        let path = self.profile_path(relative_path);
        ProfileStackBuilder::new(path.as_str(), parent_file)
    }
}

} // verus!
