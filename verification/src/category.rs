//! Category and package directories (PMS 4).
use vstd::prelude::*;

use crate::atom::Cpn;
use crate::text::{chars_of, has_prefix};
use crate::util::{join, join_path, lex_le, sort_names, sorted_names, strings_view};

verus! {

/// A category directory within an ebuild repository (e.g. `dev-lang/`).
#[derive(Debug, Clone)]
pub struct Category {
    name: String,
    path: String,
}

/// A package directory within a category (e.g. `dev-lang/rust/`).
#[derive(Debug, Clone)]
pub struct Package {
    cpn: Cpn,
    path: String,
}

impl Category {
    pub(crate) fn new(name: String, path: String) -> (r: Category)
        ensures
            r.spec_name() == name@,
            r.spec_path() == path@,
    {
        Category { name, path }
    }

    pub closed spec fn spec_name(&self) -> Seq<char> {
        self.name@
    }

    pub closed spec fn spec_path(&self) -> Seq<char> {
        self.path@
    }

    /// The category name (e.g. `dev-lang`).
    pub fn name(&self) -> (r: &str)
        ensures
            r@ == self.spec_name(),
    {
        self.name.as_str()
    }

    /// Absolute path to the category directory.
    pub fn path(&self) -> (r: &str)
        ensures
            r@ == self.spec_path(),
    {
        self.path.as_str()
    }

    /// The packages of this category, given the entries of its directory as
    /// `(name, is_directory)`: dotfiles and non-directories are skipped, and the
    /// packages come sorted by name.
    pub fn packages(&self, entries: Vec<(String, bool)>) -> (r: Vec<Package>)
        ensures
            sorted_names(Seq::new(r@.len(), |i: int| r@[i].spec_name())),
            Seq::new(r@.len(), |i: int| r@[i].spec_name()).to_multiset() == package_names(
                entries@,
            ).to_multiset(),
            forall|i: int|
                #![trigger r@[i]]
                0 <= i < r@.len() ==> r@[i].spec_category() == self.spec_name() && r@[i].spec_path()
                    == join_path(self.spec_path(), r@[i].spec_name()),
            forall|i: int|
                #![trigger r@[i]]
                0 <= i < r@.len() ==> exists|k: int|
                    0 <= k < entries@.len() && (#[trigger] entries@[k]).1 && entries@[k].0@
                        == r@[i].spec_name(),
    {
        let mut names: Vec<String> = Vec::new();
        let mut i: usize = 0;
        while i < entries.len()
            invariant
                i <= entries@.len(),
                strings_view(names@) == package_names(entries@.take(i as int)),
            decreases entries@.len() - i,
        {
            let (n, is_dir) = (&entries[i].0, entries[i].1);
            let c = chars_of(n.as_str());
            assert(entries@.take(i + 1).drop_last() =~= entries@.take(i as int));
            if is_dir && !(c.len() > 0 && c[0] == '.') {
                let ghost before = strings_view(names@);
                names.push(n.clone());
                assert(strings_view(names@) =~= before.push(n@));
            }
            i += 1;
        }
        assert(entries@.take(i as int) =~= entries@);
        let sorted = sort_names(names);
        let mut r: Vec<Package> = Vec::new();
        let mut k: usize = 0;
        while k < sorted.len()
            invariant
                k <= sorted@.len(),
                r@.len() == k,
                forall|q: int|
                    #![trigger r@[q]]
                    0 <= q < k ==> r@[q].spec_name() == sorted@[q]@ && r@[q].spec_category()
                        == self.spec_name() && r@[q].spec_path() == join_path(
                        self.spec_path(),
                        r@[q].spec_name(),
                    ),
            decreases sorted@.len() - k,
        {
            let p = join(self.path.as_str(), sorted[k].as_str());
            r.push(Package::new(self.name.as_str(), sorted[k].as_str(), p));
            k += 1;
        }
        assert(Seq::new(r@.len(), |q: int| r@[q].spec_name()) =~= strings_view(sorted@));
        proof {
            let ns = Seq::new(r@.len(), |q: int| r@[q].spec_name());
            lemma_package_names_are_directories(entries@);
            assert forall|i: int| 0 <= i < r@.len() implies exists|k: int|
                0 <= k < entries@.len() && (#[trigger] entries@[k]).1 && entries@[k].0@
                    == (#[trigger] r@[i]).spec_name() by {
                assert(ns[i] == r@[i].spec_name());
                vstd::seq_lib::to_multiset_contains(ns, ns[i]);
                vstd::seq_lib::to_multiset_contains(package_names(entries@), ns[i]);
                assert(package_names(entries@).contains(ns[i]));
            }
        }
        r
    }

    /// Look up a package by name; `is_dir` tells whether its directory
    /// (`self.path()/name`) exists.
    pub fn package(&self, name: &str, is_dir: bool) -> (r: Option<Package>)
        ensures
            is_dir ==> r is Some && r->0.spec_name() == name@ && r->0.spec_category()
                == self.spec_name() && r->0.spec_path() == join_path(self.spec_path(), name@),
            !is_dir ==> r is None,
    {
        if is_dir {
            let p = join(self.path.as_str(), name);
            Some(Package::new(self.name.as_str(), name, p))
        } else {
            None
        }
    }

    /// The path of a package directory of this category.
    pub fn package_path(&self, name: &str) -> (r: String)
        ensures
            r@ == join_path(self.spec_path(), name@),
    {
        join(self.path.as_str(), name)
    }
}

/// The names of the directory entries that are packages: directories whose
/// names do not start with a dot.
pub open spec fn package_names(entries: Seq<(String, bool)>) -> Seq<Seq<char>>
    decreases entries.len(),
{
    if entries.len() == 0 {
        seq![]
    } else {
        let (n, d) = entries.last();
        if d && !(n@.len() > 0 && n@[0] == '.') {
            package_names(entries.drop_last()).push(n@)
        } else {
            package_names(entries.drop_last())
        }
    }
}

/// The packages of a category are exactly its directory entries marked as
/// directories whose names do not start with a dot: every package names
/// such an entry, and every such entry is a package.
pub proof fn lemma_package_names_are_directories(entries: Seq<(String, bool)>)
    ensures
        forall|p: Seq<char>|
            #[trigger] package_names(entries).contains(p) <==> exists|k: int|
                0 <= k < entries.len() && (#[trigger] entries[k]).1 && entries[k].0@ == p && !(p.len()
                    > 0 && p[0] == '.'),
    decreases entries.len(),
{
    if entries.len() > 0 {
        let init = entries.drop_last();
        lemma_package_names_are_directories(init);
        let (n, d) = entries.last();
        let pn = package_names(entries);
        let pi = package_names(init);
        let kept = d && !(n@.len() > 0 && n@[0] == '.');
        assert forall|p: Seq<char>| #[trigger] pn.contains(p) <==> exists|k: int|
            0 <= k < entries.len() && (#[trigger] entries[k]).1 && entries[k].0@ == p && !(p.len()
                > 0 && p[0] == '.') by {
            if kept {
                assert(pn == pi.push(n@));
                if pn.contains(p) {
                    let q = choose|q: int| 0 <= q < pn.len() && pn[q] == p;
                    if q < pi.len() {
                        assert(pi[q] == p);
                        assert(pi.contains(p));
                        let k = choose|k: int|
                            0 <= k < init.len() && (#[trigger] init[k]).1 && init[k].0@ == p && !(p.len()
                                > 0 && p[0] == '.');
                        assert(entries[k] == init[k]);
                    } else {
                        assert(entries[entries.len() - 1] == entries.last());
                    }
                }
                if exists|k: int|
                    0 <= k < entries.len() && (#[trigger] entries[k]).1 && entries[k].0@ == p && !(p.len()
                        > 0 && p[0] == '.') {
                    let k = choose|k: int|
                        0 <= k < entries.len() && (#[trigger] entries[k]).1 && entries[k].0@ == p && !(
                        p.len() > 0 && p[0] == '.');
                    if k < init.len() {
                        assert(init[k] == entries[k]);
                        assert(pi.contains(p));
                        let q = choose|q: int| 0 <= q < pi.len() && pi[q] == p;
                        assert(pn[q] == p);
                    } else {
                        assert(pn[pi.len() as int] == p);
                    }
                }
            } else {
                assert(pn == pi);
                if exists|k: int|
                    0 <= k < entries.len() && (#[trigger] entries[k]).1 && entries[k].0@ == p && !(p.len()
                        > 0 && p[0] == '.') {
                    let k = choose|k: int|
                        0 <= k < entries.len() && (#[trigger] entries[k]).1 && entries[k].0@ == p && !(
                        p.len() > 0 && p[0] == '.');
                    if k == entries.len() - 1 {
                        assert(entries[k] == entries.last());
                    }
                    assert(k < init.len());
                    assert(init[k] == entries[k]);
                }
                if pn.contains(p) {
                    let k = choose|k: int|
                        0 <= k < init.len() && (#[trigger] init[k]).1 && init[k].0@ == p && !(p.len()
                            > 0 && p[0] == '.');
                    assert(entries[k] == init[k]);
                }
            }
        }
    }
}

impl Package {
    pub(crate) fn new(category: &str, name: &str, path: String) -> (r: Package)
        ensures
            r.spec_category() == category@,
            r.spec_name() == name@,
            r.spec_path() == path@,
    {
        Package { cpn: Cpn::new(category, name), path }
    }

    pub closed spec fn spec_category(&self) -> Seq<char> {
        self.cpn.category@
    }

    pub closed spec fn spec_name(&self) -> Seq<char> {
        self.cpn.package@
    }

    pub closed spec fn spec_path(&self) -> Seq<char> {
        self.path@
    }

    /// The category/package name.
    pub fn cpn(&self) -> (r: &Cpn)
        ensures
            r.category@ == self.spec_category(),
            r.package@ == self.spec_name(),
    {
        &self.cpn
    }

    /// The category name.
    pub fn category(&self) -> (r: &str)
        ensures
            r@ == self.spec_category(),
    {
        self.cpn.category.as_str()
    }

    /// The package name.
    pub fn name(&self) -> (r: &str)
        ensures
            r@ == self.spec_name(),
    {
        self.cpn.package.as_str()
    }

    /// Absolute path to the package directory.
    pub fn path(&self) -> (r: &str)
        ensures
            r@ == self.spec_path(),
    {
        self.path.as_str()
    }

    /// The path of the package's `Manifest` file.
    pub fn manifest_path(&self) -> (r: String)
        ensures
            r@ == join_path(self.spec_path(), "Manifest"@),
    {
        join(self.path.as_str(), "Manifest")
    }

    /// The path of the package's `metadata.xml` file.
    pub fn metadata_xml_path(&self) -> (r: String)
        ensures
            r@ == join_path(self.spec_path(), "metadata.xml"@),
    {
        join(self.path.as_str(), "metadata.xml")
    }
}

} // verus!
