//! An ebuild repository (PMS 4): its layout, its `profiles/` files, and the
//! resolution of its master repositories.
use vstd::prelude::*;

use crate::atom::{cpn_split, dep_parses, dep_text, parse_cpn, parse_dep, Atom, Cpn};
use crate::category::Category;
use crate::eapi::{eapi_named, Eapi};
use crate::error::RepoError;
use crate::layout::{layout_masters, LayoutConf};
use crate::profile::{parse_atom_list, profile_desc_spec, Profile, ProfileDesc, StatusModel};
use crate::text::{
    cat, chars_of, eq_str, has_prefix, has_suffix, push_str, slice_range, split_once,
    split_once_spec, split_words, string_of, words,
};
use crate::util::{
    file_line_chars, file_lines, file_lines_of, first_line, first_line_of, join, join_path,
    opt_view, sort_names, sorted_names, strings_view,
};

verus! {

/// A single package-move or slot-move entry from `profiles/updates/`.
#[derive(Debug)]
pub enum ProfileUpdate {
    /// `move <old> <new>` — package renamed.
    Move {
        /// Old category/package name.
        old: Cpn,
        /// New category/package name.
        new: Cpn,
    },
    /// `slotmove <dep> <old_slot> <new_slot>` — slot renamed.
    SlotMove {
        /// Atom (possibly versioned) identifying affected packages.
        dep: Atom,
        /// Old slot value.
        old_slot: String,
        /// New slot value.
        new_slot: String,
    },
}

/// What is known of a [`ProfileUpdate`]: the names of a move; the atom text
/// and the slots of a slot move.
pub enum UpdateModel {
    Move { old: (Seq<char>, Seq<char>), new: (Seq<char>, Seq<char>) },
    SlotMove { dep: Seq<char>, old_slot: Seq<char>, new_slot: Seq<char> },
}

impl View for ProfileUpdate {
    type V = UpdateModel;

    open spec fn view(&self) -> UpdateModel {
        match self {
            ProfileUpdate::Move { old, new } => UpdateModel::Move {
                old: (old.category@, old.package@),
                new: (new.category@, new.package@),
            },
            ProfileUpdate::SlotMove { dep, old_slot, new_slot } => UpdateModel::SlotMove {
                dep: dep@,
                old_slot: old_slot@,
                new_slot: new_slot@,
            },
        }
    }
}

/// What an update line gives: `move old new` with two valid package names, or
/// `slotmove dep old new` with a valid atom; anything else is skipped.
pub open spec fn update_of(line: Seq<char>) -> Option<UpdateModel> {
    let w = words(line, true);
    if w.len() >= 3 && w[0] == "move"@ {
        match (cpn_split(w[1]), cpn_split(w[2])) {
            (Some(a), Some(b)) => Some(UpdateModel::Move { old: a, new: b }),
            _ => None,
        }
    } else if w.len() >= 4 && w[0] == "slotmove"@ && dep_parses(w[1]) {
        Some(UpdateModel::SlotMove { dep: dep_text(w[1])->Some_0, old_slot: w[2], new_slot: w[3] })
    } else {
        None
    }
}

/// The updates of a sequence of lines, in order.
pub open spec fn updates_of(ls: Seq<Seq<char>>) -> Seq<UpdateModel>
    decreases ls.len(),
{
    if ls.len() == 0 {
        seq![]
    } else {
        match update_of(ls.last()) {
            Some(u) => updates_of(ls.drop_last()).push(u),
            None => updates_of(ls.drop_last()),
        }
    }
}

/// The content lines of several files, one after another.
pub open spec fn all_lines(files: Seq<Seq<char>>) -> Seq<Seq<char>>
    decreases files.len(),
{
    if files.len() == 0 {
        seq![]
    } else {
        all_lines(files.drop_last()) + file_lines(Some(files.last()))
    }
}

/// `flag - description` lines (`profiles/use.desc`, `profiles/desc/*.desc`).
pub open spec fn desc_pairs(ls: Seq<Seq<char>>) -> Seq<(Seq<char>, Seq<char>)>
    decreases ls.len(),
{
    if ls.len() == 0 {
        seq![]
    } else {
        match split_once_spec(ls.last(), " - "@) {
            Some(p) => desc_pairs(ls.drop_last()).push(p),
            None => desc_pairs(ls.drop_last()),
        }
    }
}

/// `name url...` lines of `profiles/thirdpartymirrors`.
pub open spec fn mirror_lines(ls: Seq<Seq<char>>) -> Seq<(Seq<char>, Seq<Seq<char>>)>
    decreases ls.len(),
{
    if ls.len() == 0 {
        seq![]
    } else {
        let w = words(ls.last(), true);
        if w.len() > 0 {
            mirror_lines(ls.drop_last()).push((w[0], w.drop_first()))
        } else {
            mirror_lines(ls.drop_last())
        }
    }
}

/// `category/package:flag - description` lines of `profiles/use.local.desc`:
/// the package name, the flag and the description (empty when there is no
/// ` - `); lines without `:` are skipped.
pub open spec fn local_desc_lines(ls: Seq<Seq<char>>) -> Seq<(Seq<char>, Seq<char>, Seq<char>)>
    decreases ls.len(),
{
    if ls.len() == 0 {
        seq![]
    } else {
        match split_once_spec(ls.last(), ":"@) {
            Some((c, rest)) => local_desc_lines(ls.drop_last()).push(
                match split_once_spec(rest, " - "@) {
                    Some((f, d)) => (c, f, d),
                    None => (c, rest, seq![]),
                },
            ),
            None => local_desc_lines(ls.drop_last()),
        }
    }
}

/// The stems of the names that end in `suffix`, leaving out stems that start
/// with a dot when `skip_dot` is set.
pub open spec fn stems(names: Seq<Seq<char>>, suffix: Seq<char>, skip_dot: bool) -> Seq<Seq<char>>
    decreases names.len(),
{
    if names.len() == 0 {
        seq![]
    } else {
        let n = names.last();
        let rest = stems(names.drop_last(), suffix, skip_dot);
        if has_suffix(n, suffix) {
            let st = n.take(n.len() - suffix.len());
            if skip_dot && st.len() > 0 && st[0] == '.' {
                rest
            } else {
                rest.push(st)
            }
        } else {
            rest
        }
    }
}

/// The names that neither start with a dot nor are `CVS`.
pub open spec fn visible_names(names: Seq<Seq<char>>, skip_cvs: bool) -> Seq<Seq<char>>
    decreases names.len(),
{
    if names.len() == 0 {
        seq![]
    } else {
        let n = names.last();
        let rest = visible_names(names.drop_last(), skip_cvs);
        if (n.len() > 0 && n[0] == '.') || (skip_cvs && n == "CVS"@) {
            rest
        } else {
            rest.push(n)
        }
    }
}

fn copy_words(ws: &Vec<Vec<char>>, from: usize) -> (r: Vec<String>)
    requires
        from <= ws@.len(),
    ensures
        strings_view(r@) == Seq::new(ws@.len(), |i: int| ws@[i]@).skip(from as int),
{
    let mut r: Vec<String> = Vec::new();
    let mut j = from;
    while j < ws.len()
        invariant
            from <= j <= ws@.len(),
            r@.len() == j - from,
            forall|q: int| 0 <= q < j - from ==> #[trigger] r@[q]@ == ws@[q + from]@,
        decreases ws@.len() - j,
    {
        r.push(string_of(ws[j].as_slice()));
        j += 1;
    }
    assert(strings_view(r@) =~= Seq::new(ws@.len(), |i: int| ws@[i]@).skip(from as int));
    r
}

/// The stems of the names that end in `suffix`, sorted.
fn sorted_stems(names: &Vec<String>, suffix: &str, skip_dot: bool) -> (r: Vec<String>)
    ensures
        sorted_names(strings_view(r@)),
        strings_view(r@).to_multiset() == stems(strings_view(names@), suffix@, skip_dot).to_multiset(),
{
    let sv = chars_of(suffix);
    let mut out: Vec<String> = Vec::new();
    let mut i: usize = 0;
    while i < names.len()
        invariant
            i <= names@.len(),
            sv@ == suffix@,
            strings_view(out@) == stems(strings_view(names@).take(i as int), suffix@, skip_dot),
        decreases names@.len() - i,
    {
        assert(strings_view(names@).take(i + 1).drop_last() =~= strings_view(names@).take(i as int));
        let n = chars_of(names[i].as_str());
        if crate::text::ends_with(n.as_slice(), sv.as_slice()) {
            let st = slice_range(n.as_slice(), 0, n.len() - sv.len());
            if !(skip_dot && st.len() > 0 && st[0] == '.') {
                let ghost before = strings_view(out@);
                out.push(string_of(st.as_slice()));
                assert(strings_view(out@) =~= before.push(st@));
            }
        }
        i += 1;
    }
    assert(strings_view(names@).take(i as int) =~= strings_view(names@));
    sort_names(out)
}

/// `flag - description` pairs of a file.
fn parse_desc_file(file: Option<&str>) -> (r: Vec<(String, String)>)
    ensures
        r@.len() == desc_pairs(file_lines(opt_view(file))).len(),
        forall|k: int|
            0 <= k < r@.len() ==> (#[trigger] r@[k].0@, r@[k].1@) == desc_pairs(
                file_lines(opt_view(file)),
            )[k],
{
    let ls = file_line_chars(file);
    let ghost fl = file_lines(opt_view(file));
    let pat = chars_of(" - ");
    proof {
        reveal_strlit(" - ");
    }
    let mut out: Vec<(String, String)> = Vec::new();
    let mut i: usize = 0;
    while i < ls.len()
        invariant
            i <= ls@.len(),
            pat@ == " - "@,
            pat@.len() == 3,
            Seq::new(ls@.len(), |k: int| ls@[k]@) == fl,
            out@.len() == desc_pairs(fl.take(i as int)).len(),
            forall|k: int|
                0 <= k < out@.len() ==> (#[trigger] out@[k].0@, out@[k].1@) == desc_pairs(
                    fl.take(i as int),
                )[k],
        decreases ls@.len() - i,
    {
        assert(fl.take(i + 1).drop_last() =~= fl.take(i as int));
        assert(fl.take(i + 1).last() == ls@[i as int]@);
        match split_once(ls[i].as_slice(), pat.as_slice()) {
            Some((a, b)) => {
                out.push((string_of(a.as_slice()), string_of(b.as_slice())));
            },
            None => {},
        }
        i += 1;
    }
    assert(fl.take(i as int) =~= fl);
    out
}

/// A repository's root path joined with `sub` and then `name`.
fn sub_path(root: &str, sub: &str, name: &str) -> (r: String)
    ensures
        r@ == join_path(join_path(root@, sub@), name@),
{
    let d = join(root, sub);
    join(d.as_str(), name)
}

/// `Path::file_name`, as text: the last component of a path, or `None` when
/// the path ends in `..` or is a root or empty.
pub uninterp spec fn path_file_name(p: Seq<char>) -> Option<Seq<char>>;

/// Calls `std::path::Path::file_name` and copies the name out (lossless for a
/// path given as `&str`). Its result is named by [`path_file_name`].
#[verifier::external_body]
fn file_name_of(p: &str) -> (r: Option<String>)
    ensures
        match path_file_name(p@) {
            Some(n) => r is Some && r->0@ == n,
            None => r is None,
        },
{
    match std::path::Path::new(p).file_name() {
        Some(n) => Some(n.to_string_lossy().into_owned()),
        None => None,
    }
}

/// A Gentoo ebuild repository.
///
/// Holds the repository path, the parsed `metadata/layout.conf` and the
/// repository name. Reading files is left to the caller, which hands their
/// text (or `None` for an absent file) to the methods here.
#[derive(Debug, Clone)]
pub struct Repository {
    path: String,
    layout: LayoutConf,
    name: String,
}

/// The name of a repository: the first line of `profiles/repo_name`, or the
/// last component of its path, or the empty name.
pub open spec fn repo_name_spec(path: Seq<char>, repo_name: Option<Seq<char>>) -> Seq<char> {
    match first_line(repo_name) {
        Some(n) => n,
        None => match path_file_name(path) {
            Some(n) => n,
            None => seq![],
        },
    }
}

impl Repository {
    pub closed spec fn spec_path(&self) -> Seq<char> {
        self.path@
    }

    pub closed spec fn spec_name(&self) -> Seq<char> {
        self.name@
    }

    pub closed spec fn spec_masters(&self) -> Seq<Seq<char>> {
        strings_view(self.layout.masters@)
    }

    /// The path of a file under `profiles/`.
    pub open spec fn spec_profiles_file(&self, name: Seq<char>) -> Seq<char> {
        join_path(join_path(self.spec_path(), "profiles"@), name)
    }

    /// Open an ebuild repository at `path`, given whether that path is a
    /// directory, the text of `metadata/layout.conf` and that of
    /// `profiles/repo_name` (`None` for an absent file).
    pub fn open(path: &str, is_dir: bool, layout_conf: Option<&str>, repo_name: Option<&str>) -> (r:
        Result<Repository, RepoError>)
        ensures
            !is_dir ==> (r matches Err(RepoError::InvalidRepository(p)) && p@ == path@),
            is_dir && layout_conf is None ==> (r matches Err(RepoError::MissingLayout(p)) && p@
                == join_path(join_path(path@, "metadata"@), "layout.conf"@)),
            is_dir && layout_conf is Some ==> r is Ok && r->Ok_0.spec_path() == path@
                && r->Ok_0.spec_masters() == layout_masters(file_lines(opt_view(layout_conf)))
                && r->Ok_0.spec_name() == repo_name_spec(path@, opt_view(repo_name)),
    {
        if !is_dir {
            return Err(RepoError::InvalidRepository(path.to_owned()));
        }
        let layout = match layout_conf {
            Some(text) => LayoutConf::parse(text),
            None => {
                return Err(RepoError::MissingLayout(sub_path(path, "metadata", "layout.conf")));
            },
        };
        let name = match first_line_of(repo_name) {
            Some(n) => n,
            None => match file_name_of(path) {
                Some(n) => n,
                None => String::new(),
            },
        };
        Ok(Repository { path: path.to_owned(), layout, name })
    }

    /// Absolute path to the repository root.
    pub fn path(&self) -> (r: &str)
        ensures
            r@ == self.spec_path(),
    {
        self.path.as_str()
    }

    /// Repository name (from `profiles/repo_name`).
    pub fn name(&self) -> (r: &str)
        ensures
            r@ == self.spec_name(),
    {
        self.name.as_str()
    }

    /// The parsed `metadata/layout.conf`.
    pub fn layout(&self) -> (r: &LayoutConf)
        ensures
            strings_view(r.masters@) == self.spec_masters(),
    {
        &self.layout
    }

    /// The path of a file under `profiles/` (e.g. `categories`).
    pub fn profiles_file(&self, name: &str) -> (r: String)
        ensures
            r@ == self.spec_profiles_file(name@),
    {
        sub_path(self.path.as_str(), "profiles", name)
    }

    /// The path of a file or directory under the repository root.
    pub fn repo_file(&self, name: &str) -> (r: String)
        ensures
            r@ == join_path(self.spec_path(), name@),
    {
        join(self.path.as_str(), name)
    }

    /// The categories declared in `profiles/categories`, given its text.
    pub fn categories(&self, categories_file: Option<&str>) -> (r: Vec<Category>)
        ensures
            r@.len() == file_lines(opt_view(categories_file)).len(),
            forall|k: int|
                #![trigger r@[k]]
                0 <= k < r@.len() ==> r@[k].spec_name() == file_lines(opt_view(categories_file))[k]
                    && r@[k].spec_path() == join_path(
                    self.spec_path(),
                    file_lines(opt_view(categories_file))[k],
                ),
    {
        let ls = file_lines_of(categories_file);
        let mut r: Vec<Category> = Vec::new();
        let mut i: usize = 0;
        while i < ls.len()
            invariant
                i <= ls@.len(),
                strings_view(ls@) == file_lines(opt_view(categories_file)),
                r@.len() == i,
                forall|k: int|
                    #![trigger r@[k]]
                    0 <= k < i ==> r@[k].spec_name() == ls@[k]@ && r@[k].spec_path() == join_path(
                        self.spec_path(),
                        ls@[k]@,
                    ),
            decreases ls@.len() - i,
        {
            let p = join(self.path.as_str(), ls[i].as_str());
            r.push(Category::new(ls[i].clone(), p));
            i += 1;
        }
        r
    }

    /// Look up a single category by name; `is_dir` tells whether its
    /// directory (`self.path()/name`) exists.
    pub fn category(&self, name: &str, is_dir: bool) -> (r: Option<Category>)
        ensures
            is_dir ==> r is Some && r->0.spec_name() == name@ && r->0.spec_path() == join_path(
                self.spec_path(),
                name@,
            ),
            !is_dir ==> r is None,
    {
        if is_dir {
            Some(Category::new(name.to_owned(), join(self.path.as_str(), name)))
        } else {
            None
        }
    }

    /// The profile descriptions of `profiles/profiles.desc`, given its text;
    /// the first malformed line is reported.
    pub fn profiles_desc(&self, file: Option<&str>) -> (r: Result<Vec<ProfileDesc>, RepoError>)
        ensures
            ({
                let fl = file_lines(opt_view(file));
                &&& r is Ok <==> forall|k: int|
                    0 <= k < fl.len() ==> #[trigger] profile_desc_spec(fl[k]) is Ok
                &&& r is Ok ==> r->Ok_0@.len() == fl.len() && forall|k: int|
                    #![trigger r->Ok_0@[k]]
                    0 <= k < fl.len() ==> profile_desc_spec(fl[k]) == Ok::<
                        (Seq<char>, Seq<char>, StatusModel),
                        Seq<char>,
                    >((r->Ok_0@[k].arch@, r->Ok_0@[k].path@, r->Ok_0@[k].status@))
                &&& r is Err ==> exists|k: int|
                    0 <= k < fl.len() && #[trigger] profile_desc_spec(fl[k]) is Err && (forall|j: int|
                        0 <= j < k ==> #[trigger] profile_desc_spec(fl[j]) is Ok) && (r matches Err(
                        RepoError::InvalidProfile(m),
                    ) && profile_desc_spec(fl[k]) == Err::<
                        (Seq<char>, Seq<char>, StatusModel),
                        Seq<char>,
                    >(m@))
            }),
    {
        let ls = file_lines_of(file);
        let ghost fl = file_lines(opt_view(file));
        let mut out: Vec<ProfileDesc> = Vec::new();
        let mut i: usize = 0;
        while i < ls.len()
            invariant
                i <= ls@.len(),
                strings_view(ls@) == fl,
                fl == file_lines(opt_view(file)),
                out@.len() == i,
                forall|k: int| 0 <= k < i ==> #[trigger] profile_desc_spec(fl[k]) is Ok,
                forall|k: int|
                    #![trigger out@[k]]
                    0 <= k < i ==> profile_desc_spec(fl[k]) == Ok::<
                        (Seq<char>, Seq<char>, StatusModel),
                        Seq<char>,
                    >((out@[k].arch@, out@[k].path@, out@[k].status@)),
            decreases ls@.len() - i,
        {
            assert(fl[i as int] == ls@[i as int]@);
            match ProfileDesc::parse(ls[i].as_str()) {
                Ok(d) => out.push(d),
                Err(e) => {
                    return Err(e);
                },
            }
            i += 1;
        }
        Ok(out)
    }

    /// The default EAPI for profiles, from `profiles/eapi` (given its text);
    /// `None` when the file is absent.
    pub fn profiles_eapi(&self, file: Option<&str>) -> (r: Result<Option<Eapi>, RepoError>)
        ensures
            match first_line(opt_view(file)) {
                None => r matches Ok(None),
                Some(s) => match eapi_named(s) {
                    Some(e) => r matches Ok(Some(x)) && x == e,
                    None => r matches Err(RepoError::InvalidProfile(m)) && m@
                        == "bad EAPI in profiles/eapi: invalid EAPI: "@ + s,
                },
            },
    {
        match first_line_of(file) {
            None => Ok(None),
            Some(s) => match Eapi::parse(s.as_str()) {
                Some(e) => Ok(Some(e)),
                None => {
                    let mut m = String::new();
                    push_str(&mut m, "bad EAPI in profiles/eapi: invalid EAPI: ");
                    push_str(&mut m, s.as_str());
                    Err(RepoError::InvalidProfile(m))
                },
            },
        }
    }

    /// The repository-level `profiles/package.mask`, given its text.
    pub fn repo_package_mask(&self, file: Option<&str>) -> (r: Result<Vec<Atom>, RepoError>)
        ensures
            r is Ok <==> forall|k: int|
                0 <= k < file_lines(opt_view(file)).len() ==> dep_parses(
                    #[trigger] file_lines(opt_view(file))[k],
                ),
            r is Ok ==> r->Ok_0@.len() == file_lines(opt_view(file)).len() && forall|k: int|
                0 <= k < r->Ok_0@.len() ==> dep_text(file_lines(opt_view(file))[k]) == Some(
                    #[trigger] r->Ok_0@[k]@,
                ),
    {
        parse_atom_list(file)
    }

    /// The USE_EXPAND names of `profiles/desc/`, given the names of its
    /// entries: the stems of the `.desc` files that do not start with a dot,
    /// sorted.
    pub fn use_expand_names(&self, entries: &Vec<String>) -> (r: Vec<String>)
        ensures
            sorted_names(strings_view(r@)),
            strings_view(r@).to_multiset() == stems(strings_view(entries@), ".desc"@, true).to_multiset(),
    {
        sorted_stems(entries, ".desc", true)
    }

    /// The path of `profiles/desc/{name}.desc`.
    pub fn use_expand_desc_path(&self, name: &str) -> (r: String)
        ensures
            r@ == join_path(
                join_path(join_path(self.spec_path(), "profiles"@), "desc"@),
                name@ + ".desc"@,
            ),
    {
        let d = sub_path(self.path.as_str(), "profiles", "desc");
        let mut f = name.to_owned();
        push_str(&mut f, ".desc");
        join(d.as_str(), f.as_str())
    }

    /// The USE_EXPAND flag descriptions of a `profiles/desc/*.desc` file,
    /// given its text: `(flag, description)` pairs.
    pub fn use_expand_desc(&self, file: Option<&str>) -> (r: Vec<(String, String)>)
        ensures
            r@.len() == desc_pairs(file_lines(opt_view(file))).len(),
            forall|k: int|
                0 <= k < r@.len() ==> (#[trigger] r@[k].0@, r@[k].1@) == desc_pairs(
                    file_lines(opt_view(file)),
                )[k],
    {
        parse_desc_file(file)
    }

    /// The files of `profiles/updates/` to read, given the names of its
    /// entries: those that do not start with a dot, sorted.
    pub fn profile_update_files(&self, entries: &Vec<String>) -> (r: Vec<String>)
        ensures
            sorted_names(strings_view(r@)),
            strings_view(r@).to_multiset() == visible_names(strings_view(entries@), false).to_multiset(),
    {
        visible_sorted(entries, false)
    }

    /// The package moves and slot moves of the update files, given their texts
    /// in reading order. Lines with unknown tags or unparsable names are
    /// skipped.
    pub fn profile_updates(&self, files: &Vec<String>) -> (r: Vec<ProfileUpdate>)
        ensures
            Seq::new(r@.len(), |i: int| r@[i]@) == updates_of(all_lines(strings_view(files@))),
    {
        let mut out: Vec<ProfileUpdate> = Vec::new();
        let mut f: usize = 0;
        while f < files.len()
            invariant
                f <= files@.len(),
                Seq::new(out@.len(), |i: int| out@[i]@) == updates_of(
                    all_lines(strings_view(files@).take(f as int)),
                ),
            decreases files@.len() - f,
        {
            let ghost before_lines = all_lines(strings_view(files@).take(f as int));
            assert(strings_view(files@).take(f + 1).drop_last() =~= strings_view(files@).take(f as int));
            let ls = file_line_chars(Some(files[f].as_str()));
            let ghost fl = file_lines(Some(files@[f as int]@));
            let mut i: usize = 0;
            assert(fl.take(0) =~= Seq::<Seq<char>>::empty());
            assert(before_lines + fl.take(0) =~= before_lines);
            while i < ls.len()
                invariant
                    i <= ls@.len(),
                    Seq::new(ls@.len(), |k: int| ls@[k]@) == fl,
                    Seq::new(out@.len(), |k: int| out@[k]@) == updates_of(before_lines + fl.take(i as int)),
                decreases ls@.len() - i,
            {
                let ghost pre = before_lines + fl.take(i as int);
                assert((before_lines + fl.take(i + 1)).drop_last() =~= pre);
                assert((before_lines + fl.take(i + 1)).last() == ls@[i as int]@);
                let ghost old_out = Seq::new(out@.len(), |k: int| out@[k]@);
                match parse_update_line(ls[i].as_slice()) {
                    Some(u) => {
                        out.push(u);
                        assert(Seq::new(out@.len(), |k: int| out@[k]@) =~= old_out.push(out@[out@.len() - 1]@));
                    },
                    None => {},
                }
                i += 1;
            }
            assert(fl.take(i as int) =~= fl);
            assert(all_lines(strings_view(files@).take(f + 1)) == before_lines + fl);
            f += 1;
        }
        assert(strings_view(files@).take(f as int) =~= strings_view(files@));
        out
    }

    /// The path of a profile directory relative to `profiles/`.
    pub fn profile_path(&self, relative_path: &str) -> (r: String)
        ensures
            r@ == self.spec_profiles_file(relative_path@),
    {
        sub_path(self.path.as_str(), "profiles", relative_path)
    }

    /// Open a profile directory relative to `profiles/`, given the text of its
    /// `eapi` file.
    pub fn profile(&self, relative_path: &str, eapi_file: Option<&str>) -> (r: Result<
        Profile,
        RepoError,
    >)
        ensures
            match crate::profile::profile_eapi_spec(opt_view(eapi_file)) {
                Ok(e) => r is Ok && r->Ok_0.spec_path() == self.spec_profiles_file(relative_path@)
                    && r->Ok_0.spec_eapi() == e,
                Err(m) => r matches Err(RepoError::InvalidProfile(msg)) && msg@ == m,
            },
    {
        Profile::open(self.profile_path(relative_path), eapi_file)
    }

    /// The eclass names, given the entries of `eclass/`: the stems of the
    /// `.eclass` files, sorted.
    pub fn eclasses(&self, entries: &Vec<String>) -> (r: Vec<String>)
        ensures
            sorted_names(strings_view(r@)),
            strings_view(r@).to_multiset() == stems(strings_view(entries@), ".eclass"@, false).to_multiset(),
    {
        sorted_stems(entries, ".eclass", false)
    }

    /// The license names, given the entries of `licenses/`: dotfiles and `CVS`
    /// left out, sorted.
    pub fn licenses(&self, entries: &Vec<String>) -> (r: Vec<String>)
        ensures
            sorted_names(strings_view(r@)),
            strings_view(r@).to_multiset() == visible_names(strings_view(entries@), true).to_multiset(),
    {
        visible_sorted(entries, true)
    }

    /// The architecture keywords of `profiles/arch.list`, given its text.
    pub fn arch_list(&self, file: Option<&str>) -> (r: Vec<String>)
        ensures
            strings_view(r@) == file_lines(opt_view(file)),
    {
        file_lines_of(file)
    }

    /// The global USE flag descriptions of `profiles/use.desc`, given its
    /// text: `(flag, description)` pairs.
    pub fn use_desc(&self, file: Option<&str>) -> (r: Vec<(String, String)>)
        ensures
            r@.len() == desc_pairs(file_lines(opt_view(file))).len(),
            forall|k: int|
                0 <= k < r@.len() ==> (#[trigger] r@[k].0@, r@[k].1@) == desc_pairs(
                    file_lines(opt_view(file)),
                )[k],
    {
        parse_desc_file(file)
    }

    /// The per-package USE flag descriptions of `profiles/use.local.desc`,
    /// given its text: `(package, flag, description)`; a package name that does
    /// not parse is an error.
    pub fn use_local_desc(&self, file: Option<&str>) -> (r: Result<
        Vec<(Cpn, String, String)>,
        RepoError,
    >)
        ensures
            ({
                let ld = local_desc_lines(file_lines(opt_view(file)));
                &&& r is Ok <==> forall|k: int| 0 <= k < ld.len() ==> #[trigger] cpn_split(ld[k].0) is Some
                &&& r is Ok ==> r->Ok_0@.len() == ld.len() && forall|k: int|
                    #![trigger r->Ok_0@[k]]
                    0 <= k < ld.len() ==> cpn_split(ld[k].0) == Some(
                        (r->Ok_0@[k].0.category@, r->Ok_0@[k].0.package@),
                    ) && r->Ok_0@[k].1@ == ld[k].1 && r->Ok_0@[k].2@ == ld[k].2
                &&& r is Err ==> r->Err_0 is Atom
            }),
    {
        let ls = file_line_chars(file);
        let ghost fl = file_lines(opt_view(file));
        let colon = chars_of(":");
        let dash = chars_of(" - ");
        proof {
            reveal_strlit(":");
            reveal_strlit(" - ");
        }
        let mut out: Vec<(Cpn, String, String)> = Vec::new();
        let mut i: usize = 0;
        while i < ls.len()
            invariant
                i <= ls@.len(),
                colon@ == ":"@,
                colon@.len() == 1,
                dash@ == " - "@,
                dash@.len() == 3,
                Seq::new(ls@.len(), |k: int| ls@[k]@) == fl,
                fl == file_lines(opt_view(file)),
                ({
                    let ld = local_desc_lines(fl.take(i as int));
                    &&& out@.len() == ld.len()
                    &&& forall|k: int|
                        #![trigger out@[k]]
                        0 <= k < ld.len() ==> cpn_split(ld[k].0) == Some(
                            (out@[k].0.category@, out@[k].0.package@),
                        ) && out@[k].1@ == ld[k].1 && out@[k].2@ == ld[k].2
                }),
            decreases ls@.len() - i,
        {
            assert(fl.take(i + 1).drop_last() =~= fl.take(i as int));
            assert(fl.take(i + 1).last() == ls@[i as int]@);
            match split_once(ls[i].as_slice(), colon.as_slice()) {
                None => {},
                Some((c, rest)) => {
                    let cs = string_of(c.as_slice());
                    match parse_cpn(cs.as_str()) {
                        Err(e) => {
                            proof {
                                let ld = local_desc_lines(fl.take(i + 1));
                                lemma_local_desc_prefix(fl, i + 1);
                                assert(ld[ld.len() - 1].0 == c@);
                                assert(local_desc_lines(fl)[ld.len() - 1] == ld[ld.len() - 1]);
                            }
                            return Err(RepoError::Atom(e));
                        },
                        Ok(cpn) => {
                            let (flag, desc) = match split_once(rest.as_slice(), dash.as_slice()) {
                                Some((f, d)) => (string_of(f.as_slice()), string_of(d.as_slice())),
                                None => (string_of(rest.as_slice()), String::new()),
                            };
                            out.push((cpn, flag, desc));
                        },
                    }
                },
            }
            i += 1;
        }
        assert(fl.take(i as int) =~= fl);
        proof {
            let ld = local_desc_lines(fl);
            assert forall|k: int| 0 <= k < ld.len() implies #[trigger] cpn_split(ld[k].0) is Some by {
                assert(cpn_split(ld[k].0) == Some((out@[k].0.category@, out@[k].0.package@)));
            }
        }
        Ok(out)
    }

    /// The mirrors of `profiles/thirdpartymirrors`, given its text:
    /// `(mirror_name, [urls...])` pairs.
    pub fn thirdpartymirrors(&self, file: Option<&str>) -> (r: Vec<(String, Vec<String>)>)
        ensures
            r@.len() == mirror_lines(file_lines(opt_view(file))).len(),
            forall|k: int|
                #![trigger r@[k]]
                0 <= k < r@.len() ==> r@[k].0@ == mirror_lines(file_lines(opt_view(file)))[k].0
                    && strings_view(r@[k].1@) == mirror_lines(file_lines(opt_view(file)))[k].1,
    {
        let ls = file_line_chars(file);
        let ghost fl = file_lines(opt_view(file));
        let mut out: Vec<(String, Vec<String>)> = Vec::new();
        let mut i: usize = 0;
        while i < ls.len()
            invariant
                i <= ls@.len(),
                Seq::new(ls@.len(), |k: int| ls@[k]@) == fl,
                out@.len() == mirror_lines(fl.take(i as int)).len(),
                forall|k: int|
                    #![trigger out@[k]]
                    0 <= k < out@.len() ==> out@[k].0@ == mirror_lines(fl.take(i as int))[k].0
                        && strings_view(out@[k].1@) == mirror_lines(fl.take(i as int))[k].1,
            decreases ls@.len() - i,
        {
            assert(fl.take(i + 1).drop_last() =~= fl.take(i as int));
            assert(fl.take(i + 1).last() == ls@[i as int]@);
            let ws = split_words(ls[i].as_slice(), true);
            if ws.len() > 0 {
                let urls = copy_words(&ws, 1);
                proof {
                    let w = words(ls@[i as int]@, true);
                    assert(Seq::new(ws@.len(), |q: int| ws@[q]@) =~= w);
                    assert(w.skip(1) =~= w.drop_first());
                }
                out.push((string_of(ws[0].as_slice()), urls));
            }
            i += 1;
        }
        assert(fl.take(i as int) =~= fl);
        out
    }

    /// Start resolving the master repositories, to be opened from
    /// `repos_dir/<master_name>`.
    pub fn open_with_masters(self, repos_dir: &str) -> (r: MasterResolver)
        ensures
            r.wf(),
            r.spec_root().spec_name() == self.spec_name(),
            r.spec_repos_dir() == repos_dir@,
    {
        let walk = crate::walk::PostOrderWalk::new(
            self.name.as_str(),
            copy_masters(&self.layout.masters),
            false,
        );
        let r = MasterResolver {
            root: self,
            repos_dir: repos_dir.to_owned(),
            walk,
            names: Vec::new(),
            opened: Vec::new(),
            done: false,
        };
        proof {
            assert(r.walk.model().seen.drop_first() =~= Seq::<Seq<char>>::empty());
            assert(strings_view(r.names@) =~= Seq::<Seq<char>>::empty());
        }
        r
    }
}

fn copy_masters(v: &Vec<String>) -> (r: Vec<String>)
    ensures
        strings_view(r@) == strings_view(v@),
{
    let mut r: Vec<String> = Vec::new();
    let mut i: usize = 0;
    while i < v.len()
        invariant
            i <= v@.len(),
            r@.len() == i,
            forall|k: int| 0 <= k < i ==> #[trigger] r@[k]@ == v@[k]@,
        decreases v@.len() - i,
    {
        r.push(v[i].clone());
        i += 1;
    }
    assert(strings_view(r@) =~= strings_view(v@));
    r
}

proof fn lemma_local_desc_prefix(ls: Seq<Seq<char>>, n: int)
    requires
        0 <= n <= ls.len(),
    ensures
        local_desc_lines(ls.take(n)).len() <= local_desc_lines(ls).len(),
        forall|k: int|
            0 <= k < local_desc_lines(ls.take(n)).len() ==> #[trigger] local_desc_lines(ls.take(n))[k]
                == local_desc_lines(ls)[k],
    decreases ls.len() - n,
{
    if n < ls.len() {
        assert(ls.take(n + 1).drop_last() =~= ls.take(n));
        lemma_local_desc_prefix(ls, n + 1);
        let a = local_desc_lines(ls.take(n));
        let b = local_desc_lines(ls.take(n + 1));
        assert forall|k: int| 0 <= k < a.len() implies #[trigger] a[k] == local_desc_lines(ls)[k] by {
            assert(a[k] == b[k]);
        }
    } else {
        assert(ls.take(n) =~= ls);
    }
}

/// The names that are neither dotfiles nor (when `skip_cvs`) `CVS`, sorted.
fn visible_sorted(names: &Vec<String>, skip_cvs: bool) -> (r: Vec<String>)
    ensures
        sorted_names(strings_view(r@)),
        strings_view(r@).to_multiset() == visible_names(strings_view(names@), skip_cvs).to_multiset(),
{
    let mut out: Vec<String> = Vec::new();
    let mut i: usize = 0;
    while i < names.len()
        invariant
            i <= names@.len(),
            strings_view(out@) == visible_names(strings_view(names@).take(i as int), skip_cvs),
        decreases names@.len() - i,
    {
        assert(strings_view(names@).take(i + 1).drop_last() =~= strings_view(names@).take(i as int));
        let n = chars_of(names[i].as_str());
        if !((n.len() > 0 && n[0] == '.') || (skip_cvs && eq_str(n.as_slice(), "CVS"))) {
            let ghost before = strings_view(out@);
            out.push(names[i].clone());
            assert(strings_view(out@) =~= before.push(n@));
        }
        i += 1;
    }
    assert(strings_view(names@).take(i as int) =~= strings_view(names@));
    sort_names(out)
}

/// One line of an update file.
fn parse_update_line(line: &[char]) -> (r: Option<ProfileUpdate>)
    ensures
        match update_of(line@) {
            Some(u) => r is Some && r->0@ == u,
            None => r is None,
        },
{
    let ws = split_words(line, true);
    let ghost w = words(line@, true);
    assert(Seq::new(ws@.len(), |q: int| ws@[q]@) =~= w);
    if ws.len() >= 3 && eq_str(ws[0].as_slice(), "move") {
        let a = string_of(ws[1].as_slice());
        let b = string_of(ws[2].as_slice());
        match (parse_cpn(a.as_str()), parse_cpn(b.as_str())) {
            (Ok(old), Ok(new)) => Some(ProfileUpdate::Move { old, new }),
            _ => None,
        }
    } else if ws.len() >= 4 && eq_str(ws[0].as_slice(), "slotmove") {
        let d = string_of(ws[1].as_slice());
        match parse_dep(d.as_str()) {
            Ok(dep) => Some(
                ProfileUpdate::SlotMove {
                    dep,
                    old_slot: string_of(ws[2].as_slice()),
                    new_slot: string_of(ws[3].as_slice()),
                },
            ),
            Err(_) => None,
        }
    } else {
        proof {
            reveal_strlit("move");
            reveal_strlit("slotmove");
        }
        None
    }
}

/// The next thing to do while resolving master repositories.
pub enum MasterStep {
    /// Open the repository at this path and pass it to
    /// [`MasterResolver::step`].
    Open(String),
    /// All masters are resolved; [`MasterResolver::finish`] gives them.
    Done,
}

/// Resolution of a repository's masters, depth-first, opening each master at
/// most once (so cycles end), every master after its own masters.
pub struct MasterResolver {
    root: Repository,
    repos_dir: String,
    walk: crate::walk::PostOrderWalk,
    names: Vec<String>,
    opened: Vec<Repository>,
    done: bool,
}

impl MasterResolver {
    pub closed spec fn spec_root(&self) -> Repository {
        self.root
    }

    pub closed spec fn spec_repos_dir(&self) -> Seq<char> {
        self.repos_dir@
    }

    /// The walk over master names.
    pub closed spec fn spec_walk(&self) -> crate::walk::WalkModel {
        self.walk.model()
    }

    pub closed spec fn spec_done(&self) -> bool {
        self.done
    }

    /// The path the resolver is waiting for, if any.
    pub open spec fn spec_pending(&self) -> Option<Seq<char>> {
        match self.spec_walk().pending {
            Some(n) => Some(join_path(self.spec_repos_dir(), n)),
            None => None,
        }
    }

    pub closed spec fn wf(&self) -> bool {
        let m = self.walk.model();
        &&& self.walk.wf()
        &&& m.root == self.root.name@
        &&& !m.include_root
        &&& self.done == self.walk.spec_done()
        &&& m.graph[m.root] == self.root.spec_masters()
        &&& m.pending is Some ==> m.pending == Some(m.seen.last())
        &&& strings_view(self.names@) == (if m.pending is Some {
            m.seen.drop_first().drop_last()
        } else {
            m.seen.drop_first()
        })
        &&& self.opened@.len() == self.names@.len()
        &&& forall|k: int|
            #![trigger self.opened@[k]]
            0 <= k < self.opened@.len() ==> self.opened@[k].spec_path() == join_path(
                self.repos_dir@,
                self.names@[k]@,
            ) && m.graph.contains_key(self.names@[k]@) && m.graph[self.names@[k]@]
                == self.opened@[k].spec_masters()
    }

    /// Take the next step. `opened` is the repository opened at the path that
    /// the previous step asked for (`None` on the first step).
    pub fn step(&mut self, opened: Option<Repository>) -> (r: MasterStep)
        requires
            old(self).wf(),
            !old(self).spec_done(),
            old(self).spec_pending() is Some <==> opened is Some,
            opened matches Some(o) ==> Some(o.spec_path()) == old(self).spec_pending(),
        ensures
            final(self).wf(),
            final(self).spec_root() == old(self).spec_root(),
            final(self).spec_repos_dir() == old(self).spec_repos_dir(),
            match r {
                MasterStep::Open(p) => final(self).spec_pending() == Some(p@) && !final(self).spec_done()
                    && !old(self).spec_walk().seen.contains(final(self).spec_walk().pending->0),
                MasterStep::Done => final(self).spec_done(),
            },
            // depth-first: the walk goes on from the master just opened,
            // taking its masters in the order listed
            final(self).spec_walk() == crate::walk::settle(
                if opened is Some {
                    crate::walk::opened_state(old(self).spec_walk(), opened->0.spec_masters())
                } else {
                    old(self).spec_walk()
                },
            ).0,
    {
        let ghost m0 = self.walk.model();
        let ghost old_names = strings_view(self.names@);
        let ghost old_opened = self.opened@;
        let children = match opened {
            Some(repo) => {
                let ms = copy_masters(&repo.layout.masters);
                let ghost nm = m0.pending->0;
                let n = self.walk_pending_name();
                self.names.push(n);
                self.opened.push(repo);
                proof {
                    assert(strings_view(self.names@) =~= old_names.push(nm));
                    assert(m0.seen.drop_first() =~= m0.seen.drop_first().drop_last().push(m0.seen.last()));
                    assert(strings_view(self.names@) =~= m0.seen.drop_first());
                }
                Some(ms)
            },
            None => None,
        };
        let ghost m1 = self.walk.model();
        let step = self.walk.advance(children);
        proof {
            let m2 = self.walk.model();
            assert forall|k: int|
                #![trigger self.opened@[k]]
                0 <= k < self.opened@.len() implies self.opened@[k].spec_path() == join_path(
                    self.repos_dir@,
                    self.names@[k]@,
                ) && m2.graph.contains_key(self.names@[k]@) && m2.graph[self.names@[k]@]
                    == self.opened@[k].spec_masters() by {
                if k < old_opened.len() {
                    assert(old_opened[k] == self.opened@[k]);
                    assert(old_names[k] == self.names@[k]@);
                    assert(old_opened[k].spec_path() == join_path(self.repos_dir@, old_names[k]));
                    assert(m0.graph.contains_key(self.names@[k]@));
                    if m0.pending is Some {
                        assert(self.names@[k]@ != m0.pending->0) by {
                            assert(strings_view(self.names@)[k] == m0.seen.drop_first()[k]);
                            assert(m0.seen[k + 1] != m0.seen[m0.seen.len() - 1]);
                        }
                    }
                }
            }
        }
        match step {
            crate::walk::WalkStep::Open(n) => {
                proof {
                    let m2 = self.walk.model();
                    if m0.pending is Some {
                        assert(m2.seen.drop_first().drop_last() =~= m0.seen.drop_first());
                    } else {
                        assert(m2.seen.drop_first().drop_last() =~= m0.seen.drop_first());
                    }
                }
                MasterStep::Open(join(self.repos_dir.as_str(), n.as_str()))
            },
            crate::walk::WalkStep::Done => {
                self.done = true;
                MasterStep::Done
            },
        }
    }

    /// The name of the master the walk waits for.
    fn walk_pending_name(&self) -> (r: String)
        requires
            self.wf(),
            self.walk.model().pending is Some,
        ensures
            r@ == self.walk.model().pending->0,
    {
        self.walk.pending_name()
    }

    /// The repository and its masters in search order, once resolution is done.
    pub fn finish(self) -> (r: (Repository, Vec<Repository>))
        requires
            self.wf(),
            self.spec_done(),
        ensures
            r.0 == self.spec_root(),
            r.1@.len() == self.spec_walk().out.len(),
            forall|j: int|
                #![trigger r.1@[j]]
                0 <= j < r.1@.len() ==> r.1@[j].spec_path() == join_path(
                    self.spec_repos_dir(),
                    self.spec_walk().out[j],
                ) && r.1@[j].spec_masters() == self.spec_walk().graph[self.spec_walk().out[j]],
    {
        let ghost m = self.walk.model();
        let ghost repos_dir = self.repos_dir@;
        let out = self.walk.resolved();
        let MasterResolver { root, repos_dir: _, walk: _, names, opened, done: _ } = self;
        let ghost opened0 = opened@;
        let ghost nv = strings_view(names@);
        proof {
            assert(m.pending is None);
            assert(nv == m.seen.drop_first());
            assert(nv.no_duplicates()) by {
                assert forall|a: int, b: int| 0 <= a < b < nv.len() implies nv[a] != nv[b] by {
                    assert(nv[a] == m.seen[a + 1]);
                    assert(nv[b] == m.seen[b + 1]);
                }
            }
        }
        let mut opened = opened;
        let mut slots: Vec<Option<Repository>> = Vec::new();
        while opened.len() > 0
            invariant
                slots@.len() + opened@.len() == opened0.len(),
                forall|k: int| #![trigger slots@[k]] 0 <= k < slots@.len() ==> slots@[k] == Some(opened0[k]),
                forall|k: int| #![trigger opened@[k]] 0 <= k < opened@.len() ==> opened@[k] == opened0[k + slots@.len()],
            decreases opened@.len(),
        {
            let x = opened.remove(0);
            slots.push(Some(x));
        }
        let mut result: Vec<Repository> = Vec::new();
        let mut j: usize = 0;
        while j < out.len()
            invariant
                j <= out@.len(),
                strings_view(out@) == m.out,
                m.out.no_duplicates(),
                nv.no_duplicates(),
                nv == m.seen.drop_first(),
                names@.len() == slots@.len(),
                strings_view(names@) == nv,
                slots@.len() == opened0.len(),
                forall|n: Seq<char>| #[trigger] m.out.contains(n) ==> m.seen.contains(n) && n != m.seen[0],
                forall|k: int|
                    #![trigger slots@[k]]
                    0 <= k < slots@.len() ==> (slots@[k] is Some <==> !m.out.take(j as int).contains(nv[k]))
                        && (slots@[k] is Some ==> slots@[k] == Some(opened0[k])),
                forall|k: int|
                    #![trigger opened0[k]]
                    0 <= k < opened0.len() ==> opened0[k].spec_path() == join_path(repos_dir, nv[k])
                        && m.graph[nv[k]] == opened0[k].spec_masters(),
                result@.len() == j,
                forall|i: int|
                    #![trigger result@[i]]
                    0 <= i < j ==> result@[i].spec_path() == join_path(repos_dir, m.out[i])
                        && result@[i].spec_masters() == m.graph[m.out[i]],
            decreases out@.len() - j,
        {
            let target = chars_of(out[j].as_str());
            let ghost t = m.out[j as int];
            proof {
                assert(m.out.contains(t));
                assert(m.seen.contains(t));
                let q = choose|q: int| 0 <= q < m.seen.len() && m.seen[q] == t;
                assert(q != 0);
                assert(nv[q - 1] == t);
            }
            let mut k: usize = 0;
            while k < names.len() && !eq_str(target.as_slice(), names[k].as_str())
                invariant
                    k <= names@.len(),
                    target@ == t,
                    strings_view(names@) == nv,
                    exists|q: int| k <= q < nv.len() && nv[q] == t,
                decreases names@.len() - k,
            {
                proof {
                    assert(nv[k as int] == names@[k as int]@);
                    let q = choose|q: int| k <= q < nv.len() && nv[q] == t;
                    assert(q != k);
                }
                k += 1;
            }
            proof {
                if k == names.len() {
                    let q = choose|q: int| k <= q < nv.len() && nv[q] == t;
                }
                assert(nv[k as int] == t);
                assert(!m.out.take(j as int).contains(t)) by {
                    if m.out.take(j as int).contains(t) {
                        let q = choose|q: int| 0 <= q < j && m.out.take(j as int)[q] == t;
                        assert(m.out[q] == m.out[j as int]);
                    }
                }
            }
            let slot = slots.remove(k);
            slots.insert(k, None);
            match slot {
                Some(repo) => {
                    result.push(repo);
                },
                None => {
                    proof {
                        assert(false);
                    }
                },
            }
            proof {
                assert(m.out.take(j + 1) =~= m.out.take(j as int).push(t));
                crate::walk::lemma_push_contains_pub(m.out.take(j as int), t);
                assert forall|q: int|
                    #![trigger slots@[q]]
                    0 <= q < slots@.len() implies (slots@[q] is Some <==> !m.out.take(j + 1).contains(nv[q]))
                        && (slots@[q] is Some ==> slots@[q] == Some(opened0[q])) by {
                    if q != k {
                        assert(nv[q] != nv[k as int]);
                    }
                }
            }
            j += 1;
        }
        (root, result)
    }
}

} // verus!

verus! {

/// Master resolution ends closed and duplicate-free: no master is resolved
/// twice, the repository itself is never among its masters, and every master
/// that the repository or any resolved master names is itself resolved (or is
/// the repository). A master's own masters come before it, unless they lie on
/// a cycle back to it. The dependencies recorded for each resolved master are
/// the `masters` of the repository opened for it (see
/// [`MasterResolver::finish`]).
pub proof fn lemma_masters_closed(r: MasterResolver)
    requires
        r.wf(),
        r.spec_done(),
    ensures
        r.spec_walk().out.no_duplicates(),
        !r.spec_walk().out.contains(r.spec_root().spec_name()),
        r.spec_walk().graph[r.spec_root().spec_name()] == r.spec_root().spec_masters(),
        forall|n: Seq<char>, j: int|
            (r.spec_walk().out.contains(n) || n == r.spec_root().spec_name()) && 0 <= j
                < r.spec_walk().graph[n].len() ==> #[trigger] r.spec_walk().out.contains(
                r.spec_walk().graph[n][j],
            ) || r.spec_walk().graph[n][j] == r.spec_root().spec_name(),
        crate::walk::post_ordered(r.spec_walk().out, r.spec_walk().graph),
{
    crate::walk::lemma_walk_done_closed(r.walk);
}

/// The first occurrence of `pat` in `s` is at `n` when it occurs there and
/// nowhere before.
proof fn lemma_split_once_at(s: Seq<char>, pat: Seq<char>, n: int)
    requires
        crate::text::occurs_at(s, pat, n),
        forall|j: int| 0 <= j < n ==> !crate::text::occurs_at(s, pat, j),
    ensures
        split_once_spec(s, pat) == Some((s.take(n), s.skip(n + pat.len()))),
{
    let i = choose|i: int|
        crate::text::occurs_at(s, pat, i) && forall|j: int| 0 <= j < i ==> !crate::text::occurs_at(s, pat, j);
    if i < n {
        assert(!crate::text::occurs_at(s, pat, i));
    }
    if n < i {
        assert(!crate::text::occurs_at(s, pat, n));
    }
}

/// A `use.local.desc` line `cat/pkg:flag - text`, whose package name has no
/// `:` and whose flag has no space, adds the entry `(cat/pkg, flag, text)`:
/// the description is exactly what follows the first ` - ` after the flag.
pub proof fn lemma_local_desc_line(ls: Seq<Seq<char>>, c: Seq<char>, f: Seq<char>, d: Seq<char>)
    requires
        !c.contains(':'),
        !f.contains(' '),
    ensures
        local_desc_lines(ls.push(c + ":"@ + f + " - "@ + d)) == local_desc_lines(ls).push((c, f, d)),
{
    reveal_strlit(":");
    reveal_strlit(" - ");
    let l = c + ":"@ + f + " - "@ + d;
    let rest = f + " - "@ + d;
    assert(ls.push(l).drop_last() =~= ls);
    assert(crate::text::occurs_at(l, ":"@, c.len() as int)) by {
        assert(l.subrange(c.len() as int, c.len() as int + 1) =~= ":"@);
    }
    assert forall|j: int| 0 <= j < c.len() implies !crate::text::occurs_at(l, ":"@, j) by {
        if crate::text::occurs_at(l, ":"@, j) {
            assert(l.subrange(j, j + 1)[0] == l[j]);
            assert(l[j] == c[j]);
            assert(c.contains(':'));
        }
    }
    lemma_split_once_at(l, ":"@, c.len() as int);
    assert(l.take(c.len() as int) =~= c);
    assert(l.skip(c.len() as int + 1) =~= rest);
    assert(crate::text::occurs_at(rest, " - "@, f.len() as int)) by {
        assert(rest.subrange(f.len() as int, f.len() as int + 3) =~= " - "@);
    }
    assert forall|j: int| 0 <= j < f.len() implies !crate::text::occurs_at(rest, " - "@, j) by {
        if crate::text::occurs_at(rest, " - "@, j) {
            assert(rest.subrange(j, j + 3)[0] == rest[j]);
            assert(rest[j] == f[j]);
            assert(f.contains(' '));
        }
    }
    lemma_split_once_at(rest, " - "@, f.len() as int);
    assert(rest.take(f.len() as int) =~= f);
    assert(rest.skip(f.len() as int + 3) =~= d);
}

/// A `thirdpartymirrors` line holding a mirror's name and then its URLs
/// (words without whitespace, separated by single spaces) adds the mirror
/// with exactly those URLs: its name is not one of them.
pub proof fn lemma_mirror_line(ls: Seq<Seq<char>>, name: Seq<char>, urls: Seq<Seq<char>>)
    requires
        crate::useflags::is_word(name),
        forall|k: int| 0 <= k < urls.len() ==> crate::useflags::is_word(#[trigger] urls[k]),
    ensures
        mirror_lines(ls.push(crate::pms::join_spaces(seq![name] + urls))) == mirror_lines(ls).push(
            (name, urls),
        ),
{
    let ws = seq![name] + urls;
    assert forall|k: int| 0 <= k < ws.len() implies crate::useflags::is_word(#[trigger] ws[k]) by {
        if k > 0 {
            assert(ws[k] == urls[k - 1]);
        }
    }
    crate::useflags::lemma_words_of_join(ws);
    assert(ls.push(crate::pms::join_spaces(ws)).drop_last() =~= ls);
    assert(ws.drop_first() =~= urls);
}

} // verus!
