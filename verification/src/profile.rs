//! Profiles (PMS 5): `profiles.desc` entries and the files of a profile
//! directory.
use vstd::prelude::*;

use crate::atom::{dep_parses, dep_text, parse_dep, Atom};
use crate::eapi::{eapi_named, Eapi};
use crate::error::RepoError;
use crate::text::{chars_of, push_str, split_words, string_of, trim, trim_chars, words};
use crate::util::{
    file_line_chars, file_lines, file_lines_of, first_line, first_line_of, join, join_path,
    opt_view, strings_view,
};

verus! {

/// Stability status of a profile.
#[derive(Debug, Clone, PartialEq, Eq, Hash)]
pub enum ProfileStatus {
    /// Stable profile.
    Stable,
    /// Development profile.
    Dev,
    /// Experimental profile.
    Exp,
    /// A repository-defined status value not covered by the well-known variants.
    Other(String),
}

pub enum StatusModel {
    Stable,
    Dev,
    Exp,
    Other(Seq<char>),
}

impl View for ProfileStatus {
    type V = StatusModel;

    open spec fn view(&self) -> StatusModel {
        match self {
            ProfileStatus::Stable => StatusModel::Stable,
            ProfileStatus::Dev => StatusModel::Dev,
            ProfileStatus::Exp => StatusModel::Exp,
            ProfileStatus::Other(s) => StatusModel::Other(s@),
        }
    }
}

/// The status named by a word of `profiles.desc`.
pub open spec fn status_named(s: Seq<char>) -> StatusModel {
    if s == "stable"@ {
        StatusModel::Stable
    } else if s == "dev"@ {
        StatusModel::Dev
    } else if s == "exp"@ {
        StatusModel::Exp
    } else {
        StatusModel::Other(s)
    }
}

impl ProfileStatus {
    /// The status named by `s`.
    pub fn parse(s: &str) -> (r: ProfileStatus)
        ensures
            r@ == status_named(s@),
    {
        let v = chars_of(s);
        if crate::text::eq_str(v.as_slice(), "stable") {
            ProfileStatus::Stable
        } else if crate::text::eq_str(v.as_slice(), "dev") {
            ProfileStatus::Dev
        } else if crate::text::eq_str(v.as_slice(), "exp") {
            ProfileStatus::Exp
        } else {
            ProfileStatus::Other(string_of(v.as_slice()))
        }
    }
}

/// A profile entry from `profiles/profiles.desc`.
#[derive(Debug, Clone)]
pub struct ProfileDesc {
    /// Architecture keyword (e.g. `amd64`).
    pub arch: String,
    /// Path relative to `profiles/` (e.g. `default/linux/amd64/23.0`).
    pub path: String,
    /// Stability status.
    pub status: ProfileStatus,
}

/// The message for a `profiles.desc` line with fewer than three fields.
pub open spec fn desc_error(line: Seq<char>) -> Seq<char> {
    "expected 'arch path status', got: "@ + line
}

/// What `ProfileDesc::parse` makes of a line: `Ok((arch, path, status))` from
/// the first three whitespace-separated words, or the error message.
pub open spec fn profile_desc_spec(line: Seq<char>) -> Result<(Seq<char>, Seq<char>, StatusModel), Seq<char>> {
    let w = words(line, true);
    if w.len() < 3 {
        Err(desc_error(line))
    } else {
        Ok((w[0], w[1], status_named(w[2])))
    }
}

impl ProfileDesc {
    /// Parse a single line from `profiles.desc` (`arch path status`; further
    /// fields are ignored).
    pub fn parse(line: &str) -> (r: Result<ProfileDesc, RepoError>)
        ensures
            match profile_desc_spec(line@) {
                Ok((a, p, s)) => r is Ok && r->Ok_0.arch@ == a && r->Ok_0.path@ == p
                    && r->Ok_0.status@ == s,
                Err(m) => r matches Err(RepoError::InvalidProfile(msg)) && msg@ == m,
            },
    {
        let v = chars_of(line);
        let parts = split_words(v.as_slice(), true);
        if parts.len() < 3 {
            let mut m = String::new();
            push_str(&mut m, "expected 'arch path status', got: ");
            push_str(&mut m, line);
            assert(m@ =~= desc_error(line@));
            return Err(RepoError::InvalidProfile(m));
        }
        let status_s = string_of(parts[2].as_slice());
        Ok(ProfileDesc {
            arch: string_of(parts[0].as_slice()),
            path: string_of(parts[1].as_slice()),
            status: ProfileStatus::parse(status_s.as_str()),
        })
    }
}

/// A profile directory.
#[derive(Debug, Clone)]
pub struct Profile {
    path: String,
    eapi: Eapi,
}

/// The EAPI a profile declares in its `eapi` file: EAPI 0 when the file is
/// absent or empty, or the error message for an unknown EAPI.
pub open spec fn profile_eapi_spec(eapi_file: Option<Seq<char>>) -> Result<Eapi, Seq<char>> {
    match first_line(eapi_file) {
        None => Ok(Eapi::Zero),
        Some(s) => match eapi_named(s) {
            Some(e) => Ok(e),
            None => Err("bad EAPI: invalid EAPI: "@ + s),
        },
    }
}

/// A dependency line of `packages`: a leading `*` marks a system package, and
/// the atom is what follows it, trimmed.
pub open spec fn package_line(line: Seq<char>) -> (bool, Seq<char>) {
    if line.len() > 0 && line[0] == '*' {
        (true, trim(line.drop_first()))
    } else {
        (false, line)
    }
}

/// The atom-and-flags lines of a file: lines with at least one word, split
/// into the atom and the flags after it.
pub open spec fn atom_flag_lines(ls: Seq<Seq<char>>) -> Seq<(Seq<char>, Seq<Seq<char>>)>
    decreases ls.len(),
{
    if ls.len() == 0 {
        seq![]
    } else {
        let w = words(ls.last(), true);
        if w.len() > 0 {
            atom_flag_lines(ls.drop_last()).push((w[0], w.drop_first()))
        } else {
            atom_flag_lines(ls.drop_last())
        }
    }
}

pub open spec fn flags_view(v: Seq<String>) -> Seq<Seq<char>> {
    strings_view(v)
}

/// Parse a file holding one dependency atom per line.
pub fn parse_atom_list(file: Option<&str>) -> (r: Result<Vec<Atom>, RepoError>)
    ensures
        r is Ok <==> forall|k: int|
            0 <= k < file_lines(opt_view(file)).len() ==> dep_parses(
                #[trigger] file_lines(opt_view(file))[k],
            ),
        r is Ok ==> r->Ok_0@.len() == file_lines(opt_view(file)).len() && forall|k: int|
            0 <= k < r->Ok_0@.len() ==> dep_text(file_lines(opt_view(file))[k]) == Some(
                #[trigger] r->Ok_0@[k]@,
            ),
        r is Err ==> r->Err_0 is Atom,
{
    let ls = file_lines_of(file);
    let ghost fl = file_lines(opt_view(file));
    let mut out: Vec<Atom> = Vec::new();
    let mut i: usize = 0;
    while i < ls.len()
        invariant
            i <= ls@.len(),
            strings_view(ls@) == fl,
            fl == file_lines(opt_view(file)),
            out@.len() == i,
            forall|k: int| 0 <= k < i ==> dep_parses(#[trigger] fl[k]),
            forall|k: int| 0 <= k < i ==> dep_text(fl[k]) == Some(#[trigger] out@[k]@),
        decreases ls@.len() - i,
    {
        assert(fl[i as int] == ls@[i as int]@);
        match parse_dep(ls[i].as_str()) {
            Ok(d) => out.push(d),
            Err(e) => {
                assert(!dep_parses(fl[i as int]));
                return Err(RepoError::Atom(e));
            },
        }
        i += 1;
    }
    Ok(out)
}

/// Parse a file holding `atom flag1 flag2 ...` per line.
pub fn parse_atom_flags_list(file: Option<&str>) -> (r: Result<Vec<(Atom, Vec<String>)>, RepoError>)
    ensures
        ({
            let al = atom_flag_lines(file_lines(opt_view(file)));
            &&& r is Ok <==> forall|k: int| 0 <= k < al.len() ==> dep_parses(#[trigger] al[k].0)
            &&& r is Ok ==> r->Ok_0@.len() == al.len() && forall|k: int|
                0 <= k < al.len() ==> flags_view(#[trigger] r->Ok_0@[k].1@) == al[k].1
                    && dep_text(al[k].0) == Some(r->Ok_0@[k].0@)
            &&& r is Err ==> r->Err_0 is Atom
        }),
{
    let ls = file_line_chars(file);
    let ghost fl = file_lines(opt_view(file));
    let ghost al = atom_flag_lines(fl);
    let mut out: Vec<(Atom, Vec<String>)> = Vec::new();
    let mut i: usize = 0;
    while i < ls.len()
        invariant
            i <= ls@.len(),
            Seq::new(ls@.len(), |k: int| ls@[k]@) == fl,
            fl == file_lines(opt_view(file)),
            al == atom_flag_lines(fl),
            ({
                let done = atom_flag_lines(fl.take(i as int));
                &&& out@.len() == done.len()
                &&& forall|k: int| 0 <= k < done.len() ==> dep_parses(#[trigger] done[k].0)
                &&& forall|k: int|
                    0 <= k < done.len() ==> flags_view(#[trigger] out@[k].1@) == done[k].1
                        && dep_text(done[k].0) == Some(out@[k].0@)
            }),
        decreases ls@.len() - i,
    {
        let ghost pre = fl.take(i as int);
        assert(fl.take(i + 1).drop_last() =~= pre);
        assert(fl.take(i + 1).last() == ls@[i as int]@);
        let parts = split_words(ls[i].as_slice(), true);
        if parts.len() > 0 {
            let atom = string_of(parts[0].as_slice());
            match parse_dep(atom.as_str()) {
                Ok(d) => {
                    let mut flags: Vec<String> = Vec::new();
                    let mut j: usize = 1;
                    while j < parts.len()
                        invariant
                            1 <= j <= parts@.len(),
                            flags@.len() == j - 1,
                            forall|k: int| 0 <= k < j - 1 ==> #[trigger] flags@[k]@ == parts@[k + 1]@,
                        decreases parts@.len() - j,
                    {
                        flags.push(string_of(parts[j].as_slice()));
                        j += 1;
                    }
                    let ghost prev = out@;
                    proof {
                        let w = words(ls@[i as int]@, true);
                        assert(flags_view(flags@) =~= w.drop_first());
                        assert(atom_flag_lines(fl.take(i + 1)) == atom_flag_lines(pre).push((w[0], w.drop_first())));
                        assert(dep_text(w[0]) == Some(d@));
                    }
                    out.push((d, flags));
                    proof {
                        let done = atom_flag_lines(fl.take(i + 1));
                        assert forall|k: int| 0 <= k < done.len() implies flags_view(
                            #[trigger] out@[k].1@,
                        ) == done[k].1 && dep_text(done[k].0) == Some(out@[k].0@) by {
                            if k < prev.len() {
                                assert(out@[k] == prev[k]);
                            }
                        }
                    }
                },
                Err(e) => {
                    proof {
                        let w = words(ls@[i as int]@, true);
                        assert(w.len() > 0);
                        let done = atom_flag_lines(fl.take(i + 1));
                        assert(done == atom_flag_lines(pre).push((w[0], w.drop_first())));
                        assert(done.last().0 == atom@);
                        let k = done.len() - 1;
                        lemma_atom_flag_lines_prefix(fl, i + 1);
                        assert(done[k] == al[k]);
                        assert(!dep_parses(al[k].0));
                    }
                    return Err(RepoError::Atom(e));
                },
            }
        }
        i += 1;
    }
    assert(fl.take(i as int) =~= fl);
    Ok(out)
}

/// The atom-and-flags lines of a prefix are a prefix of those of the whole.
proof fn lemma_atom_flag_lines_prefix(ls: Seq<Seq<char>>, n: int)
    requires
        0 <= n <= ls.len(),
    ensures
        atom_flag_lines(ls.take(n)).len() <= atom_flag_lines(ls).len(),
        forall|k: int|
            0 <= k < atom_flag_lines(ls.take(n)).len() ==> #[trigger] atom_flag_lines(ls.take(n))[k]
                == atom_flag_lines(ls)[k],
    decreases ls.len() - n,
{
    if n < ls.len() {
        assert(ls.take(n + 1).drop_last() =~= ls.take(n));
        lemma_atom_flag_lines_prefix(ls, n + 1);
        let a = atom_flag_lines(ls.take(n));
        let b = atom_flag_lines(ls.take(n + 1));
        assert(a.len() <= b.len());
        assert forall|k: int| 0 <= k < a.len() implies #[trigger] a[k] == atom_flag_lines(ls)[k] by {
            assert(a[k] == b[k]);
        }
    } else {
        assert(ls.take(n) =~= ls);
    }
}

impl Profile {
    /// Open a profile directory from its path and the text of its `eapi`
    /// file (`None` when the file does not exist).
    pub fn open(path: String, eapi_file: Option<&str>) -> (r: Result<Profile, RepoError>)
        ensures
            match profile_eapi_spec(opt_view(eapi_file)) {
                Ok(e) => r is Ok && r->Ok_0.spec_path() == path@ && r->Ok_0.spec_eapi() == e,
                Err(m) => r matches Err(RepoError::InvalidProfile(msg)) && msg@ == m,
            },
    {
        match first_line_of(eapi_file) {
            None => Ok(Profile { path, eapi: Eapi::Zero }),
            Some(s) => match Eapi::parse(s.as_str()) {
                Some(e) => Ok(Profile { path, eapi: e }),
                None => {
                    let mut m = String::new();
                    push_str(&mut m, "bad EAPI: invalid EAPI: ");
                    push_str(&mut m, s.as_str());
                    Err(RepoError::InvalidProfile(m))
                },
            },
        }
    }

    pub closed spec fn spec_path(&self) -> Seq<char> {
        self.path@
    }

    pub closed spec fn spec_eapi(&self) -> Eapi {
        self.eapi
    }

    /// Absolute path to the profile directory.
    pub fn path(&self) -> (r: &str)
        ensures
            r@ == self.spec_path(),
    {
        self.path.as_str()
    }

    /// The EAPI declared by this profile (from the `eapi` file).
    pub fn eapi(&self) -> (r: Eapi)
        ensures
            r == self.spec_eapi(),
    {
        self.eapi
    }

    /// The paths of the parent profiles listed in the `parent` file, resolved
    /// against this profile's directory.
    pub fn parents(&self, parent_file: Option<&str>) -> (r: Vec<String>)
        ensures
            r@.len() == file_lines(opt_view(parent_file)).len(),
            forall|k: int|
                0 <= k < r@.len() ==> #[trigger] r@[k]@ == join_path(
                    self.spec_path(),
                    file_lines(opt_view(parent_file))[k],
                ),
    {
        let ls = file_lines_of(parent_file);
        let mut r: Vec<String> = Vec::new();
        let mut i: usize = 0;
        while i < ls.len()
            invariant
                i <= ls@.len(),
                strings_view(ls@) == file_lines(opt_view(parent_file)),
                r@.len() == i,
                forall|k: int|
                    0 <= k < i ==> #[trigger] r@[k]@ == join_path(self.path@, ls@[k]@),
            decreases ls@.len() - i,
        {
            r.push(join(self.path.as_str(), ls[i].as_str()));
            i += 1;
        }
        r
    }

    /// The `packages` file: `(is_system, dep)` pairs, a leading `*` marking a
    /// system package.
    pub fn packages(&self, packages_file: Option<&str>) -> (r: Result<
        Vec<(bool, Atom)>,
        RepoError,
    >)
        ensures
            ({
                let fl = file_lines(opt_view(packages_file));
                &&& r is Ok <==> forall|k: int|
                    0 <= k < fl.len() ==> dep_parses(#[trigger] package_line(fl[k]).1)
                &&& r is Ok ==> r->Ok_0@.len() == fl.len() && forall|k: int|
                    0 <= k < fl.len() ==> #[trigger] r->Ok_0@[k].0 == package_line(fl[k]).0
                        && dep_text(package_line(fl[k]).1) == Some(r->Ok_0@[k].1@)
                &&& r is Err ==> r->Err_0 is Atom
            }),
    {
        let ls = file_line_chars(packages_file);
        let ghost fl = file_lines(opt_view(packages_file));
        let mut out: Vec<(bool, Atom)> = Vec::new();
        let mut i: usize = 0;
        while i < ls.len()
            invariant
                i <= ls@.len(),
                Seq::new(ls@.len(), |k: int| ls@[k]@) == fl,
                fl == file_lines(opt_view(packages_file)),
                out@.len() == i,
                forall|k: int| 0 <= k < i ==> dep_parses(#[trigger] package_line(fl[k]).1),
                forall|k: int| 0 <= k < i ==> #[trigger] out@[k].0 == package_line(fl[k]).0,
                forall|k: int|
                    0 <= k < i ==> dep_text(package_line(fl[k]).1) == Some(#[trigger] out@[k].1@),
            decreases ls@.len() - i,
        {
            let line = ls[i].as_slice();
            assert(line@ == fl[i as int]);
            let (is_system, atom) = if line.len() > 0 && line[0] == '*' {
                let rest = crate::text::slice_range(line, 1, line.len());
                assert(rest@ =~= line@.drop_first());
                (true, trim_chars(rest.as_slice()))
            } else {
                (false, crate::text::slice_range(line, 0, line.len()))
            };
            assert(atom@ =~= package_line(fl[i as int]).1);
            let atom_s = string_of(atom.as_slice());
            match parse_dep(atom_s.as_str()) {
                Ok(d) => {
                    assert(dep_text(package_line(fl[i as int]).1) == Some(d@));
                    let ghost prev = out@;
                    out.push((is_system, d));
                    assert forall|k: int| 0 <= k < i + 1 implies dep_text(package_line(fl[k]).1)
                        == Some(#[trigger] out@[k].1@) by {
                        if k < i {
                            assert(out@[k] == prev[k]);
                        }
                    }
                },
                Err(e) => {
                    assert(!dep_parses(package_line(fl[i as int]).1));
                    return Err(RepoError::Atom(e));
                },
            }
            i += 1;
        }
        Ok(out)
    }

    /// `package.mask`.
    pub fn package_mask(&self, file: Option<&str>) -> (r: Result<Vec<Atom>, RepoError>)
        ensures
            r is Ok <==> forall|k: int|
                0 <= k < file_lines(opt_view(file)).len() ==> dep_parses(
                    #[trigger] file_lines(opt_view(file))[k],
                ),
            r is Ok ==> r->Ok_0@.len() == file_lines(opt_view(file)).len() && forall|k: int|
                0 <= k < r->Ok_0@.len() ==> dep_text(file_lines(opt_view(file))[k]) == Some(
                    #[trigger] r->Ok_0@[k]@,
                ),
    {
        parse_atom_list(file)
    }

    /// `package.use`: `(dep, [flags...])` pairs.
    pub fn package_use(&self, file: Option<&str>) -> (r: Result<
        Vec<(Atom, Vec<String>)>,
        RepoError,
    >)
        ensures
            ({
                let al = atom_flag_lines(file_lines(opt_view(file)));
                &&& r is Ok <==> forall|k: int| 0 <= k < al.len() ==> dep_parses(#[trigger] al[k].0)
                &&& r is Ok ==> r->Ok_0@.len() == al.len() && forall|k: int|
                    0 <= k < al.len() ==> flags_view(#[trigger] r->Ok_0@[k].1@) == al[k].1
                        && dep_text(al[k].0) == Some(r->Ok_0@[k].0@)
            }),
    {
        parse_atom_flags_list(file)
    }

    /// `use.force`.
    pub fn use_force(&self, file: Option<&str>) -> (r: Vec<String>)
        ensures
            strings_view(r@) == file_lines(opt_view(file)),
    {
        file_lines_of(file)
    }

    /// `use.mask`.
    pub fn use_mask(&self, file: Option<&str>) -> (r: Vec<String>)
        ensures
            strings_view(r@) == file_lines(opt_view(file)),
    {
        file_lines_of(file)
    }

    /// `use.stable.force`.
    pub fn use_stable_force(&self, file: Option<&str>) -> (r: Vec<String>)
        ensures
            strings_view(r@) == file_lines(opt_view(file)),
    {
        file_lines_of(file)
    }

    /// `use.stable.mask`.
    pub fn use_stable_mask(&self, file: Option<&str>) -> (r: Vec<String>)
        ensures
            strings_view(r@) == file_lines(opt_view(file)),
    {
        file_lines_of(file)
    }

    /// `package.use.force`.
    pub fn package_use_force(&self, file: Option<&str>) -> (r: Result<
        Vec<(Atom, Vec<String>)>,
        RepoError,
    >)
        ensures
            ({
                let al = atom_flag_lines(file_lines(opt_view(file)));
                &&& r is Ok <==> forall|k: int| 0 <= k < al.len() ==> dep_parses(#[trigger] al[k].0)
                &&& r is Ok ==> r->Ok_0@.len() == al.len() && forall|k: int|
                    0 <= k < al.len() ==> flags_view(#[trigger] r->Ok_0@[k].1@) == al[k].1
                        && dep_text(al[k].0) == Some(r->Ok_0@[k].0@)
            }),
    {
        parse_atom_flags_list(file)
    }

    /// `package.use.mask`.
    pub fn package_use_mask(&self, file: Option<&str>) -> (r: Result<
        Vec<(Atom, Vec<String>)>,
        RepoError,
    >)
        ensures
            ({
                let al = atom_flag_lines(file_lines(opt_view(file)));
                &&& r is Ok <==> forall|k: int| 0 <= k < al.len() ==> dep_parses(#[trigger] al[k].0)
                &&& r is Ok ==> r->Ok_0@.len() == al.len() && forall|k: int|
                    0 <= k < al.len() ==> flags_view(#[trigger] r->Ok_0@[k].1@) == al[k].1
                        && dep_text(al[k].0) == Some(r->Ok_0@[k].0@)
            }),
    {
        parse_atom_flags_list(file)
    }

    /// `package.use.stable.force`.
    pub fn package_use_stable_force(&self, file: Option<&str>) -> (r: Result<
        Vec<(Atom, Vec<String>)>,
        RepoError,
    >)
        ensures
            ({
                let al = atom_flag_lines(file_lines(opt_view(file)));
                &&& r is Ok <==> forall|k: int| 0 <= k < al.len() ==> dep_parses(#[trigger] al[k].0)
                &&& r is Ok ==> r->Ok_0@.len() == al.len() && forall|k: int|
                    0 <= k < al.len() ==> flags_view(#[trigger] r->Ok_0@[k].1@) == al[k].1
                        && dep_text(al[k].0) == Some(r->Ok_0@[k].0@)
            }),
    {
        parse_atom_flags_list(file)
    }

    /// `package.use.stable.mask`.
    pub fn package_use_stable_mask(&self, file: Option<&str>) -> (r: Result<
        Vec<(Atom, Vec<String>)>,
        RepoError,
    >)
        ensures
            ({
                let al = atom_flag_lines(file_lines(opt_view(file)));
                &&& r is Ok <==> forall|k: int| 0 <= k < al.len() ==> dep_parses(#[trigger] al[k].0)
                &&& r is Ok ==> r->Ok_0@.len() == al.len() && forall|k: int|
                    0 <= k < al.len() ==> flags_view(#[trigger] r->Ok_0@[k].1@) == al[k].1
                        && dep_text(al[k].0) == Some(r->Ok_0@[k].0@)
            }),
    {
        parse_atom_flags_list(file)
    }
}

} // verus!
