//! Ebuild files: versioned package names as parsed by `portage_atom`, and
//! the ebuilds a package directory holds.
use vstd::prelude::*;

use crate::cache::{cache_entry_fields, entry_fields, parse_cache_entry, MetadataEntry};
use crate::category::Package;
use crate::error::RepoError;
use crate::text::{chars_of, has_suffix, push_str, string_of};
use crate::util::{join, join_path, strings_view};

verus! {

/// A versioned package name, `category/package-version`, as plain values.
pub struct Cpv {
    /// The category (e.g. `dev-lang`).
    pub category: String,
    /// The package name (e.g. `rust`).
    pub package: String,
    /// The full version as `portage_atom` prints it, revision included
    /// (e.g. `1.75.0-r1`).
    pub version: String,
    /// The revision number, `0` when there is none.
    pub revision: u64,
}

/// What `portage_atom::Cpv::parse` makes of a string: category, package,
/// printed version and revision; `None` when it rejects the string.
pub uninterp spec fn cpv_fields(s: Seq<char>) -> Option<(Seq<char>, Seq<char>, Seq<char>, u64)>;

/// Calls `portage_atom::Cpv::parse` and copies out the category, package,
/// printed version and revision. Claims that they are the ones named by
/// [`cpv_fields`].
#[verifier::external_body]
pub(crate) fn parse_cpv(s: &str) -> (r: Result<Cpv, portage_atom::Error>)
    ensures
        match cpv_fields(s@) {
            Some((c, p, v, rev)) => r matches Ok(x) && x.category@ == c && x.package@ == p
                && x.version@ == v && x.revision == rev,
            None => r is Err,
        },
{
    match portage_atom::Cpv::parse(s) {
        Ok(c) => Ok(
            Cpv {
                category: c.cpn.category.to_string(),
                package: c.cpn.package.to_string(),
                version: c.version.to_string(),
                revision: c.version.revision.0,
            },
        ),
        Err(e) => Err(e),
    }
}

/// The plain fields of a parsed name.
pub open spec fn cpv_view(c: Cpv) -> (Seq<char>, Seq<char>, Seq<char>, u64) {
    (c.category@, c.package@, c.version@, c.revision)
}

/// A single ebuild file within a package directory.
pub struct Ebuild {
    cpv: Cpv,
    path: String,
}

impl Ebuild {
    /// An ebuild from its parsed name and its path.
    pub fn new(cpv: Cpv, path: String) -> (r: Ebuild)
        ensures
            cpv_view(r.spec_cpv()) == cpv_view(cpv),
            r.spec_path() == path@,
    {
        Ebuild { cpv, path }
    }

    pub closed spec fn spec_cpv(&self) -> Cpv {
        self.cpv
    }

    pub closed spec fn spec_path(&self) -> Seq<char> {
        self.path@
    }

    /// The full category/package-version name.
    pub fn cpv(&self) -> (r: &Cpv)
        ensures
            cpv_view(*r) == cpv_view(self.spec_cpv()),
    {
        &self.cpv
    }

    /// The category name.
    pub fn category(&self) -> (r: &str)
        ensures
            r@ == self.spec_cpv().category@,
    {
        self.cpv.category.as_str()
    }

    /// The package name (without version).
    pub fn name(&self) -> (r: &str)
        ensures
            r@ == self.spec_cpv().package@,
    {
        self.cpv.package.as_str()
    }

    /// The version, as `portage_atom` prints it.
    pub fn version(&self) -> (r: &str)
        ensures
            r@ == self.spec_cpv().version@,
    {
        self.cpv.version.as_str()
    }

    /// The revision number.
    pub fn revision(&self) -> (r: u64)
        ensures
            r == self.spec_cpv().revision,
    {
        self.cpv.revision
    }

    /// Path to the `.ebuild` file.
    pub fn path(&self) -> (r: &str)
        ensures
            r@ == self.spec_path(),
    {
        self.path.as_str()
    }
}

/// The stem of an ebuild file name: the name without `.ebuild`, when it
/// ends so.
pub open spec fn ebuild_stem_spec(file_name: Seq<char>) -> Option<Seq<char>> {
    if has_suffix(file_name, ".ebuild"@) {
        Some(file_name.take(file_name.len() - 7))
    } else {
        None
    }
}

/// The stem of an ebuild file name.
pub fn ebuild_stem(file_name: &str) -> (r: Option<String>)
    ensures
        match ebuild_stem_spec(file_name@) {
            Some(s) => r matches Some(x) && x@ == s,
            None => r is None,
        },
{
    proof {
        reveal_strlit(".ebuild");
    }
    match crate::text::strip_suffix(chars_of(file_name).as_slice(), ".ebuild") {
        Some(stem) => Some(string_of(stem.as_slice())),
        None => None,
    }
}

/// `category/stem`: the name an ebuild file's stem is parsed as.
pub open spec fn cpv_text(category: Seq<char>, stem: Seq<char>) -> Seq<char> {
    category + "/"@ + stem
}

/// The ebuilds among a package directory's entries, in the entries' order:
/// for each `(file name, path)` whose name ends in `.ebuild` and whose
/// `category/stem` parses, the parsed name and the path.
pub open spec fn package_ebuilds_spec(category: Seq<char>, entries: Seq<(Seq<char>, Seq<char>)>) -> Seq<
    ((Seq<char>, Seq<char>, Seq<char>, u64), Seq<char>),
>
    decreases entries.len(),
{
    if entries.len() == 0 {
        seq![]
    } else {
        let (n, p) = entries.last();
        let rest = package_ebuilds_spec(category, entries.drop_last());
        match ebuild_stem_spec(n) {
            Some(stem) => match cpv_fields(cpv_text(category, stem)) {
                Some(f) => rest.push((f, p)),
                None => rest,
            },
            None => rest,
        }
    }
}

/// Directory entries as plain values.
pub open spec fn entries_view(v: Seq<(String, String)>) -> Seq<(Seq<char>, Seq<char>)> {
    Seq::new(v.len(), |i: int| (v[i].0@, v[i].1@))
}

/// Ebuilds as plain values.
pub open spec fn ebuilds_view(v: Seq<Ebuild>) -> Seq<((Seq<char>, Seq<char>, Seq<char>, u64), Seq<char>)> {
    Seq::new(v.len(), |i: int| (cpv_view(v[i].spec_cpv()), v[i].spec_path()))
}

impl Package {
    /// The ebuilds of this package, given the directory's `(file name,
    /// path)` entries: those of [`package_ebuilds_spec`], sorted by name and
    /// version (see [`sort_ebuilds`]).
    pub fn ebuilds(&self, entries: &Vec<(String, String)>) -> (r: Vec<Ebuild>)
        ensures
            ebuilds_sorted(r@),
            exists|u: Seq<Ebuild>|
                ebuilds_view(u) =~~= package_ebuilds_spec(self.spec_category(), entries_view(entries@))
                    && #[trigger] u.to_multiset() == r@.to_multiset(),
    {
        let found = self.ebuild_entries(entries);
        let r = sort_ebuilds(found);
        assert(ebuilds_view(found@) =~~= package_ebuilds_spec(self.spec_category(), entries_view(entries@)));
        r
    }

    /// The ebuilds among the entries, in the entries' order.
    fn ebuild_entries(&self, entries: &Vec<(String, String)>) -> (r: Vec<Ebuild>)
        ensures
            ebuilds_view(r@) =~~= package_ebuilds_spec(self.spec_category(), entries_view(entries@)),
    {
        let mut out: Vec<Ebuild> = Vec::new();
        let mut i: usize = 0;
        while i < entries.len()
            invariant
                i <= entries@.len(),
                ebuilds_view(out@) =~~= package_ebuilds_spec(
                    self.spec_category(),
                    entries_view(entries@).take(i as int),
                ),
            decreases entries@.len() - i,
        {
            let ghost pre = ebuilds_view(out@);
            proof {
                assert(entries_view(entries@).take(i + 1).drop_last() =~= entries_view(entries@).take(
                    i as int,
                ));
                assert(entries_view(entries@).take(i + 1).last() == (entries@[i as int].0@, entries@[i as int].1@));
            }
            let (name, path) = (&entries[i].0, &entries[i].1);
            match ebuild_stem(name.as_str()) {
                Some(stem) => {
                    let mut text = String::new();
                    push_str(&mut text, self.category());
                    push_str(&mut text, "/");
                    push_str(&mut text, stem.as_str());
                    match parse_cpv(text.as_str()) {
                        Ok(cpv) => {
                            out.push(Ebuild::new(cpv, path.clone()));
                            proof {
                                assert(ebuilds_view(out@) =~~= pre.push(
                                    (cpv_fields(text@)->0, path@),
                                ));
                            }
                        },
                        Err(_) => {
                            assert(ebuilds_view(out@) =~~= pre);
                        },
                    }
                },
                None => {
                    assert(ebuilds_view(out@) =~~= pre);
                },
            }
            i += 1;
        }
        assert(entries_view(entries@).take(i as int) =~= entries_view(entries@));
        out
    }

    /// The ebuild of one version: the name `category/package-version` parsed
    /// (its error when it does not parse) and the file `package-version.ebuild`
    /// in this directory, `None` when that is not a file (`is_file`).
    pub fn ebuild(&self, version: &str, is_file: bool) -> (r: Result<Option<Ebuild>, RepoError>)
        ensures
            ({
                let text = self.spec_category() + "/"@ + self.spec_name() + "-"@ + version@;
                match cpv_fields(text) {
                    None => r matches Err(RepoError::Atom(_)),
                    Some(f) => if is_file {
                        r matches Ok(Some(e)) && cpv_view(e.spec_cpv()) == f && e.spec_path()
                            == join_path(self.spec_path(), self.spec_name() + "-"@ + version@ + ".ebuild"@)
                    } else {
                        r matches Ok(None)
                    },
                }
            }),
    {
        let mut text = String::new();
        push_str(&mut text, self.category());
        push_str(&mut text, "/");
        push_str(&mut text, self.name());
        push_str(&mut text, "-");
        push_str(&mut text, version);
        let cpv = match parse_cpv(text.as_str()) {
            Ok(c) => c,
            Err(e) => {
                return Err(RepoError::Atom(e));
            },
        };
        let mut file = String::new();
        push_str(&mut file, self.name());
        push_str(&mut file, "-");
        push_str(&mut file, version);
        push_str(&mut file, ".ebuild");
        let path = join(self.path(), file.as_str());
        if is_file {
            Ok(Some(Ebuild::new(cpv, path)))
        } else {
            Ok(None)
        }
    }
}


impl Cpv {
    /// `category/package-version`, as `portage_atom` prints the name.
    pub fn to_string(&self) -> (r: String)
        ensures
            r@ == self.category@ + "/"@ + self.package@ + "-"@ + self.version@,
    {
        let mut s = String::new();
        push_str(&mut s, self.category.as_str());
        push_str(&mut s, "/");
        push_str(&mut s, self.package.as_str());
        push_str(&mut s, "-");
        push_str(&mut s, self.version.as_str());
        s
    }
}

/// `category/package-version`, the text of a name.
pub open spec fn cpv_name(c: Cpv) -> Seq<char> {
    c.category@ + "/"@ + c.package@ + "-"@ + c.version@
}

/// How `portage_atom`'s order of versioned names (package name, then
/// version) compares two names given as text: whether the first comes at or
/// before the second; `None` when either text does not parse.
pub uninterp spec fn cpv_order_le(a: Seq<char>, b: Seq<char>) -> Option<bool>;

/// Parses both names with `portage_atom::Cpv::parse` and compares them with
/// the crate's order (`<=`). Claims the result named by [`cpv_order_le`];
/// that, the order being total, when the first does not come at or before the
/// second the second comes at or before the first; and that a text that does
/// not parse fails the comparison both ways round.
#[verifier::external_body]
fn cpv_le(a: &str, b: &str) -> (r: Option<bool>)
    ensures
        r == cpv_order_le(a@, b@),
        r == Some(false) ==> cpv_order_le(b@, a@) == Some(true),
        r is None ==> cpv_order_le(b@, a@) is None,
{
    match (portage_atom::Cpv::parse(a), portage_atom::Cpv::parse(b)) {
        (Ok(x), Ok(y)) => Some(x <= y),
        _ => None,
    }
}

/// Whether ebuild `a` may stand before ebuild `b`: by `portage_atom`'s order
/// of their names or, where a name does not parse, by their paths.
pub open spec fn ebuild_before(a: Ebuild, b: Ebuild) -> bool {
    match cpv_order_le(cpv_name(a.spec_cpv()), cpv_name(b.spec_cpv())) {
        Some(x) => x,
        None => crate::util::lex_le(a.spec_path(), b.spec_path()),
    }
}

/// Each ebuild may stand before the next.
pub open spec fn ebuilds_sorted(s: Seq<Ebuild>) -> bool {
    forall|i: int, j: int| 0 <= i && j == i + 1 && j < s.len() ==> ebuild_before(#[trigger] s[i], #[trigger] s[j])
}

fn ebuild_le(a: &Ebuild, b: &Ebuild) -> (r: bool)
    ensures
        r == ebuild_before(*a, *b),
        !r ==> ebuild_before(*b, *a),
{
    let ta = a.cpv.to_string();
    let tb = b.cpv.to_string();
    match cpv_le(ta.as_str(), tb.as_str()) {
        Some(x) => x,
        None => {
            let r = crate::util::str_le(chars_of(a.path.as_str()).as_slice(), chars_of(b.path.as_str()).as_slice());
            proof {
                crate::util::lemma_lex_total(a.path@, b.path@);
            }
            r
        },
    }
}

/// Ebuilds sorted by their names in `portage_atom`'s order: by package name,
/// then by version (a stable insertion sort).
pub fn sort_ebuilds(v: Vec<Ebuild>) -> (r: Vec<Ebuild>)
    ensures
        ebuilds_sorted(r@),
        r@.to_multiset() == v@.to_multiset(),
{
    broadcast use vstd::seq_lib::group_to_multiset_ensures;
    let ghost v0 = v@;
    let mut v = v;
    let mut r: Vec<Ebuild> = Vec::new();
    while v.len() > 0
        invariant
            ebuilds_sorted(r@),
            r@.to_multiset().add(v@.to_multiset()) == v0.to_multiset(),
        decreases v@.len(),
    {
        let ghost vb = v@;
        let x = v.pop().unwrap();
        assert(vb =~= v@.push(x));
        let mut j: usize = r.len();
        while j > 0 && !ebuild_le(&r[j - 1], &x)
            invariant
                j <= r@.len(),
                j < r@.len() ==> ebuild_before(x, r@[j as int]),
            decreases j,
        {
            j -= 1;
        }
        let ghost old_r = r@;
        r.insert(j, x);
        proof {
            let nr = r@;
            assert(nr =~= old_r.insert(j as int, x));
            assert forall|a: int, b: int| 0 <= a && b == a + 1 && b < nr.len() implies ebuild_before(
                #[trigger] nr[a],
                #[trigger] nr[b],
            ) by {
                if b == j {
                    assert(nr[a] == old_r[a]);
                } else if a == j {
                    assert(nr[b] == old_r[j as int]);
                } else if a < j {
                    assert(nr[a] == old_r[a] && nr[b] == old_r[b]);
                } else {
                    assert(nr[a] == old_r[a - 1] && nr[b] == old_r[b - 1]);
                }
            }
            vstd::seq_lib::to_multiset_insert(old_r, j as int, x);
            assert(r@.to_multiset() == old_r.to_multiset().insert(x));
            vstd::seq_lib::to_multiset_build(v@, x);
            assert(vb.to_multiset() == v@.to_multiset().insert(x));
            assert(old_r.to_multiset().insert(x).add(v@.to_multiset()) =~= old_r.to_multiset().add(
                v@.to_multiset().insert(x),
            ));
        }
    }
    assert(v@ =~= Seq::<Ebuild>::empty());
    assert(r@.to_multiset() =~= r@.to_multiset().add(v@.to_multiset()));
    r
}

impl crate::repository::Repository {
    /// The `md5-cache` file of an ebuild:
    /// `metadata/md5-cache/category/package-version`.
    pub fn cache_entry_path(&self, cpv: &Cpv) -> (r: String)
        ensures
            r@ == join_path(
                join_path(join_path(self.spec_path(), "metadata"@), "md5-cache"@),
                cpv.category@ + "/"@ + cpv.package@ + "-"@ + cpv.version@,
            ),
    {
        let m = join(self.path(), "metadata");
        let c = join(m.as_str(), "md5-cache");
        let name = cpv.to_string();
        join(c.as_str(), name.as_str())
    }

    /// The `md5-cache` entry of an ebuild, given the text of its file (at
    /// [`Repository::cache_entry_path`]), parsed by `portage_metadata`: the
    /// lines [`cache_entry_fields`] gives, or the parser's error.
    pub fn cache_entry(&self, contents: &str) -> (r: Result<MetadataEntry, RepoError>)
        ensures
            match cache_entry_fields(contents@) {
                Some(f) => r matches Ok(e) && entry_fields(e) == f,
                None => r matches Err(RepoError::MetadataParse(_)),
            },
    {
        match parse_cache_entry(contents) {
            Ok(e) => Ok(e),
            Err(e) => Err(RepoError::MetadataParse(e)),
        }
    }

    /// Whether the walk over the repository for ebuilds keeps an entry at
    /// `depth` below the root: categories listed in `profiles/categories`,
    /// package directories that are not dotfiles, and `.ebuild` files.
    pub fn ebuild_walk_keeps(&self, depth: usize, name: &str, categories: &Vec<String>) -> (r: bool)
        ensures
            r == (if depth == 0 {
                strings_view(categories@).contains(name@)
            } else if depth == 1 {
                !(name@.len() > 0 && name@[0] == '.')
            } else {
                has_suffix(name@, ".ebuild"@)
            }),
    {
        if depth == 0 {
            crate::pms::has(name, categories)
        } else if depth == 1 {
            let c = chars_of(name);
            !(c.len() > 0 && c[0] == '.')
        } else {
            ebuild_stem(name).is_some()
        }
    }

    /// The ebuild a walk found: the file `file_name` at `path` in a
    /// directory of `category`, when its `category/stem` parses.
    pub fn ebuild_at(&self, category: &str, file_name: &str, path: String) -> (r: Option<Ebuild>)
        ensures
            match ebuild_stem_spec(file_name@) {
                Some(stem) => match cpv_fields(cpv_text(category@, stem)) {
                    Some(f) => r matches Some(e) && cpv_view(e.spec_cpv()) == f && e.spec_path() == path@,
                    None => r is None,
                },
                None => r is None,
            },
    {
        match ebuild_stem(file_name) {
            None => None,
            Some(stem) => {
                let mut text = String::new();
                push_str(&mut text, category);
                push_str(&mut text, "/");
                push_str(&mut text, stem.as_str());
                match parse_cpv(text.as_str()) {
                    Ok(cpv) => Some(Ebuild::new(cpv, path)),
                    Err(_) => None,
                }
            },
        }
    }
}


// ───────────────────────────── the EAPI of an ebuild ────────────────────────

/// A space or tab.
pub open spec fn is_hws(c: char) -> bool {
    c == ' ' || c == '\t'
}

/// A character of an EAPI name: `[A-Za-z0-9+_.-]`.
pub open spec fn is_eapi_char(c: char) -> bool {
    crate::pms::is_flag_char(c)
}

/// The number of leading characters of `s` that satisfy `hws` (spaces and
/// tabs) or, when `hws` is false, that are EAPI name characters.
pub open spec fn run_len(s: Seq<char>, hws: bool) -> nat
    decreases s.len(),
{
    if s.len() > 0 && (if hws {
        is_hws(s[0])
    } else {
        is_eapi_char(s[0])
    }) {
        1 + run_len(s.drop_first(), hws)
    } else {
        0
    }
}

/// What may follow the value on an `EAPI=` line: spaces and tabs, then
/// nothing or a comment after at least one of them.
pub open spec fn eapi_tail_ok(t: Seq<char>) -> bool {
    let w = run_len(t, true);
    w == t.len() || (w > 0 && t[w as int] == '#')
}

/// The value an assignment line gives `EAPI`, following the pattern
/// `^[ \t]*EAPI=(['"]?)([A-Za-z0-9+_.-]*)\1[ \t]*([ \t]#.*)?$` of PMS 7.3.1;
/// `None` when the line does not have that form.
pub open spec fn eapi_assignment(l: Seq<char>) -> Option<Seq<char>> {
    let a = l.skip(run_len(l, true) as int);
    if !crate::text::has_prefix(a, "EAPI="@) {
        None
    } else {
        let r = a.skip(5);
        if r.len() > 0 && (r[0] == '\'' || r[0] == '"') {
            let body = r.skip(1);
            let n = run_len(body, false);
            let after = body.skip(n as int);
            if after.len() > 0 && after[0] == r[0] && eapi_tail_ok(after.skip(1)) {
                Some(body.take(n as int))
            } else {
                None
            }
        } else {
            let n = run_len(r, false);
            if eapi_tail_ok(r.skip(n as int)) {
                Some(r.take(n as int))
            } else {
                None
            }
        }
    }
}

/// A line that is blank or a `#` comment (after leading whitespace).
pub open spec fn blank_or_comment(l: Seq<char>) -> bool {
    let t = crate::text::trim_start(l);
    t.len() == 0 || t[0] == '#'
}

/// The value of the first `EAPI=` line, when it is the first line that is
/// neither blank nor a comment; `None` otherwise.
pub open spec fn eapi_declared(ls: Seq<Seq<char>>) -> Option<Seq<char>>
    decreases ls.len(),
{
    if ls.len() == 0 {
        None
    } else if blank_or_comment(ls[0]) {
        eapi_declared(ls.drop_first())
    } else {
        eapi_assignment(ls[0])
    }
}

/// The EAPI of an ebuild (PMS 7.3.1): the value declared on its first
/// line that is neither blank nor a comment, when that line assigns `EAPI`;
/// EAPI 0 otherwise. A declared value that names no known EAPI is an error.
pub open spec fn detect_eapi_spec(text: Seq<char>) -> Result<crate::eapi::Eapi, Seq<char>> {
    match eapi_declared(crate::text::lines(text)) {
        None => Ok(crate::eapi::Eapi::Zero),
        Some(v) => match crate::eapi::eapi_named(v) {
            Some(e) => Ok(e),
            None => Err("invalid EAPI: "@ + v),
        },
    }
}

/// Whether `c` continues a run of spaces and tabs (`hws`) or of EAPI name
/// characters.
fn run_char(c: char, hws: bool) -> (r: bool)
    ensures
        r == (if hws {
            is_hws(c)
        } else {
            is_eapi_char(c)
        }),
{
    if hws {
        c == ' ' || c == '\t'
    } else {
        crate::pms::flag_char(c)
    }
}

/// The length of the run at the start of `s[from..]`.
fn run_at(s: &[char], from: usize, hws: bool) -> (r: usize)
    requires
        from <= s@.len(),
    ensures
        from + r <= s@.len(),
        r == run_len(s@.skip(from as int), hws),
{
    let mut i = from;
    while i < s.len() && run_char(s[i], hws)
        invariant
            from <= i <= s@.len(),
            run_len(s@.skip(from as int), hws) == (i - from) + run_len(s@.skip(i as int), hws),
        decreases s@.len() - i,
    {
        assert(s@.skip(i as int).drop_first() =~= s@.skip(i + 1));
        i += 1;
    }
    i - from
}

/// Whether the text from `from` on may follow the value.
fn tail_ok_at(s: &[char], from: usize) -> (r: bool)
    requires
        from <= s@.len(),
    ensures
        r == eapi_tail_ok(s@.skip(from as int)),
{
    let w = run_at(s, from, true);
    w == s.len() - from || (w > 0 && s[from + w] == '#')
}

/// The value of a quoted assignment whose opening quote is at `start`.
fn quoted_value(l: &[char], start: usize) -> (r: Option<Vec<char>>)
    requires
        start < l@.len(),
    ensures
        ({
            let r0 = l@.skip(start as int);
            let body = r0.skip(1);
            let n = run_len(body, false);
            let after = body.skip(n as int);
            if after.len() > 0 && after[0] == r0[0] && eapi_tail_ok(after.skip(1)) {
                r matches Some(x) && x@ == body.take(n as int)
            } else {
                r is None
            }
        }),
{
    let n = l.len();
    let q = l[start];
    let body = start + 1;
    let m = run_at(l, body, false);
    assert(l@.skip(start as int).skip(1) =~= l@.skip(body as int));
    let after = body + m;
    assert(l@.skip(body as int).skip(m as int) =~= l@.skip(after as int));
    if after < n && l[after] == q {
        assert(l@.skip(after as int).skip(1) =~= l@.skip(after + 1));
        if tail_ok_at(l, after + 1) {
            let v = crate::text::slice_range(l, body, after);
            assert(v@ =~= l@.skip(body as int).take(m as int));
            return Some(v);
        }
    }
    None
}

/// The value of an unquoted assignment whose value starts at `start`.
fn plain_value(l: &[char], start: usize) -> (r: Option<Vec<char>>)
    requires
        start <= l@.len(),
    ensures
        ({
            let r0 = l@.skip(start as int);
            let n = run_len(r0, false);
            if eapi_tail_ok(r0.skip(n as int)) {
                r matches Some(x) && x@ == r0.take(n as int)
            } else {
                r is None
            }
        }),
{
    let n = l.len();
    let m = run_at(l, start, false);
    assert(start + m <= n);
    let after = start + m;
    assert(l@.skip(start as int).skip(m as int) =~= l@.skip(after as int));
    if tail_ok_at(l, after) {
        let v = crate::text::slice_range(l, start, after);
        assert(v@ =~= l@.skip(start as int).take(m as int));
        Some(v)
    } else {
        None
    }
}

/// The value a line assigns to `EAPI`, if it is an assignment line.
pub fn eapi_assignment_of(l: &[char]) -> (r: Option<Vec<char>>)
    ensures
        match eapi_assignment(l@) {
            Some(v) => r matches Some(x) && x@ == v,
            None => r is None,
        },
{
    let n = l.len();
    assert(l@.skip(0) =~= l@);
    let a = run_at(l, 0, true);
    let rest = crate::text::slice_range(l, a, n);
    assert(rest@ =~= l@.skip(a as int));
    let pre = chars_of("EAPI=");
    if !crate::text::starts_with(rest.as_slice(), pre.as_slice()) {
        return None;
    }
    proof {
        reveal_strlit("EAPI=");
    }
    let start = a + 5;
    assert(l@.skip(a as int).skip(5) =~= l@.skip(start as int));
    if start < n && (l[start] == '\'' || l[start] == '"') {
        quoted_value(l, start)
    } else {
        plain_value(l, start)
    }
}

/// Whether a line is blank or a comment.
fn blank_or_comment_of(l: &[char]) -> (r: bool)
    ensures
        r == blank_or_comment(l@),
{
    let t = crate::text::trim_start_chars(l);
    t.len() == 0 || t[0] == '#'
}

/// The EAPI of an ebuild, given its text (PMS 7.3.1).
pub fn detect_eapi(text: &str) -> (r: Result<crate::eapi::Eapi, RepoError>)
    ensures
        match detect_eapi_spec(text@) {
            Ok(e) => r == Ok::<crate::eapi::Eapi, RepoError>(e),
            Err(m) => r matches Err(RepoError::Metadata(msg)) && msg@ == m,
        },
{
    let ls = crate::text::split_lines(chars_of(text).as_slice());
    let ghost all = crate::text::lines(text@);
    let mut i: usize = 0;
    assert(all.skip(0) =~= all);
    while i < ls.len() && blank_or_comment_of(ls[i].as_slice())
        invariant
            i <= ls@.len(),
            ls@.len() == all.len(),
            forall|k: int| 0 <= k < ls@.len() ==> #[trigger] ls@[k]@ == all[k],
            eapi_declared(all) == eapi_declared(all.skip(i as int)),
        decreases ls@.len() - i,
    {
        assert(all.skip(i as int).drop_first() =~= all.skip(i + 1));
        i += 1;
    }
    let ghost rest = all.skip(i as int);
    let declared = if i < ls.len() {
        assert(rest[0] == ls@[i as int]@);
        eapi_assignment_of(ls[i].as_slice())
    } else {
        None
    };
    match declared {
        None => Ok(crate::eapi::Eapi::Zero),
        Some(v) => {
            let vs = string_of(v.as_slice());
            match crate::eapi::Eapi::parse(vs.as_str()) {
                Some(e) => Ok(e),
                None => {
                    let mut m = String::new();
                    push_str(&mut m, "invalid EAPI: ");
                    push_str(&mut m, vs.as_str());
                    Err(RepoError::Metadata(m))
                },
            }
        },
    }
}

} // verus!
