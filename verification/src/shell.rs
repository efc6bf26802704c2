//! What the ebuild shell is told: the package-manager variables set before an
//! ebuild is sourced (PMS 11.1), how the accumulating variables are reset and
//! recombined (PMS 10.2), which metadata values are read back (PMS 7), the
//! phases an ebuild defines (PMS 7.4) and the eclass search path.
use vstd::prelude::*;

use crate::eapi::{eapi_level, eapi_name, Eapi};
use crate::inherit::{accum_vars, accum_vars_spec, eclass_total_var, eclass_total_var_spec};
use crate::pms::join_spaces;
use crate::text::{
    chars_of, decimal, has_suffix, join_with, push_chars, push_str, split_words, string_of,
    trim, trim_chars, words,
};
use crate::cache::{
    entry_fields, entry_from_pairs, entry_inherited, is_short_phase, kv_entry_fields, phases_field,
    set_defined_phases, set_eapi, set_inherited, MetadataEntry,
};
use crate::error::RepoError;
use crate::util::{join, join_path, strings_view};

verus! {

// ───────────────────────────── versions ─────────────────────────────────────

/// `PR`: `r` and the revision number (`r0` when there is none).
pub open spec fn pr_of(revision: u64) -> Seq<char> {
    "r"@ + decimal(revision as nat)
}

/// `PV`: the full version `PVR` without its `-rN` suffix when the revision is
/// not zero.
pub open spec fn pv_of(pvr: Seq<char>, revision: u64) -> Seq<char> {
    let suffix = "-"@ + pr_of(revision);
    if revision > 0 && has_suffix(pvr, suffix) {
        pvr.take(pvr.len() - suffix.len())
    } else {
        pvr
    }
}

/// `(PV, PR)` from the version text and its revision.
pub fn version_parts(pvr: &str, revision: u64) -> (r: (String, String))
    ensures
        r.0@ == pv_of(pvr@, revision),
        r.1@ == pr_of(revision),
{
    let mut prv: Vec<char> = Vec::new();
    prv.push('r');
    crate::text::push_decimal(&mut prv, revision);
    let pr = string_of(prv.as_slice());
    proof {
        reveal_strlit("r");
        assert(pr@ =~= pr_of(revision));
    }
    let p = chars_of(pvr);
    let mut suffix = String::new();
    push_str(&mut suffix, "-");
    push_str(&mut suffix, pr.as_str());
    let pv = if revision > 0 {
        match crate::text::strip_suffix(p.as_slice(), suffix.as_str()) {
            Some(stripped) => string_of(stripped.as_slice()),
            None => pvr.to_owned(),
        }
    } else {
        pvr.to_owned()
    };
    (pv, pr)
}

// ───────────────────────────── variables ────────────────────────────────────

/// Variable assignments as plain values.
pub open spec fn pairs_view(v: Seq<(String, String)>) -> Seq<(Seq<char>, Seq<char>)> {
    Seq::new(v.len(), |i: int| (v[i].0@, v[i].1@))
}

/// The package variables: `CATEGORY`, `PN`, `PV`, `PR`, `PVR`, `P`, `PF` and
/// `FILESDIR` (`repo/category/package/files`).
pub open spec fn package_vars_spec(
    category: Seq<char>,
    pn: Seq<char>,
    pvr: Seq<char>,
    revision: u64,
    repo: Seq<char>,
) -> Seq<(Seq<char>, Seq<char>)> {
    let pv = pv_of(pvr, revision);
    seq![
        ("CATEGORY"@, category),
        ("PN"@, pn),
        ("PV"@, pv),
        ("PR"@, pr_of(revision)),
        ("PVR"@, pvr),
        ("P"@, pn + "-"@ + pv),
        ("PF"@, pn + "-"@ + pvr),
        ("FILESDIR"@, join_path(join_path(join_path(repo, category), pn), "files"@)),
    ]
}

/// Append one assignment.
fn push_pair(v: &mut Vec<(String, String)>, name: &str, value: &str)
    ensures
        pairs_view(final(v)@) == pairs_view(old(v)@).push((name@, value@)),
{
    let ghost pre = v@;
    v.push((name.to_owned(), value.to_owned()));
    assert(pairs_view(v@) =~= pairs_view(pre).push((name@, value@)));
}

/// `a-b`.
fn dashed(a: &str, b: &str) -> (r: String)
    ensures
        r@ == a@ + "-"@ + b@,
{
    let mut s = String::new();
    push_str(&mut s, a);
    push_str(&mut s, "-");
    push_str(&mut s, b);
    s
}

/// The package variables of an ebuild, given its category, package name,
/// version text (`PVR`), revision and the repository path.
pub fn package_vars(category: &str, pn: &str, pvr: &str, revision: u64, repo_path: &str) -> (r: Vec<
    (String, String),
>)
    ensures
        pairs_view(r@) == package_vars_spec(category@, pn@, pvr@, revision, repo_path@),
{
    let (pv, pr) = version_parts(pvr, revision);
    let p = dashed(pn, pv.as_str());
    let pf = dashed(pn, pvr);
    let d1 = join(repo_path, category);
    let d2 = join(d1.as_str(), pn);
    let filesdir = join(d2.as_str(), "files");
    let mut v: Vec<(String, String)> = Vec::new();
    push_pair(&mut v, "CATEGORY", category);
    push_pair(&mut v, "PN", pn);
    push_pair(&mut v, "PV", pv.as_str());
    push_pair(&mut v, "PR", pr.as_str());
    push_pair(&mut v, "PVR", pvr);
    push_pair(&mut v, "P", p.as_str());
    push_pair(&mut v, "PF", pf.as_str());
    push_pair(&mut v, "FILESDIR", filesdir.as_str());
    assert(pairs_view(v@) =~= package_vars_spec(category@, pn@, pvr@, revision, repo_path@));
    v
}

/// `EAPI` and `EBUILD` (the absolute path of the ebuild file).
pub open spec fn ebuild_vars_spec(eapi: Eapi, ebuild_abs: Seq<char>) -> Seq<(Seq<char>, Seq<char>)> {
    seq![("EAPI"@, eapi_name(eapi)), ("EBUILD"@, ebuild_abs)]
}

/// The `EAPI` and `EBUILD` assignments.
pub fn ebuild_vars(eapi: Eapi, ebuild_abs: &str) -> (r: Vec<(String, String)>)
    ensures
        pairs_view(r@) == ebuild_vars_spec(eapi, ebuild_abs@),
{
    let mut v: Vec<(String, String)> = Vec::new();
    push_pair(&mut v, "EAPI", eapi.as_str());
    push_pair(&mut v, "EBUILD", ebuild_abs);
    assert(pairs_view(v@) =~= ebuild_vars_spec(eapi, ebuild_abs@));
    v
}

/// The variables that depend on the EAPI: the prefix variables from EAPI 3
/// on (`ED` is the image directory) and the sysroot variables from EAPI 7 on.
pub open spec fn eapi_dir_vars_spec(eapi: Eapi, image: Seq<char>) -> Seq<(Seq<char>, Seq<char>)> {
    (if eapi_level(eapi) >= 3 {
        seq![("EPREFIX"@, seq![]), ("ED"@, image), ("EROOT"@, "/"@)]
    } else {
        seq![]
    }) + (if eapi_level(eapi) >= 7 {
        seq![("SYSROOT"@, "/"@), ("ESYSROOT"@, "/"@), ("BROOT"@, "/"@)]
    } else {
        seq![]
    })
}

/// Append the EAPI-dependent directory variables.
fn push_eapi_dir_vars(v: &mut Vec<(String, String)>, eapi: Eapi, image: &str)
    ensures
        pairs_view(final(v)@) == pairs_view(old(v)@) + eapi_dir_vars_spec(eapi, image@),
{
    let ghost pre = pairs_view(v@);
    let level = eapi.level();
    proof {
        reveal_strlit("");
    }
    if level >= 3 {
        push_pair(v, "EPREFIX", "");
        push_pair(v, "ED", image);
        push_pair(v, "EROOT", "/");
    }
    let ghost mid = pairs_view(v@);
    assert(""@ =~= Seq::<char>::empty());
    assert(mid =~~= pre + (if eapi_level(eapi) >= 3 {
        seq![("EPREFIX"@, seq![]), ("ED"@, image@), ("EROOT"@, "/"@)]
    } else {
        seq![]
    }));
    if level >= 7 {
        push_pair(v, "SYSROOT", "/");
        push_pair(v, "ESYSROOT", "/");
        push_pair(v, "BROOT", "/");
    }
    assert(pairs_view(v@) =~= pre + eapi_dir_vars_spec(eapi, image@));
}

/// The build directory of metadata extraction: `/var/tmp/portage/cat/pf`.
pub open spec fn depend_base(category: Seq<char>, pf: Seq<char>) -> Seq<char> {
    "/var/tmp/portage/"@ + category + "/"@ + pf
}

/// The variables for metadata extraction (the `depend` phase): fixed,
/// deterministic build directories that are never created, `HOME` at
/// `/tmp`, and the phase and merge variables.
pub open spec fn depend_vars_spec(category: Seq<char>, p: Seq<char>, pf: Seq<char>, eapi: Eapi) -> Seq<
    (Seq<char>, Seq<char>),
> {
    let base = depend_base(category, pf);
    let workdir = base + "/work"@;
    seq![
        ("WORKDIR"@, workdir),
        ("S"@, workdir + "/"@ + p),
        ("T"@, base + "/temp"@),
        ("TMPDIR"@, base + "/temp"@),
        ("HOME"@, "/tmp"@),
        ("D"@, base + "/image/"@),
        ("DISTDIR"@, "/var/cache/distfiles"@),
        ("EBUILD_PHASE"@, "depend"@),
        ("EBUILD_PHASE_FUNC"@, seq![]),
        ("ROOT"@, "/"@),
        ("MERGE_TYPE"@, "source"@),
    ] + eapi_dir_vars_spec(eapi, base + "/image/"@)
}

/// The build variables for metadata extraction.
pub fn depend_vars(category: &str, p: &str, pf: &str, eapi: Eapi) -> (r: Vec<(String, String)>)
    ensures
        pairs_view(r@) == depend_vars_spec(category@, p@, pf@, eapi),
{
    let mut base = String::new();
    push_str(&mut base, "/var/tmp/portage/");
    push_str(&mut base, category);
    push_str(&mut base, "/");
    push_str(&mut base, pf);
    let mut workdir = String::new();
    push_str(&mut workdir, base.as_str());
    push_str(&mut workdir, "/work");
    let mut s = String::new();
    push_str(&mut s, workdir.as_str());
    push_str(&mut s, "/");
    push_str(&mut s, p);
    let mut temp = String::new();
    push_str(&mut temp, base.as_str());
    push_str(&mut temp, "/temp");
    let mut image = String::new();
    push_str(&mut image, base.as_str());
    push_str(&mut image, "/image/");
    let mut v: Vec<(String, String)> = Vec::new();
    push_pair(&mut v, "WORKDIR", workdir.as_str());
    push_pair(&mut v, "S", s.as_str());
    push_pair(&mut v, "T", temp.as_str());
    push_pair(&mut v, "TMPDIR", temp.as_str());
    push_pair(&mut v, "HOME", "/tmp");
    push_pair(&mut v, "D", image.as_str());
    push_pair(&mut v, "DISTDIR", "/var/cache/distfiles");
    push_pair(&mut v, "EBUILD_PHASE", "depend");
    proof {
        reveal_strlit("");
    }
    push_pair(&mut v, "EBUILD_PHASE_FUNC", "");
    push_pair(&mut v, "ROOT", "/");
    push_pair(&mut v, "MERGE_TYPE", "source");
    let ghost fixed = pairs_view(v@);
    let ghost base_v = depend_base(category@, pf@);
    assert(base@ =~= base_v);
    assert(workdir@ =~= base_v + "/work"@);
    assert(image@ =~= base_v + "/image/"@);
    assert(""@ =~= Seq::<char>::empty());
    assert(fixed =~~= seq![
        ("WORKDIR"@, base_v + "/work"@),
        ("S"@, base_v + "/work"@ + "/"@ + p@),
        ("T"@, base_v + "/temp"@),
        ("TMPDIR"@, base_v + "/temp"@),
        ("HOME"@, "/tmp"@),
        ("D"@, base_v + "/image/"@),
        ("DISTDIR"@, "/var/cache/distfiles"@),
        ("EBUILD_PHASE"@, "depend"@),
        ("EBUILD_PHASE_FUNC"@, seq![]),
        ("ROOT"@, "/"@),
        ("MERGE_TYPE"@, "source"@),
    ]);
    push_eapi_dir_vars(&mut v, eapi, image.as_str());
    assert(pairs_view(v@) =~= depend_vars_spec(category@, p@, pf@, eapi));
    v
}

/// The directories a phase run creates under its root: `work`, `temp`,
/// `image` and `homedir`.
pub open spec fn build_dirs_spec(root: Seq<char>) -> Seq<Seq<char>> {
    seq![
        join_path(root, "work"@),
        join_path(root, "temp"@),
        join_path(root, "image"@),
        join_path(root, "homedir"@),
    ]
}

/// The build directories of a phase run.
pub fn build_dirs(work_root: &str) -> (r: Vec<String>)
    ensures
        strings_view(r@) == build_dirs_spec(work_root@),
{
    let mut v: Vec<String> = Vec::new();
    v.push(join(work_root, "work"));
    v.push(join(work_root, "temp"));
    v.push(join(work_root, "image"));
    v.push(join(work_root, "homedir"));
    assert(strings_view(v@) =~= build_dirs_spec(work_root@));
    v
}

/// The variables of a phase run under `root`: the real build directories,
/// the phase and its function, and the merge variables.
pub open spec fn phase_vars_spec(root: Seq<char>, p: Seq<char>, phase: Seq<char>, eapi: Eapi) -> Seq<
    (Seq<char>, Seq<char>),
> {
    let workdir = join_path(root, "work"@);
    let temp = join_path(root, "temp"@);
    let image = join_path(root, "image"@) + "/"@;
    let pf = crate::pms::phase_to_func_spec(phase);
    seq![
        ("WORKDIR"@, workdir),
        ("S"@, join_path(workdir, p)),
        ("T"@, temp),
        ("TMPDIR"@, temp),
        ("HOME"@, join_path(root, "homedir"@)),
        ("D"@, image),
        ("DISTDIR"@, "/var/cache/distfiles"@),
        ("EBUILD_PHASE"@, pf.0),
        ("EBUILD_PHASE_FUNC"@, pf.1),
        ("ROOT"@, "/"@),
        ("MERGE_TYPE"@, "source"@),
    ] + eapi_dir_vars_spec(eapi, image)
}

/// The build variables of a phase run.
pub fn phase_vars(work_root: &str, p: &str, phase: &str, eapi: Eapi) -> (r: Vec<(String, String)>)
    ensures
        pairs_view(r@) == phase_vars_spec(work_root@, p@, phase@, eapi),
{
    let workdir = join(work_root, "work");
    let s = join(workdir.as_str(), p);
    let temp = join(work_root, "temp");
    let home = join(work_root, "homedir");
    let mut image = join(work_root, "image");
    push_str(&mut image, "/");
    let (phase_val, func) = crate::pms::phase_to_func(phase);
    let mut v: Vec<(String, String)> = Vec::new();
    push_pair(&mut v, "WORKDIR", workdir.as_str());
    push_pair(&mut v, "S", s.as_str());
    push_pair(&mut v, "T", temp.as_str());
    push_pair(&mut v, "TMPDIR", temp.as_str());
    push_pair(&mut v, "HOME", home.as_str());
    push_pair(&mut v, "D", image.as_str());
    push_pair(&mut v, "DISTDIR", "/var/cache/distfiles");
    push_pair(&mut v, "EBUILD_PHASE", phase_val.as_str());
    push_pair(&mut v, "EBUILD_PHASE_FUNC", func.as_str());
    push_pair(&mut v, "ROOT", "/");
    push_pair(&mut v, "MERGE_TYPE", "source");
    push_eapi_dir_vars(&mut v, eapi, image.as_str());
    assert(pairs_view(v@) =~= phase_vars_spec(work_root@, p@, phase@, eapi));
    v
}

// ───────────────────────────── accumulating variables ───────────────────────

/// Each accumulating variable followed by the variable of its eclass total.
pub open spec fn with_totals(vars: Seq<Seq<char>>) -> Seq<Seq<char>>
    decreases vars.len(),
{
    if vars.len() == 0 {
        seq![]
    } else {
        with_totals(vars.drop_last()) + seq![vars.last(), eclass_total_var_spec(vars.last())]
    }
}

/// The variables emptied before an ebuild is sourced: each accumulating
/// variable and its eclass total, then `INHERIT` and `INHERITED`.
pub open spec fn reset_vars_spec(eapi: Eapi) -> Seq<Seq<char>> {
    with_totals(accum_vars_spec(eapi_level(eapi) as u32)) + seq!["INHERIT"@, "INHERITED"@]
}

/// The variables to empty before an ebuild is sourced.
pub fn reset_vars(eapi: Eapi) -> (r: Vec<String>)
    ensures
        strings_view(r@) == reset_vars_spec(eapi),
{
    let vars = accum_vars(eapi.level());
    let ghost want = accum_vars_spec(eapi_level(eapi) as u32);
    let mut out: Vec<String> = Vec::new();
    let mut i: usize = 0;
    while i < vars.len()
        invariant
            want == accum_vars_spec(eapi_level(eapi) as u32),
            vars@.len() == want.len(),
            forall|k: int| 0 <= k < vars@.len() ==> #[trigger] vars@[k]@ == want[k],
            i <= vars@.len(),
            strings_view(out@) == with_totals(want.take(i as int)),
        decreases vars@.len() - i,
    {
        let ghost pre = strings_view(out@);
        let name = vars[i];
        out.push(name.to_owned());
        out.push(eclass_total_var(name));
        proof {
            assert(want.take(i + 1).drop_last() =~= want.take(i as int));
            assert(want.take(i + 1).last() == want[i as int]);
            assert(strings_view(out@) =~= pre + seq![want[i as int], eclass_total_var_spec(want[i as int])]);
        }
        i += 1;
    }
    assert(want.take(i as int) =~= want);
    let ghost before = strings_view(out@);
    out.push("INHERIT".to_owned());
    out.push("INHERITED".to_owned());
    assert(strings_view(out@) =~= before + seq!["INHERIT"@, "INHERITED"@]);
    out
}

/// The `shopt` command that sets `failglob` for an EAPI: on from EAPI 6.
pub fn failglob_command(eapi: Eapi) -> (r: &'static str)
    ensures
        r@ == (if eapi_level(eapi) >= 6 {
            "shopt -s failglob"@
        } else {
            "shopt -u failglob"@
        }),
{
    if eapi.level() >= 6 {
        "shopt -s failglob"
    } else {
        "shopt -u failglob"
    }
}

/// An accumulating variable after sourcing: what the ebuild set, followed by
/// the eclass total with surrounding whitespace removed.
pub open spec fn accumulate_spec(ebuild_val: Seq<char>, eclass_val: Seq<char>) -> Seq<char> {
    if ebuild_val.len() == 0 {
        if eclass_val.len() == 0 {
            seq![]
        } else {
            trim(eclass_val)
        }
    } else if eclass_val.len() == 0 {
        ebuild_val
    } else {
        ebuild_val + " "@ + trim(eclass_val)
    }
}

/// Combine the ebuild's value of an accumulating variable with the eclass
/// total (unset variables read as empty).
pub fn accumulate(ebuild_val: Option<&str>, eclass_val: Option<&str>) -> (r: String)
    ensures
        r@ == accumulate_spec(
            match crate::util::opt_view(ebuild_val) { Some(s) => s, None => seq![] },
            match crate::util::opt_view(eclass_val) { Some(s) => s, None => seq![] },
        ),
{
    let e = match ebuild_val {
        Some(s) => s,
        None => "",
    };
    let c = match eclass_val {
        Some(s) => s,
        None => "",
    };
    proof {
        reveal_strlit("");
    }
    let ct = trim_chars(chars_of(c).as_slice());
    if e.is_empty() {
        if c.is_empty() {
            String::new()
        } else {
            string_of(ct.as_slice())
        }
    } else if c.is_empty() {
        e.to_owned()
    } else {
        let mut s = String::new();
        push_str(&mut s, e);
        push_str(&mut s, " ");
        push_chars(&mut s, ct.as_slice());
        s
    }
}

// ───────────────────────────── metadata ─────────────────────────────────────

/// The metadata variables read back after sourcing (PMS 7).
pub open spec fn metadata_vars_spec() -> Seq<Seq<char>> {
    seq![
        "DESCRIPTION"@,
        "HOMEPAGE"@,
        "SRC_URI"@,
        "LICENSE"@,
        "SLOT"@,
        "KEYWORDS"@,
        "IUSE"@,
        "REQUIRED_USE"@,
        "RESTRICT"@,
        "PROPERTIES"@,
        "DEPEND"@,
        "RDEPEND"@,
        "BDEPEND"@,
        "PDEPEND"@,
        "IDEPEND"@,
        "INHERIT"@,
        "INHERITED"@,
    ]
}

/// The metadata variable names.
pub fn metadata_vars() -> (r: Vec<&'static str>)
    ensures
        r@.len() == metadata_vars_spec().len(),
        forall|i: int| 0 <= i < r@.len() ==> #[trigger] r@[i]@ == metadata_vars_spec()[i],
{
    let mut v: Vec<&'static str> = Vec::new();
    v.push("DESCRIPTION");
    v.push("HOMEPAGE");
    v.push("SRC_URI");
    v.push("LICENSE");
    v.push("SLOT");
    v.push("KEYWORDS");
    v.push("IUSE");
    v.push("REQUIRED_USE");
    v.push("RESTRICT");
    v.push("PROPERTIES");
    v.push("DEPEND");
    v.push("RDEPEND");
    v.push("BDEPEND");
    v.push("PDEPEND");
    v.push("IDEPEND");
    v.push("INHERIT");
    v.push("INHERITED");
    v
}

/// Whether a value holds a newline, carriage return or tab.
pub open spec fn has_layout_char(s: Seq<char>) -> bool {
    s.contains('\n') || s.contains('\r') || s.contains('\t')
}

/// The value recorded for a metadata variable: nothing when it is unset or
/// empty; `DESCRIPTION`, and any value with a newline, carriage return or
/// tab, with its words joined by single spaces; nothing when that leaves it
/// empty.
pub open spec fn metadata_value_spec(var: Seq<char>, value: Option<Seq<char>>) -> Option<Seq<char>> {
    match value {
        None => None,
        Some(v) => if v.len() == 0 {
            None
        } else {
            let n = if var == "DESCRIPTION"@ || has_layout_char(v) {
                join_spaces(words(v, true))
            } else {
                v
            };
            if n.len() == 0 {
                None
            } else {
                Some(n)
            }
        },
    }
}

/// The value recorded for a metadata variable.
pub fn metadata_value(var: &str, value: Option<&str>) -> (r: Option<String>)
    ensures
        match metadata_value_spec(var@, crate::util::opt_view(value)) {
            Some(n) => r matches Some(s) && s@ == n,
            None => r is None,
        },
{
    let v = match value {
        None => {
            return None;
        },
        Some(v) => v,
    };
    if v.is_empty() {
        return None;
    }
    let vc = chars_of(v);
    let is_desc = crate::text::eq_str(chars_of(var).as_slice(), "DESCRIPTION");
    let layout = crate::text::contains_char(vc.as_slice(), '\n') || crate::text::contains_char(
        vc.as_slice(),
        '\r',
    ) || crate::text::contains_char(vc.as_slice(), '\t');
    let n = if is_desc || layout {
        let ws = split_words(vc.as_slice(), true);
        let mut strs: Vec<String> = Vec::new();
        let mut i: usize = 0;
        while i < ws.len()
            invariant
                vc@ == v@,
                i <= ws@.len(),
                ws@.len() == words(v@, true).len(),
                forall|k: int| 0 <= k < ws@.len() ==> #[trigger] ws@[k]@ == words(v@, true)[k],
                strings_view(strs@) == words(v@, true).take(i as int),
            decreases ws@.len() - i,
        {
            let ghost pre = strs@;
            assert(ws@[i as int]@ == words(v@, true)[i as int]);
            strs.push(string_of(ws[i].as_slice()));
            proof {
                assert(strings_view(strs@) =~= strings_view(pre).push(words(v@, true)[i as int]));
                assert(words(v@, true).take(i + 1) =~= words(v@, true).take(i as int).push(
                    words(v@, true)[i as int],
                ));
            }
            i += 1;
        }
        assert(words(v@, true).take(i as int) =~= words(v@, true));
        crate::pms::join_with_spaces(&strs)
    } else {
        v.to_owned()
    };
    if n.as_str().is_empty() {
        None
    } else {
        Some(n)
    }
}

/// Optional strings as optional character sequences.
pub open spec fn opt_strings_view(v: Seq<Option<String>>) -> Seq<Option<Seq<char>>> {
    Seq::new(
        v.len(),
        |i: int|
            match v[i] {
                Some(s) => Some(s@),
                None => None,
            },
    )
}

/// The `(variable, value)` pairs handed to the metadata parser: for each
/// metadata variable in order, its recorded value when there is one.
/// `values[i]` is the shell's value of `metadata_vars_spec()[i]`.
pub open spec fn metadata_pairs_spec(values: Seq<Option<Seq<char>>>) -> Seq<(Seq<char>, Seq<char>)>
    decreases values.len(),
{
    if values.len() == 0 {
        seq![]
    } else {
        let i = values.len() - 1;
        metadata_pairs_spec(values.drop_last()) + match metadata_value_spec(
            metadata_vars_spec()[i],
            values[i],
        ) {
            Some(v) => seq![(metadata_vars_spec()[i], v)],
            None => seq![],
        }
    }
}

/// The `(variable, value)` pairs of the metadata variables that have a
/// recorded value, given the shell's value of each variable of
/// [`metadata_vars`] in that order.
pub fn metadata_pairs(values: &Vec<Option<String>>) -> (r: Vec<(String, String)>)
    requires
        values@.len() == metadata_vars_spec().len(),
    ensures
        pairs_view(r@) == metadata_pairs_spec(opt_strings_view(values@)),
{
    let vars = metadata_vars();
    let ghost vv = opt_strings_view(values@);
    let mut out: Vec<(String, String)> = Vec::new();
    let mut i: usize = 0;
    while i < values.len()
        invariant
            i <= values@.len(),
            values@.len() == metadata_vars_spec().len(),
            vars@.len() == metadata_vars_spec().len(),
            forall|k: int| 0 <= k < vars@.len() ==> #[trigger] vars@[k]@ == metadata_vars_spec()[k],
            vv == opt_strings_view(values@),
            pairs_view(out@) == metadata_pairs_spec(vv.take(i as int)),
        decreases values@.len() - i,
    {
        let ghost pre = pairs_view(out@);
        assert(vv.take(i + 1).drop_last() =~= vv.take(i as int));
        let v: Option<&str> = match &values[i] {
            Some(s) => Some(s.as_str()),
            None => None,
        };
        assert(crate::util::opt_view(v) == vv[i as int]);
        match metadata_value(vars[i], v) {
            Some(n) => {
                out.push((vars[i].to_owned(), n));
                assert(pairs_view(out@) =~= pre + seq![(metadata_vars_spec()[i as int], n@)]);
            },
            None => {
                assert(pairs_view(out@) =~= pre + seq![]);
            },
        }
        i += 1;
    }
    assert(vv.take(i as int) =~= vv);
    out
}

/// The metadata of a sourced ebuild: the recorded values of the metadata
/// variables (`values[i]` is the shell's value of `metadata_vars_spec()[i]`)
/// handed to `portage_metadata`, with the defined phases (`defined[i]` tells
/// whether the function of entry `i` of [`phase_names`] exists), the EAPI
/// detected before sourcing and the inherited eclasses (the words of
/// `inherited`). It fails exactly when `portage_metadata` refuses the pairs.
pub fn ebuild_metadata(
    values: &Vec<Option<String>>,
    defined: &Vec<bool>,
    eapi: Eapi,
    inherited: &str,
) -> (r: Result<MetadataEntry, RepoError>)
    requires
        values@.len() == metadata_vars_spec().len(),
        defined@.len() == phase_names_spec().len(),
    ensures
        match kv_entry_fields(metadata_pairs_spec(opt_strings_view(values@))) {
            Some(f) => r matches Ok(m) && entry_fields(m) == f.insert(
                "DEFINED_PHASES"@,
                phases_field(defined_phases_spec(defined@)),
            ).insert("EAPI"@, eapi_name(eapi)) && entry_inherited(m) == words(inherited@, true),
            None => r matches Err(RepoError::MetadataParse(_)),
        },
{
    let pairs = metadata_pairs(values);
    let mut entry = match entry_from_pairs(&pairs) {
        Ok(e) => e,
        Err(e) => {
            return Err(RepoError::MetadataParse(e));
        },
    };
    let ghost f0 = entry_fields(entry);
    let names = defined_phases(defined);
    proof {
        lemma_defined_phases_short(defined@);
        assert forall|k: int| 0 <= k < names@.len() implies is_short_phase(#[trigger] names@[k]@) by {
            assert(names@[k]@ == strings_view(names@)[k]);
        }
        assert forall|k: int| 0 <= k < names@.len() implies crate::cache::phase_name_known(
            #[trigger] names@[k]@,
        ) by {
            assert(is_short_phase(names@[k]@));
            let q = choose|q: int|
                0 <= q < phase_names_spec().len() && names@[k]@ == phase_names_spec()[q].0;
        }
    }
    match set_defined_phases(&mut entry, &names) {
        Ok(()) => {},
        Err(e) => {
            return Err(RepoError::MetadataParse(e));
        },
    }
    proof {
        crate::eapi::lemma_eapi_name_round_trip(eapi);
    }
    match set_eapi(&mut entry, eapi.as_str()) {
        Ok(()) => {},
        Err(e) => {
            return Err(RepoError::MetadataParse(e));
        },
    }
    let ws = split_words(chars_of(inherited).as_slice(), true);
    let mut eclasses: Vec<String> = Vec::new();
    let mut j: usize = 0;
    while j < ws.len()
        invariant
            j <= ws@.len(),
            ws@.len() == words(inherited@, true).len(),
            forall|k: int| 0 <= k < ws@.len() ==> #[trigger] ws@[k]@ == words(inherited@, true)[k],
            strings_view(eclasses@) == words(inherited@, true).take(j as int),
        decreases ws@.len() - j,
    {
        let ghost pre = strings_view(eclasses@);
        eclasses.push(string_of(ws[j].as_slice()));
        assert(strings_view(eclasses@) =~= pre.push(words(inherited@, true)[j as int]));
        assert(words(inherited@, true).take(j + 1) =~= words(inherited@, true).take(j as int).push(
            words(inherited@, true)[j as int],
        ));
        j += 1;
    }
    assert(words(inherited@, true).take(j as int) =~= words(inherited@, true));
    set_inherited(&mut entry, &eclasses);
    assert(entry_fields(entry) == f0.insert(
        "DEFINED_PHASES"@,
        phases_field(defined_phases_spec(defined@)),
    ).insert("EAPI"@, eapi_name(eapi)));
    Ok(entry)
}

/// Every defined phase is named by its short name.
proof fn lemma_defined_phases_short(defined: Seq<bool>)
    requires
        defined.len() <= phase_names_spec().len(),
    ensures
        forall|k: int|
            0 <= k < defined_phases_spec(defined).len() ==> is_short_phase(
                #[trigger] defined_phases_spec(defined)[k],
            ),
    decreases defined.len(),
{
    if defined.len() > 0 {
        let i = defined.len() - 1;
        let pre = defined_phases_spec(defined.drop_last());
        lemma_defined_phases_short(defined.drop_last());
        assert forall|k: int| 0 <= k < defined_phases_spec(defined).len() implies is_short_phase(
            #[trigger] defined_phases_spec(defined)[k],
        ) by {
            if k < pre.len() {
                assert(defined_phases_spec(defined)[k] == pre[k]);
            } else {
                assert(defined_phases_spec(defined)[k] == phase_names_spec()[i].0);
            }
        }
    }
}

// ───────────────────────────── defined phases ───────────────────────────────

/// The phase functions with their short names, ordered by short name (the
/// order of `DEFINED_PHASES`).
pub open spec fn phase_names_spec() -> Seq<(Seq<char>, Seq<char>)> {
    seq![
        ("compile"@, "src_compile"@),
        ("config"@, "pkg_config"@),
        ("configure"@, "src_configure"@),
        ("info"@, "pkg_info"@),
        ("install"@, "src_install"@),
        ("nofetch"@, "pkg_nofetch"@),
        ("postinst"@, "pkg_postinst"@),
        ("postrm"@, "pkg_postrm"@),
        ("preinst"@, "pkg_preinst"@),
        ("prepare"@, "src_prepare"@),
        ("prerm"@, "pkg_prerm"@),
        ("pretend"@, "pkg_pretend"@),
        ("setup"@, "pkg_setup"@),
        ("test"@, "src_test"@),
        ("unpack"@, "src_unpack"@),
    ]
}

/// The phase functions and their short names, in `DEFINED_PHASES` order.
pub fn phase_names() -> (r: Vec<(&'static str, &'static str)>)
    ensures
        r@.len() == phase_names_spec().len(),
        forall|i: int|
            0 <= i < r@.len() ==> (#[trigger] r@[i]).0@ == phase_names_spec()[i].0 && r@[i].1@
                == phase_names_spec()[i].1,
{
    let mut v: Vec<(&'static str, &'static str)> = Vec::new();
    v.push(("compile", "src_compile"));
    v.push(("config", "pkg_config"));
    v.push(("configure", "src_configure"));
    v.push(("info", "pkg_info"));
    v.push(("install", "src_install"));
    v.push(("nofetch", "pkg_nofetch"));
    v.push(("postinst", "pkg_postinst"));
    v.push(("postrm", "pkg_postrm"));
    v.push(("preinst", "pkg_preinst"));
    v.push(("prepare", "src_prepare"));
    v.push(("prerm", "pkg_prerm"));
    v.push(("pretend", "pkg_pretend"));
    v.push(("setup", "pkg_setup"));
    v.push(("test", "src_test"));
    v.push(("unpack", "src_unpack"));
    v
}

/// The short names of the defined phases, in table order: `defined[i]`
/// tells whether the function of entry `i` of the table exists.
pub open spec fn defined_phases_spec(defined: Seq<bool>) -> Seq<Seq<char>>
    decreases defined.len(),
{
    if defined.len() == 0 {
        seq![]
    } else {
        let i = defined.len() - 1;
        defined_phases_spec(defined.drop_last()) + if defined[i] {
            seq![phase_names_spec()[i].0]
        } else {
            seq![]
        }
    }
}

/// `DEFINED_PHASES`: the short names of the phase functions that exist,
/// ordered by name.
pub fn defined_phases(defined: &Vec<bool>) -> (r: Vec<String>)
    requires
        defined@.len() == phase_names_spec().len(),
    ensures
        strings_view(r@) == defined_phases_spec(defined@),
{
    let table = phase_names();
    let mut out: Vec<String> = Vec::new();
    let mut i: usize = 0;
    while i < defined.len()
        invariant
            defined@.len() == phase_names_spec().len(),
            table@.len() == phase_names_spec().len(),
            forall|k: int|
                0 <= k < table@.len() ==> (#[trigger] table@[k]).0@ == phase_names_spec()[k].0,
            i <= defined@.len(),
            strings_view(out@) == defined_phases_spec(defined@.take(i as int)),
        decreases defined@.len() - i,
    {
        let ghost pre = strings_view(out@);
        assert(defined@.take(i + 1).drop_last() =~= defined@.take(i as int));
        if defined[i] {
            let (short, _) = table[i];
            out.push(short.to_owned());
            assert(strings_view(out@) =~= pre + seq![phase_names_spec()[i as int].0]);
        } else {
            assert(strings_view(out@) =~= pre + seq![]);
        }
        i += 1;
    }
    assert(defined@.take(i as int) =~= defined@);
    out
}

// ───────────────────────────── eclass directories ───────────────────────────

/// The eclass directories searched, in order.
pub struct EclassDirs {
    dirs: Vec<String>,
}

impl View for EclassDirs {
    type V = Seq<Seq<char>>;

    closed spec fn view(&self) -> Seq<Seq<char>> {
        strings_view(self.dirs@)
    }
}

impl EclassDirs {
    /// The directories of a new shell: the repository's `eclass/` when it is
    /// a directory, none otherwise.
    pub fn new(repo_path: &str, eclass_dir_exists: bool) -> (r: Self)
        ensures
            r@ == (if eclass_dir_exists {
                seq![join_path(repo_path@, "eclass"@)]
            } else {
                seq![]
            }),
    {
        let mut dirs: Vec<String> = Vec::new();
        if eclass_dir_exists {
            dirs.push(join(repo_path, "eclass"));
        }
        let r = EclassDirs { dirs };
        assert(r@ =~= (if eclass_dir_exists {
            seq![join_path(repo_path@, "eclass"@)]
        } else {
            seq![]
        }));
        r
    }

    /// Append a directory, searched after the others.
    pub fn add_eclass_dir(&mut self, dir: &str)
        ensures
            final(self)@ == old(self)@.push(dir@),
    {
        let ghost pre = self.dirs@;
        self.dirs.push(dir.to_owned());
        assert(strings_view(self.dirs@) =~= strings_view(pre).push(dir@));
    }

    /// Prepend a directory, searched before the others.
    pub fn prepend_eclass_dir(&mut self, dir: &str)
        ensures
            final(self)@ == seq![dir@] + old(self)@,
    {
        let ghost pre = self.dirs@;
        self.dirs.insert(0, dir.to_owned());
        assert(strings_view(self.dirs@) =~= seq![dir@] + strings_view(pre));
    }

    /// Put master repositories' eclass directories in front, the first
    /// master first (searched before the others).
    pub fn prepend_masters(&mut self, master_dirs: &Vec<String>)
        ensures
            final(self)@ == strings_view(master_dirs@) + old(self)@,
    {
        let mut i = master_dirs.len();
        while i > 0
            invariant
                i <= master_dirs@.len(),
                self@ == strings_view(master_dirs@).skip(i as int) + old(self)@,
            decreases i,
        {
            i -= 1;
            let ghost pre = self@;
            self.prepend_eclass_dir(master_dirs[i].as_str());
            assert(strings_view(master_dirs@).skip(i as int) =~= seq![master_dirs@[i as int]@]
                + strings_view(master_dirs@).skip(i + 1));
        }
        assert(strings_view(master_dirs@).skip(0) =~= strings_view(master_dirs@));
    }

    /// The directories, in search order.
    pub fn dirs(&self) -> (r: &Vec<String>)
        ensures
            strings_view(r@) == self@,
    {
        &self.dirs
    }

    /// The value of `__PORTAGE_ECLASS_DIRS`: the directories joined by `:`.
    pub fn value(&self) -> (r: String)
        ensures
            r@ == join_with(self@, ':'),
    {
        crate::text::join_strings(&self.dirs, ':')
    }

    /// The files an eclass is looked for in, in search order.
    pub fn eclass_files(&self, name: &str) -> (r: Vec<String>)
        ensures
            strings_view(r@) == self@.map_values(|dir: Seq<char>| join_path(dir, name@ + ".eclass"@)),
    {
        let mut file = String::new();
        push_str(&mut file, name);
        push_str(&mut file, ".eclass");
        let ghost want = self@.map_values(|dir: Seq<char>| join_path(dir, name@ + ".eclass"@));
        let mut out: Vec<String> = Vec::new();
        let mut i: usize = 0;
        while i < self.dirs.len()
            invariant
                file@ == name@ + ".eclass"@,
                want == self@.map_values(|dir: Seq<char>| join_path(dir, name@ + ".eclass"@)),
                self@ == strings_view(self.dirs@),
                i <= self.dirs@.len(),
                strings_view(out@) == want.take(i as int),
            decreases self.dirs@.len() - i,
        {
            let ghost pre = out@;
            out.push(join(self.dirs[i].as_str(), file.as_str()));
            proof {
                assert(strings_view(out@) =~= strings_view(pre).push(want[i as int]));
                assert(want.take(i + 1) =~= want.take(i as int).push(want[i as int]));
            }
            i += 1;
        }
        assert(want.take(i as int) =~= want);
        out
    }
}


// ───────────────────────────── build environment ────────────────────────────

/// The command that wires up the defaults of a phase function:
/// `__ebuild_phase_funcs EAPI func`.
pub fn phase_funcs_call(eapi: Eapi, func: &str) -> (r: String)
    ensures
        r@ == "__ebuild_phase_funcs "@ + eapi_name(eapi) + " "@ + func@,
{
    let mut s = String::new();
    push_str(&mut s, "__ebuild_phase_funcs ");
    push_str(&mut s, eapi.as_str());
    push_str(&mut s, " ");
    push_str(&mut s, func);
    s
}

/// The warning for a phase whose function the ebuild does not define.
pub fn phase_missing_message(func: &str) -> (r: String)
    ensures
        r@ == "warning: "@ + func@ + " not defined, nothing to do"@,
{
    let mut s = String::new();
    push_str(&mut s, "warning: ");
    push_str(&mut s, func);
    push_str(&mut s, " not defined, nothing to do");
    s
}

/// `PATH` for a build: portage's `ebuild-helpers` first, then the caller's
/// `PATH` (`/usr/bin:/bin` when unset).
pub open spec fn build_path_spec(bin_path: Seq<char>, path: Option<Seq<char>>) -> Seq<char> {
    join_path(bin_path, "ebuild-helpers"@) + ":"@ + match path {
        Some(p) => p,
        None => "/usr/bin:/bin"@,
    }
}

/// The `PATH` of a build.
pub fn build_path(bin_path: &str, path: Option<&str>) -> (r: String)
    ensures
        r@ == build_path_spec(bin_path@, crate::util::opt_view(path)),
{
    let mut s = join(bin_path, "ebuild-helpers");
    push_str(&mut s, ":");
    match path {
        Some(p) => push_str(&mut s, p),
        None => push_str(&mut s, "/usr/bin:/bin"),
    }
    s
}

/// `DISTDIR` for a build: the caller's, or `.cache/distfiles` under `HOME`
/// (`/tmp` when unset).
pub open spec fn build_distdir_spec(distdir: Option<Seq<char>>, home: Option<Seq<char>>) -> Seq<char> {
    match distdir {
        Some(d) => d,
        None => (match home {
            Some(h) => h,
            None => "/tmp"@,
        }) + "/.cache/distfiles"@,
    }
}

/// The `DISTDIR` of a build.
pub fn build_distdir(distdir: Option<&str>, home: Option<&str>) -> (r: String)
    ensures
        r@ == build_distdir_spec(crate::util::opt_view(distdir), crate::util::opt_view(home)),
{
    match distdir {
        Some(d) => d.to_owned(),
        None => {
            let mut s = String::new();
            match home {
                Some(h) => push_str(&mut s, h),
                None => push_str(&mut s, "/tmp"),
            }
            push_str(&mut s, "/.cache/distfiles");
            s
        },
    }
}

/// The variables a build takes from the caller's environment when set.
pub open spec fn passthrough_vars_spec() -> Seq<Seq<char>> {
    seq![
        "MAKEOPTS"@,
        "CFLAGS"@,
        "CXXFLAGS"@,
        "CPPFLAGS"@,
        "LDFLAGS"@,
        "CC"@,
        "CXX"@,
        "AR"@,
        "RANLIB"@,
        "NM"@,
        "STRIP"@,
        "PKG_CONFIG"@,
    ]
}

/// The variables passed through to a build.
pub fn passthrough_vars() -> (r: Vec<&'static str>)
    ensures
        r@.len() == passthrough_vars_spec().len(),
        forall|i: int| 0 <= i < r@.len() ==> #[trigger] r@[i]@ == passthrough_vars_spec()[i],
{
    let mut v: Vec<&'static str> = Vec::new();
    v.push("MAKEOPTS");
    v.push("CFLAGS");
    v.push("CXXFLAGS");
    v.push("CPPFLAGS");
    v.push("LDFLAGS");
    v.push("CC");
    v.push("CXX");
    v.push("AR");
    v.push("RANLIB");
    v.push("NM");
    v.push("STRIP");
    v.push("PKG_CONFIG");
    v
}

/// The function libraries of portage a build sources, in order.
pub fn build_libraries() -> (r: Vec<&'static str>)
    ensures
        r@.len() == 3,
        r@[0]@ == "isolated-functions.sh"@,
        r@[1]@ == "phase-functions.sh"@,
        r@[2]@ == "phase-helpers.sh"@,
{
    let mut v: Vec<&'static str> = Vec::new();
    v.push("isolated-functions.sh");
    v.push("phase-functions.sh");
    v.push("phase-helpers.sh");
    v
}

/// Portage's script directory among the candidates (the directories of one
/// parent that hold `isolated-functions.sh`): the greatest name, `None` when
/// there is none.
pub fn pick_portage_bin(candidates: &Vec<String>) -> (r: Option<String>)
    ensures
        candidates@.len() == 0 <==> r is None,
        r matches Some(b) ==> strings_view(candidates@).contains(b@) && forall|i: int|
            0 <= i < candidates@.len() ==> crate::util::lex_le(#[trigger] candidates@[i]@, b@),
{
    if candidates.len() == 0 {
        return None;
    }
    let mut best: usize = 0;
    let mut i: usize = 1;
    proof {
        crate::util::lemma_lex_total(candidates@[0]@, candidates@[0]@);
    }
    while i < candidates.len()
        invariant
            1 <= i <= candidates@.len(),
            best < i,
            forall|k: int| 0 <= k < i ==> crate::util::lex_le(#[trigger] candidates@[k]@, candidates@[best as int]@),
        decreases candidates@.len() - i,
    {
        let a = chars_of(candidates[best].as_str());
        let b = chars_of(candidates[i].as_str());
        if crate::util::str_le(a.as_slice(), b.as_slice()) {
            proof {
                assert forall|k: int| 0 <= k < i + 1 implies crate::util::lex_le(#[trigger] candidates@[k]@, candidates@[i as int]@) by {
                    if k < i {
                        crate::util::lemma_lex_trans(candidates@[k]@, candidates@[best as int]@, candidates@[i as int]@);
                    } else {
                        crate::util::lemma_lex_total(candidates@[k]@, candidates@[k]@);
                    }
                }
            }
            best = i;
        } else {
            proof {
                crate::util::lemma_lex_total(candidates@[best as int]@, candidates@[i as int]@);
            }
        }
        i += 1;
    }
    assert(strings_view(candidates@)[best as int] == candidates@[best as int]@);
    Some(candidates[best].clone())
}

} // verus!
