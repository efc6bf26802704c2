//! `Manifest` files (GLEP 74).
use vstd::prelude::*;

use crate::error::RepoError;
use crate::text::{
    cat, chars_of, decimal, lines, parse_u64, parse_u64_spec, push_decimal, push_str, split_lines,
    split_words, string_of, trim, trim_chars, words, eq_str,
};

verus! {

/// A single entry in a `Manifest` file (GLEP 74).
#[derive(Debug, Clone, PartialEq)]
pub enum ManifestEntry {
    /// `DIST` — a distfile (downloaded source archive).
    Dist { filename: String, size: u64, hashes: Vec<(String, String)> },
    /// `DATA` / `EBUILD` / `MISC` / `AUX` — a tracked repo file.
    Data { path: String, size: u64, hashes: Vec<(String, String)> },
    /// `MANIFEST` — a sub-manifest reference.
    SubManifest { path: String, size: u64, hashes: Vec<(String, String)> },
    /// `IGNORE` — path excluded from manifest checks.
    Ignore { path: String },
    /// `TIMESTAMP` — last-updated RFC 3339 timestamp.
    Timestamp { value: String },
}

/// The mathematical content of a [`ManifestEntry`].
pub enum EntryModel {
    Dist { filename: Seq<char>, size: u64, hashes: Seq<(Seq<char>, Seq<char>)> },
    Data { path: Seq<char>, size: u64, hashes: Seq<(Seq<char>, Seq<char>)> },
    SubManifest { path: Seq<char>, size: u64, hashes: Seq<(Seq<char>, Seq<char>)> },
    Ignore { path: Seq<char> },
    Timestamp { value: Seq<char> },
}

pub open spec fn pairs_view(h: Seq<(String, String)>) -> Seq<(Seq<char>, Seq<char>)> {
    Seq::new(h.len(), |i: int| (h[i].0@, h[i].1@))
}

impl View for ManifestEntry {
    type V = EntryModel;

    open spec fn view(&self) -> EntryModel {
        match self {
            ManifestEntry::Dist { filename, size, hashes } => EntryModel::Dist {
                filename: filename@,
                size: *size,
                hashes: pairs_view(hashes@),
            },
            ManifestEntry::Data { path, size, hashes } => EntryModel::Data {
                path: path@,
                size: *size,
                hashes: pairs_view(hashes@),
            },
            ManifestEntry::SubManifest { path, size, hashes } => EntryModel::SubManifest {
                path: path@,
                size: *size,
                hashes: pairs_view(hashes@),
            },
            ManifestEntry::Ignore { path } => EntryModel::Ignore { path: path@ },
            ManifestEntry::Timestamp { value } => EntryModel::Timestamp { value: value@ },
        }
    }
}

/// Parsed representation of a `Manifest` file (GLEP 74).
#[derive(Debug, Clone)]
pub struct Manifest {
    pub entries: Vec<ManifestEntry>,
}

pub open spec fn entries_view(es: Seq<ManifestEntry>) -> Seq<EntryModel> {
    Seq::new(es.len(), |i: int| es[i]@)
}

impl View for Manifest {
    type V = Seq<EntryModel>;

    open spec fn view(&self) -> Seq<EntryModel> {
        entries_view(self.entries@)
    }
}

/// `format!("{:?}", s)` for a string: the quoted, escaped rendering.
pub uninterp spec fn str_debug(s: Seq<char>) -> Seq<char>;

/// Calls `<str as Debug>::fmt` through `format!`. The rendering (quotes and
/// escapes) is left to std and named by [`str_debug`].
#[verifier::external_body]
fn debug_quoted(s: &str) -> (r: String)
    ensures
        r@ == str_debug(s@),
{
    format!("{:?}", s)
}

/// `line {n}: ` where `n` is the 1-based line number.
pub open spec fn line_prefix(lineno: nat) -> Seq<char> {
    "line "@ + decimal(lineno + 1) + ": "@
}

/// The hash pairs `algo hex ...` after the size, or `None` when an algorithm
/// has no hex value.
pub open spec fn hash_pairs(toks: Seq<Seq<char>>) -> Option<Seq<(Seq<char>, Seq<char>)>>
    decreases toks.len(),
{
    if toks.len() == 0 {
        Some(seq![])
    } else if toks.len() == 1 {
        None
    } else {
        match hash_pairs(toks.skip(2)) {
            Some(r) => Some(seq![(toks[0], toks[1])] + r),
            None => None,
        }
    }
}

/// `tag path size [algo hex ...]` read from the words of a line.
pub open spec fn path_size_hashes(toks: Seq<Seq<char>>, lineno: nat) -> Result<
    (Seq<char>, u64, Seq<(Seq<char>, Seq<char>)>),
    Seq<char>,
> {
    let tag = toks[0];
    if toks.len() < 2 {
        Err(line_prefix(lineno) + tag + " requires a path"@)
    } else if toks.len() < 3 {
        Err(line_prefix(lineno) + tag + " requires a size"@)
    } else {
        match parse_u64_spec(toks[2]) {
            None => Err(line_prefix(lineno) + tag + " size "@ + str_debug(toks[2])
                + " is not a valid integer"@),
            Some(size) => match hash_pairs(toks.skip(3)) {
                Some(h) => Ok((toks[1], size, h)),
                None => Err(line_prefix(lineno) + "hash algo "@ + str_debug(toks.last())
                    + " has no corresponding hex value"@),
            },
        }
    }
}

/// What one line of a `Manifest` contributes.
pub enum LineOutcome {
    Skip,
    Entry(EntryModel),
    Fail(Seq<char>),
}

pub open spec fn is_data_tag(tag: Seq<char>) -> bool {
    tag == "DATA"@ || tag == "EBUILD"@ || tag == "MISC"@ || tag == "AUX"@
}

/// The outcome of line `lineno` (0-based): blank lines, `#` comments and
/// unknown tags are skipped.
pub open spec fn line_outcome(raw: Seq<char>, lineno: nat) -> LineOutcome {
    let line = trim(raw);
    let toks = words(line, false);
    if line.len() == 0 || line[0] == '#' || toks.len() == 0 {
        LineOutcome::Skip
    } else {
        let tag = toks[0];
        if tag == "DIST"@ {
            match path_size_hashes(toks, lineno) {
                Ok((p, s, h)) => LineOutcome::Entry(EntryModel::Dist { filename: p, size: s, hashes: h }),
                Err(m) => LineOutcome::Fail(m),
            }
        } else if is_data_tag(tag) {
            match path_size_hashes(toks, lineno) {
                Ok((p, s, h)) => LineOutcome::Entry(EntryModel::Data { path: p, size: s, hashes: h }),
                Err(m) => LineOutcome::Fail(m),
            }
        } else if tag == "MANIFEST"@ {
            match path_size_hashes(toks, lineno) {
                Ok((p, s, h)) => LineOutcome::Entry(
                    EntryModel::SubManifest { path: p, size: s, hashes: h },
                ),
                Err(m) => LineOutcome::Fail(m),
            }
        } else if tag == "IGNORE"@ {
            if toks.len() < 2 {
                LineOutcome::Fail(line_prefix(lineno) + "IGNORE requires a path"@)
            } else {
                LineOutcome::Entry(EntryModel::Ignore { path: toks[1] })
            }
        } else if tag == "TIMESTAMP"@ {
            if toks.len() < 2 {
                LineOutcome::Fail(line_prefix(lineno) + "TIMESTAMP requires a value"@)
            } else {
                LineOutcome::Entry(EntryModel::Timestamp { value: toks[1] })
            }
        } else {
            LineOutcome::Skip
        }
    }
}

/// The entries of lines `ls`, numbered from `first`, or the message of the
/// first malformed line.
pub open spec fn fold_lines(ls: Seq<Seq<char>>, first: nat) -> Result<Seq<EntryModel>, Seq<char>>
    decreases ls.len(),
{
    if ls.len() == 0 {
        Ok(seq![])
    } else {
        match line_outcome(ls[0], first) {
            LineOutcome::Fail(m) => Err(m),
            LineOutcome::Skip => fold_lines(ls.drop_first(), first + 1),
            LineOutcome::Entry(e) => match fold_lines(ls.drop_first(), first + 1) {
                Ok(es) => Ok(seq![e] + es),
                Err(m) => Err(m),
            },
        }
    }
}

/// The meaning of a `Manifest` text: its entries, or the message of the first
/// malformed line.
pub open spec fn manifest_spec(input: Seq<char>) -> Result<Seq<EntryModel>, Seq<char>> {
    fold_lines(lines(input), 0)
}

/// Entries already collected, followed by what the remaining lines give.
pub open spec fn prepend(done: Seq<EntryModel>, r: Result<Seq<EntryModel>, Seq<char>>) -> Result<
    Seq<EntryModel>,
    Seq<char>,
> {
    match r {
        Ok(es) => Ok(done + es),
        Err(m) => Err(m),
    }
}

pub open spec fn is_dist(e: EntryModel) -> bool {
    e is Dist
}

/// The `DIST` entries of `es`, in order.
pub open spec fn dist_only(es: Seq<EntryModel>) -> Seq<EntryModel>
    decreases es.len(),
{
    if es.len() == 0 {
        seq![]
    } else if is_dist(es.last()) {
        dist_only(es.drop_last()).push(es.last())
    } else {
        dist_only(es.drop_last())
    }
}

enum LineResult {
    Skip,
    Entry(ManifestEntry),
    Fail(String),
}

spec fn line_result_matches(r: LineResult, o: LineOutcome) -> bool {
    match (r, o) {
        (LineResult::Skip, LineOutcome::Skip) => true,
        (LineResult::Entry(e), LineOutcome::Entry(m)) => e@ == m,
        (LineResult::Fail(s), LineOutcome::Fail(m)) => s@ == m,
        _ => false,
    }
}

/// `line {n}: ` as a string.
fn line_prefix_string(lineno: usize) -> (s: Vec<char>)
    requires
        lineno < usize::MAX,
    ensures
        s@ == line_prefix(lineno as nat),
{
    let mut v = chars_of("line ");
    push_decimal(&mut v, (lineno + 1) as u64);
    let tail = chars_of(": ");
    let r = cat(v.as_slice(), tail.as_slice());
    r
}

/// The hash pairs of `toks[from..]`.
fn collect_hashes(toks: &Vec<Vec<char>>, from: usize) -> (r: Option<Vec<(String, String)>>)
    requires
        from <= toks@.len(),
    ensures
        match hash_pairs(Seq::new((toks@.len() - from) as nat, |i: int| toks@[from + i]@)) {
            Some(h) => r is Some && pairs_view(r->0@) == h,
            None => r is None,
        },
    decreases toks@.len() - from,
{
    let ghost ts = Seq::new((toks@.len() - from) as nat, |i: int| toks@[from + i]@);
    if from == toks.len() {
        let v: Vec<(String, String)> = Vec::new();
        assert(pairs_view(v@) =~= seq![]);
        return Some(v);
    }
    if from + 1 == toks.len() {
        return None;
    }
    let rest = collect_hashes(toks, from + 2);
    let ghost ts2 = Seq::new((toks@.len() - (from + 2)) as nat, |i: int| toks@[from + 2 + i]@);
    assert(ts.skip(2) =~= ts2);
    match rest {
        None => None,
        Some(tail) => {
            let mut v: Vec<(String, String)> = Vec::new();
            let a = string_of(toks[from].as_slice());
            let b = string_of(toks[from + 1].as_slice());
            v.push((a, b));
            let mut k: usize = 0;
            while k < tail.len()
                invariant
                    from + 1 < toks@.len(),
                    k <= tail@.len(),
                    v@.len() == k + 1,
                    pairs_view(v@) == seq![(toks@[from as int]@, toks@[from + 1]@)] + pairs_view(
                        tail@,
                    ).take(k as int),
                decreases tail@.len() - k,
            {
                let (x, y) = clone_pair(&tail[k]);
                let ghost before = v@;
                v.push((x, y));
                assert(pairs_view(v@) =~= pairs_view(before).push((tail@[k as int].0@, tail@[k as int].1@)));
                k += 1;
                assert(pairs_view(v@) =~= seq![(toks@[from as int]@, toks@[from + 1]@)]
                    + pairs_view(tail@).take(k as int));
            }
            assert(pairs_view(tail@).take(tail@.len() as int) =~= pairs_view(tail@));
            Some(v)
        },
    }
}

fn clone_pair(p: &(String, String)) -> (r: (String, String))
    ensures
        r.0@ == p.0@,
        r.1@ == p.1@,
{
    (p.0.clone(), p.1.clone())
}

/// The words of a line as a ghost sequence of character sequences.
spec fn toks_view(toks: Seq<Vec<char>>) -> Seq<Seq<char>> {
    Seq::new(toks.len(), |i: int| toks[i]@)
}

/// `tag path size [algo hex ...]` from the words of a line.
fn parse_path_size_hashes(toks: &Vec<Vec<char>>, lineno: usize) -> (r: Result<
    (String, u64, Vec<(String, String)>),
    String,
>)
    requires
        toks@.len() >= 1,
        lineno < usize::MAX,
    ensures
        match path_size_hashes(toks_view(toks@), lineno as nat) {
            Ok((p, s, h)) => r is Ok && r->Ok_0.0@ == p && r->Ok_0.1 == s && pairs_view(
                r->Ok_0.2@,
            ) == h,
            Err(m) => r is Err && r->Err_0@ == m,
        },
{
    let ghost tv = toks_view(toks@);
    let tag = &toks[0];
    if toks.len() < 2 {
        let mut m = line_prefix_string(lineno);
        let m = cat(m.as_slice(), tag.as_slice());
        let tail = chars_of(" requires a path");
        let m = cat(m.as_slice(), tail.as_slice());
        return Err(string_of(m.as_slice()));
    }
    if toks.len() < 3 {
        let m = line_prefix_string(lineno);
        let m = cat(m.as_slice(), tag.as_slice());
        let tail = chars_of(" requires a size");
        let m = cat(m.as_slice(), tail.as_slice());
        return Err(string_of(m.as_slice()));
    }
    match parse_u64(toks[2].as_slice()) {
        None => {
            let m = line_prefix_string(lineno);
            let m = cat(m.as_slice(), tag.as_slice());
            let mid = chars_of(" size ");
            let m = cat(m.as_slice(), mid.as_slice());
            let q = debug_quoted(string_of(toks[2].as_slice()).as_str());
            let mut s = string_of(m.as_slice());
            push_str(&mut s, q.as_str());
            push_str(&mut s, " is not a valid integer");
            assert(s@ =~= line_prefix(lineno as nat) + tv[0] + " size "@ + str_debug(tv[2])
                + " is not a valid integer"@);
            Err(s)
        },
        Some(size) => {
            let hashes = collect_hashes(toks, 3);
            assert(Seq::new((toks@.len() - 3) as nat, |i: int| toks@[3 + i]@) =~= tv.skip(3));
            match hashes {
                Some(h) => Ok((string_of(toks[1].as_slice()), size, h)),
                None => {
                    let m = line_prefix_string(lineno);
                    let mid = chars_of("hash algo ");
                    let m = cat(m.as_slice(), mid.as_slice());
                    let q = debug_quoted(string_of(toks[toks.len() - 1].as_slice()).as_str());
                    let mut s = string_of(m.as_slice());
                    push_str(&mut s, q.as_str());
                    push_str(&mut s, " has no corresponding hex value");
                    assert(s@ =~= line_prefix(lineno as nat) + "hash algo "@ + str_debug(tv.last())
                        + " has no corresponding hex value"@);
                    Err(s)
                },
            }
        },
    }
}

/// The outcome of one line.
fn parse_line(raw: &[char], lineno: usize) -> (r: LineResult)
    requires
        lineno < usize::MAX,
    ensures
        line_result_matches(r, line_outcome(raw@, lineno as nat)),
{
    let line = trim_chars(raw);
    let toks = split_words(line.as_slice(), false);
    let ghost tv = toks_view(toks@);
    assert(tv =~= words(line@, false));
    if line.len() == 0 || line[0] == '#' || toks.len() == 0 {
        return LineResult::Skip;
    }
    let tag = toks[0].as_slice();
    if eq_str(tag, "DIST") {
        match parse_path_size_hashes(&toks, lineno) {
            Ok((p, s, h)) => LineResult::Entry(ManifestEntry::Dist { filename: p, size: s, hashes: h }),
            Err(m) => LineResult::Fail(m),
        }
    } else if eq_str(tag, "DATA") || eq_str(tag, "EBUILD") || eq_str(tag, "MISC") || eq_str(
        tag,
        "AUX",
    ) {
        match parse_path_size_hashes(&toks, lineno) {
            Ok((p, s, h)) => LineResult::Entry(ManifestEntry::Data { path: p, size: s, hashes: h }),
            Err(m) => LineResult::Fail(m),
        }
    } else if eq_str(tag, "MANIFEST") {
        match parse_path_size_hashes(&toks, lineno) {
            Ok((p, s, h)) => LineResult::Entry(
                ManifestEntry::SubManifest { path: p, size: s, hashes: h },
            ),
            Err(m) => LineResult::Fail(m),
        }
    } else if eq_str(tag, "IGNORE") {
        if toks.len() < 2 {
            let m = line_prefix_string(lineno);
            let tail = chars_of("IGNORE requires a path");
            let m = cat(m.as_slice(), tail.as_slice());
            LineResult::Fail(string_of(m.as_slice()))
        } else {
            LineResult::Entry(ManifestEntry::Ignore { path: string_of(toks[1].as_slice()) })
        }
    } else if eq_str(tag, "TIMESTAMP") {
        if toks.len() < 2 {
            let m = line_prefix_string(lineno);
            let tail = chars_of("TIMESTAMP requires a value");
            let m = cat(m.as_slice(), tail.as_slice());
            LineResult::Fail(string_of(m.as_slice()))
        } else {
            LineResult::Entry(ManifestEntry::Timestamp { value: string_of(toks[1].as_slice()) })
        }
    } else {
        LineResult::Skip
    }
}

impl Manifest {
    /// Parse a `Manifest` from its text content.
    ///
    /// Blank lines and lines starting with `#` are silently skipped.
    /// Unknown type tags are also silently skipped for forward compatibility.
    pub fn parse(input: &str) -> (r: Result<Manifest, RepoError>)
        ensures
            match manifest_spec(input@) {
                Ok(es) => r is Ok && r->Ok_0@ == es,
                Err(m) => r matches Err(RepoError::InvalidManifest(msg)) && msg@ == m,
            },
    {
        let chars = chars_of(input);
        let ls = split_lines(chars.as_slice());
        let ghost all = lines(input@);
        let mut entries: Vec<ManifestEntry> = Vec::new();
        let mut i: usize = 0;
        assert(all.skip(0) =~= all);
        while i < ls.len()
            invariant
                i <= ls@.len(),
                ls@.len() == all.len(),
                forall|k: int| 0 <= k < ls@.len() ==> #[trigger] ls@[k]@ == all[k],
                manifest_spec(input@) == prepend(entries_view(entries@), fold_lines(all.skip(i as int), i as nat)),
            decreases ls@.len() - i,
        {
            let ghost rest = all.skip(i as int);
            assert(rest[0] == ls@[i as int]@);
            assert(rest.drop_first() =~= all.skip(i + 1));
            match parse_line(ls[i].as_slice(), i) {
                LineResult::Skip => {},
                LineResult::Entry(e) => {
                    let ghost before = entries_view(entries@);
                    entries.push(e);
                    assert(entries_view(entries@) =~= before.push(e@));
                    proof {
                        match fold_lines(all.skip(i + 1), (i + 1) as nat) {
                            Ok(es) => {
                                assert(before + (seq![e@] + es) =~= before.push(e@) + es);
                            },
                            Err(_) => {},
                        }
                    }
                },
                LineResult::Fail(m) => {
                    return Err(RepoError::InvalidManifest(m));
                },
            }
            i += 1;
        }
        assert(all.skip(i as int) =~= seq![]);
        assert(entries_view(entries@) + seq![] =~= entries_view(entries@));
        Ok(Manifest { entries })
    }

    /// The `DIST` entries, in order.
    pub fn dist_entries(&self) -> (r: Vec<&ManifestEntry>)
        ensures
            Seq::new(r@.len(), |i: int| r@[i]@) == dist_only(self@),
    {
        let mut r: Vec<&ManifestEntry> = Vec::new();
        let mut i: usize = 0;
        while i < self.entries.len()
            invariant
                i <= self.entries@.len(),
                Seq::new(r@.len(), |k: int| r@[k]@) == dist_only(self@.take(i as int)),
            decreases self.entries@.len() - i,
        {
            let e = &self.entries[i];
            let ghost pre = self@.take(i as int);
            assert(self@.take(i + 1).drop_last() =~= pre);
            assert(self@.take(i + 1).last() == e@);
            if let ManifestEntry::Dist { .. } = e {
                r.push(e);
                assert(Seq::new(r@.len(), |k: int| r@[k]@) =~= dist_only(pre).push(e@));
            }
            i += 1;
        }
        assert(self@.take(i as int) =~= self@);
        r
    }
}

/// Whether a line is refused does not depend on its number, and what an
/// accepted line gives does not either.
proof fn lemma_line_outcome_number(raw: Seq<char>, a: nat, b: nat)
    ensures
        line_outcome(raw, a) is Fail <==> line_outcome(raw, b) is Fail,
        !(line_outcome(raw, a) is Fail) ==> line_outcome(raw, a) == line_outcome(raw, b),
{
}

/// The entries of lines that are all accepted do not depend on the number
/// of the first line.
proof fn lemma_fold_lines_number(ls: Seq<Seq<char>>, a: nat, b: nat)
    requires
        fold_lines(ls, a) is Ok,
    ensures
        fold_lines(ls, b) == fold_lines(ls, a),
    decreases ls.len(),
{
    if ls.len() > 0 {
        lemma_line_outcome_number(ls[0], a, b);
        lemma_fold_lines_number(ls.drop_first(), a + 1, b + 1);
    }
}

/// The entries of two runs of accepted lines, one after the other.
proof fn lemma_fold_lines_concat(l1: Seq<Seq<char>>, l2: Seq<Seq<char>>, first: nat)
    requires
        fold_lines(l1, first) is Ok,
        fold_lines(l2, 0) is Ok,
    ensures
        fold_lines(l1 + l2, first) == Ok::<Seq<EntryModel>, Seq<char>>(
            fold_lines(l1, first)->Ok_0 + fold_lines(l2, 0)->Ok_0,
        ),
    decreases l1.len(),
{
    if l1.len() == 0 {
        assert(l1 + l2 =~= l2);
        lemma_fold_lines_number(l2, 0, first);
        assert(fold_lines(l1, first)->Ok_0 + fold_lines(l2, 0)->Ok_0 =~= fold_lines(l2, 0)->Ok_0);
    } else {
        assert((l1 + l2).drop_first() =~= l1.drop_first() + l2);
        assert((l1 + l2)[0] == l1[0]);
        lemma_fold_lines_concat(l1.drop_first(), l2, first + 1);
        match line_outcome(l1[0], first) {
            LineOutcome::Entry(e) => {
                assert(seq![e] + (fold_lines(l1.drop_first(), first + 1)->Ok_0 + fold_lines(l2, 0)->Ok_0)
                    =~= (seq![e] + fold_lines(l1.drop_first(), first + 1)->Ok_0) + fold_lines(l2, 0)->Ok_0);
            },
            _ => {},
        }
    }
}

/// Two `Manifest` texts that parse, the first ending at a line break, parse
/// together to the entries of the first followed by those of the second.
pub proof fn lemma_manifest_concat(a: Seq<char>, b: Seq<char>)
    requires
        a.len() == 0 || a.last() == '\n',
        manifest_spec(a) is Ok,
        manifest_spec(b) is Ok,
    ensures
        manifest_spec(a + b) == Ok::<Seq<EntryModel>, Seq<char>>(
            manifest_spec(a)->Ok_0 + manifest_spec(b)->Ok_0,
        ),
{
    crate::text::lemma_lines_concat(a, b);
    lemma_fold_lines_concat(lines(a), lines(b), 0);
}

/// The hash pairs `(w[3], w[4])`, `(w[5], w[6])`, ... that follow the tag,
/// the path and the size on a line whose words are `w`, and nothing else.
pub open spec fn hashes_after_size(h: Seq<(Seq<char>, Seq<char>)>, w: Seq<Seq<char>>) -> bool {
    &&& w.len() == 3 + 2 * h.len()
    &&& forall|k: int| 0 <= k < h.len() ==> #[trigger] h[k] == (w[3 + 2 * k], w[4 + 2 * k])
}

/// What an entry read from a line whose words are `w` holds: the tag picks
/// the kind of entry, the second word is its path (or value), the third its
/// size, and the rest its hash pairs in order.
pub open spec fn entry_of_words(e: EntryModel, w: Seq<Seq<char>>) -> bool {
    match e {
        EntryModel::Dist { filename, size, hashes } => {
            &&& w[0] == "DIST"@
            &&& filename == w[1]
            &&& parse_u64_spec(w[2]) == Some(size)
            &&& hashes_after_size(hashes, w)
        },
        EntryModel::Data { path, size, hashes } => {
            &&& (w[0] == "DATA"@ || w[0] == "EBUILD"@ || w[0] == "MISC"@ || w[0] == "AUX"@)
            &&& path == w[1]
            &&& parse_u64_spec(w[2]) == Some(size)
            &&& hashes_after_size(hashes, w)
        },
        EntryModel::SubManifest { path, size, hashes } => {
            &&& w[0] == "MANIFEST"@
            &&& path == w[1]
            &&& parse_u64_spec(w[2]) == Some(size)
            &&& hashes_after_size(hashes, w)
        },
        EntryModel::Ignore { path } => w[0] == "IGNORE"@ && w.len() >= 2 && path == w[1],
        EntryModel::Timestamp { value } => w[0] == "TIMESTAMP"@ && w.len() >= 2 && value == w[1],
    }
}

/// Hash pairs read from words pair them up in order.
proof fn lemma_hash_pairs(t: Seq<Seq<char>>)
    requires
        hash_pairs(t) is Some,
    ensures
        t.len() == 2 * hash_pairs(t)->0.len(),
        forall|k: int|
            0 <= k < hash_pairs(t)->0.len() ==> #[trigger] hash_pairs(t)->0[k] == (t[2 * k], t[2 * k + 1]),
    decreases t.len(),
{
    if t.len() > 0 {
        let r = t.skip(2);
        lemma_hash_pairs(r);
        let h = hash_pairs(t)->0;
        assert(h == seq![(t[0], t[1])] + hash_pairs(r)->0);
        assert forall|k: int| 0 <= k < h.len() implies #[trigger] h[k] == (t[2 * k], t[2 * k + 1]) by {
            if k > 0 {
                assert(h[k] == hash_pairs(r)->0[k - 1]);
                assert(r[2 * (k - 1)] == t[2 * k]);
                assert(r[2 * (k - 1) + 1] == t[2 * k + 1]);
            }
        }
    }
}

proof fn lemma_path_size_hashes(toks: Seq<Seq<char>>, n: nat)
    requires
        toks.len() > 0,
        path_size_hashes(toks, n) is Ok,
    ensures
        ({
            let (p, s, h) = path_size_hashes(toks, n)->Ok_0;
            p == toks[1] && parse_u64_spec(toks[2]) == Some(s) && hashes_after_size(h, toks)
        }),
{
    let t = toks.skip(3);
    lemma_hash_pairs(t);
    let h = hash_pairs(t)->0;
    assert forall|k: int| 0 <= k < h.len() implies #[trigger] h[k] == (toks[3 + 2 * k], toks[4 + 2 * k]) by {
        assert(t[2 * k] == toks[3 + 2 * k]);
        assert(t[2 * k + 1] == toks[4 + 2 * k]);
    }
}

/// A line that gives an entry gives the one its words describe.
proof fn lemma_line_entry(raw: Seq<char>, n: nat)
    requires
        line_outcome(raw, n) is Entry,
    ensures
        entry_of_words(line_outcome(raw, n)->Entry_0, words(trim(raw), false)),
{
    let toks = words(trim(raw), false);
    reveal_strlit("DIST");
    reveal_strlit("DATA");
    reveal_strlit("EBUILD");
    reveal_strlit("MISC");
    reveal_strlit("AUX");
    reveal_strlit("MANIFEST");
    reveal_strlit("IGNORE");
    reveal_strlit("TIMESTAMP");
    if toks.len() > 0 && (toks[0] == "DIST"@ || is_data_tag(toks[0]) || toks[0] == "MANIFEST"@) {
        lemma_path_size_hashes(toks, n);
    }
}

/// Every entry of a `Manifest` text is the one the words of one of its
/// lines describe: its kind is the line's tag, its path (or value) the
/// second word, its size the third, and its hashes exactly the
/// algorithm/hex pairs after the size, in order, whatever the tag.
pub proof fn lemma_manifest_entries_from_lines(input: Seq<char>)
    requires
        manifest_spec(input) is Ok,
    ensures
        forall|k: int|
            0 <= k < manifest_spec(input)->Ok_0.len() ==> exists|j: int|
                0 <= j < lines(input).len() && entry_of_words(
                    #[trigger] manifest_spec(input)->Ok_0[k],
                    words(trim(lines(input)[j]), false),
                ),
{
    lemma_fold_entries(lines(input), 0);
}

proof fn lemma_fold_entries(ls: Seq<Seq<char>>, first: nat)
    requires
        fold_lines(ls, first) is Ok,
    ensures
        forall|k: int|
            0 <= k < fold_lines(ls, first)->Ok_0.len() ==> exists|j: int|
                0 <= j < ls.len() && entry_of_words(
                    #[trigger] fold_lines(ls, first)->Ok_0[k],
                    words(trim(ls[j]), false),
                ),
    decreases ls.len(),
{
    if ls.len() > 0 {
        let rest = ls.drop_first();
        lemma_fold_entries(rest, first + 1);
        let es = fold_lines(ls, first)->Ok_0;
        let rs = fold_lines(rest, first + 1)->Ok_0;
        match line_outcome(ls[0], first) {
            LineOutcome::Entry(e) => {
                lemma_line_entry(ls[0], first);
                assert(es == seq![e] + rs);
                assert forall|k: int| 0 <= k < es.len() implies exists|j: int|
                    0 <= j < ls.len() && entry_of_words(#[trigger] es[k], words(trim(ls[j]), false)) by {
                    if k == 0 {
                        assert(entry_of_words(es[0], words(trim(ls[0]), false)));
                    } else {
                        assert(es[k] == rs[k - 1]);
                        let j = choose|j: int|
                            0 <= j < rest.len() && entry_of_words(rs[k - 1], words(trim(rest[j]), false));
                        assert(rest[j] == ls[j + 1]);
                    }
                }
            },
            LineOutcome::Skip => {
                assert forall|k: int| 0 <= k < es.len() implies exists|j: int|
                    0 <= j < ls.len() && entry_of_words(#[trigger] es[k], words(trim(ls[j]), false)) by {
                    let j = choose|j: int|
                        0 <= j < rest.len() && entry_of_words(rs[k], words(trim(rest[j]), false));
                    assert(rest[j] == ls[j + 1]);
                }
            },
            LineOutcome::Fail(_) => {},
        }
    }
}

} // verus!
