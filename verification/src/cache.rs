//! The `md5-cache` side of metadata regeneration: where each entry is
//! written, which category directories are made, the checksums an entry
//! records, and the counters a run reports.
use vstd::prelude::*;

use crate::text::push_str;
use crate::util::{join, join_path, strings_view};

verus! {

// ───────────────────────────── options and counters ─────────────────────────

/// Options of a regeneration run.
pub struct RegenOpts {
    /// Directory to write `md5-cache` files into; `None` sources the ebuilds
    /// without writing anything.
    pub output_dir: Option<String>,
}

impl RegenOpts {
    /// A dry run: nothing is written.
    pub fn new() -> (r: RegenOpts)
        ensures
            r.output_dir is None,
    {
        RegenOpts { output_dir: None }
    }
}

/// The counters a regeneration run returns.
pub struct RegenStats {
    /// The number of ebuilds handed to the run.
    pub total: usize,
    /// The number of ebuilds that failed to source or to be written.
    pub errors: usize,
}

/// The number of `true` values.
pub open spec fn count_true(s: Seq<bool>) -> nat
    decreases s.len(),
{
    if s.len() == 0 {
        0
    } else {
        count_true(s.drop_last()) + if s.last() {
            1nat
        } else {
            0nat
        }
    }
}

proof fn lemma_count_true_le(s: Seq<bool>)
    ensures
        count_true(s) <= s.len(),
    decreases s.len(),
{
    if s.len() > 0 {
        lemma_count_true_le(s.drop_last());
    }
}

impl RegenStats {
    /// The counters of a run over `failed.len()` ebuilds, where `failed[i]`
    /// tells whether ebuild `i` failed.
    pub fn tally(failed: &Vec<bool>) -> (r: RegenStats)
        ensures
            r.total == failed@.len(),
            r.errors == count_true(failed@),
    {
        let mut errors: usize = 0;
        let mut i: usize = 0;
        while i < failed.len()
            invariant
                i <= failed@.len(),
                errors == count_true(failed@.take(i as int)),
            decreases failed@.len() - i,
        {
            proof {
                assert(failed@.take(i + 1).drop_last() =~= failed@.take(i as int));
                lemma_count_true_le(failed@.take(i as int));
            }
            if failed[i] {
                errors = errors + 1;
            }
            i += 1;
        }
        assert(failed@.take(i as int) =~= failed@);
        RegenStats { total: failed.len(), errors }
    }
}

// ───────────────────────────── output layout ────────────────────────────────

/// The names of `s`, each kept at its first appearance.
pub open spec fn first_appearances(s: Seq<Seq<char>>) -> Seq<Seq<char>>
    decreases s.len(),
{
    if s.len() == 0 {
        seq![]
    } else {
        let d = first_appearances(s.drop_last());
        if d.contains(s.last()) {
            d
        } else {
            d.push(s.last())
        }
    }
}

/// The distinct categories of a run, each once, in order of first
/// appearance.
pub fn unique_categories(categories: &Vec<String>) -> (r: Vec<String>)
    ensures
        strings_view(r@) == first_appearances(strings_view(categories@)),
        strings_view(r@).no_duplicates(),
        strings_view(r@).to_set() == strings_view(categories@).to_set(),
{
    let mut out: Vec<String> = Vec::new();
    let mut i: usize = 0;
    while i < categories.len()
        invariant
            i <= categories@.len(),
            strings_view(out@).no_duplicates(),
            strings_view(out@).to_set() == strings_view(categories@).take(i as int).to_set(),
            strings_view(out@) == first_appearances(strings_view(categories@).take(i as int)),
        decreases categories@.len() - i,
    {
        let ghost pre = strings_view(out@);
        let c = categories[i].as_str();
        let present = crate::pms::has(c, &out);
        proof {
            assert(strings_view(categories@).take(i + 1) =~= strings_view(categories@).take(i as int).push(c@));
            assert(strings_view(categories@).take(i + 1).drop_last() =~= strings_view(categories@).take(i as int));
            assert(strings_view(categories@).take(i + 1).last() == c@);
        }
        if !present {
            out.push(c.to_owned());
            proof {
                assert(strings_view(out@) =~= pre.push(c@));
                assert(strings_view(out@).to_set() =~= pre.to_set().insert(c@)) by {
                    assert forall|x: Seq<char>| strings_view(out@).to_set().contains(x) implies pre.to_set().insert(c@).contains(x) by {
                        let k = choose|k: int| 0 <= k < strings_view(out@).len() && strings_view(out@)[k] == x;
                        if k < pre.len() {
                            assert(pre[k] == x);
                        }
                    }
                    assert forall|x: Seq<char>| pre.to_set().insert(c@).contains(x) implies strings_view(out@).to_set().contains(x) by {
                        if x == c@ {
                            assert(strings_view(out@)[pre.len() as int] == x);
                        } else {
                            let k = choose|k: int| 0 <= k < pre.len() && pre[k] == x;
                            assert(strings_view(out@)[k] == x);
                        }
                    }
                }
                assert(strings_view(categories@).take(i as int).push(c@).to_set() =~= strings_view(categories@).take(i as int).to_set().insert(c@)) by {
                    let t = strings_view(categories@).take(i as int);
                    assert forall|x: Seq<char>| t.push(c@).to_set().contains(x) implies t.to_set().insert(c@).contains(x) by {
                        let k = choose|k: int| 0 <= k < t.push(c@).len() && t.push(c@)[k] == x;
                        if k < t.len() {
                            assert(t[k] == x);
                        }
                    }
                    assert forall|x: Seq<char>| t.to_set().insert(c@).contains(x) implies t.push(c@).to_set().contains(x) by {
                        if x == c@ {
                            assert(t.push(c@)[t.len() as int] == x);
                        } else {
                            let k = choose|k: int| 0 <= k < t.len() && t[k] == x;
                            assert(t.push(c@)[k] == x);
                        }
                    }
                }
            }
        } else {
            proof {
                let t = strings_view(categories@).take(i as int);
                assert(t.push(c@).to_set() =~= t.to_set()) by {
                    assert forall|x: Seq<char>| t.push(c@).to_set().contains(x) implies t.to_set().contains(x) by {
                        let k = choose|k: int| 0 <= k < t.push(c@).len() && t.push(c@)[k] == x;
                        if k < t.len() {
                            assert(t[k] == x);
                        } else {
                            assert(pre.to_set().contains(c@));
                        }
                    }
                    assert forall|x: Seq<char>| t.to_set().contains(x) implies t.push(c@).to_set().contains(x) by {
                        let k = choose|k: int| 0 <= k < t.len() && t[k] == x;
                        assert(t.push(c@)[k] == x);
                    }
                }
            }
        }
        i += 1;
    }
    assert(strings_view(categories@).take(i as int) =~= strings_view(categories@));
    out
}

/// The cache file of an ebuild and the temporary file it is first written
/// to: `out/category/name-version` and the same with `.tmp`.
pub open spec fn entry_paths_spec(out_dir: Seq<char>, category: Seq<char>, name: Seq<char>, version: Seq<char>) -> (Seq<char>, Seq<char>) {
    let dir = join_path(out_dir, category);
    let file = name + "-"@ + version;
    (join_path(dir, file + ".tmp"@), join_path(dir, file))
}

/// The temporary and final paths of an ebuild's cache entry.
pub fn entry_paths(out_dir: &str, category: &str, name: &str, version: &str) -> (r: (String, String))
    ensures
        (r.0@, r.1@) == entry_paths_spec(out_dir@, category@, name@, version@),
{
    let dir = join(out_dir, category);
    let mut file = String::new();
    push_str(&mut file, name);
    push_str(&mut file, "-");
    push_str(&mut file, version);
    let fin = join(dir.as_str(), file.as_str());
    push_str(&mut file, ".tmp");
    let tmp = join(dir.as_str(), file.as_str());
    (tmp, fin)
}

// ───────────────────────────── checksums ────────────────────────────────────

/// The 16 bytes `md5::compute` returns for some data.
pub uninterp spec fn md5_digest(data: Seq<u8>) -> Seq<u8>;

/// Calls `md5::compute`; claims that the digest is the one named by
/// [`md5_digest`] and, as the crate's `Digest([u8; 16])` shows, 16 bytes long.
#[verifier::external_body]
fn md5_compute(data: &[u8]) -> (r: Vec<u8>)
    ensures
        r@ == md5_digest(data@),
        r@.len() == 16,
{
    md5::compute(data).0.to_vec()
}

/// The MD5 digest of an eclass file's contents, 16 bytes, as an entry's
/// `_eclasses_` field records it.
pub fn eclass_digest(data: &[u8]) -> (r: Vec<u8>)
    ensures
        r@ == md5_digest(data@),
        r@.len() == 16,
{
    md5_compute(data)
}

/// A lower-case hexadecimal digit.
pub open spec fn hex_digit(d: u8) -> char {
    if d < 10 {
        ('0' as u8 + d) as char
    } else {
        ('a' as u8 + (d - 10)) as char
    }
}

/// Bytes as lower-case hexadecimal, two digits per byte (`{:02x}` each).
pub open spec fn hex_spec(bytes: Seq<u8>) -> Seq<char>
    decreases bytes.len(),
{
    if bytes.len() == 0 {
        seq![]
    } else {
        hex_spec(bytes.drop_last()) + seq![hex_digit(bytes.last() / 16), hex_digit(bytes.last() % 16)]
    }
}

proof fn lemma_hex_len(bytes: Seq<u8>)
    ensures
        hex_spec(bytes).len() == 2 * bytes.len(),
    decreases bytes.len(),
{
    if bytes.len() > 0 {
        lemma_hex_len(bytes.drop_last());
    }
}

fn hex_char(d: u8) -> (r: char)
    requires
        d < 16,
    ensures
        r == hex_digit(d),
{
    if d < 10 {
        ('0' as u8 + d) as char
    } else {
        ('a' as u8 + (d - 10)) as char
    }
}

/// Bytes as lower-case hexadecimal.
pub fn hex_lower(bytes: &[u8]) -> (r: String)
    ensures
        r@ == hex_spec(bytes@),
{
    let mut out: Vec<char> = Vec::new();
    let mut i: usize = 0;
    while i < bytes.len()
        invariant
            i <= bytes@.len(),
            out@ == hex_spec(bytes@.take(i as int)),
        decreases bytes@.len() - i,
    {
        let b = bytes[i];
        assert(bytes@.take(i + 1).drop_last() =~= bytes@.take(i as int));
        out.push(hex_char(b / 16));
        out.push(hex_char(b % 16));
        assert(out@ =~= hex_spec(bytes@.take(i + 1)));
        i += 1;
    }
    assert(bytes@.take(i as int) =~= bytes@);
    crate::text::string_of(out.as_slice())
}

/// The checksum a cache entry records for a file's contents: its MD5
/// digest in lower-case hexadecimal, 32 digits.
pub fn md5_hex(data: &[u8]) -> (r: String)
    ensures
        r@ == hex_spec(md5_digest(data@)),
        r@.len() == 32,
{
    let d = md5_compute(data);
    proof {
        lemma_hex_len(d@);
    }
    hex_lower(d.as_slice())
}

// ───────────────────────────── cache entries ────────────────────────────────

/// `portage_metadata::Error`, the error of the metadata parsers.
#[verifier::external_type_specification]
#[verifier::external_body]
pub struct ExMetadataError(portage_metadata::Error);

/// An `md5-cache` entry as `portage_metadata::CacheEntry` holds it: the
/// ebuild's metadata, its checksum and its eclasses. That type is generic
/// over an interner trait that Verus does not see, so the entry is kept here
/// whole. What it holds is named by [`entry_fields`] and [`entry_inherited`].
#[verifier::external_body]
pub struct MetadataEntry {
    /// The parsed entry, for code outside the library (no verified signature
    /// can name its type, so it is reached through this field; verified code
    /// can neither read it nor build an entry other than through the calls
    /// below).
    pub entry: portage_metadata::CacheEntry,
}

/// What an entry holds, as the lines `CacheEntry::serialize` writes for it:
/// each key written with its value; the keys are among
/// [`cache_key_order`].
pub uninterp spec fn entry_fields(e: MetadataEntry) -> Map<Seq<char>, Seq<char>>;

/// The names of the eclasses an entry's metadata lists as inherited.
pub uninterp spec fn entry_inherited(e: MetadataEntry) -> Seq<Seq<char>>;

/// The keys of an `md5-cache` file in the order `CacheEntry::serialize`
/// writes them.
pub open spec fn cache_key_order() -> Seq<Seq<char>> {
    seq![
        "DEFINED_PHASES"@,
        "DEPEND"@,
        "DESCRIPTION"@,
        "EAPI"@,
        "HOMEPAGE"@,
        "IUSE"@,
        "KEYWORDS"@,
        "LICENSE"@,
        "PDEPEND"@,
        "RDEPEND"@,
        "REQUIRED_USE"@,
        "RESTRICT"@,
        "SLOT"@,
        "SRC_URI"@,
        "BDEPEND"@,
        "IDEPEND"@,
        "PROPERTIES"@,
        "INHERIT"@,
        "_eclasses_"@,
        "_md5_"@,
    ]
}

/// The lines `KEY=value` of the keys that have a value, in the order of
/// `keys`.
pub open spec fn field_lines(fields: Map<Seq<char>, Seq<char>>, keys: Seq<Seq<char>>) -> Seq<char>
    decreases keys.len(),
{
    if keys.len() == 0 {
        seq![]
    } else {
        let k = keys.last();
        field_lines(fields, keys.drop_last()) + if fields.contains_key(k) {
            k + seq!['='] + fields[k] + seq!['\n']
        } else {
            seq![]
        }
    }
}

/// The text of a cache file holding these lines: each written as
/// `KEY=value` and a line feed, in the order of [`cache_key_order`].
pub open spec fn cache_file_text(fields: Map<Seq<char>, Seq<char>>) -> Seq<char> {
    field_lines(fields, cache_key_order())
}

/// What `portage_metadata::CacheEntry::parse` makes of the text of a cache
/// file: the lines of the entry, or `None` when it refuses the text.
pub uninterp spec fn cache_entry_fields(text: Seq<char>) -> Option<Map<Seq<char>, Seq<char>>>;

/// Calls `portage_metadata::CacheEntry::parse`. Claims that it succeeds
/// exactly where [`cache_entry_fields`] gives lines, and that the entry holds
/// them.
#[verifier::external_body]
pub(crate) fn parse_cache_entry(text: &str) -> (r: Result<MetadataEntry, portage_metadata::Error>)
    ensures
        match cache_entry_fields(text@) {
            Some(f) => r matches Ok(e) && entry_fields(e) == f,
            None => r is Err,
        },
{
    match portage_metadata::CacheEntry::parse(text) {
        Ok(entry) => Ok(MetadataEntry { entry }),
        Err(e) => Err(e),
    }
}

/// What `portage_metadata::CacheEntry::from_kv_pairs` makes of a list of
/// `(key, value)` pairs: the lines of the entry, or `None` when it refuses
/// them.
pub uninterp spec fn kv_entry_fields(pairs: Seq<(Seq<char>, Seq<char>)>) -> Option<
    Map<Seq<char>, Seq<char>>,
>;

/// Calls `portage_metadata::CacheEntry::from_kv_pairs` on the pairs, in
/// order. Claims that it succeeds exactly where [`kv_entry_fields`] gives
/// lines, and that the entry holds them.
#[verifier::external_body]
pub(crate) fn entry_from_pairs(pairs: &Vec<(String, String)>) -> (r: Result<
    MetadataEntry,
    portage_metadata::Error,
>)
    ensures
        match kv_entry_fields(crate::shell::pairs_view(pairs@)) {
            Some(f) => r matches Ok(e) && entry_fields(e) == f,
            None => r is Err,
        },
{
    match portage_metadata::CacheEntry::from_kv_pairs(pairs.iter().map(|(k, v)| (k.as_str(), v.as_str()))) {
        Ok(entry) => Ok(MetadataEntry { entry }),
        Err(e) => Err(e),
    }
}

/// A short phase name (`compile`, `setup`, ...), as `DEFINED_PHASES` lists it.
pub open spec fn is_short_phase(name: Seq<char>) -> bool {
    exists|i: int| 0 <= i < crate::shell::phase_names_spec().len() && name == crate::shell::phase_names_spec()[i].0
}

/// A name `<portage_metadata::Phase as FromStr>::from_str` accepts: a short
/// or a full phase function name.
pub open spec fn phase_name_known(name: Seq<char>) -> bool {
    exists|i: int|
        0 <= i < crate::shell::phase_names_spec().len() && (name
            == crate::shell::phase_names_spec()[i].0 || name
            == crate::shell::phase_names_spec()[i].1)
}

/// The `DEFINED_PHASES` value of phases given by short name: the names
/// separated by spaces, `-` when there are none.
pub open spec fn phases_field(names: Seq<Seq<char>>) -> Seq<char> {
    if names.len() == 0 {
        "-"@
    } else {
        crate::pms::join_spaces(names)
    }
}

/// Parses each name with `<portage_metadata::Phase as FromStr>::from_str` (a
/// match over the fifteen phases by short or full name) and makes the result
/// the entry's defined phases. Claims that it succeeds exactly when every
/// name is known; that `serialize` then writes, for short names, the names
/// joined by spaces (`-` for none), since a phase prints as its short name;
/// that a failure leaves the entry as it was; and that the inherited
/// eclasses do not change.
#[verifier::external_body]
pub(crate) fn set_defined_phases(e: &mut MetadataEntry, names: &Vec<String>) -> (r: Result<(), portage_metadata::Error>)
    ensures
        r is Ok == (forall|k: int| 0 <= k < names@.len() ==> phase_name_known(#[trigger] names@[k]@)),
        r is Err ==> entry_fields(*final(e)) == entry_fields(*old(e)),
        (forall|k: int| 0 <= k < names@.len() ==> is_short_phase(#[trigger] names@[k]@)) ==> entry_fields(
            *final(e),
        ) == entry_fields(*old(e)).insert("DEFINED_PHASES"@, phases_field(strings_view(names@))),
        entry_inherited(*final(e)) == entry_inherited(*old(e)),
{
    let phases = names.iter().map(|n| n.parse()).collect::<Result<Vec<portage_metadata::Phase>, _>>()?;
    e.entry.metadata.defined_phases = phases;
    Ok(())
}

/// Calls `<portage_metadata::Eapi as FromStr>::from_str` on an EAPI name and
/// sets the `eapi` of the entry's metadata to it. That parser accepts exactly
/// the names `"0"` to `"9"`, and an EAPI prints as its name, so `serialize`
/// then writes the name as `EAPI`; a failure leaves the entry as it was; the
/// inherited eclasses do not change.
#[verifier::external_body]
pub(crate) fn set_eapi(e: &mut MetadataEntry, name: &str) -> (r: Result<(), portage_metadata::Error>)
    ensures
        r is Ok == (crate::eapi::eapi_named(name@) is Some),
        r is Ok ==> entry_fields(*final(e)) == entry_fields(*old(e)).insert("EAPI"@, name@),
        r is Err ==> entry_fields(*final(e)) == entry_fields(*old(e)),
        entry_inherited(*final(e)) == entry_inherited(*old(e)),
{
    e.entry.metadata.eapi = name.parse()?;
    Ok(())
}

/// Sets the `inherited` eclasses of an entry's metadata, each name interned
/// with `portage_metadata::interner::Interned::intern` (which resolves back
/// to the name). `serialize` does not write them, so the lines stay the same.
#[verifier::external_body]
pub(crate) fn set_inherited(e: &mut MetadataEntry, names: &Vec<String>)
    ensures
        entry_inherited(*final(e)) == strings_view(names@),
        entry_fields(*final(e)) == entry_fields(*old(e)),
{
    e.entry.metadata.inherited =
        names.iter().map(|n| portage_metadata::interner::Interned::intern(n.as_str())).collect();
}

/// The `_eclasses_` value of eclasses with their digests: each name, a tab
/// and the digest in lower-case hexadecimal, the eclasses separated by tabs.
pub open spec fn eclasses_field(es: Seq<(Seq<char>, Seq<u8>)>) -> Seq<char>
    decreases es.len(),
{
    if es.len() == 0 {
        seq![]
    } else if es.len() == 1 {
        es[0].0 + seq!['\t'] + hex_spec(es[0].1)
    } else {
        eclasses_field(es.drop_last()) + seq!['\t'] + es.last().0 + seq!['\t'] + hex_spec(es.last().1)
    }
}

/// The lines of an entry once it records the ebuild's checksum and its
/// eclasses' digests: `_eclasses_` (written only when there are eclasses)
/// and `_md5_`.
pub open spec fn with_checksums(
    fields: Map<Seq<char>, Seq<char>>,
    md5: Seq<char>,
    es: Seq<(Seq<char>, Seq<u8>)>,
) -> Map<Seq<char>, Seq<char>> {
    let f = if es.len() > 0 {
        fields.insert("_eclasses_"@, eclasses_field(es))
    } else {
        fields.remove("_eclasses_"@)
    };
    f.insert("_md5_"@, md5)
}

/// Eclass names with their digests, as plain values.
pub open spec fn digests_view(v: Seq<(String, [u8; 16])>) -> Seq<(Seq<char>, Seq<u8>)> {
    Seq::new(v.len(), |i: int| (v[i].0@, v[i].1@))
}

/// Records the checksums of an entry: the ebuild's, and each inherited
/// eclass's name (interned with `portage_metadata::interner::Interned::intern`)
/// with its digest as an `md5::Digest`, which prints as two lower-case
/// hexadecimal digits per byte. Claims the lines `serialize` then writes
/// (see [`with_checksums`]); the inherited eclasses do not change.
#[verifier::external_body]
pub(crate) fn set_checksums(e: &mut MetadataEntry, ebuild_md5: String, eclasses: Vec<(String, [u8; 16])>)
    ensures
        entry_fields(*final(e)) == with_checksums(entry_fields(*old(e)), ebuild_md5@, digests_view(eclasses@)),
        entry_inherited(*final(e)) == entry_inherited(*old(e)),
{
    e.entry.md5 = Some(ebuild_md5);
    e.entry.eclasses = eclasses
        .into_iter()
        .map(|(n, d)| (portage_metadata::interner::Interned::intern(n.as_str()), md5::Digest(d)))
        .collect();
}

/// Calls `portage_metadata::CacheEntry::serialize`, which writes each line
/// `KEY=value` of the entry in a fixed order of keys. Claims that text
/// ([`cache_file_text`]).
#[verifier::external_body]
pub(crate) fn serialize_entry(e: &MetadataEntry) -> (r: String)
    ensures
        r@ == cache_file_text(entry_fields(*e)),
{
    e.entry.serialize()
}

/// Eclass names with their digests given as byte vectors, as plain values.
pub open spec fn eclass_digests_view(v: Seq<(String, Vec<u8>)>) -> Seq<(Seq<char>, Seq<u8>)> {
    Seq::new(v.len(), |i: int| (v[i].0@, v[i].1@))
}

/// A 16-byte digest as an array.
fn digest_array(d: &Vec<u8>) -> (r: [u8; 16])
    requires
        d@.len() == 16,
    ensures
        r@ == d@,
{
    let r = [
        d[0], d[1], d[2], d[3], d[4], d[5], d[6], d[7], d[8], d[9], d[10], d[11], d[12], d[13],
        d[14], d[15],
    ];
    assert(r@ =~= d@);
    r
}

/// The text of an ebuild's `md5-cache` file: its metadata entry with the
/// ebuild's checksum (see [`md5_hex`]) and the digest of each inherited
/// eclass (see [`eclass_digest`]), in the order given, as
/// `portage_metadata` writes it.
pub fn cache_entry_text(entry: MetadataEntry, ebuild_md5: String, eclasses: &Vec<(String, Vec<u8>)>) -> (r: String)
    requires
        forall|k: int| 0 <= k < eclasses@.len() ==> (#[trigger] eclasses@[k]).1@.len() == 16,
    ensures
        r@ == cache_file_text(
            with_checksums(entry_fields(entry), ebuild_md5@, eclass_digests_view(eclasses@)),
        ),
{
    let ghost fields = entry_fields(entry);
    let mut e = entry;
    let mut ds: Vec<(String, [u8; 16])> = Vec::new();
    let mut i: usize = 0;
    while i < eclasses.len()
        invariant
            i <= eclasses@.len(),
            forall|k: int| 0 <= k < eclasses@.len() ==> (#[trigger] eclasses@[k]).1@.len() == 16,
            digests_view(ds@) == eclass_digests_view(eclasses@).take(i as int),
        decreases eclasses@.len() - i,
    {
        let ghost pre = digests_view(ds@);
        let (name, digest) = &eclasses[i];
        let n = name.clone();
        let d = digest_array(digest);
        ds.push((n, d));
        assert(digests_view(ds@) =~= pre.push((name@, digest@)));
        assert(eclass_digests_view(eclasses@).take(i + 1) =~= eclass_digests_view(eclasses@).take(
            i as int,
        ).push((name@, digest@)));
        i += 1;
    }
    assert(eclass_digests_view(eclasses@).take(i as int) =~= eclass_digests_view(eclasses@));
    set_checksums(&mut e, ebuild_md5, ds);
    serialize_entry(&e)
}

} // verus!
