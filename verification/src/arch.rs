//! Architecture tokens: the CPU field of a GNU CHOST triple normalised to the
//! spelling Gentoo knows, known architectures through `gentoo_core`, and
//! overlay-defined ones interned with `lasso`.
use vstd::prelude::*;

use crate::text::{chars_of, eq_str, has_prefix, pieces, split_char, starts_with, string_of};

verus! {

// ───────────────────────────── outside items ────────────────────────────────

/// `lasso::Spur`, the key type of the interner.
#[verifier::external_type_specification]
#[verifier::external_body]
pub struct ExSpur(lasso::Spur);

/// `lasso::ThreadedRodeo`, a string interner.
#[verifier::external_type_specification]
#[verifier::external_body]
#[verifier::reject_recursive_types(K)]
#[verifier::reject_recursive_types(S)]
pub struct ExThreadedRodeo<K, S>(lasso::ThreadedRodeo<K, S>);

/// What `str::to_lowercase` makes of a string.
pub uninterp spec fn lowercase(s: Seq<char>) -> Seq<char>;

/// Calls `str::to_lowercase`; claims that the result is the one named by
/// [`lowercase`].
#[verifier::external_body]
fn to_lowercase(s: &str) -> (r: String)
    ensures
        r@ == lowercase(s@),
{
    s.to_lowercase()
}

/// A standard Gentoo architecture (the variants of `gentoo_core::KnownArch`).
#[derive(Debug, Clone, Copy, PartialEq, Eq, Hash, Structural)]
pub enum KnownArch {
    Arm,
    AArch64,
    X86,
    X86_64,
    Riscv32,
    Riscv64,
    Powerpc,
    Powerpc64,
    Mips,
    Mips64,
    Sparc,
    Sparc64,
    S390x,
    M68k,
    LoongArch64,
    Alpha,
    Hppa,
    Ia64,
}

/// The known architecture of a lower-cased keyword or alias: the table of
/// `gentoo_core::KnownArch::parse`.
pub open spec fn known_arch_table(s: Seq<char>) -> Option<KnownArch> {
    if s == "arm"@ || s == "armv7"@ || s == "armv7a"@ || s == "armv7l"@ || s == "armv7hl"@ {
        Some(KnownArch::Arm)
    } else if s == "aarch64"@ || s == "arm64"@ || s == "armv8"@ || s == "armv8a"@ {
        Some(KnownArch::AArch64)
    } else if s == "x86"@ || s == "i386"@ || s == "i486"@ || s == "i586"@ || s == "i686"@ {
        Some(KnownArch::X86)
    } else if s == "x86_64"@ || s == "amd64"@ {
        Some(KnownArch::X86_64)
    } else if s == "riscv32"@ {
        Some(KnownArch::Riscv32)
    } else if s == "riscv64"@ || s == "riscv"@ {
        Some(KnownArch::Riscv64)
    } else if s == "powerpc"@ || s == "ppc"@ {
        Some(KnownArch::Powerpc)
    } else if s == "powerpc64"@ || s == "ppc64"@ {
        Some(KnownArch::Powerpc64)
    } else if s == "mips"@ {
        Some(KnownArch::Mips)
    } else if s == "mips64"@ {
        Some(KnownArch::Mips64)
    } else if s == "sparc"@ {
        Some(KnownArch::Sparc)
    } else if s == "sparc64"@ {
        Some(KnownArch::Sparc64)
    } else if s == "s390"@ || s == "s390x"@ {
        Some(KnownArch::S390x)
    } else if s == "m68k"@ {
        Some(KnownArch::M68k)
    } else if s == "loong"@ || s == "loongarch64"@ {
        Some(KnownArch::LoongArch64)
    } else if s == "alpha"@ {
        Some(KnownArch::Alpha)
    } else if s == "hppa"@ {
        Some(KnownArch::Hppa)
    } else if s == "ia64"@ {
        Some(KnownArch::Ia64)
    } else {
        None
    }
}

/// The position of an architecture in the declaration of
/// `gentoo_core::KnownArch`, which [`KnownArch`] follows variant for variant.
pub open spec fn arch_index(a: KnownArch) -> u8 {
    match a {
        KnownArch::Arm => 0,
        KnownArch::AArch64 => 1,
        KnownArch::X86 => 2,
        KnownArch::X86_64 => 3,
        KnownArch::Riscv32 => 4,
        KnownArch::Riscv64 => 5,
        KnownArch::Powerpc => 6,
        KnownArch::Powerpc64 => 7,
        KnownArch::Mips => 8,
        KnownArch::Mips64 => 9,
        KnownArch::Sparc => 10,
        KnownArch::Sparc64 => 11,
        KnownArch::S390x => 12,
        KnownArch::M68k => 13,
        KnownArch::LoongArch64 => 14,
        KnownArch::Alpha => 15,
        KnownArch::Hppa => 16,
        KnownArch::Ia64 => 17,
    }
}

/// Calls `gentoo_core::KnownArch::parse` and gives the parsed variant's
/// position in the declaration (its discriminant). Claims what the crate's
/// source shows: the keyword is lower-cased ([`lowercase`]) and looked up in
/// [`known_arch_table`].
#[verifier::external_body]
fn parse_known_arch_index(s: &str) -> (r: Option<u8>)
    ensures
        r == match known_arch_table(lowercase(s@)) {
            Some(a) => Some(arch_index(a)),
            None => None,
        },
{
    gentoo_core::KnownArch::parse(s).ok().map(|a| a as u8)
}

/// The architecture at a position of the declaration.
fn known_arch_at(i: u8) -> (r: KnownArch)
    requires
        i < 18,
    ensures
        arch_index(r) == i,
{
    match i {
        0 => KnownArch::Arm,
        1 => KnownArch::AArch64,
        2 => KnownArch::X86,
        3 => KnownArch::X86_64,
        4 => KnownArch::Riscv32,
        5 => KnownArch::Riscv64,
        6 => KnownArch::Powerpc,
        7 => KnownArch::Powerpc64,
        8 => KnownArch::Mips,
        9 => KnownArch::Mips64,
        10 => KnownArch::Sparc,
        11 => KnownArch::Sparc64,
        12 => KnownArch::S390x,
        13 => KnownArch::M68k,
        14 => KnownArch::LoongArch64,
        15 => KnownArch::Alpha,
        16 => KnownArch::Hppa,
        _ => KnownArch::Ia64,
    }
}

/// The known architecture of a keyword or alias, compared without regard to
/// case.
fn parse_known_arch(s: &str) -> (r: Option<KnownArch>)
    ensures
        r == known_arch_table(lowercase(s@)),
{
    match parse_known_arch_index(s) {
        Some(i) => {
            let a = known_arch_at(i);
            proof {
                let t = known_arch_table(lowercase(s@))->0;
                assert(arch_index(t) == i);
                assert(a == t);
            }
            Some(a)
        },
        None => None,
    }
}

/// The canonical Gentoo keyword of a known architecture
/// (`gentoo_core::KnownArch::as_keyword`).
pub open spec fn arch_keyword(a: KnownArch) -> Seq<char> {
    match a {
        KnownArch::Arm => "arm"@,
        KnownArch::AArch64 => "arm64"@,
        KnownArch::X86 => "x86"@,
        KnownArch::X86_64 => "amd64"@,
        KnownArch::Riscv32 | KnownArch::Riscv64 => "riscv"@,
        KnownArch::Powerpc => "ppc"@,
        KnownArch::Powerpc64 => "ppc64"@,
        KnownArch::Mips | KnownArch::Mips64 => "mips"@,
        KnownArch::Sparc | KnownArch::Sparc64 => "sparc"@,
        KnownArch::S390x => "s390"@,
        KnownArch::M68k => "m68k"@,
        KnownArch::LoongArch64 => "loong"@,
        KnownArch::Alpha => "alpha"@,
        KnownArch::Hppa => "hppa"@,
        KnownArch::Ia64 => "ia64"@,
    }
}

impl KnownArch {
    /// The canonical Gentoo keyword.
    pub fn as_keyword(&self) -> (r: &'static str)
        ensures
            r@ == arch_keyword(*self),
    {
        match self {
            KnownArch::Arm => "arm",
            KnownArch::AArch64 => "arm64",
            KnownArch::X86 => "x86",
            KnownArch::X86_64 => "amd64",
            KnownArch::Riscv32 | KnownArch::Riscv64 => "riscv",
            KnownArch::Powerpc => "ppc",
            KnownArch::Powerpc64 => "ppc64",
            KnownArch::Mips | KnownArch::Mips64 => "mips",
            KnownArch::Sparc | KnownArch::Sparc64 => "sparc",
            KnownArch::S390x => "s390",
            KnownArch::M68k => "m68k",
            KnownArch::LoongArch64 => "loong",
            KnownArch::Alpha => "alpha",
            KnownArch::Hppa => "hppa",
            KnownArch::Ia64 => "ia64",
        }
    }
}

/// What a `lasso::ThreadedRodeo` holds: its strings by key, position `i`
/// holding the string of the `i`-th key it made (the key's
/// `Key::into_usize`).
pub uninterp spec fn rodeo_strings(r: lasso::ThreadedRodeo) -> Seq<Seq<char>>;

/// The strings of an interner once `s` is interned: unchanged when `s` is
/// among them, else with `s` added after the others.
pub open spec fn interned_after(strings: Seq<Seq<char>>, s: Seq<char>) -> Seq<Seq<char>> {
    if strings.contains(s) {
        strings
    } else {
        strings.push(s)
    }
}

/// Calls `lasso::ThreadedRodeo::get_or_intern` and gives the key's position
/// (`Key::into_usize`). Claims what the crate's source shows: a string
/// already held keeps its key; a new one gets the next key, counted from
/// zero; each string is held once. It panics only when keys (fewer than
/// `u32::MAX`) or memory run out, which `requires` leaves out for keys. The
/// interner is taken by `&mut` so that its contents can be followed (lasso
/// itself needs only `&`).
#[verifier::external_body]
fn rodeo_get_or_intern(interner: &mut lasso::ThreadedRodeo, s: &str) -> (r: usize)
    requires
        rodeo_strings(*old(interner)).len() < u32::MAX,
    ensures
        rodeo_strings(*final(interner)) == interned_after(rodeo_strings(*old(interner)), s@),
        r < rodeo_strings(*final(interner)).len(),
        rodeo_strings(*final(interner))[r as int] == s@,
        rodeo_strings(*final(interner)).no_duplicates(),
{
    lasso::Key::into_usize(interner.get_or_intern(s))
}

/// Calls `lasso::ThreadedRodeo::try_resolve` with the key at a position
/// (`Key::try_from_usize`): the string held there, `None` past the last
/// key.
#[verifier::external_body]
fn rodeo_resolve<'a>(interner: &'a lasso::ThreadedRodeo, index: usize) -> (r: Option<&'a str>)
    ensures
        match r {
            Some(t) => index < rodeo_strings(*interner).len() && t@ == rodeo_strings(*interner)[index as int],
            None => index >= rodeo_strings(*interner).len(),
        },
{
    match <lasso::Spur as lasso::Key>::try_from_usize(index) {
        Some(k) => interner.try_resolve(&k),
        None => None,
    }
}

// ───────────────────────────── CHOST ────────────────────────────────────────

/// The number of ASCII digits at the start of `s`.
pub open spec fn digit_run(s: Seq<char>) -> nat
    decreases s.len(),
{
    if s.len() > 0 && '0' <= s[0] && s[0] <= '9' {
        1 + digit_run(s.drop_first())
    } else {
        0
    }
}

/// The normalisation of an already lower-cased CPU field:
/// `powerpc64le`/`powerpc64be` become `powerpc64`, `mipsel`/`mipseb` become
/// `mips`, `mips64el`/`mips64eb` become `mips64`, `riscv` followed by digits
/// and then more keeps only the digits (`riscv64gc` is `riscv64`), and
/// `hppa` followed by anything is `hppa`.
pub open spec fn normalize_lowered_spec(s: Seq<char>) -> Seq<char> {
    if s == "powerpc64le"@ || s == "powerpc64be"@ {
        "powerpc64"@
    } else if s == "mipsel"@ || s == "mipseb"@ {
        "mips"@
    } else if s == "mips64el"@ || s == "mips64eb"@ {
        "mips64"@
    } else if has_prefix(s, "riscv"@) {
        let after = s.skip(5);
        let d = digit_run(after);
        if 0 < d && d < after.len() {
            "riscv"@ + after.take(d as int)
        } else {
            s
        }
    } else if has_prefix(s, "hppa"@) && s.len() > 4 {
        "hppa"@
    } else {
        s
    }
}

/// Normalise a lower-cased CPU field of a CHOST triple.
pub fn normalize_lowered(s: &str) -> (r: String)
    ensures
        r@ == normalize_lowered_spec(s@),
{
    let v = chars_of(s);
    let vs = v.as_slice();
    if eq_str(vs, "powerpc64le") || eq_str(vs, "powerpc64be") {
        return "powerpc64".to_owned();
    }
    if eq_str(vs, "mipsel") || eq_str(vs, "mipseb") {
        return "mips".to_owned();
    }
    if eq_str(vs, "mips64el") || eq_str(vs, "mips64eb") {
        return "mips64".to_owned();
    }
    let riscv = chars_of("riscv");
    let hppa = chars_of("hppa");
    proof {
        reveal_strlit("riscv");
        reveal_strlit("hppa");
    }
    if starts_with(vs, riscv.as_slice()) {
        let ghost after = s@.skip(5);
        let mut i: usize = 5;
        assert(s@.skip(5).skip(0) =~= after);
        while i < v.len() && '0' <= v[i] && v[i] <= '9'
            invariant
                5 <= i <= v@.len(),
                v@ == s@,
                after == s@.skip(5),
                digit_run(after) == (i - 5) + digit_run(s@.skip(i as int)),
            decreases v@.len() - i,
        {
            assert(s@.skip(i as int).drop_first() =~= s@.skip(i + 1));
            i += 1;
        }
        let d = i - 5;
        assert(digit_run(s@.skip(i as int)) == 0);
        if 0 < d && i < v.len() {
            let mut out = chars_of("riscv");
            let digits = crate::text::slice_range(vs, 5, i);
            assert(digits@ =~= after.take(d as int));
            let mut k: usize = 0;
            while k < digits.len()
                invariant
                    k <= digits@.len(),
                    out@ == "riscv"@ + digits@.take(k as int),
                decreases digits@.len() - k,
            {
                out.push(digits[k]);
                k += 1;
                assert(out@ =~= "riscv"@ + digits@.take(k as int));
            }
            assert(digits@.take(k as int) =~= digits@);
            return string_of(out.as_slice());
        }
        return s.to_owned();
    }
    if starts_with(vs, hppa.as_slice()) && v.len() > 4 {
        return "hppa".to_owned();
    }
    s.to_owned()
}

/// Normalise the CPU field of a GNU CHOST triple before matching known
/// architectures: lower-case it, then [`normalize_lowered`].
pub fn normalize_chost_cpu(cpu: &str) -> (r: String)
    ensures
        r@ == normalize_lowered_spec(lowercase(cpu@)),
{
    let s = to_lowercase(cpu);
    normalize_lowered(s.as_str())
}

// ───────────────────────────── architecture tokens ──────────────────────────

/// Opaque token for an overlay-defined architecture keyword: the position of
/// its key in the owning repository's interner.
#[derive(Debug, Clone, Copy, PartialEq, Eq, Hash)]
pub struct ExoticKey(usize);

impl ExoticKey {
    /// The position of the key in the interner.
    pub closed spec fn spec_index(&self) -> usize {
        self.0
    }
}

/// A Gentoo architecture token scoped to a repository's arch list.
#[derive(Debug, Clone, Copy, PartialEq, Eq, Hash)]
pub enum Arch {
    /// A standard Gentoo architecture keyword.
    Known(KnownArch),
    /// An overlay-defined architecture keyword.
    Exotic(ExoticKey),
}

/// The CPU field of a CHOST string (the text before the first `-`),
/// lower-cased and normalised.
pub open spec fn chost_cpu_keyword(chost: Seq<char>) -> Seq<char> {
    normalize_lowered_spec(lowercase(pieces(chost, '-')[0]))
}

/// The known architecture of a CHOST string, if its CPU field, lower-cased
/// and normalised, names one.
pub open spec fn chost_known_arch(chost: Seq<char>) -> Option<KnownArch> {
    known_arch_table(lowercase(chost_cpu_keyword(chost)))
}

/// What interning `keyword` gives and does to the interner's strings
/// (`before`, then `after`): a known architecture leaves them as they were;
/// an unknown keyword is interned, and the token is the position of its key.
pub open spec fn intern_spec(keyword: Seq<char>, before: Seq<Seq<char>>, after: Seq<Seq<char>>, r: Arch) -> bool {
    match known_arch_table(lowercase(keyword)) {
        Some(a) => r == Arch::Known(a) && after == before,
        None => {
            &&& after == interned_after(before, keyword)
            &&& after.no_duplicates()
            &&& r matches Arch::Exotic(k) && k.spec_index() < after.len() && after[k.spec_index() as int]
                == keyword
        },
    }
}

impl Arch {
    /// Parse `keyword` against the known architectures; intern anything
    /// unknown.
    pub fn intern(keyword: &str, interner: &mut lasso::ThreadedRodeo) -> (r: Arch)
        requires
            rodeo_strings(*old(interner)).len() < u32::MAX,
        ensures
            intern_spec(keyword@, rodeo_strings(*old(interner)), rodeo_strings(*final(interner)), r),
    {
        match parse_known_arch(keyword) {
            Some(known) => Arch::Known(known),
            None => Arch::Exotic(ExoticKey(rodeo_get_or_intern(interner, keyword))),
        }
    }

    /// The architecture of a CHOST triple: its CPU field (the text before the
    /// first `-`), normalised, then interned; `None` only when `chost` is
    /// empty.
    pub fn from_chost(chost: &str, interner: &mut lasso::ThreadedRodeo) -> (r: Option<Arch>)
        requires
            rodeo_strings(*old(interner)).len() < u32::MAX,
        ensures
            r is None <==> chost@.len() == 0,
            r is None ==> rodeo_strings(*final(interner)) == rodeo_strings(*old(interner)),
            r matches Some(a) ==> intern_spec(
                chost_cpu_keyword(chost@),
                rodeo_strings(*old(interner)),
                rodeo_strings(*final(interner)),
                a,
            ),
    {
        if chost.is_empty() {
            return None;
        }
        let parts = split_char(chars_of(chost).as_slice(), '-');
        proof {
            crate::text::lemma_pieces_nonempty(chost@, '-');
        }
        let cpu = string_of(parts[0].as_slice());
        let n = normalize_chost_cpu(cpu.as_str());
        Some(Arch::intern(n.as_str(), interner))
    }

    /// The keyword: the canonical one of a known architecture, or the string
    /// interned for an exotic one (`None` when `interner` holds no key at
    /// that position, so the token is not from it).
    pub fn as_keyword<'a>(&self, interner: &'a lasso::ThreadedRodeo) -> (r: Option<&'a str>)
        ensures
            match *self {
                Arch::Known(a) => r matches Some(k) && k@ == arch_keyword(a),
                Arch::Exotic(k) => match r {
                    Some(t) => k.spec_index() < rodeo_strings(*interner).len() && t@ == rodeo_strings(
                        *interner,
                    )[k.spec_index() as int],
                    None => k.spec_index() >= rodeo_strings(*interner).len(),
                },
            },
    {
        match self {
            Arch::Known(a) => Some(a.as_keyword()),
            Arch::Exotic(ExoticKey(k)) => rodeo_resolve(interner, *k),
        }
    }
}

/// Interning a keyword twice gives the same architecture and leaves the
/// interner as the first time left it; for an unknown keyword the token's
/// position holds the keyword, so [`Arch::as_keyword`] gives it back.
pub proof fn lemma_intern_twice(
    keyword: Seq<char>,
    s0: Seq<Seq<char>>,
    s1: Seq<Seq<char>>,
    s2: Seq<Seq<char>>,
    a1: Arch,
    a2: Arch,
)
    requires
        intern_spec(keyword, s0, s1, a1),
        intern_spec(keyword, s1, s2, a2),
    ensures
        a1 == a2,
        s2 == s1,
        a1 matches Arch::Exotic(k) ==> k.spec_index() < s1.len() && s1[k.spec_index() as int] == keyword,
{
    if known_arch_table(lowercase(keyword)) is None {
        assert(s1.contains(keyword));
        assert(s2 == s1);
        let k1 = a1->Exotic_0;
        let k2 = a2->Exotic_0;
        if k1.spec_index() != k2.spec_index() {
            assert(s1[k1.spec_index() as int] == s1[k2.spec_index() as int]);
        }
        assert(k1 == k2);
    }
}

} // verus!
