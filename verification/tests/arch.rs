use lasso::ThreadedRodeo;
use portage_repo::arch::{normalize_chost_cpu, normalize_lowered, Arch};

fn make_interner() -> ThreadedRodeo {
    ThreadedRodeo::default()
}

#[test]
fn known_arches_intern() {
    let mut i = make_interner();
    assert!(matches!(Arch::intern("amd64", &mut i), Arch::Known(_)));
    assert!(matches!(Arch::intern("arm64", &mut i), Arch::Known(_)));
    assert!(matches!(Arch::intern("loong", &mut i), Arch::Known(_)));
    assert!(matches!(Arch::intern("hppa", &mut i), Arch::Known(_)));
}

#[test]
fn exotic_arches_intern() {
    let mut i = make_interner();
    let a1 = Arch::intern("mymachine", &mut i);
    assert!(matches!(a1, Arch::Exotic(_)));
    // Same key on second intern
    let a2 = Arch::intern("mymachine", &mut i);
    assert_eq!(a1, a2);
    // Resolves correctly
    assert_eq!(a1.as_keyword(&i).unwrap(), "mymachine");
}

#[test]
fn chost_known() {
    let mut i = make_interner();
    let cases = [
        ("x86_64-pc-linux-gnu", "amd64"),
        ("aarch64-unknown-linux-gnu", "arm64"),
        ("i686-pc-linux-gnu", "x86"),
        ("powerpc-unknown-linux-gnu", "ppc"),
        ("s390x-linux-gnu", "s390"),
    ];
    for (chost, expected) in cases {
        let arch = Arch::from_chost(chost, &mut i).unwrap();
        assert_eq!(arch.as_keyword(&i).unwrap(), expected, "chost={chost}");
        assert!(matches!(arch, Arch::Known(_)), "chost={chost} should be Known");
    }
}

#[test]
fn chost_normalization() {
    let mut i = make_interner();
    let cases = [
        ("powerpc64le-unknown-linux-gnu", "ppc64"),
        ("riscv64gc-unknown-linux-gnu", "riscv"),
        ("mipsel-unknown-linux-gnu", "mips"),
        ("mips64el-unknown-linux-gnu", "mips"),
        ("hppa2.0w-hp-linux-gnu", "hppa"),
    ];
    for (chost, expected_keyword) in cases {
        let arch = Arch::from_chost(chost, &mut i).unwrap();
        assert_eq!(arch.as_keyword(&i).unwrap(), expected_keyword, "chost={chost}");
    }
}

#[test]
fn empty_chost() {
    let mut i = make_interner();
    assert!(Arch::from_chost("", &mut i).is_none());
}

#[test]
fn normalize_cpu_fields() {
    assert_eq!(normalize_lowered("powerpc64be"), "powerpc64");
    assert_eq!(normalize_lowered("mipseb"), "mips");
    assert_eq!(normalize_lowered("mips64eb"), "mips64");
    assert_eq!(normalize_lowered("riscv32imac"), "riscv32");
    assert_eq!(normalize_lowered("riscv64"), "riscv64");
    assert_eq!(normalize_lowered("riscvgc"), "riscvgc");
    assert_eq!(normalize_lowered("hppa"), "hppa");
    assert_eq!(normalize_lowered("hppa1.1"), "hppa");
    assert_eq!(normalize_lowered("x86_64"), "x86_64");
    assert_eq!(normalize_chost_cpu("X86_64"), "x86_64");
    assert_eq!(normalize_chost_cpu("PowerPC64LE"), "powerpc64");
}

#[test]
fn chost_with_empty_cpu_field_is_exotic() {
    let mut i = make_interner();
    assert!(matches!(Arch::from_chost("-linux-gnu", &mut i), Some(Arch::Exotic(_))));
    assert_eq!(portage_repo::arch::KnownArch::X86_64.as_keyword(), "amd64");
}

#[test]
fn known_arches_leave_the_interner_empty() {
    let mut i = make_interner();
    Arch::intern("amd64", &mut i);
    Arch::from_chost("x86_64-pc-linux-gnu", &mut i);
    assert!(i.is_empty());
    let a = Arch::intern("mymachine", &mut i);
    let b = Arch::intern("othermachine", &mut i);
    assert_eq!(i.len(), 2);
    assert_ne!(a, b);
    assert_eq!(b.as_keyword(&i), Some("othermachine"));
    assert_eq!(a.as_keyword(&make_interner()), None);
}
