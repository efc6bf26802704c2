use portage_repo::pms::{
    contains, contains_flag, die_message, eapi_number_of, eapi_predicate, ebegin_message,
    echo_message, econf_args, econf_probes_help, econf_source_dir, eend_message, emake_command,
    export_functions_script, has, in_iuse, join_with_spaces, phase_funcs_script, phase_to_func,
    resolve_phase_default, use_flag_enabled, use_switch_output, usev_output, usex_output,
    EconfEnv,
};

fn strings(v: &[&str]) -> Vec<String> {
    v.iter().map(|s| s.to_string()).collect()
}

#[test]
fn eapi_predicates_follow_their_ranges() {
    assert!(eapi_predicate("___eapi_has_BDEPEND", 7));
    assert!(!eapi_predicate("___eapi_has_BDEPEND", 6));
    assert!(eapi_predicate("___eapi_has_S_WORKDIR_fallback", 3));
    assert!(!eapi_predicate("___eapi_has_S_WORKDIR_fallback", 4));
    assert!(eapi_predicate("___eapi_bash_4_2", 6));
    assert!(eapi_predicate("___eapi_bash_4_2", 7));
    assert!(!eapi_predicate("___eapi_bash_4_2", 8));
    assert!(eapi_predicate("___eapi_bash_5_0", 8));
    assert!(!eapi_predicate("___eapi_bash_5_0", 9));
    assert!(!eapi_predicate("___eapi_no_such_feature", 8));
}

#[test]
fn eapi_predicate_is_contiguous_on_examples() {
    // has_dohtml holds up to EAPI 6 and never again
    let held: Vec<bool> = (0..10).map(|e| eapi_predicate("___eapi_has_dohtml", e)).collect();
    assert_eq!(held, vec![true, true, true, true, true, true, true, false, false, false]);
}

#[test]
fn eapi_numbers_parse_like_u32() {
    assert_eq!(eapi_number_of("8"), 8);
    assert_eq!(eapi_number_of("+5"), 5);
    assert_eq!(eapi_number_of(""), 0);
    assert_eq!(eapi_number_of("8a"), 0);
    assert_eq!(eapi_number_of("4294967296"), 0);
    assert_eq!(eapi_number_of("4294967295"), 4294967295);
}

#[test]
fn phases_map_to_functions() {
    assert_eq!(phase_to_func("compile"), ("compile".to_string(), "src_compile".to_string()));
    assert_eq!(phase_to_func("nofetch"), ("nofetch".to_string(), "pkg_nofetch".to_string()));
    assert_eq!(phase_to_func("src_test"), ("src_test".to_string(), "src_test".to_string()));
}

#[test]
fn phase_defaults_by_eapi() {
    assert_eq!(resolve_phase_default(8, "src_prepare"), Some("__eapi8_src_prepare"));
    assert_eq!(resolve_phase_default(7, "src_prepare"), Some("__eapi6_src_prepare"));
    assert_eq!(resolve_phase_default(5, "src_prepare"), Some("__eapi2_src_prepare"));
    assert_eq!(resolve_phase_default(4, "src_install"), Some("__eapi4_src_install"));
    assert_eq!(resolve_phase_default(3, "src_install"), None);
    assert_eq!(resolve_phase_default(2, "pkg_setup"), None);
}

#[test]
fn contains_flag_needs_a_boundary() {
    let help = "  --disable-dependency-tracking-fast  speed\n  --enable-static=yes\n";
    assert!(!contains_flag(help, "--disable-dependency-tracking"));
    assert!(contains_flag(help, "--enable-static"));
    assert!(contains_flag("x --with-sysroot", "--with-sysroot"));
    assert!(!contains_flag("--with-sysroot_dir", "--with-sysroot"));
    assert!(contains_flag("--a --a-b --a", "--a"));
    assert!(contains("abc --docdir=DIR", "--docdir"));
    assert!(!contains("abc", "--docdir"));
}

#[test]
fn has_use_and_iuse() {
    let hay = strings(&["a", "bb", "c"]);
    assert!(has("bb", &hay));
    assert!(!has("b", &hay));
    assert!(use_flag_enabled(Some("ssl  gtk\tX"), "gtk"));
    assert!(!use_flag_enabled(Some("ssl gtk"), "gt"));
    assert!(!use_flag_enabled(None, "ssl"));
    assert!(in_iuse("+ssl -doc X", "ssl"));
    assert!(in_iuse("+ssl -doc X", "doc"));
    assert!(!in_iuse("+ssl -doc X", "gtk"));
    assert!(in_iuse("+-+x", "x"));
}

#[test]
fn usex_usev_use_enable_outputs() {
    assert_eq!(usex_output(true, None, None, None, None), "yes");
    assert_eq!(usex_output(false, None, None, None, None), "no");
    assert_eq!(usex_output(true, Some("on"), Some("off"), Some("-t"), Some("-f")), "on-t");
    assert_eq!(usex_output(false, Some("on"), Some("off"), Some("-t"), Some("-f")), "off-f");
    assert_eq!(usev_output(true, "ssl", None), Some("ssl".to_string()));
    assert_eq!(usev_output(true, "ssl", Some("openssl")), Some("openssl".to_string()));
    assert_eq!(usev_output(false, "ssl", Some("openssl")), None);
    assert_eq!(use_switch_output(true, "enable", "disable", "ssl", None, None), "--enable-ssl");
    assert_eq!(
        use_switch_output(true, "with", "without", "ssl", Some("openssl"), Some("/usr")),
        "--with-openssl=/usr"
    );
    assert_eq!(
        use_switch_output(false, "with", "without", "ssl", Some("openssl"), Some("/usr")),
        "--without-openssl"
    );
}

#[test]
fn message_lines() {
    let args = strings(&["bad", "thing"]);
    assert_eq!(join_with_spaces(&args), "bad thing");
    assert_eq!(die_message(&args), "die: bad thing");
    assert_eq!(echo_message(&args), " * bad thing");
    assert_eq!(ebegin_message(&args), " * bad thing ...");
    assert_eq!(eend_message(None, &args), (" [ ok ]".to_string(), 0));
    assert_eq!(eend_message(Some(0), &args), (" [ ok ]".to_string(), 0));
    assert_eq!(eend_message(Some(3), &args), (" [ !! ] bad thing".to_string(), 3));
    assert_eq!(die_message(&Vec::new()), "die: ");
}

#[test]
fn export_functions_defines_wrappers() {
    let phases = strings(&["src_unpack", "src_compile"]);
    assert_eq!(
        export_functions_script(Some("foo"), &phases).unwrap(),
        "src_unpack() { foo_src_unpack \"$@\"; }\nsrc_compile() { foo_src_compile \"$@\"; }\n"
    );
    assert_eq!(
        export_functions_script(None, &phases).unwrap_err(),
        "die: EXPORT_FUNCTIONS called outside eclass scope"
    );
    assert_eq!(
        export_functions_script(Some(""), &phases).unwrap_err(),
        "die: EXPORT_FUNCTIONS called outside eclass scope"
    );
}

#[test]
fn phase_funcs_scripts() {
    assert_eq!(
        phase_funcs_script(0, "src_compile", false),
        "declare -F src_compile >/dev/null || src_compile() { __eapi0_src_compile; }\n"
    );
    assert_eq!(
        phase_funcs_script(1, "src_unpack", false),
        "declare -F src_unpack >/dev/null || src_unpack() { __eapi0_src_unpack; }\n"
    );
    assert_eq!(phase_funcs_script(1, "pkg_setup", false), "");
    assert_eq!(
        phase_funcs_script(8, "src_prepare", true),
        "default() { default_src_prepare; }\ndefault_src_prepare() { __eapi8_src_prepare; }\n"
    );
    assert_eq!(
        phase_funcs_script(3, "src_install", false),
        "default() { default_src_install; }\n\
         default_src_install() { die \"default_src_install has no implementation in EAPI 3\"; }\n\
         src_install() { default; }\n"
    );
}

#[test]
fn emake_command_line() {
    let args = strings(&["install", "DESTDIR=/d"]);
    let (prog, argv) = emake_command(None, Some(" -j4  -l2 "), Some("V=1"), &args);
    assert_eq!(prog, "make");
    assert_eq!(argv, strings(&["-j4", "-l2", "V=1", "install", "DESTDIR=/d"]));
    let (prog, argv) = emake_command(Some("gmake"), None, None, &Vec::new());
    assert_eq!(prog, "gmake");
    assert!(argv.is_empty());
}

fn env(eapi: u32) -> EconfEnv {
    EconfEnv {
        eapi,
        eprefix: String::new(),
        pf: "foo-1.0".to_string(),
        chost: "x86_64-pc-linux-gnu".to_string(),
        cbuild: String::new(),
        ctarget: String::new(),
        esysroot: String::new(),
        extra_econf: "--enable-x  --with-y".to_string(),
    }
}

#[test]
fn econf_arguments_by_eapi() {
    let help = "--datarootdir --disable-dependency-tracking --disable-silent-rules \
                --docdir --htmldir --with-sysroot --enable-shared --enable-static";
    let user = strings(&["--foo"]);
    assert_eq!(
        econf_args(&env(8), help, &user),
        strings(&[
            "--prefix=/usr",
            "--host=x86_64-pc-linux-gnu",
            "--mandir=/usr/share/man",
            "--infodir=/usr/share/info",
            "--datadir=/usr/share",
            "--sysconfdir=/etc",
            "--localstatedir=/var/lib",
            "--datarootdir=/usr/share",
            "--disable-dependency-tracking",
            "--disable-silent-rules",
            "--docdir=/usr/share/doc/foo-1.0",
            "--htmldir=/usr/share/doc/foo-1.0/html",
            "--with-sysroot=/",
            "--disable-static",
            "--foo",
            "--enable-x",
            "--with-y",
        ])
    );
    assert_eq!(
        econf_args(&env(3), "", &Vec::new()),
        strings(&[
            "--prefix=/usr",
            "--host=x86_64-pc-linux-gnu",
            "--mandir=/usr/share/man",
            "--infodir=/usr/share/info",
            "--datadir=/usr/share",
            "--sysconfdir=/etc",
            "--localstatedir=/var/lib",
            "--enable-x",
            "--with-y",
        ])
    );
    assert!(econf_probes_help(4));
    assert!(!econf_probes_help(3));
    assert_eq!(econf_source_dir(""), ".");
    assert_eq!(econf_source_dir("/src"), "/src");
}
